//! Notifications: what a toast is, and the board of the toasts on display.

use std::collections::HashMap;
use vstd::prelude::*;

verus! {

/// How long a success or a piece of information stays, in milliseconds.
pub const SHORT_STAY_MS: u64 = 4000;

/// How long an error stays, in milliseconds.
pub const LONG_STAY_MS: u64 = 6000;

/// The kind of a notification.
#[derive(Clone, Copy, Debug, PartialEq, Eq, Structural)]
pub enum ToastType {
    Success,
    Error,
    Info,
}

/// A notification.
#[derive(Debug)]
pub struct Toast {
    /// The UUID of the toast, as a number of 128 bits.
    pub id: u128,
    pub message: String,
    pub toast_type: ToastType,
    /// How long the toast stays, in milliseconds; without it the toast stays
    /// until it is closed.
    pub duration: Option<u64>,
}

/// The view of `Toast`: its texts as sequences of characters.
pub struct ToastView {
    pub id: u128,
    pub message: Seq<char>,
    pub toast_type: ToastType,
    pub duration: Option<u64>,
}

impl View for Toast {
    type V = ToastView;

    open spec fn view(&self) -> ToastView {
        ToastView {
            id: self.id,
            message: self.message@,
            toast_type: self.toast_type,
            duration: self.duration,
        }
    }
}

impl DeepView for Toast {
    type V = ToastView;

    open spec fn deep_view(&self) -> ToastView {
        self@
    }
}

impl Clone for Toast {
    fn clone(&self) -> (out: Self)
        ensures
            out@ == self@,
    {
        Toast {
            id: self.id,
            message: self.message.clone(),
            toast_type: self.toast_type,
            duration: self.duration,
        }
    }
}

/// `uuid::Uuid::new_v4` and `uuid::Uuid::as_u128`: a random UUID as a
/// number. Whatever the number, it carries version 4 and the variant of
/// RFC 9562. The call panics where the system gives no random bytes.
#[verifier::external_body]
fn random_id() -> (id: u128)
    ensures
        is_random_uuid(id),
{
    uuid::Uuid::new_v4().as_u128()
}

/// Whether a number is a UUID of version 4 in the variant of RFC 9562.
pub open spec fn is_random_uuid(id: u128) -> bool {
    (id >> 76) & 0xF == 4 && (id >> 62) & 0x3 == 2
}

impl Toast {
    /// A toast with a random id. Which id it gets is open; it is a UUID of
    /// version 4.
    pub fn new(message: String, toast_type: ToastType, duration: Option<u64>) -> (out: Self)
        ensures
            is_random_uuid(out.id),
            out.message@ == message@,
            out.toast_type == toast_type,
            out.duration == duration,
    {
        Toast::with_id(random_id(), message, toast_type, duration)
    }

    /// A toast with the id `id`.
    pub fn with_id(id: u128, message: String, toast_type: ToastType, duration: Option<u64>) -> (out:
        Self)
        ensures
            out.id == id,
            out.message@ == message@,
            out.toast_type == toast_type,
            out.duration == duration,
    {
        Toast { id, message, toast_type, duration }
    }

    /// A success, which stays for four seconds.
    pub fn success(message: String) -> (out: Self)
        ensures
            is_random_uuid(out.id),
            out.message@ == message@,
            out.toast_type == ToastType::Success,
            out.duration == Some(SHORT_STAY_MS),
    {
        Toast::new(message, ToastType::Success, Some(SHORT_STAY_MS))
    }

    /// An error, which stays for six seconds.
    pub fn error(message: String) -> (out: Self)
        ensures
            is_random_uuid(out.id),
            out.message@ == message@,
            out.toast_type == ToastType::Error,
            out.duration == Some(LONG_STAY_MS),
    {
        Toast::new(message, ToastType::Error, Some(LONG_STAY_MS))
    }

    /// A piece of information, which stays for four seconds.
    pub fn info(message: String) -> (out: Self)
        ensures
            is_random_uuid(out.id),
            out.message@ == message@,
            out.toast_type == ToastType::Info,
            out.duration == Some(SHORT_STAY_MS),
    {
        Toast::new(message, ToastType::Info, Some(SHORT_STAY_MS))
    }
}

/// What is told where something asked of the server has failed: what was
/// tried, and what went wrong.
pub open spec fn failure_text(what: Seq<char>, error: Seq<char>) -> Seq<char> {
    "Failed to "@ + what + ": "@ + error
}

/// What is told where something asked of the server has failed.
pub fn failure_notice(what: &str, error: &str) -> (out: String)
    ensures
        out@ == failure_text(what@, error@),
{
    let mut out = String::from_str("Failed to ");
    out.append(what);
    out.append(": ");
    out.append(error);
    out
}

/// What is told where the fetching of the execution plans has failed: the
/// server could not be reached, or nothing of its answer could be decoded.
pub open spec fn plans_failure_text(error: Seq<char>) -> Seq<char> {
    failure_text("fetch execution plans"@, error)
}

/// What is told where the fetching of the execution plans has failed.
pub fn plans_failure_notice(error: &str) -> (out: String)
    ensures
        out@ == plans_failure_text(error@),
{
    failure_notice("fetch execution plans", error)
}

/// What is told of a record of execution plans that was left out.
pub open spec fn record_failure_text(error: Seq<char>) -> Seq<char> {
    failure_text("decode execution plan"@, error)
}

/// What is told of a record of execution plans that was left out.
pub fn record_failure_notice(error: &str) -> (out: String)
    ensures
        out@ == record_failure_text(error@),
{
    failure_notice("decode execution plan", error)
}

/// How a toast of a kind looks: the classes of its background, its border
/// and its text, and its icon.
pub struct ToastStyle {
    pub background: &'static str,
    pub border: &'static str,
    pub text: &'static str,
    pub icon: &'static str,
}

impl ToastType {
    /// The colour that the kind is shown in.
    pub open spec fn colour(self) -> Seq<char> {
        match self {
            ToastType::Success => "green"@,
            ToastType::Error => "red"@,
            ToastType::Info => "blue"@,
        }
    }

    /// The looks of a toast of this kind: green with a check mark for a
    /// success, red with a cross for an error, blue with an `i` for
    /// information.
    pub fn style(self) -> (style: ToastStyle)
        ensures
            style.background@ == "bg-"@ + self.colour() + "-50"@,
            style.border@ == "border-"@ + self.colour() + "-100"@,
            style.text@ == "text-"@ + self.colour() + "-700"@,
            style.icon@ == match self {
                ToastType::Success => seq!['\u{2713}'],
                ToastType::Error => seq!['\u{2715}'],
                ToastType::Info => seq!['\u{2139}'],
            },
    {
        proof {
            reveal_strlit("green");
            reveal_strlit("red");
            reveal_strlit("blue");
            reveal_strlit("bg-");
            reveal_strlit("border-");
            reveal_strlit("text-");
            reveal_strlit("-50");
            reveal_strlit("-100");
            reveal_strlit("-700");
            reveal_strlit("bg-green-50");
            reveal_strlit("border-green-100");
            reveal_strlit("text-green-700");
            reveal_strlit("bg-red-50");
            reveal_strlit("border-red-100");
            reveal_strlit("text-red-700");
            reveal_strlit("bg-blue-50");
            reveal_strlit("border-blue-100");
            reveal_strlit("text-blue-700");
            reveal_strlit("\u{2713}");
            reveal_strlit("\u{2715}");
            reveal_strlit("\u{2139}");
        }
        match self {
            ToastType::Success => {
                assert("bg-green-50"@ =~= "bg-"@ + "green"@ + "-50"@);
                assert("border-green-100"@ =~= "border-"@ + "green"@ + "-100"@);
                assert("text-green-700"@ =~= "text-"@ + "green"@ + "-700"@);
                assert("\u{2713}"@ =~= seq!['\u{2713}']);
                ToastStyle {
                    background: "bg-green-50",
                    border: "border-green-100",
                    text: "text-green-700",
                    icon: "\u{2713}",
                }
            },
            ToastType::Error => {
                assert("bg-red-50"@ =~= "bg-"@ + "red"@ + "-50"@);
                assert("border-red-100"@ =~= "border-"@ + "red"@ + "-100"@);
                assert("text-red-700"@ =~= "text-"@ + "red"@ + "-700"@);
                assert("\u{2715}"@ =~= seq!['\u{2715}']);
                ToastStyle {
                    background: "bg-red-50",
                    border: "border-red-100",
                    text: "text-red-700",
                    icon: "\u{2715}",
                }
            },
            ToastType::Info => {
                assert("bg-blue-50"@ =~= "bg-"@ + "blue"@ + "-50"@);
                assert("border-blue-100"@ =~= "border-"@ + "blue"@ + "-100"@);
                assert("text-blue-700"@ =~= "text-"@ + "blue"@ + "-700"@);
                assert("\u{2139}"@ =~= seq!['\u{2139}']);
                ToastStyle {
                    background: "bg-blue-50",
                    border: "border-blue-100",
                    text: "text-blue-700",
                    icon: "\u{2139}",
                }
            },
        }
    }
}

/// When a toast is to be taken down by itself.
#[derive(Clone, Copy, Debug, PartialEq, Eq, Structural)]
pub struct Removal {
    /// The id of the toast.
    pub id: u128,
    /// The milliseconds to wait: the toast's duration, of which a timer keeps
    /// the lower 32 bits.
    pub delay_ms: u32,
}

/// The removal that putting up a toast calls for: none for a toast without a
/// duration.
pub open spec fn removal_of(toast: ToastView) -> Option<Removal> {
    match toast.duration {
        Some(duration) => Some(
            Removal { id: toast.id, delay_ms: (duration % 0x1_0000_0000) as u32 },
        ),
        None => None,
    }
}

/// The view of a toast, as a function.
pub open spec fn toast_view() -> spec_fn(Toast) -> ToastView {
    |toast: Toast| toast@
}

/// The toasts on display, each under its id.
pub struct ToastBoard {
    toasts: HashMap<u128, Toast>,
}

impl View for ToastBoard {
    type V = Map<u128, ToastView>;

    closed spec fn view(&self) -> Map<u128, ToastView> {
        self.toasts@.map_values(toast_view())
    }
}

impl ToastBoard {
    /// Every toast stands under its own id.
    #[verifier::type_invariant]
    closed spec fn well_formed(&self) -> bool {
        forall|id: u128| #[trigger] self.toasts@.contains_key(id) ==> self.toasts@[id].id == id
    }

    /// A board without toasts.
    pub fn new() -> (out: Self)
        ensures
            out@ == Map::<u128, ToastView>::empty(),
    {
        let out = ToastBoard { toasts: HashMap::new() };
        assert(out.toasts@.map_values(toast_view()) =~= Map::<u128, ToastView>::empty());
        out
    }

    /// The toasts on display. Each stands under its own id; in which order
    /// the map hands them out is open.
    pub fn toasts(&self) -> (toasts: &HashMap<u128, Toast>)
        ensures
            toasts@.map_values(toast_view()) == self@,
            forall|id: u128| #[trigger] self@.contains_key(id) ==> self@[id].id == id,
    {
        proof {
            use_type_invariant(self);
        }
        &self.toasts
    }

    /// Puts up a toast under its id, in the place of the toast that stood
    /// there, and says when it is to be taken down again.
    pub fn add(&mut self, toast: Toast) -> (removal: Option<Removal>)
        ensures
            final(self)@ == old(self)@.insert(toast.id, toast@),
            removal == removal_of(toast@),
    {
        broadcast use vstd::std_specs::hash::group_hash_axioms;

        proof {
            use_type_invariant(&*self);
        }
        let removal = match toast.duration {
            Some(duration) => Some(
                Removal { id: toast.id, delay_ms: (duration % 0x1_0000_0000) as u32 },
            ),
            None => None,
        };
        let ghost before = self.toasts@;
        let ghost put = toast;
        let mut toasts: HashMap<u128, Toast> = HashMap::new();
        core::mem::swap(&mut toasts, &mut self.toasts);
        let id = toast.id;
        let _ = toasts.insert(id, toast);
        assert(toasts@ == before.insert(put.id, put));
        assert(toasts@.map_values(toast_view()) =~= before.map_values(toast_view()).insert(
            put.id,
            put@,
        ));
        *self = ToastBoard { toasts };
        removal
    }

    /// Takes down the toast with the id `id`, and says whether there was
    /// one.
    pub fn remove(&mut self, id: u128) -> (found: bool)
        ensures
            final(self)@ == old(self)@.remove(id),
            found == old(self)@.contains_key(id),
    {
        broadcast use vstd::std_specs::hash::group_hash_axioms;

        proof {
            use_type_invariant(&*self);
        }
        let ghost before = self.toasts@;
        let mut toasts: HashMap<u128, Toast> = HashMap::new();
        core::mem::swap(&mut toasts, &mut self.toasts);
        let found = toasts.remove(&id).is_some();
        assert(toasts@ == before.remove(id));
        assert(toasts@.map_values(toast_view()) =~= before.map_values(toast_view()).remove(id));
        *self = ToastBoard { toasts };
        found
    }
}

} // verus!
