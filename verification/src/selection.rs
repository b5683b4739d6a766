//! What the dashboard has selected: the plan on display among the plans that
//! were fetched last, and the panels of an operator that stand open.

use crate::models::execution_plan::{
    ExecutionStatsWithPlan, ExecutionStatsWithPlanView, PlanInfo, PlanInfoView,
};
use crate::search::{first_place, lemma_first_place, lemma_first_place_is};
use crate::text::chars_of;
use vstd::prelude::*;

verus! {

/// Where the dashboard stands.
#[derive(Clone, Copy, Debug, PartialEq, Eq, Structural)]
pub enum Phase {
    /// Nothing was fetched yet.
    NoData,
    /// A list was fetched and nothing of it is selected: the list is empty.
    PlanListLoaded,
    /// A plan of the list is on display.
    PlanSelected,
}

/// Whether `id` is in the list.
pub open spec fn listed(ids: Seq<Seq<char>>, id: Seq<char>) -> bool {
    exists|i: int| 0 <= i < ids.len() && ids[i] == id
}

/// What is selected once the list `ids` has replaced the list before it. A
/// selection that is still in the list stays. Without a selection, or with
/// one that the list no longer has, the first of the list is selected, which
/// is the newest plan; of an empty list nothing is.
pub open spec fn after_refresh(selected: Option<Seq<char>>, ids: Seq<Seq<char>>) -> Option<
    Seq<char>,
> {
    if selected is Some && listed(ids, selected->0) {
        selected
    } else if ids.len() > 0 {
        Some(ids[0])
    } else {
        None
    }
}

/// What is selected once the user has picked `id`: `id` where the list has
/// it, else what was selected before.
pub open spec fn after_pick(selected: Option<Seq<char>>, ids: Seq<Seq<char>>, id: Seq<char>)
    -> Option<Seq<char>> {
    if listed(ids, id) {
        Some(id)
    } else {
        selected
    }
}

/// Where the selected plan is gone from the list that was fetched, or
/// nothing was selected, the first plan of the list is selected: the newest
/// one, as the list stands newest first.
pub proof fn refresh_falls_back_to_the_first(selected: Option<Seq<char>>, ids: Seq<Seq<char>>)
    requires
        ids.len() > 0,
        selected is None || !listed(ids, selected->0),
    ensures
        after_refresh(selected, ids) == Some(ids[0]),
{
}

/// A selection that the fetched list still has is kept.
pub proof fn refresh_keeps_what_is_listed(selected: Seq<char>, ids: Seq<Seq<char>>)
    requires
        listed(ids, selected),
    ensures
        after_refresh(Some(selected), ids) == Some(selected),
{
}

/// After a refresh a plan is selected exactly where the list is not empty,
/// and the selected plan is one of the list.
pub proof fn refresh_selects_from_the_list(selected: Option<Seq<char>>, ids: Seq<Seq<char>>)
    ensures
        after_refresh(selected, ids) is Some <==> ids.len() > 0,
        after_refresh(selected, ids) matches Some(id) ==> listed(ids, id),
{
    if selected is Some && listed(ids, selected->0) {
        let i = choose|i: int| 0 <= i < ids.len() && ids[i] == selected->0;
        assert(ids.len() > 0);
    } else if ids.len() > 0 {
        assert(listed(ids, ids[0]));
    }
}

/// The list of plans by their ids and the id of the one on display.
pub struct Selection {
    loaded: bool,
    ids: Vec<String>,
    selected: Option<String>,
}

impl Selection {
    /// The ids of the list, in its order.
    pub closed spec fn ids(&self) -> Seq<Seq<char>> {
        self.ids.deep_view()
    }

    /// The id that is selected.
    pub closed spec fn selected(&self) -> Option<Seq<char>> {
        self.selected.deep_view()
    }

    /// Whether a list was fetched.
    pub closed spec fn loaded(&self) -> bool {
        self.loaded
    }

    /// Before the first list there is no list and no selection. From then on
    /// an id is selected exactly where the list is not empty, and it is one of
    /// the list.
    #[verifier::type_invariant]
    pub closed spec fn well_formed(&self) -> bool {
        &&& !self.loaded() ==> self.ids().len() == 0
        &&& self.selected() is Some <==> self.ids().len() > 0
        &&& self.selected() is Some ==> listed(self.ids(), self.selected()->0)
    }

    /// The phase that a state is in.
    pub open spec fn phase_of(&self) -> Phase {
        if !self.loaded() {
            Phase::NoData
        } else if self.selected() is Some {
            Phase::PlanSelected
        } else {
            Phase::PlanListLoaded
        }
    }

    /// The state before anything was fetched.
    pub fn new() -> (out: Self)
        ensures
            !out.loaded(),
            out.ids() == Seq::<Seq<char>>::empty(),
            out.selected() is None,
            out.phase_of() == Phase::NoData,
    {
        let out = Selection { loaded: false, ids: Vec::new(), selected: None };
        assert(out.ids.deep_view() =~= Seq::<Seq<char>>::empty());
        out
    }

    /// The phase that the dashboard is in. In every phase an id is selected
    /// exactly where the list is not empty, and it is one of the list; before
    /// the first list the list is empty.
    pub fn phase(&self) -> (phase: Phase)
        ensures
            phase == self.phase_of(),
            self.selected() is Some <==> self.ids().len() > 0,
            self.selected() matches Some(id) ==> listed(self.ids(), id),
            !self.loaded() ==> self.ids().len() == 0,
    {
        proof {
            use_type_invariant(self);
        }
        if !self.loaded {
            Phase::NoData
        } else if self.selected.is_some() {
            Phase::PlanSelected
        } else {
            Phase::PlanListLoaded
        }
    }

    /// The id that is selected.
    pub fn selected_id(&self) -> (id: Option<&String>)
        ensures
            id.deep_view() == self.selected(),
    {
        self.selected.as_ref()
    }

    /// The place of the selected id in the list: that of its first
    /// occurrence.
    pub fn selected_index(&self) -> (index: Option<usize>)
        ensures
            match index {
                Some(i) => self.selected() is Some && first_index(self.ids(), self.selected()->0)
                    == i && i < self.ids().len(),
                None => self.selected() is None,
            },
    {
        proof {
            use_type_invariant(self);
        }
        match &self.selected {
            Some(id) => {
                let i = find(&self.ids, id.as_str());
                proof {
                    lemma_first_index(self.ids(), id@);
                }
                Some(i)
            },
            None => None,
        }
    }

    /// A fetched list replaces the list; see `after_refresh`.
    pub fn refresh(&mut self, ids: Vec<String>)
        ensures
            final(self).loaded(),
            final(self).ids() == ids.deep_view(),
            final(self).selected() == after_refresh(old(self).selected(), ids.deep_view()),
    {
        let keep = match &self.selected {
            Some(id) => {
                proof {
                    lemma_first_index(ids.deep_view(), id@);
                }
                find(&ids, id.as_str()) < ids.len()
            },
            None => false,
        };
        let selected = if keep {
            match &self.selected {
                Some(id) => Some(id.clone()),
                None => None,
            }
        } else if ids.len() > 0 {
            assert(ids.deep_view()[0] == ids[0]@);
            Some(ids[0].clone())
        } else {
            None
        };
        *self = Selection { loaded: true, ids, selected };
    }

    /// The user picks `id`; see `after_pick`. Says whether the list has it.
    pub fn select(&mut self, id: &str) -> (found: bool)
        ensures
            found == listed(old(self).ids(), id@),
            final(self).loaded() == old(self).loaded(),
            final(self).ids() == old(self).ids(),
            final(self).selected() == after_pick(old(self).selected(), old(self).ids(), id@),
    {
        proof {
            use_type_invariant(&*self);
            lemma_first_index(self.ids(), id@);
        }
        if find(&self.ids, id) < self.ids.len() {
            self.selected = Some(id.to_owned());
            true
        } else {
            false
        }
    }
}

/// The place of the first `id` in `ids`, or the length of `ids` where it has
/// none.
pub open spec fn first_index(ids: Seq<Seq<char>>, id: Seq<char>) -> int {
    first_place(ids, is_text(id))
}

/// The condition of being the text `id`.
pub open spec fn is_text(id: Seq<char>) -> spec_fn(Seq<char>) -> bool {
    |other: Seq<char>| other == id
}

/// `first_index` is the place of `id` where the list has it, and there is no
/// `id` before that place.
pub proof fn lemma_first_index(ids: Seq<Seq<char>>, id: Seq<char>)
    ensures
        0 <= first_index(ids, id) <= ids.len(),
        first_index(ids, id) < ids.len() <==> listed(ids, id),
        first_index(ids, id) < ids.len() ==> ids[first_index(ids, id)] == id,
        forall|j: int| 0 <= j < first_index(ids, id) ==> ids[j] != id,
{
    lemma_first_place(ids, is_text(id));
    if listed(ids, id) {
        let i = choose|i: int| 0 <= i < ids.len() && ids[i] == id;
        assert(is_text(id)(ids[i]));
    }
}

/// The place of the first `id` in `ids`, or the length of `ids`.
pub fn find(ids: &Vec<String>, id: &str) -> (index: usize)
    ensures
        index == first_index(ids.deep_view(), id@),
{
    let mut i: usize = 0;
    let ghost all = ids.deep_view();
    while i < ids.len() && !same_text(ids[i].as_str(), id)
        invariant
            i <= ids.len(),
            all == ids.deep_view(),
            forall|j: int| 0 <= j < i ==> (#[trigger] all[j]) != id@,
        decreases ids.len() - i,
    {
        assert(all[i as int] == ids[i as int]@);
        i += 1;
    }
    proof {
        if i < ids.len() {
            assert(all[i as int] == ids[i as int]@);
        }
        lemma_first_place_is(all, is_text(id@), i as int);
    }
    i
}

/// Whether two texts are the same.
pub fn same_text(a: &str, b: &str) -> (same: bool)
    ensures
        same == (a@ == b@),
{
    let left = chars_of(a);
    let right = chars_of(b);
    if left.len() != right.len() {
        return false;
    }
    let mut i: usize = 0;
    while i < left.len()
        invariant
            i <= left.len(),
            left.len() == right.len(),
            left@ == a@,
            right@ == b@,
            forall|j: int| 0 <= j < i ==> left@[j] == right@[j],
        decreases left.len() - i,
    {
        if left[i] != right[i] {
            return false;
        }
        i += 1;
    }
    assert(left@ =~= right@);
    true
}

/// The ids of a list of plans, in its order.
pub open spec fn ids_of(plans: Seq<PlanInfoView>) -> Seq<Seq<char>> {
    plans.map_values(|plan: PlanInfoView| plan.id)
}

/// The names of a list of runs, in its order.
pub open spec fn names_of(runs: Seq<ExecutionStatsWithPlanView>) -> Seq<Seq<char>> {
    runs.map_values(|run: ExecutionStatsWithPlanView| run.execution_stats.display_name)
}

/// The ids of a list of plans, in its order.
pub fn plan_ids(plans: &Vec<PlanInfo>) -> (ids: Vec<String>)
    ensures
        ids.deep_view() == ids_of(plans.deep_view()),
{
    let mut ids: Vec<String> = Vec::new();
    let mut i: usize = 0;
    while i < plans.len()
        invariant
            i <= plans.len(),
            ids.len() == i,
            forall|j: int| 0 <= j < i ==> (#[trigger] ids[j])@ == plans[j].id@,
        decreases plans.len() - i,
    {
        ids.push(plans[i].id.clone());
        i += 1;
    }
    assert(ids.deep_view() =~= ids_of(plans.deep_view()));
    ids
}

/// The names under which a list of runs is offered, in its order.
pub fn display_names(runs: &Vec<ExecutionStatsWithPlan>) -> (names: Vec<String>)
    ensures
        names.deep_view() == names_of(runs.deep_view()),
{
    let mut names: Vec<String> = Vec::new();
    let mut i: usize = 0;
    while i < runs.len()
        invariant
            i <= runs.len(),
            names.len() == i,
            forall|j: int|
                0 <= j < i ==> (#[trigger] names[j])@ == runs[j].execution_stats.display_name@,
        decreases runs.len() - i,
    {
        names.push(runs[i].execution_stats.display_name.clone());
        i += 1;
    }
    assert(names.deep_view() =~= names_of(runs.deep_view()));
    names
}

/// The panels of one operator. Each operator has its own.
#[derive(Clone, Copy, Debug, PartialEq, Eq, Structural)]
pub struct PanelToggles {
    /// Whether the schema is shown.
    pub schema: bool,
    /// Whether the statistics are shown.
    pub statistics: bool,
}

impl PanelToggles {
    /// The panels of an operator that nobody has touched: the schema is
    /// shown, the statistics are not.
    pub fn new() -> (out: Self)
        ensures
            out.schema,
            !out.statistics,
    {
        PanelToggles { schema: true, statistics: false }
    }

    /// Opens the schema where it is closed and closes it where it is open.
    pub fn toggle_schema(&mut self)
        ensures
            final(self).schema == !old(self).schema,
            final(self).statistics == old(self).statistics,
    {
        self.schema = !self.schema;
    }

    /// Opens the statistics where they are closed and closes them where they
    /// are open.
    pub fn toggle_statistics(&mut self)
        ensures
            final(self).statistics == !old(self).statistics,
            final(self).schema == old(self).schema,
    {
        self.statistics = !self.statistics;
    }
}

} // verus!
