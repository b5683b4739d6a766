//! The state of the dashboard's list of plans: the plans that were fetched
//! last, the plan on display, and the panels that stand open.
//!
//! The dashboard hands in what it fetched and what the user did; the board
//! says what is to be shown and what is to be told.

use crate::decode::{
    batch_of, decode_batch, nothing_decoded_text, somes, RecordFailure, RecordFailureView,
};
use crate::models::execution_plan::{
    ExecutionStats, ExecutionStatsView, ExecutionStatsWithPlan, PlanInfo, PlanInfoView,
};
use crate::search::{first_place, lemma_first_place, lemma_first_place_is};
use crate::selection::{
    after_pick, after_refresh, first_index, ids_of, listed, plan_ids, same_text, PanelToggles,
    Phase, Selection,
};
use crate::toast::{
    plans_failure_notice, plans_failure_text, record_failure_notice, record_failure_text,
};
use vstd::prelude::*;

verus! {

/// The panels of an operator that nobody has touched: the schema is shown,
/// the statistics are not.
pub open spec fn untouched() -> PanelToggles {
    PanelToggles { schema: true, statistics: false }
}

/// Which panel a click is on.
#[derive(Clone, Copy, Debug, PartialEq, Eq, Structural)]
pub enum Panel {
    Schema,
    Statistics,
}

/// The panels with one of them opened where it was closed, and closed where
/// it was open.
pub open spec fn flipped(panels: PanelToggles, panel: Panel) -> PanelToggles {
    match panel {
        Panel::Schema => PanelToggles { schema: !panels.schema, statistics: panels.statistics },
        Panel::Statistics => PanelToggles {
            schema: panels.schema,
            statistics: !panels.statistics,
        },
    }
}

/// The panels of one operator: the operator by the id of its plan and its
/// path from the root of the plan, each step the place of a child among its
/// parent's children.
pub struct PanelEntry {
    pub plan: String,
    pub path: Vec<usize>,
    pub toggles: PanelToggles,
}

/// The view of `PanelEntry`: its texts as sequences of characters.
pub struct PanelEntryView {
    pub plan: Seq<char>,
    pub path: Seq<usize>,
    pub toggles: PanelToggles,
}

impl View for PanelEntry {
    type V = PanelEntryView;

    open spec fn view(&self) -> PanelEntryView {
        PanelEntryView { plan: self.plan@, path: self.path@, toggles: self.toggles }
    }
}

impl DeepView for PanelEntry {
    type V = PanelEntryView;

    open spec fn deep_view(&self) -> PanelEntryView {
        self@
    }
}

/// The condition of being the entry of an operator.
pub open spec fn at_node(plan: Seq<char>, path: Seq<usize>) -> spec_fn(PanelEntryView) -> bool {
    |entry: PanelEntryView| entry.plan == plan && entry.path == path
}

/// What the entries say of an operator: what its first entry says, and
/// `untouched` where it has none.
pub open spec fn panels_in(entries: Seq<PanelEntryView>, plan: Seq<char>, path: Seq<usize>)
    -> PanelToggles {
    let place = first_place(entries, at_node(plan, path));
    if place < entries.len() {
        entries[place].toggles
    } else {
        untouched()
    }
}

/// The panels of every operator. An operator that was never touched has its
/// panels as `untouched` says.
pub struct PanelBook {
    entries: Vec<PanelEntry>,
}

/// Whether two paths are the same.
fn same_path(a: &Vec<usize>, b: &Vec<usize>) -> (same: bool)
    ensures
        same == (a@ == b@),
{
    if a.len() != b.len() {
        return false;
    }
    let mut i: usize = 0;
    while i < a.len()
        invariant
            i <= a.len(),
            a.len() == b.len(),
            forall|j: int| 0 <= j < i ==> a@[j] == b@[j],
        decreases a.len() - i,
    {
        if a[i] != b[i] {
            return false;
        }
        i += 1;
    }
    assert(a@ =~= b@);
    true
}

/// A copy of a path.
fn clone_path(path: &Vec<usize>) -> (out: Vec<usize>)
    ensures
        out@ == path@,
{
    let mut out: Vec<usize> = Vec::new();
    let mut i: usize = 0;
    while i < path.len()
        invariant
            i <= path.len(),
            out@ == path@.take(i as int),
        decreases path.len() - i,
    {
        out.push(path[i]);
        assert(path@.take(i + 1) == path@.take(i as int).push(path@[i as int]));
        i += 1;
    }
    assert(path@.take(path.len() as int) == path@);
    out
}

impl PanelBook {
    /// The panels of the operator at `path` of the plan `plan`.
    pub closed spec fn shown(&self, plan: Seq<char>, path: Seq<usize>) -> PanelToggles {
        panels_in(self.entries.deep_view(), plan, path)
    }

    /// A book in which nothing was touched.
    pub fn new() -> (out: Self)
        ensures
            forall|plan: Seq<char>, path: Seq<usize>| #[trigger]
                out.shown(plan, path) == untouched(),
    {
        let out = PanelBook { entries: Vec::new() };
        assert(out.entries.deep_view() =~= Seq::<PanelEntryView>::empty());
        out
    }

    /// The place of the entry of an operator.
    fn place(&self, plan: &str, path: &Vec<usize>) -> (place: usize)
        ensures
            place == first_place(self.entries.deep_view(), at_node(plan@, path@)),
            place <= self.entries.len(),
    {
        let ghost all = self.entries.deep_view();
        let mut i: usize = 0;
        while i < self.entries.len() && !(same_text(self.entries[i].plan.as_str(), plan)
            && same_path(&self.entries[i].path, path))
            invariant
                i <= self.entries.len(),
                all == self.entries.deep_view(),
                forall|j: int| 0 <= j < i ==> !at_node(plan@, path@)(#[trigger] all[j]),
            decreases self.entries.len() - i,
        {
            assert(all[i as int] == self.entries[i as int]@);
            i += 1;
        }
        proof {
            if i < self.entries.len() {
                assert(all[i as int] == self.entries[i as int]@);
            }
            lemma_first_place_is(all, at_node(plan@, path@), i as int);
        }
        i
    }

    /// The panels of the operator at `path` of the plan `plan`.
    pub fn panels(&self, plan: &str, path: &Vec<usize>) -> (panels: PanelToggles)
        ensures
            panels == self.shown(plan@, path@),
    {
        let place = self.place(plan, path);
        if place < self.entries.len() {
            assert(self.entries.deep_view()[place as int] == self.entries[place as int]@);
            self.entries[place].toggles
        } else {
            PanelToggles::new()
        }
    }

    /// A click on a panel of the operator at `path` of the plan `plan`: the
    /// panel opens or closes, and every other panel stays as it is.
    pub fn toggle(&mut self, plan: &str, path: &Vec<usize>, panel: Panel)
        ensures
            forall|other: Seq<char>, at: Seq<usize>| #[trigger]
                final(self).shown(other, at) == (if other == plan@ && at == path@ {
                    flipped(old(self).shown(other, at), panel)
                } else {
                    old(self).shown(other, at)
                }),
    {
        let place = self.place(plan, path);
        let ghost before = self.entries.deep_view();
        let mut toggles = self.panels(plan, path);
        match panel {
            Panel::Schema => {
                toggles.toggle_schema();
            },
            Panel::Statistics => {
                toggles.toggle_statistics();
            },
        }
        let entry = PanelEntry { plan: plan.to_owned(), path: clone_path(path), toggles };
        let ghost entry_view = entry@;
        if place < self.entries.len() {
            self.entries.set(place, entry);
            assert(self.entries.deep_view() =~= before.update(place as int, entry_view));
        } else {
            self.entries.push(entry);
            assert(self.entries.deep_view() =~= before.push(entry_view));
        }
        proof {
            let after = self.entries.deep_view();
            lemma_first_place(before, at_node(plan@, path@));
            assert forall|other: Seq<char>, at: Seq<usize>| #[trigger]
                panels_in(after, other, at) == (if other == plan@ && at == path@ {
                    flipped(panels_in(before, other, at), panel)
                } else {
                    panels_in(before, other, at)
                }) by {
                let hit = at_node(other, at);
                lemma_first_place(before, hit);
                let k = first_place(before, hit);
                if k < before.len() {
                    // The entry that is found keeps its place: no entry before
                    // it has changed its operator.
                    assert forall|j: int| 0 <= j < k implies !hit(#[trigger] after[j]) by {
                        assert(!hit(before[j]));
                    }
                    assert(hit(after[k]));
                    lemma_first_place_is(after, hit, k);
                } else if other == plan@ && at == path@ {
                    assert forall|j: int| 0 <= j < before.len() implies !hit(
                        #[trigger] after[j],
                    ) by {
                        assert(!hit(before[j]));
                    }
                    assert(hit(after[before.len() as int]));
                    lemma_first_place_is(after, hit, before.len() as int);
                } else {
                    assert forall|j: int| 0 <= j < after.len() implies !hit(#[trigger] after[j]) by {
                        if j < before.len() {
                            assert(!hit(before[j]));
                        }
                    }
                    lemma_first_place_is(after, hit, after.len() as int);
                }
            }
        }
    }
}

/// What is told of a list of failures, one notice for each.
pub open spec fn notices_of(failures: Seq<RecordFailureView>) -> Seq<Seq<char>> {
    failures.map_values(|failure: RecordFailureView| record_failure_text(failure.text()))
}

/// What is told of a list of failures.
pub fn notices(failures: &Vec<RecordFailure>) -> (out: Vec<String>)
    ensures
        out.deep_view() == notices_of(failures.deep_view()),
{
    let mut out: Vec<String> = Vec::new();
    let mut i: usize = 0;
    while i < failures.len()
        invariant
            i <= failures.len(),
            out.len() == i,
            forall|j: int|
                0 <= j < i ==> (#[trigger] out[j])@ == record_failure_text(failures[j]@.text()),
        decreases failures.len() - i,
    {
        let what = failures[i].message();
        out.push(record_failure_notice(what.as_str()));
        i += 1;
    }
    assert(out.deep_view() =~= notices_of(failures.deep_view()));
    out
}

/// A plan, where it belongs to the run with the statistics `stats`.
pub open spec fn of_run(stats: ExecutionStatsView) -> spec_fn(PlanInfoView) -> Option<
    PlanInfoView,
> {
    |plan: PlanInfoView|
        if plan.stats == Some(stats) {
            Some(plan)
        } else {
            None
        }
}

/// The plans of a run: the plans of the list that carry the statistics of
/// the run, in the order of the list.
pub open spec fn plans_of_run(plans: Seq<PlanInfoView>, stats: ExecutionStatsView) -> Seq<
    PlanInfoView,
> {
    somes(plans.map_values(of_run(stats)))
}

/// Whether two texts that may be absent are the same.
fn same_optional_text(a: &Option<String>, b: &Option<String>) -> (same: bool)
    ensures
        same == (a.deep_view() == b.deep_view()),
{
    match (a, b) {
        (Some(a), Some(b)) => same_text(a.as_str(), b.as_str()),
        (None, None) => true,
        _ => false,
    }
}

/// Whether two runs went the same.
fn same_stats(a: &ExecutionStats, b: &ExecutionStats) -> (same: bool)
    ensures
        same == (a@ == b@),
{
    same_text(a.display_name.as_str(), b.display_name.as_str()) && same_optional_text(
        &a.flamegraph_svg,
        &b.flamegraph_svg,
    ) && a.network_traffic_bytes == b.network_traffic_bytes && a.execution_time_ms
        == b.execution_time_ms
}

/// The plans that were fetched last, newest first, with the plan on display
/// and the panels of their operators.
pub struct PlanBoard {
    plans: Vec<PlanInfo>,
    selection: Selection,
    panels: PanelBook,
}

impl PlanBoard {
    /// The plans on the board, newest first.
    pub closed spec fn listed_plans(&self) -> Seq<PlanInfoView> {
        self.plans.deep_view()
    }

    /// The id of the plan on display.
    pub closed spec fn selected(&self) -> Option<Seq<char>> {
        self.selection.selected()
    }

    /// Whether a batch was ever taken in.
    pub closed spec fn loaded(&self) -> bool {
        self.selection.loaded()
    }

    /// The panels of the operator at `path` of the plan `plan`.
    pub closed spec fn shown(&self, plan: Seq<char>, path: Seq<usize>) -> PanelToggles {
        self.panels.shown(plan, path)
    }

    /// The selection is one among the ids of the plans on the board.
    #[verifier::type_invariant]
    closed spec fn well_formed(&self) -> bool {
        self.selection.ids() == ids_of(self.plans.deep_view())
    }

    /// The phase that a board is in.
    pub open spec fn phase_of(&self) -> Phase {
        if !self.loaded() {
            Phase::NoData
        } else if self.selected() is Some {
            Phase::PlanSelected
        } else {
            Phase::PlanListLoaded
        }
    }

    /// The board before anything was fetched.
    pub fn new() -> (out: Self)
        ensures
            out.listed_plans() == Seq::<PlanInfoView>::empty(),
            out.selected() is None,
            !out.loaded(),
            forall|plan: Seq<char>, path: Seq<usize>| #[trigger]
                out.shown(plan, path) == untouched(),
    {
        let plans: Vec<PlanInfo> = Vec::new();
        let selection = Selection::new();
        assert(plans.deep_view() =~= Seq::<PlanInfoView>::empty());
        assert(ids_of(plans.deep_view()) =~= Seq::<Seq<char>>::empty());
        PlanBoard { plans, selection, panels: PanelBook::new() }
    }

    /// The phase that the board is in. In every phase a plan is selected
    /// exactly where there are plans, and it is one of them; before the first
    /// batch there are none.
    pub fn phase(&self) -> (phase: Phase)
        ensures
            phase == self.phase_of(),
            self.selected() is Some <==> self.listed_plans().len() > 0,
            self.selected() matches Some(id) ==> listed(ids_of(self.listed_plans()), id),
            !self.loaded() ==> self.listed_plans().len() == 0,
    {
        proof {
            use_type_invariant(self);
        }
        self.selection.phase()
    }

    /// The plans on the board.
    pub fn plans(&self) -> (plans: &Vec<PlanInfo>)
        ensures
            plans.deep_view() == self.listed_plans(),
    {
        &self.plans
    }

    /// The plan on display: the first plan with the selected id.
    pub fn selected_plan(&self) -> (plan: Option<&PlanInfo>)
        ensures
            match plan {
                Some(plan) => self.selected() matches Some(id) && first_index(
                    ids_of(self.listed_plans()),
                    id,
                ) < self.listed_plans().len() && plan@ == self.listed_plans()[first_index(
                    ids_of(self.listed_plans()),
                    id,
                )],
                None => self.selected() is None,
            },
    {
        proof {
            use_type_invariant(self);
        }
        match self.selection.selected_index() {
            Some(index) => {
                assert(self.plans.deep_view()[index as int] == self.plans[index as int]@);
                Some(&self.plans[index])
            },
            None => None,
        }
    }

    /// The run of the plan on display, and the tab of that plan among the
    /// plans of the run: the statistics that the plan carries, with all
    /// plans of the board that carry the same. There is none where no plan
    /// is on display or nothing is known of its run.
    pub fn selected_run(&self) -> (run: Option<(ExecutionStatsWithPlan, usize)>)
        ensures
            match run {
                Some((run, tab)) => {
                    let index = first_index(ids_of(self.listed_plans()), self.selected()->0);
                    &&& self.selected() is Some
                    &&& index < self.listed_plans().len()
                    &&& self.listed_plans()[index].stats == Some(run@.execution_stats)
                    &&& run@.plans == plans_of_run(self.listed_plans(), run@.execution_stats)
                    &&& tab == plans_of_run(
                        self.listed_plans().take(index),
                        run@.execution_stats,
                    ).len()
                    &&& tab < run@.plans.len()
                    &&& run@.plans[tab as int] == self.listed_plans()[index]
                },
                None => self.selected() is Some ==> {
                    let index = first_index(ids_of(self.listed_plans()), self.selected()->0);
                    index < self.listed_plans().len() && self.listed_plans()[index].stats is None
                },
            },
    {
        proof {
            use_type_invariant(self);
        }
        let index = match self.selection.selected_index() {
            Some(index) => index,
            None => {
                return None;
            },
        };
        assert(self.plans.deep_view()[index as int] == self.plans[index as int]@);
        let stats = match &self.plans[index].stats {
            Some(stats) => stats.clone(),
            None => {
                return None;
            },
        };
        let ghost all = self.plans.deep_view();
        let ghost picked = all.map_values(of_run(stats@));
        let mut plans: Vec<PlanInfo> = Vec::new();
        let mut tab: usize = 0;
        let mut i: usize = 0;
        assert(picked.take(0) == Seq::<Option<PlanInfoView>>::empty());
        assert(plans.deep_view() == Seq::<PlanInfoView>::empty());
        while i < self.plans.len()
            invariant
                i <= self.plans.len(),
                index < self.plans.len(),
                all == self.plans.deep_view(),
                picked == all.map_values(of_run(stats@)),
                all[index as int].stats == Some(stats@),
                plans.deep_view() == somes(picked.take(i as int)),
                plans.len() <= i,
                i <= index ==> tab == plans.len(),
                i > index ==> tab == somes(picked.take(index as int)).len() && tab < plans.len()
                    && plans.deep_view()[tab as int] == all[index as int],
            decreases self.plans.len() - i,
        {
            let plan = &self.plans[i];
            assert(all[i as int] == plan@);
            proof {
                let next = picked.take(i + 1);
                assert(next.drop_last() == picked.take(i as int));
                assert(next.last() == picked[i as int]);
            }
            let belongs = match &plan.stats {
                Some(other) => same_stats(other, &stats),
                None => false,
            };
            if belongs {
                let ghost before = plans.deep_view();
                let copy = plan.clone();
                let ghost copy_view = copy@;
                plans.push(copy);
                assert(plans.deep_view() =~= before.push(copy_view));
            }
            i += 1;
            if i <= index {
                tab = plans.len();
            }
        }
        assert(picked.take(self.plans.len() as int) == picked);
        assert(all.take(index as int).map_values(of_run(stats@)) =~= picked.take(index as int));
        Some((ExecutionStatsWithPlan { execution_stats: stats, plans }, tab))
    }

    /// Takes in a fetched batch of records and says what is to be told the
    /// user, each notice as it is to be shown. Where the batch decodes, its
    /// plans replace the plans on the board, the selection follows as
    /// `after_refresh` says, and each record that was left out is told of.
    /// Where nothing of the batch decodes, the fetch has failed: the board
    /// stays as it is, and one notice tells of the failure. The panels stay
    /// as they are either way.
    pub fn receive(&mut self, records: &Vec<(String, String)>) -> (told: Vec<String>)
        ensures
            match batch_of(records.deep_view()) {
                Ok((plans, failures)) => {
                    &&& final(self).listed_plans() == plans
                    &&& final(self).loaded()
                    &&& final(self).selected() == after_refresh(old(self).selected(), ids_of(plans))
                    &&& told.deep_view() == notices_of(failures)
                },
                Err(_) => {
                    &&& final(self).listed_plans() == old(self).listed_plans()
                    &&& final(self).loaded() == old(self).loaded()
                    &&& final(self).selected() == old(self).selected()
                    &&& told.deep_view() == seq![plans_failure_text(nothing_decoded_text())]
                },
            },
            forall|plan: Seq<char>, path: Seq<usize>| #[trigger]
                final(self).shown(plan, path) == old(self).shown(plan, path),
    {
        match decode_batch(records) {
            Ok(batch) => {
                let told = notices(&batch.errors);
                let mut taken = PlanBoard::new();
                core::mem::swap(self, &mut taken);
                let PlanBoard { plans: _, mut selection, panels } = taken;
                selection.refresh(plan_ids(&batch.plans));
                *self = PlanBoard { plans: batch.plans, selection, panels };
                told
            },
            Err(nothing) => {
                let mut told: Vec<String> = Vec::new();
                let what = nothing.message();
                told.push(plans_failure_notice(what.as_str()));
                assert(told.deep_view() =~= seq![plans_failure_text(nothing_decoded_text())]);
                told
            },
        }
    }

    /// The user picks the plan `id`; see `after_pick`. Says whether the board
    /// has such a plan.
    pub fn select(&mut self, id: &str) -> (found: bool)
        ensures
            found == listed(ids_of(old(self).listed_plans()), id@),
            final(self).listed_plans() == old(self).listed_plans(),
            final(self).loaded() == old(self).loaded(),
            final(self).selected() == after_pick(
                old(self).selected(),
                ids_of(old(self).listed_plans()),
                id@,
            ),
            forall|plan: Seq<char>, path: Seq<usize>| #[trigger]
                final(self).shown(plan, path) == old(self).shown(plan, path),
    {
        proof {
            use_type_invariant(&*self);
        }
        let mut taken = PlanBoard::new();
        core::mem::swap(self, &mut taken);
        let PlanBoard { plans, mut selection, panels } = taken;
        let found = selection.select(id);
        *self = PlanBoard { plans, selection, panels };
        found
    }

    /// The panels of the operator at `path` of the plan `plan`.
    pub fn panels(&self, plan: &str, path: &Vec<usize>) -> (panels: PanelToggles)
        ensures
            panels == self.shown(plan@, path@),
    {
        self.panels.panels(plan, path)
    }

    /// A click on a panel of an operator: the panel opens or closes. The
    /// panels of every other operator, the plans and the selection stay as
    /// they are.
    pub fn toggle(&mut self, plan: &str, path: &Vec<usize>, panel: Panel)
        ensures
            final(self).listed_plans() == old(self).listed_plans(),
            final(self).loaded() == old(self).loaded(),
            final(self).selected() == old(self).selected(),
            forall|other: Seq<char>, at: Seq<usize>| #[trigger]
                final(self).shown(other, at) == (if other == plan@ && at == path@ {
                    flipped(old(self).shown(other, at), panel)
                } else {
                    old(self).shown(other, at)
                }),
    {
        proof {
            use_type_invariant(&*self);
        }
        let mut taken = PlanBoard::new();
        core::mem::swap(self, &mut taken);
        let PlanBoard { plans, selection, mut panels } = taken;
        panels.toggle(plan, path, panel);
        *self = PlanBoard { plans, selection, panels };
    }
}

} // verus!
