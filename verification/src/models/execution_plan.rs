//! Execution plans as the server reports them: a tree of operators, each with
//! its schema, its metrics and its statistics, and how the plan's run went.
//!
//! Every type has a view that holds its texts as sequences of characters. The
//! contracts of the library are stated over these views.

use crate::text::{chars_of, decimal, push_chars, push_decimal};
use crate::utils::{bytes_text, format_bytes};
use vstd::prelude::*;

verus! {

/// How one run of a plan went.
#[derive(Debug)]
pub struct ExecutionStats {
    /// The label under which the plan is listed.
    pub display_name: String,
    /// The flamegraph of the run, an SVG document that is shown and never read.
    pub flamegraph_svg: Option<String>,
    /// The bytes that went over the network.
    pub network_traffic_bytes: u64,
    /// The time that the run took, in milliseconds.
    pub execution_time_ms: u64,
}

/// The view of `ExecutionStats`: its texts as sequences of characters.
pub struct ExecutionStatsView {
    pub display_name: Seq<char>,
    pub flamegraph_svg: Option<Seq<char>>,
    pub network_traffic_bytes: u64,
    pub execution_time_ms: u64,
}

impl View for ExecutionStats {
    type V = ExecutionStatsView;

    open spec fn view(&self) -> ExecutionStatsView {
        ExecutionStatsView {
            display_name: self.display_name@,
            flamegraph_svg: self.flamegraph_svg.deep_view(),
            network_traffic_bytes: self.network_traffic_bytes,
            execution_time_ms: self.execution_time_ms,
        }
    }
}

impl DeepView for ExecutionStats {
    type V = ExecutionStatsView;

    open spec fn deep_view(&self) -> ExecutionStatsView {
        self@
    }
}

/// One column of an operator's output.
#[derive(Debug)]
pub struct SchemaField {
    pub name: String,
    pub data_type: String,
}

/// The view of `SchemaField`: its texts as sequences of characters.
pub struct SchemaFieldView {
    pub name: Seq<char>,
    pub data_type: Seq<char>,
}

impl View for SchemaField {
    type V = SchemaFieldView;

    open spec fn view(&self) -> SchemaFieldView {
        SchemaFieldView { name: self.name@, data_type: self.data_type@ }
    }
}

impl DeepView for SchemaField {
    type V = SchemaFieldView;

    open spec fn deep_view(&self) -> SchemaFieldView {
        self@
    }
}

/// What is known of one column's values. Each figure is a text as the server
/// wrote it, or absent.
#[derive(Debug)]
pub struct ColumnStatistics {
    pub name: String,
    pub null: Option<String>,
    pub max: Option<String>,
    pub min: Option<String>,
    pub sum: Option<String>,
    pub distinct_count: Option<String>,
}

/// The view of `ColumnStatistics`: its texts as sequences of characters.
pub struct ColumnStatisticsView {
    pub name: Seq<char>,
    pub null: Option<Seq<char>>,
    pub max: Option<Seq<char>>,
    pub min: Option<Seq<char>>,
    pub sum: Option<Seq<char>>,
    pub distinct_count: Option<Seq<char>>,
}

impl View for ColumnStatistics {
    type V = ColumnStatisticsView;

    open spec fn view(&self) -> ColumnStatisticsView {
        ColumnStatisticsView {
            name: self.name@,
            null: self.null.deep_view(),
            max: self.max.deep_view(),
            min: self.min.deep_view(),
            sum: self.sum.deep_view(),
            distinct_count: self.distinct_count.deep_view(),
        }
    }
}

impl DeepView for ColumnStatistics {
    type V = ColumnStatisticsView;

    open spec fn deep_view(&self) -> ColumnStatisticsView {
        self@
    }
}

/// What is known of an operator's output.
#[derive(Debug)]
pub struct Statistics {
    pub num_rows: Option<String>,
    pub total_byte_size: Option<String>,
    pub column_statistics: Vec<ColumnStatistics>,
}

/// The view of `Statistics`: its texts as sequences of characters.
pub struct StatisticsView {
    pub num_rows: Option<Seq<char>>,
    pub total_byte_size: Option<Seq<char>>,
    pub column_statistics: Seq<ColumnStatisticsView>,
}

impl View for Statistics {
    type V = StatisticsView;

    open spec fn view(&self) -> StatisticsView {
        StatisticsView {
            num_rows: self.num_rows.deep_view(),
            total_byte_size: self.total_byte_size.deep_view(),
            column_statistics: self.column_statistics.deep_view(),
        }
    }
}

impl DeepView for Statistics {
    type V = StatisticsView;

    open spec fn deep_view(&self) -> StatisticsView {
        self@
    }
}

/// A named measurement of an operator.
#[derive(Debug)]
pub struct MetricValues {
    pub name: String,
    pub value: String,
}

/// The view of `MetricValues`: its texts as sequences of characters.
pub struct MetricView {
    pub name: Seq<char>,
    pub value: Seq<char>,
}

impl View for MetricValues {
    type V = MetricView;

    open spec fn view(&self) -> MetricView {
        MetricView { name: self.name@, value: self.value@ }
    }
}

impl DeepView for MetricValues {
    type V = MetricView;

    open spec fn deep_view(&self) -> MetricView {
        self@
    }
}

/// An operator of a plan with what it reported, and below it the operators
/// that feed it, in the order in which the server lists them. An operator
/// without children is a leaf.
#[derive(Debug)]
pub struct ExecutionPlanWithStats {
    pub name: String,
    pub schema: Vec<SchemaField>,
    pub statistics: Option<Statistics>,
    pub metrics: Vec<MetricValues>,
    pub children: Vec<ExecutionPlanWithStats>,
}

/// The view of `ExecutionPlanWithStats`: its texts as sequences of characters.
pub struct PlanNodeView {
    pub name: Seq<char>,
    pub schema: Seq<SchemaFieldView>,
    pub statistics: Option<StatisticsView>,
    pub metrics: Seq<MetricView>,
    pub children: Seq<PlanNodeView>,
}

/// The view of an operator: its texts as sequences, and the views of its
/// children in their order.
pub open spec fn node_view(node: ExecutionPlanWithStats) -> PlanNodeView
    decreases node,
{
    PlanNodeView {
        name: node.name@,
        schema: node.schema.deep_view(),
        statistics: node.statistics.deep_view(),
        metrics: node.metrics.deep_view(),
        children: Seq::new(
            node.children.len() as nat,
            |i: int|
                if 0 <= i < node.children.len() {
                    node_view(node.children[i])
                } else {
                    arbitrary()
                },
        ),
    }
}

impl View for ExecutionPlanWithStats {
    type V = PlanNodeView;

    open spec fn view(&self) -> PlanNodeView {
        node_view(*self)
    }
}

impl DeepView for ExecutionPlanWithStats {
    type V = PlanNodeView;

    open spec fn deep_view(&self) -> PlanNodeView {
        self@
    }
}

/// A plan as one record of the server holds it.
#[derive(Debug)]
pub struct PlanInfo {
    /// When the plan was made, in seconds since the Unix epoch.
    pub created_at: u64,
    /// The root of the plan.
    pub plan: ExecutionPlanWithStats,
    pub id: String,
    /// How the run went, where the record says so.
    pub stats: Option<ExecutionStats>,
}

/// The view of `PlanInfo`: its texts as sequences of characters.
pub struct PlanInfoView {
    pub created_at: u64,
    pub plan: PlanNodeView,
    pub id: Seq<char>,
    pub stats: Option<ExecutionStatsView>,
}

impl View for PlanInfo {
    type V = PlanInfoView;

    open spec fn view(&self) -> PlanInfoView {
        PlanInfoView {
            created_at: self.created_at,
            plan: self.plan@,
            id: self.id@,
            stats: self.stats.deep_view(),
        }
    }
}

impl DeepView for PlanInfo {
    type V = PlanInfoView;

    open spec fn deep_view(&self) -> PlanInfoView {
        self@
    }
}

/// The statistics of a run together with the plans that ran.
#[derive(Debug)]
pub struct ExecutionStatsWithPlan {
    pub execution_stats: ExecutionStats,
    pub plans: Vec<PlanInfo>,
}

/// The view of `ExecutionStatsWithPlan`: its texts as sequences of characters.
pub struct ExecutionStatsWithPlanView {
    pub execution_stats: ExecutionStatsView,
    pub plans: Seq<PlanInfoView>,
}

impl View for ExecutionStatsWithPlan {
    type V = ExecutionStatsWithPlanView;

    open spec fn view(&self) -> ExecutionStatsWithPlanView {
        ExecutionStatsWithPlanView {
            execution_stats: self.execution_stats@,
            plans: self.plans.deep_view(),
        }
    }
}

impl DeepView for ExecutionStatsWithPlan {
    type V = ExecutionStatsWithPlanView;

    open spec fn deep_view(&self) -> ExecutionStatsWithPlanView {
        self@
    }
}

/// How many characters of a plan's id stand for its name where it has none.
pub const SHORT_ID_LEN: usize = 8;

/// The start of an id that stands for the name of a plan without one.
pub open spec fn short_id(id: Seq<char>) -> Seq<char> {
    if id.len() <= SHORT_ID_LEN {
        id
    } else {
        id.take(SHORT_ID_LEN as int)
    }
}

/// The start of an id that stands for the name of a plan without one.
pub fn short_id_of(id: &str) -> (out: String)
    ensures
        out@ == short_id(id@),
{
    let chars = chars_of(id);
    if chars.len() <= SHORT_ID_LEN {
        id.to_owned()
    } else {
        let mut out = String::new();
        push_chars(&mut out, &chars, 0, SHORT_ID_LEN);
        assert(chars@.subrange(0, SHORT_ID_LEN as int) == chars@.take(SHORT_ID_LEN as int));
        out
    }
}

impl ExecutionStatsView {
    /// The time that the run took, as it is shown.
    pub open spec fn execution_time_text(self) -> Seq<char> {
        decimal(self.execution_time_ms as nat) + seq!['m', 's']
    }

    /// The network traffic of the run, as it is shown.
    pub open spec fn network_traffic_text(self) -> Seq<char> {
        bytes_text(self.network_traffic_bytes as nat)
    }
}

impl ExecutionStats {
    /// The time that the run took, in whole milliseconds.
    pub fn execution_time_text(&self) -> (out: String)
        ensures
            out@ == self@.execution_time_text(),
    {
        let mut out = String::new();
        push_decimal(&mut out, self.execution_time_ms as u128);
        out.push('m');
        out.push('s');
        out
    }

    /// The network traffic of the run, in B, KB, MB or GB.
    pub fn network_traffic_text(&self) -> (out: String)
        ensures
            out@ == self@.network_traffic_text(),
    {
        format_bytes(self.network_traffic_bytes)
    }
}

impl PlanInfoView {
    /// The name that a plan goes by: that of its run, or the start of its id
    /// where nothing is known of its run.
    pub open spec fn display_name(self) -> Seq<char> {
        match self.stats {
            Some(stats) => stats.display_name,
            None => short_id(self.id),
        }
    }
}

impl PlanInfo {
    /// The name that the plan goes by.
    pub fn display_name(&self) -> (out: String)
        ensures
            out@ == self@.display_name(),
    {
        match &self.stats {
            Some(stats) => stats.display_name.clone(),
            None => short_id_of(self.id.as_str()),
        }
    }
}

/// The label of the tab of the plan at `index`: plans are counted from 1.
pub open spec fn tab_label_text(index: nat, id: Seq<char>) -> Seq<char> {
    "Plan "@ + decimal(index + 1) + " (ID: "@ + id + ")"@
}

impl ExecutionStatsWithPlanView {
    /// What stands at the head of a run, line by line; `created` is the time
    /// of day at which the run was made, as the viewer's clock has it.
    pub open spec fn head(self, created: Seq<char>) -> Seq<(Seq<char>, Seq<char>)> {
        seq![
            ("Execution Time"@, self.execution_stats.execution_time_text()),
            ("Network Traffic"@, self.execution_stats.network_traffic_text()),
            ("Plan Count"@, decimal(self.plans.len())),
            ("Created at"@, created),
        ]
    }
}

impl ExecutionStatsWithPlan {
    /// What stands at the head of the run, line by line.
    pub fn head(&self, created: &str) -> (out: Vec<(String, String)>)
        ensures
            out.deep_view() == self@.head(created@),
    {
        let mut count = String::new();
        push_decimal(&mut count, self.plans.len() as u128);
        let mut out: Vec<(String, String)> = Vec::new();
        out.push(("Execution Time".to_owned(), self.execution_stats.execution_time_text()));
        out.push(("Network Traffic".to_owned(), self.execution_stats.network_traffic_text()));
        out.push(("Plan Count".to_owned(), count));
        out.push(("Created at".to_owned(), created.to_owned()));
        assert(out.deep_view() =~= self@.head(created@));
        out
    }

    /// The number of plans of the run.
    pub fn plan_count(&self) -> (count: usize)
        ensures
            count == self@.plans.len(),
    {
        self.plans.len()
    }

    /// Whether the plans get tabs: a single plan needs none.
    pub fn has_tabs(&self) -> (tabs: bool)
        ensures
            tabs == (self@.plans.len() > 1),
    {
        self.plans.len() > 1
    }

    /// When the run was made: the time of its first plan.
    pub fn created_at(&self) -> (at: Option<u64>)
        ensures
            at == (if self@.plans.len() > 0 {
                Some(self@.plans[0].created_at)
            } else {
                None
            }),
    {
        if self.plans.len() > 0 {
            assert(self@.plans[0] == self.plans[0]@);
            Some(self.plans[0].created_at)
        } else {
            None
        }
    }

    /// The plan under the tab `index`; none where there is no such tab.
    pub fn plan_at(&self, index: usize) -> (plan: Option<&PlanInfo>)
        ensures
            match plan {
                Some(plan) => index < self@.plans.len() && plan@ == self@.plans[index as int],
                None => index >= self@.plans.len(),
            },
    {
        if index < self.plans.len() {
            assert(self@.plans[index as int] == self.plans[index as int]@);
            Some(&self.plans[index])
        } else {
            None
        }
    }

    /// The label of the tab `index`.
    pub fn tab_label(&self, index: usize) -> (label: Option<String>)
        ensures
            match label {
                Some(label) => index < self@.plans.len() && label@ == tab_label_text(
                    index as nat,
                    self@.plans[index as int].id,
                ),
                None => index >= self@.plans.len(),
            },
    {
        if index < self.plans.len() {
            assert(self@.plans[index as int] == self.plans[index as int]@);
            let mut label = String::from_str("Plan ");
            push_decimal(&mut label, index as u128 + 1);
            label.append(" (ID: ");
            label.append(self.plans[index].id.as_str());
            label.append(")");
            Some(label)
        } else {
            None
        }
    }
}

/// A figure of a panel: what it is and, where it is known, what it holds.
pub open spec fn figure(label: Seq<char>, value: Option<Seq<char>>) -> (
    Seq<char>,
    Option<Seq<char>>,
) {
    (label, value)
}

/// A figure of a panel.
fn figure_of(label: &str, value: &Option<String>) -> (out: (String, Option<String>))
    ensures
        out.deep_view() == figure(label@, value.deep_view()),
{
    (label.to_owned(), clone_text(value))
}

impl ColumnStatisticsView {
    /// The figures of a column in the order in which they are shown. A
    /// figure that is not known keeps its place.
    pub open spec fn figures(self) -> Seq<(Seq<char>, Option<Seq<char>>)> {
        seq![
            figure("Min: "@, self.min),
            figure("Max: "@, self.max),
            figure("Sum: "@, self.sum),
            figure("Null: "@, self.null),
            figure("Distinct: "@, self.distinct_count),
        ]
    }
}

impl ColumnStatistics {
    /// The figures of the column in the order in which they are shown.
    pub fn figures(&self) -> (out: Vec<(String, Option<String>)>)
        ensures
            out.deep_view() == self@.figures(),
    {
        let mut out: Vec<(String, Option<String>)> = Vec::new();
        out.push(figure_of("Min: ", &self.min));
        out.push(figure_of("Max: ", &self.max));
        out.push(figure_of("Sum: ", &self.sum));
        out.push(figure_of("Null: ", &self.null));
        out.push(figure_of("Distinct: ", &self.distinct_count));
        assert(out.deep_view() =~= self@.figures());
        out
    }
}

impl StatisticsView {
    /// The figures of an operator's output in the order in which they are
    /// shown.
    pub open spec fn figures(self) -> Seq<(Seq<char>, Option<Seq<char>>)> {
        seq![
            figure("Num rows: "@, self.num_rows),
            figure("Total byte size: "@, self.total_byte_size),
        ]
    }
}

impl Statistics {
    /// The figures of the operator's output in the order in which they are
    /// shown.
    pub fn figures(&self) -> (out: Vec<(String, Option<String>)>)
        ensures
            out.deep_view() == self@.figures(),
    {
        let mut out: Vec<(String, Option<String>)> = Vec::new();
        out.push(figure_of("Num rows: ", &self.num_rows));
        out.push(figure_of("Total byte size: ", &self.total_byte_size));
        assert(out.deep_view() =~= self@.figures());
        out
    }
}

/// A copy of a text that may be absent.
pub fn clone_text(text: &Option<String>) -> (out: Option<String>)
    ensures
        out.deep_view() == text.deep_view(),
{
    match text {
        Some(s) => Some(s.clone()),
        None => None,
    }
}

impl Clone for ExecutionStats {
    fn clone(&self) -> (out: Self)
        ensures
            out@ == self@,
    {
        ExecutionStats {
            display_name: self.display_name.clone(),
            flamegraph_svg: clone_text(&self.flamegraph_svg),
            network_traffic_bytes: self.network_traffic_bytes,
            execution_time_ms: self.execution_time_ms,
        }
    }
}

impl Clone for SchemaField {
    fn clone(&self) -> (out: Self)
        ensures
            out@ == self@,
    {
        SchemaField { name: self.name.clone(), data_type: self.data_type.clone() }
    }
}

impl Clone for ColumnStatistics {
    fn clone(&self) -> (out: Self)
        ensures
            out@ == self@,
    {
        ColumnStatistics {
            name: self.name.clone(),
            null: clone_text(&self.null),
            max: clone_text(&self.max),
            min: clone_text(&self.min),
            sum: clone_text(&self.sum),
            distinct_count: clone_text(&self.distinct_count),
        }
    }
}

impl Clone for Statistics {
    fn clone(&self) -> (out: Self)
        ensures
            out@ == self@,
    {
        let mut column_statistics: Vec<ColumnStatistics> = Vec::new();
        let mut i: usize = 0;
        while i < self.column_statistics.len()
            invariant
                i <= self.column_statistics.len(),
                column_statistics.len() == i,
                forall|k: int|
                    0 <= k < i ==> (#[trigger] column_statistics[k])@
                        == self.column_statistics[k]@,
            decreases self.column_statistics.len() - i,
        {
            column_statistics.push(self.column_statistics[i].clone());
            i += 1;
        }
        assert(column_statistics.deep_view() =~= self.column_statistics.deep_view());
        Statistics {
            num_rows: clone_text(&self.num_rows),
            total_byte_size: clone_text(&self.total_byte_size),
            column_statistics,
        }
    }
}

impl Clone for MetricValues {
    fn clone(&self) -> (out: Self)
        ensures
            out@ == self@,
    {
        MetricValues { name: self.name.clone(), value: self.value.clone() }
    }
}

/// A copy of a schema.
pub fn clone_schema(schema: &Vec<SchemaField>) -> (out: Vec<SchemaField>)
    ensures
        out.deep_view() == schema.deep_view(),
{
    let mut out: Vec<SchemaField> = Vec::new();
    let mut i: usize = 0;
    while i < schema.len()
        invariant
            i <= schema.len(),
            out.len() == i,
            forall|k: int| 0 <= k < i ==> (#[trigger] out[k])@ == schema[k]@,
        decreases schema.len() - i,
    {
        out.push(schema[i].clone());
        i += 1;
    }
    assert(out.deep_view() =~= schema.deep_view());
    out
}

/// A copy of a list of metrics.
pub fn clone_metrics(metrics: &Vec<MetricValues>) -> (out: Vec<MetricValues>)
    ensures
        out.deep_view() == metrics.deep_view(),
{
    let mut out: Vec<MetricValues> = Vec::new();
    let mut i: usize = 0;
    while i < metrics.len()
        invariant
            i <= metrics.len(),
            out.len() == i,
            forall|k: int| 0 <= k < i ==> (#[trigger] out[k])@ == metrics[k]@,
        decreases metrics.len() - i,
    {
        out.push(metrics[i].clone());
        i += 1;
    }
    assert(out.deep_view() =~= metrics.deep_view());
    out
}

/// A copy of statistics that may be absent.
pub fn clone_statistics(statistics: &Option<Statistics>) -> (out: Option<Statistics>)
    ensures
        out.deep_view() == statistics.deep_view(),
{
    match statistics {
        Some(s) => Some(s.clone()),
        None => None,
    }
}

impl Clone for ExecutionPlanWithStats {
    fn clone(&self) -> (out: Self)
        ensures
            out@ == self@,
        decreases self,
    {
        let schema = clone_schema(&self.schema);
        let metrics = clone_metrics(&self.metrics);
        let mut children: Vec<ExecutionPlanWithStats> = Vec::new();
        let mut i: usize = 0;
        while i < self.children.len()
            invariant
                i <= self.children.len(),
                children.len() == i,
                forall|k: int| 0 <= k < i ==> (#[trigger] children[k])@ == self.children[k]@,
            decreases self.children.len() - i,
        {
            children.push(self.children[i].clone());
            i += 1;
        }
        let statistics = clone_statistics(&self.statistics);
        let out = ExecutionPlanWithStats {
            name: self.name.clone(),
            schema,
            statistics,
            metrics,
            children,
        };
        assert forall|k: int| 0 <= k < out@.children.len() implies out@.children[k]
            == self@.children[k] by {
            assert(out.children[k]@ == self.children[k]@);
        }
        assert(out@.children =~= self@.children);
        out
    }
}

impl Clone for PlanInfo {
    fn clone(&self) -> (out: Self)
        ensures
            out@ == self@,
    {
        let stats = match &self.stats {
            Some(s) => Some(s.clone()),
            None => None,
        };
        PlanInfo { created_at: self.created_at, plan: self.plan.clone(), id: self.id.clone(), stats }
    }
}

impl Clone for ExecutionStatsWithPlan {
    fn clone(&self) -> (out: Self)
        ensures
            out@ == self@,
    {
        let mut plans: Vec<PlanInfo> = Vec::new();
        let mut i: usize = 0;
        while i < self.plans.len()
            invariant
                i <= self.plans.len(),
                plans.len() == i,
                forall|k: int| 0 <= k < i ==> (#[trigger] plans[k])@ == self.plans[k]@,
            decreases self.plans.len() - i,
        {
            plans.push(self.plans[i].clone());
            i += 1;
        }
        assert(plans.deep_view() =~= self.plans.deep_view());
        ExecutionStatsWithPlan { execution_stats: self.execution_stats.clone(), plans }
    }
}

} // verus!
