//! Decoding of the plan records that the server sends.
//!
//! A record is a JSON object that holds the plan as a text, itself a JSON
//! document, beside the plan's id, the time it was made and, optionally, the
//! statistics of its run as one more such text. The children of an operator
//! come as objects or, each wrapped once more, as texts. A batch of records
//! is decoded as far as it can be: what is wrong with one record does not
//! touch the others.

use crate::json::{
    as_array, as_str, as_u64, field, get, is_null, json_of, jsons_of, lemma_member_is_part, parse,
    parsed_json, Json,
};
use crate::models::execution_plan::{
    short_id, short_id_of, ColumnStatistics, ColumnStatisticsView, ExecutionPlanWithStats,
    ExecutionStats, ExecutionStatsView, MetricValues, MetricView, PlanInfo, PlanInfoView,
    PlanNodeView, SchemaField, SchemaFieldView, Statistics, StatisticsView,
};
use crate::sorting::{
    lemma_insert_index_is, orders_with_ties, stable_sort, stable_sort_is_ordered,
    stable_sort_keeps_the_items, stable_sort_keeps_ties_in_order, tied_with,
};
use vstd::prelude::*;

verus! {

/// What is wrong with a record that could not be decoded.
#[derive(Clone, Copy, Debug, PartialEq, Eq, Structural)]
pub enum RecordError {
    /// The record is no JSON document.
    NotJson,
    /// The record has no text `plan`.
    NoPlan,
    /// The record has no text `id`.
    NoId,
    /// The record has no whole number `created_at`.
    NoCreatedAt,
    /// The text `plan` does not hold a plan.
    BadPlan,
}

impl RecordError {
    /// What the error says to the user.
    pub open spec fn text(self) -> Seq<char> {
        match self {
            RecordError::NotJson => "the record is not valid JSON"@,
            RecordError::NoPlan => "the record has no plan"@,
            RecordError::NoId => "the record has no id"@,
            RecordError::NoCreatedAt => "the record has no creation time"@,
            RecordError::BadPlan => "the plan of the record cannot be read"@,
        }
    }

    /// What the error says to the user.
    pub fn message(&self) -> (out: String)
        ensures
            out@ == self.text(),
    {
        match self {
            RecordError::NotJson => String::from_str("the record is not valid JSON"),
            RecordError::NoPlan => String::from_str("the record has no plan"),
            RecordError::NoId => String::from_str("the record has no id"),
            RecordError::NoCreatedAt => String::from_str("the record has no creation time"),
            RecordError::BadPlan => String::from_str("the plan of the record cannot be read"),
        }
    }
}

/// A record that could not be decoded, by the key it came under.
#[derive(Debug)]
pub struct RecordFailure {
    pub key: String,
    pub error: RecordError,
}

/// The view of `RecordFailure`: its texts as sequences of characters.
pub struct RecordFailureView {
    pub key: Seq<char>,
    pub error: RecordError,
}

impl View for RecordFailure {
    type V = RecordFailureView;

    open spec fn view(&self) -> RecordFailureView {
        RecordFailureView { key: self.key@, error: self.error }
    }
}

impl DeepView for RecordFailure {
    type V = RecordFailureView;

    open spec fn deep_view(&self) -> RecordFailureView {
        self@
    }
}

impl RecordFailureView {
    /// What is told of the failure: the key of the record and what is wrong
    /// with it.
    pub open spec fn text(self) -> Seq<char> {
        self.key + ": "@ + self.error.text()
    }
}

impl RecordFailure {
    /// What is told of the failure.
    pub fn message(&self) -> (out: String)
        ensures
            out@ == self@.text(),
    {
        let mut out = self.key.clone();
        out.append(": ");
        let what = self.error.message();
        out.append(what.as_str());
        out
    }
}

/// What a batch of records decoded to.
#[derive(Debug)]
pub struct DecodedBatch {
    /// The plans, the newest first.
    pub plans: Vec<PlanInfo>,
    /// The records that were left out, in the order of the batch.
    pub errors: Vec<RecordFailure>,
}

/// A batch of which no record could be decoded.
#[derive(Debug)]
pub struct NothingDecoded {
    /// What was wrong with each record, in the order of the batch.
    pub errors: Vec<RecordFailure>,
}

/// What is told of a batch of which no record could be decoded.
pub open spec fn nothing_decoded_text() -> Seq<char> {
    "no execution plan of the batch could be decoded"@
}

impl NothingDecoded {
    /// What is told of the batch.
    pub fn message(&self) -> (out: String)
        ensures
            out@ == nothing_decoded_text(),
    {
        String::from_str("no execution plan of the batch could be decoded")
    }
}

/// The text that the member `key` of an object holds.
pub open spec fn text_at(json: Json, key: Seq<char>) -> Option<Seq<char>> {
    match field(json, key) {
        Some(Json::Text(text)) => Some(text),
        _ => None,
    }
}

/// The whole number that the member `key` of an object holds.
pub open spec fn number_at(json: Json, key: Seq<char>) -> Option<u64> {
    match field(json, key) {
        Some(Json::Number(Some(n))) => Some(n),
        _ => None,
    }
}

/// A text that may be left out: `Some(None)` where the object has no member
/// `key` or has `null` there, `Some(Some(text))` where it has a text, and
/// `None` where it has anything else.
pub open spec fn optional_text_at(json: Json, key: Seq<char>) -> Option<Option<Seq<char>>> {
    match field(json, key) {
        None => Some(None),
        Some(Json::Null) => Some(None),
        Some(Json::Text(text)) => Some(Some(text)),
        Some(_) => None,
    }
}

/// The member `key` of an object or, where it has none, the member `other`:
/// a member that goes by two names.
pub open spec fn field_of_either(json: Json, key: Seq<char>, other: Seq<char>) -> Option<Json> {
    match field(json, key) {
        Some(found) => Some(found),
        None => field(json, other),
    }
}

/// A text that may be left out and goes by two names; see
/// `optional_text_at`.
pub open spec fn optional_text_at_either(json: Json, key: Seq<char>, other: Seq<char>) -> Option<
    Option<Seq<char>>,
> {
    if field(json, key) is Some {
        optional_text_at(json, key)
    } else {
        optional_text_at(json, other)
    }
}

/// Whether every item is there.
pub open spec fn all_some<T>(items: Seq<Option<T>>) -> bool {
    forall|i: int| 0 <= i < items.len() ==> (#[trigger] items[i]) is Some
}

/// The items that are there, in their order.
pub open spec fn somes<T>(items: Seq<Option<T>>) -> Seq<T>
    decreases items.len(),
{
    if items.len() == 0 {
        Seq::empty()
    } else {
        match items.last() {
            Some(item) => somes(items.drop_last()).push(item),
            None => somes(items.drop_last()),
        }
    }
}

/// The items, where every one of them is there.
pub open spec fn every<T>(items: Seq<Option<T>>) -> Option<Seq<T>> {
    if all_some(items) {
        Some(items.map_values(|item: Option<T>| item->0))
    } else {
        None
    }
}

/// A column of a schema: an object with the texts `name` and `data_type`.
pub open spec fn schema_field_of(json: Json) -> Option<SchemaFieldView> {
    match (text_at(json, "name"@), text_at(json, "data_type"@)) {
        (Some(name), Some(data_type)) => Some(SchemaFieldView { name, data_type }),
        _ => None,
    }
}

/// A schema: an array of columns.
pub open spec fn schema_of(json: Json) -> Option<Seq<SchemaFieldView>> {
    match json {
        Json::Array(items) => every(items.map_values(|item: Json| schema_field_of(item))),
        _ => None,
    }
}

/// A metric: an object with the texts `name` and `value`.
pub open spec fn metric_of(json: Json) -> Option<MetricView> {
    match (text_at(json, "name"@), text_at(json, "value"@)) {
        (Some(name), Some(value)) => Some(MetricView { name, value }),
        _ => None,
    }
}

/// The metrics of an operator: an array of metrics.
pub open spec fn metrics_of(json: Json) -> Option<Seq<MetricView>> {
    match json {
        Json::Array(items) => every(items.map_values(|item: Json| metric_of(item))),
        _ => None,
    }
}

/// The statistics of a column: an object with the text `name` and, each of
/// them optional, the texts `null`, `max`, `min`, `sum` and `distinct_count`,
/// the last of which may go by `distinct`.
pub open spec fn column_of(json: Json) -> Option<ColumnStatisticsView> {
    match (
        text_at(json, "name"@),
        optional_text_at(json, "null"@),
        optional_text_at(json, "max"@),
        optional_text_at(json, "min"@),
        optional_text_at(json, "sum"@),
        optional_text_at_either(json, "distinct_count"@, "distinct"@),
    ) {
        (Some(name), Some(null), Some(max), Some(min), Some(sum), Some(distinct_count)) => Some(
            ColumnStatisticsView { name, null, max, min, sum, distinct_count },
        ),
        _ => None,
    }
}

/// The statistics of an operator: an object with the optional texts
/// `num_rows` and `total_byte_size` and the array `column_statistics`, which
/// may go by `columns`.
pub open spec fn statistics_of(json: Json) -> Option<StatisticsView> {
    match (
        optional_text_at(json, "num_rows"@),
        optional_text_at(json, "total_byte_size"@),
        field_of_either(json, "column_statistics"@, "columns"@),
    ) {
        (Some(num_rows), Some(total_byte_size), Some(Json::Array(items))) => match every(
            items.map_values(|item: Json| column_of(item)),
        ) {
            Some(column_statistics) => Some(
                StatisticsView { num_rows, total_byte_size, column_statistics },
            ),
            None => None,
        },
        _ => None,
    }
}

/// The statistics that an operator carries: none where it has no member
/// `statistics` or has `null` there. The outer `None` says that the member
/// is there and is no statistics.
pub open spec fn optional_statistics_at(json: Json) -> Option<Option<StatisticsView>> {
    match field(json, "statistics"@) {
        None => Some(None),
        Some(Json::Null) => Some(None),
        Some(inner) => match statistics_of(inner) {
            Some(statistics) => Some(Some(statistics)),
            None => None,
        },
    }
}

/// An operator: an object with the text `name`, the arrays `schema`,
/// `metrics` and `children` and, optionally, `statistics`. A child that is
/// no operator is left out; the operator itself stands.
///
/// `limit` bounds the texts that are unwrapped below this operator: see
/// `child_of`.
pub open spec fn node_of(json: Json, limit: nat) -> Option<PlanNodeView>
    decreases limit, json, 0nat,
{
    match (
        text_at(json, "name"@),
        field(json, "schema"@),
        optional_statistics_at(json),
        field(json, "metrics"@),
        field(json, "children"@),
    ) {
        (
            Some(name),
            Some(schema_json),
            Some(statistics),
            Some(metrics_json),
            Some(Json::Array(items)),
        ) => match (schema_of(schema_json), metrics_of(metrics_json)) {
            (Some(schema), Some(metrics)) => {
                proof {
                    lemma_member_is_part(json->Object_0, "children"@);
                }
                Some(
                    PlanNodeView {
                        name,
                        schema,
                        statistics,
                        metrics,
                        children: somes(children_of(items, limit)),
                    },
                )
            },
            _ => None,
        },
        _ => None,
    }
}

/// What each child of an operator decodes to.
pub open spec fn children_of(items: Seq<Json>, limit: nat) -> Seq<Option<PlanNodeView>>
    decreases limit, items, 0nat,
{
    Seq::new(
        items.len(),
        |i: int|
            if 0 <= i < items.len() {
                child_of(items[i], limit)
            } else {
                None
            },
    )
}

/// A child of an operator: an operator as it stands, or a text that holds
/// one as a JSON document of its own. Such a text is unwrapped where it is
/// shorter than `limit`, and `limit` is the length of the text that the child
/// was read from: a text within a document is shorter than the document, so
/// the bound lets every nesting through and still ends the unwrapping.
pub open spec fn child_of(json: Json, limit: nat) -> Option<PlanNodeView>
    decreases limit, json, 1nat,
{
    match json {
        Json::Text(text) => if text.len() < limit {
            match parsed_json(text) {
                Some(inner) => node_of(inner, text.len()),
                None => None,
            }
        } else {
            None
        },
        _ => node_of(json, limit),
    }
}

/// Whether the children of an operator that come as texts are all shorter
/// than `limit`, at the operator and at every operator below it that comes
/// as an object.
pub open spec fn texts_fit(json: Json, limit: nat) -> bool
    decreases json, 0nat,
{
    match field(json, "children"@) {
        Some(Json::Array(items)) => {
            proof {
                lemma_member_is_part(json->Object_0, "children"@);
            }
            children_fit(items, limit)
        },
        _ => true,
    }
}

/// Whether `child_fits` holds of every child.
pub open spec fn children_fit(items: Seq<Json>, limit: nat) -> bool
    decreases items, 0nat,
{
    forall|i: int| 0 <= i < items.len() ==> child_fits(#[trigger] items[i], limit)
}

/// Whether a child is a text shorter than `limit`, or an operator of which
/// `texts_fit` holds.
pub open spec fn child_fits(item: Json, limit: nat) -> bool
    decreases item, 1nat,
{
    match item {
        Json::Text(text) => text.len() < limit,
        _ => texts_fit(item, limit),
    }
}

/// The bound decides nothing but where the unwrapping ends: an operator
/// decodes to one tree under every bound that is above the texts that its
/// children come as. A text within a document is shorter than the document,
/// so the length of the document is such a bound.
pub proof fn the_bound_only_ends_the_unwrapping(json: Json, a: nat, b: nat)
    requires
        texts_fit(json, a),
        texts_fit(json, b),
    ensures
        node_of(json, a) == node_of(json, b),
    decreases json, 0nat,
{
    match field(json, "children"@) {
        Some(Json::Array(items)) => {
            lemma_member_is_part(json->Object_0, "children"@);
            assert forall|i: int| 0 <= i < items.len() implies child_of(items[i], a) == child_of(
                items[i],
                b,
            ) by {
                assert(child_fits(items[i], a) && child_fits(items[i], b));
                lemma_child_under_two_bounds(items[i], a, b);
            }
            assert(children_of(items, a) =~= children_of(items, b));
        },
        _ => {},
    }
}

/// A child decodes to one tree under every bound that it fits.
proof fn lemma_child_under_two_bounds(item: Json, a: nat, b: nat)
    requires
        child_fits(item, a),
        child_fits(item, b),
    ensures
        child_of(item, a) == child_of(item, b),
    decreases item, 1nat,
{
    match item {
        Json::Text(_) => {},
        _ => {
            the_bound_only_ends_the_unwrapping(item, a, b);
        },
    }
}

/// A child that comes wrapped in a text decodes to the tree that it decodes
/// to where it comes as the object that the text holds: the wrapping makes
/// no difference to the plan. Only one layer is taken off: a text that holds
/// a text is no operator.
pub proof fn a_wrapped_child_is_read_as_its_document(text: Seq<char>, limit: nat)
    requires
        text.len() < limit,
        parsed_json(text) is Some,
        !(parsed_json(text)->0 is Text),
        texts_fit(parsed_json(text)->0, text.len()),
        texts_fit(parsed_json(text)->0, limit),
    ensures
        child_of(Json::Text(text), limit) == child_of(parsed_json(text)->0, limit),
{
    the_bound_only_ends_the_unwrapping(parsed_json(text)->0, text.len(), limit);
}

/// The statistics of a run: an object with the whole numbers
/// `network_traffic_bytes` and `execution_time_ms` and, each of them
/// optional, the texts `display_name` and `flamegraph_svg`. Without a
/// `display_name` the run goes by the start of the plan's id.
pub open spec fn stats_of(json: Json, id: Seq<char>) -> Option<ExecutionStatsView> {
    match (
        optional_text_at(json, "display_name"@),
        optional_text_at(json, "flamegraph_svg"@),
        number_at(json, "network_traffic_bytes"@),
        number_at(json, "execution_time_ms"@),
    ) {
        (
            Some(display_name),
            Some(flamegraph_svg),
            Some(network_traffic_bytes),
            Some(execution_time_ms),
        ) => Some(
            ExecutionStatsView {
                display_name: match display_name {
                    Some(name) => name,
                    None => short_id(id),
                },
                flamegraph_svg,
                network_traffic_bytes,
                execution_time_ms,
            },
        ),
        _ => None,
    }
}

/// The statistics that a record holds in its text `stats`; none where it has
/// no such text or the text holds no statistics.
pub open spec fn record_stats(record: Json, id: Seq<char>) -> Option<ExecutionStatsView> {
    match text_at(record, "stats"@) {
        Some(text) => match parsed_json(text) {
            Some(inner) => stats_of(inner, id),
            None => None,
        },
        None => None,
    }
}

/// The plan that a text holds: the operator that the text's JSON document
/// is, with every operator below it.
pub open spec fn plan_of(text: Seq<char>) -> Option<PlanNodeView> {
    match parsed_json(text) {
        Some(json) => node_of(json, text.len()),
        None => None,
    }
}

/// What a record decodes to: the plan with its id, its time and its run, or
/// the first thing that is wrong with the record.
pub open spec fn record_of(text: Seq<char>) -> Result<PlanInfoView, RecordError> {
    match parsed_json(text) {
        None => Err(RecordError::NotJson),
        Some(record) => match text_at(record, "plan"@) {
            None => Err(RecordError::NoPlan),
            Some(plan_text) => match text_at(record, "id"@) {
                None => Err(RecordError::NoId),
                Some(id) => match number_at(record, "created_at"@) {
                    None => Err(RecordError::NoCreatedAt),
                    Some(created_at) => match plan_of(plan_text) {
                        None => Err(RecordError::BadPlan),
                        Some(plan) => Ok(
                            PlanInfoView { created_at, plan, id, stats: record_stats(record, id) },
                        ),
                    },
                },
            },
        },
    }
}

/// The plan of a record of a batch, where the record decodes.
pub open spec fn decoded_plan(record: (Seq<char>, Seq<char>)) -> Option<PlanInfoView> {
    match record_of(record.1) {
        Ok(plan) => Some(plan),
        Err(_) => None,
    }
}

/// The failure of a record of a batch, where the record does not decode.
pub open spec fn failure(record: (Seq<char>, Seq<char>)) -> Option<RecordFailureView> {
    match record_of(record.1) {
        Ok(_) => None,
        Err(error) => Some(RecordFailureView { key: record.0, error }),
    }
}

/// The plans of the records that decode, in the order of the batch.
pub open spec fn decoded_plans(records: Seq<(Seq<char>, Seq<char>)>) -> Seq<PlanInfoView> {
    somes(records.map_values(|record: (Seq<char>, Seq<char>)| decoded_plan(record)))
}

/// The failures of the records that do not decode, in the order of the
/// batch.
pub open spec fn failures(records: Seq<(Seq<char>, Seq<char>)>) -> Seq<RecordFailureView> {
    somes(records.map_values(|record: (Seq<char>, Seq<char>)| failure(record)))
}

/// The order of a list of plans: a plan that was made later stands first.
pub open spec fn newest_first() -> spec_fn(PlanInfoView, PlanInfoView) -> bool {
    |a: PlanInfoView, b: PlanInfoView| a.created_at > b.created_at
}

/// What a batch decodes to. The plans of the records that decode stand
/// newest first, plans of one time in the order of the batch; the failures
/// stand in the order of the batch. A batch that holds records of which none
/// decodes gives no list.
pub open spec fn batch_of(records: Seq<(Seq<char>, Seq<char>)>) -> Result<
    (Seq<PlanInfoView>, Seq<RecordFailureView>),
    Seq<RecordFailureView>,
> {
    if records.len() > 0 && decoded_plans(records).len() == 0 {
        Err(failures(records))
    } else {
        Ok((stable_sort(decoded_plans(records), newest_first()), failures(records)))
    }
}

/// Every record of a batch is accounted for: it gave a plan or a failure,
/// never both and never neither.
pub proof fn every_record_is_a_plan_or_a_failure(records: Seq<(Seq<char>, Seq<char>)>)
    ensures
        decoded_plans(records).len() + failures(records).len() == records.len(),
    decreases records.len(),
{
    let plans = records.map_values(|record: (Seq<char>, Seq<char>)| decoded_plan(record));
    let fails = records.map_values(|record: (Seq<char>, Seq<char>)| failure(record));
    if records.len() > 0 {
        let front = records.drop_last();
        every_record_is_a_plan_or_a_failure(front);
        assert(plans.drop_last() == front.map_values(
            |record: (Seq<char>, Seq<char>)| decoded_plan(record),
        ));
        assert(fails.drop_last() == front.map_values(
            |record: (Seq<char>, Seq<char>)| failure(record),
        ));
    }
}

/// The plans of a decoded batch are the plans of the records that decode,
/// each as often as it came, and they stand newest first: no plan stands
/// behind one that was made before it. The first plan is a newest one.
pub proof fn a_batch_stands_newest_first(records: Seq<(Seq<char>, Seq<char>)>)
    requires
        batch_of(records) is Ok,
    ensures
        batch_of(records)->Ok_0.0.to_multiset() == decoded_plans(records).to_multiset(),
        batch_of(records)->Ok_0.0.len() == decoded_plans(records).len(),
        batch_of(records)->Ok_0.1 == failures(records),
        forall|i: int, j: int|
            0 <= i < j < batch_of(records)->Ok_0.0.len() ==> (#[trigger] batch_of(
                records,
            )->Ok_0.0[i]).created_at >= (#[trigger] batch_of(records)->Ok_0.0[j]).created_at,
{
    let plans = decoded_plans(records);
    let sorted = stable_sort(plans, newest_first());
    stable_sort_keeps_the_items(plans, newest_first());
    lemma_newest_first_orders();
    stable_sort_is_ordered(plans, newest_first());
    assert forall|i: int, j: int| 0 <= i < j < sorted.len() implies (#[trigger] sorted[i]).created_at
        >= (#[trigger] sorted[j]).created_at by {
        assert(!newest_first()(sorted[j], sorted[i]));
    }
}

/// Plans that were made at one time stand in a decoded batch in the order in
/// which their records came.
pub proof fn plans_of_one_time_keep_their_order(
    records: Seq<(Seq<char>, Seq<char>)>,
    plan: PlanInfoView,
)
    requires
        batch_of(records) is Ok,
    ensures
        tied_with(batch_of(records)->Ok_0.0, plan, newest_first()) == tied_with(
            decoded_plans(records),
            plan,
            newest_first(),
        ),
{
    lemma_newest_first_orders();
    stable_sort_keeps_ties_in_order(decoded_plans(records), plan, newest_first());
}

/// A batch fails as a whole exactly where it holds records and none of them
/// decodes.
pub proof fn a_batch_fails_only_without_a_plan(records: Seq<(Seq<char>, Seq<char>)>)
    ensures
        batch_of(records) is Err <==> records.len() > 0 && failures(records).len()
            == records.len(),
{
    every_record_is_a_plan_or_a_failure(records);
}

/// `newest_first` is an order with ties.
pub proof fn lemma_newest_first_orders()
    ensures
        orders_with_ties(newest_first()),
{
    assert forall|a: PlanInfoView, b: PlanInfoView| #[trigger]
        newest_first()(a, b) implies !newest_first()(b, a) by {}
    let before = newest_first();
    assert forall|a: PlanInfoView, b: PlanInfoView, c: PlanInfoView|
        #![trigger before(a, b), before(a, c)]
        #![trigger before(a, b), before(c, b)]
        before(a, b) implies before(a, c) || before(c, b) by {}
}

/// Reads the text that a member holds; see `text_at`.
fn text_member(value: &serde_json::Value, key: &str) -> (r: Option<String>)
    ensures
        r.deep_view() == text_at(json_of(*value), key@),
{
    match get(value, key) {
        Some(found) => match as_str(found) {
            Some(text) => Some(text.to_owned()),
            None => None,
        },
        None => None,
    }
}

/// Reads the whole number that a member holds; see `number_at`.
fn number_member(value: &serde_json::Value, key: &str) -> (r: Option<u64>)
    ensures
        r == number_at(json_of(*value), key@),
{
    match get(value, key) {
        Some(found) => as_u64(found),
        None => None,
    }
}

/// Reads a text that may be left out; see `optional_text_at`.
fn optional_text_member(value: &serde_json::Value, key: &str) -> (r: Option<Option<String>>)
    ensures
        r.deep_view() == optional_text_at(json_of(*value), key@),
{
    match get(value, key) {
        Some(found) => {
            if is_null(found) {
                Some(None)
            } else {
                match as_str(found) {
                    Some(text) => Some(Some(text.to_owned())),
                    None => None,
                }
            }
        },
        None => Some(None),
    }
}

/// Reads a text that may be left out and goes by two names; see
/// `optional_text_at_either`.
fn optional_text_member_of_either(value: &serde_json::Value, key: &str, other: &str) -> (r: Option<
    Option<String>,
>)
    ensures
        r.deep_view() == optional_text_at_either(json_of(*value), key@, other@),
{
    match get(value, key) {
        Some(_) => optional_text_member(value, key),
        None => optional_text_member(value, other),
    }
}

/// Decodes a column of a schema; see `schema_field_of`.
fn decode_schema_field(value: &serde_json::Value) -> (r: Option<SchemaField>)
    ensures
        r.deep_view() == schema_field_of(json_of(*value)),
{
    let name = text_member(value, "name");
    let data_type = text_member(value, "data_type");
    match (name, data_type) {
        (Some(name), Some(data_type)) => Some(SchemaField { name, data_type }),
        _ => None,
    }
}

/// Decodes a schema; see `schema_of`.
#[verifier::loop_isolation(false)]
fn decode_schema(value: &serde_json::Value) -> (r: Option<Vec<SchemaField>>)
    ensures
        r.deep_view() == schema_of(json_of(*value)),
{
    let items = match as_array(value) {
        Some(items) => items,
        None => {
            return None;
        },
    };
    let ghost decoded = jsons_of(items@).map_values(|item: Json| schema_field_of(item));
    let mut out: Vec<SchemaField> = Vec::new();
    let mut i: usize = 0;
    while i < items.len()
        invariant
            i <= items.len(),
            out.len() == i,
            decoded == jsons_of(items@).map_values(|item: Json| schema_field_of(item)),
            forall|k: int| 0 <= k < i ==> decoded[k] == Some((#[trigger] out[k])@),
        decreases items.len() - i,
    {
        match decode_schema_field(&items[i]) {
            Some(item) => {
                out.push(item);
            },
            None => {
                assert(decoded[i as int] is None);
                return None;
            },
        }
        i += 1;
    }
    assert forall|k: int| 0 <= k < decoded.len() implies (#[trigger] decoded[k]) is Some by {
        assert(decoded[k] == Some(out[k]@));
    }
    assert(out.deep_view() =~= decoded.map_values(|item: Option<SchemaFieldView>| item->0));
    Some(out)
}

/// Decodes a metric; see `metric_of`.
fn decode_metric(value: &serde_json::Value) -> (r: Option<MetricValues>)
    ensures
        r.deep_view() == metric_of(json_of(*value)),
{
    let name = text_member(value, "name");
    let metric_value = text_member(value, "value");
    match (name, metric_value) {
        (Some(name), Some(value)) => Some(MetricValues { name, value }),
        _ => None,
    }
}

/// Decodes the metrics of an operator; see `metrics_of`.
#[verifier::loop_isolation(false)]
fn decode_metrics(value: &serde_json::Value) -> (r: Option<Vec<MetricValues>>)
    ensures
        r.deep_view() == metrics_of(json_of(*value)),
{
    let items = match as_array(value) {
        Some(items) => items,
        None => {
            return None;
        },
    };
    let ghost decoded = jsons_of(items@).map_values(|item: Json| metric_of(item));
    let mut out: Vec<MetricValues> = Vec::new();
    let mut i: usize = 0;
    while i < items.len()
        invariant
            i <= items.len(),
            out.len() == i,
            decoded == jsons_of(items@).map_values(|item: Json| metric_of(item)),
            forall|k: int| 0 <= k < i ==> decoded[k] == Some((#[trigger] out[k])@),
        decreases items.len() - i,
    {
        match decode_metric(&items[i]) {
            Some(item) => {
                out.push(item);
            },
            None => {
                assert(decoded[i as int] is None);
                return None;
            },
        }
        i += 1;
    }
    assert forall|k: int| 0 <= k < decoded.len() implies (#[trigger] decoded[k]) is Some by {
        assert(decoded[k] == Some(out[k]@));
    }
    assert(out.deep_view() =~= decoded.map_values(|item: Option<MetricView>| item->0));
    Some(out)
}

/// Decodes the statistics of a column; see `column_of`.
fn decode_column(value: &serde_json::Value) -> (r: Option<ColumnStatistics>)
    ensures
        r.deep_view() == column_of(json_of(*value)),
{
    let name = text_member(value, "name");
    let null = optional_text_member(value, "null");
    let max = optional_text_member(value, "max");
    let min = optional_text_member(value, "min");
    let sum = optional_text_member(value, "sum");
    let distinct_count = optional_text_member_of_either(value, "distinct_count", "distinct");
    match (name, null, max, min, sum, distinct_count) {
        (Some(name), Some(null), Some(max), Some(min), Some(sum), Some(distinct_count)) => Some(
            ColumnStatistics { name, null, max, min, sum, distinct_count },
        ),
        _ => None,
    }
}

/// Decodes the statistics of an operator; see `statistics_of`.
#[verifier::loop_isolation(false)]
fn decode_statistics(value: &serde_json::Value) -> (r: Option<Statistics>)
    ensures
        r.deep_view() == statistics_of(json_of(*value)),
{
    let num_rows = match optional_text_member(value, "num_rows") {
        Some(text) => text,
        None => {
            return None;
        },
    };
    let total_byte_size = match optional_text_member(value, "total_byte_size") {
        Some(text) => text,
        None => {
            return None;
        },
    };
    let columns = match get(value, "column_statistics") {
        Some(columns) => columns,
        None => match get(value, "columns") {
            Some(columns) => columns,
            None => {
                return None;
            },
        },
    };
    let items = match as_array(columns) {
        Some(items) => items,
        None => {
            return None;
        },
    };
    let ghost decoded = jsons_of(items@).map_values(|item: Json| column_of(item));
    let mut out: Vec<ColumnStatistics> = Vec::new();
    let mut i: usize = 0;
    while i < items.len()
        invariant
            i <= items.len(),
            out.len() == i,
            decoded == jsons_of(items@).map_values(|item: Json| column_of(item)),
            forall|k: int| 0 <= k < i ==> decoded[k] == Some((#[trigger] out[k])@),
        decreases items.len() - i,
    {
        match decode_column(&items[i]) {
            Some(item) => {
                out.push(item);
            },
            None => {
                assert(decoded[i as int] is None);
                return None;
            },
        }
        i += 1;
    }
    assert forall|k: int| 0 <= k < decoded.len() implies (#[trigger] decoded[k]) is Some by {
        assert(decoded[k] == Some(out[k]@));
    }
    assert(out.deep_view() =~= decoded.map_values(|item: Option<ColumnStatisticsView>| item->0));
    Some(Statistics { num_rows, total_byte_size, column_statistics: out })
}

/// Reads the statistics that an operator carries; see
/// `optional_statistics_at`.
fn optional_statistics_member(value: &serde_json::Value) -> (r: Option<Option<Statistics>>)
    ensures
        r.deep_view() == optional_statistics_at(json_of(*value)),
{
    match get(value, "statistics") {
        Some(found) => {
            if is_null(found) {
                Some(None)
            } else {
                match decode_statistics(found) {
                    Some(statistics) => Some(Some(statistics)),
                    None => None,
                }
            }
        },
        None => Some(None),
    }
}

/// Decodes an operator from a parsed document; see `node_of`.
#[verifier::loop_isolation(false)]
pub fn decode_node(value: &serde_json::Value, limit: usize) -> (r: Option<ExecutionPlanWithStats>)
    ensures
        r.deep_view() == node_of(json_of(*value), limit as nat),
    decreases limit, json_of(*value), 0nat,
{
    let name = match text_member(value, "name") {
        Some(name) => name,
        None => {
            return None;
        },
    };
    let schema_value = match get(value, "schema") {
        Some(found) => found,
        None => {
            return None;
        },
    };
    let statistics = match optional_statistics_member(value) {
        Some(statistics) => statistics,
        None => {
            return None;
        },
    };
    let metrics_value = match get(value, "metrics") {
        Some(found) => found,
        None => {
            return None;
        },
    };
    let children_value = match get(value, "children") {
        Some(found) => found,
        None => {
            return None;
        },
    };
    let items = match as_array(children_value) {
        Some(items) => items,
        None => {
            return None;
        },
    };
    let schema = match decode_schema(schema_value) {
        Some(schema) => schema,
        None => {
            return None;
        },
    };
    let metrics = match decode_metrics(metrics_value) {
        Some(metrics) => metrics,
        None => {
            return None;
        },
    };
    let ghost json = json_of(*value);
    let ghost jsons = jsons_of(items@);
    let ghost decoded = children_of(jsons, limit as nat);
    proof {
        lemma_member_is_part(json->Object_0, "children"@);
    }
    let mut children: Vec<ExecutionPlanWithStats> = Vec::new();
    let mut i: usize = 0;
    assert(decoded.take(0) == Seq::<Option<PlanNodeView>>::empty());
    assert(children.deep_view() == Seq::<PlanNodeView>::empty());
    while i < items.len()
        invariant
            i <= items.len(),
            children.deep_view() == somes(decoded.take(i as int)),
        decreases items.len() - i,
    {
        assert(jsons[i as int] == json_of(items[i as int]));
        assert(decreases_to!(json => jsons[i as int]));
        let child = decode_child(&items[i], limit);
        proof {
            let next = decoded.take(i + 1);
            assert(next.drop_last() == decoded.take(i as int));
            assert(next.last() == child.deep_view());
        }
        match child {
            Some(child) => {
                let ghost before = children.deep_view();
                let ghost child_view = child@;
                children.push(child);
                assert(children.deep_view() =~= before.push(child_view));
            },
            None => {},
        }
        i += 1;
    }
    assert(decoded.take(items.len() as int) == decoded);
    let node = ExecutionPlanWithStats { name, schema, statistics, metrics, children };
    assert(node@.children =~= node.children.deep_view());
    Some(node)
}

/// Decodes a child of an operator; see `child_of`.
pub fn decode_child(value: &serde_json::Value, limit: usize) -> (r: Option<ExecutionPlanWithStats>)
    ensures
        r.deep_view() == child_of(json_of(*value), limit as nat),
    decreases limit, json_of(*value), 1nat,
{
    match as_str(value) {
        Some(text) => {
            let length = text.unicode_len();
            if length < limit {
                match parse(text) {
                    Some(inner) => decode_node(&inner, length),
                    None => None,
                }
            } else {
                None
            }
        },
        None => decode_node(value, limit),
    }
}

/// Decodes the statistics of a run from a parsed document; see `stats_of`.
pub fn decode_stats(value: &serde_json::Value, id: &str) -> (r: Option<ExecutionStats>)
    ensures
        r.deep_view() == stats_of(json_of(*value), id@),
{
    let display_name = optional_text_member(value, "display_name");
    let flamegraph_svg = optional_text_member(value, "flamegraph_svg");
    let network_traffic_bytes = number_member(value, "network_traffic_bytes");
    let execution_time_ms = number_member(value, "execution_time_ms");
    match (display_name, flamegraph_svg, network_traffic_bytes, execution_time_ms) {
        (
            Some(display_name),
            Some(flamegraph_svg),
            Some(network_traffic_bytes),
            Some(execution_time_ms),
        ) => {
            let display_name = match display_name {
                Some(name) => name,
                None => short_id_of(id),
            };
            Some(
                ExecutionStats {
                    display_name,
                    flamegraph_svg,
                    network_traffic_bytes,
                    execution_time_ms,
                },
            )
        },
        _ => None,
    }
}

/// Decodes a plan from the text that holds it; see `plan_of`.
pub fn decode_plan(text: &str) -> (r: Option<ExecutionPlanWithStats>)
    ensures
        r.deep_view() == plan_of(text@),
{
    match parse(text) {
        Some(value) => decode_node(&value, text.unicode_len()),
        None => None,
    }
}

/// Reads the statistics of the run from a record; see `record_stats`.
fn decode_record_stats(record: &serde_json::Value, id: &str) -> (r: Option<ExecutionStats>)
    ensures
        r.deep_view() == record_stats(json_of(*record), id@),
{
    match get(record, "stats") {
        Some(found) => match as_str(found) {
            Some(text) => match parse(text) {
                Some(inner) => decode_stats(&inner, id),
                None => None,
            },
            None => None,
        },
        None => None,
    }
}

/// Decodes one record; see `record_of`.
pub fn decode_record(text: &str) -> (r: Result<PlanInfo, RecordError>)
    ensures
        match r {
            Ok(plan) => record_of(text@) == Ok::<PlanInfoView, RecordError>(plan@),
            Err(error) => record_of(text@) == Err::<PlanInfoView, RecordError>(error),
        },
{
    let record = match parse(text) {
        Some(record) => record,
        None => {
            return Err(RecordError::NotJson);
        },
    };
    let plan_text = match get(&record, "plan") {
        Some(found) => match as_str(found) {
            Some(plan_text) => plan_text,
            None => {
                return Err(RecordError::NoPlan);
            },
        },
        None => {
            return Err(RecordError::NoPlan);
        },
    };
    let id = match text_member(&record, "id") {
        Some(id) => id,
        None => {
            return Err(RecordError::NoId);
        },
    };
    let created_at = match number_member(&record, "created_at") {
        Some(created_at) => created_at,
        None => {
            return Err(RecordError::NoCreatedAt);
        },
    };
    let plan = match decode_plan(plan_text) {
        Some(plan) => plan,
        None => {
            return Err(RecordError::BadPlan);
        },
    };
    let stats = decode_record_stats(&record, id.as_str());
    Ok(PlanInfo { created_at, plan, id, stats })
}

/// Decodes a batch of records, each a key and the text of the record; see
/// `batch_of`.
pub fn decode_batch(records: &Vec<(String, String)>) -> (r: Result<DecodedBatch, NothingDecoded>)
    ensures
        match r {
            Ok(batch) => batch_of(records.deep_view()) == Ok::<
                (Seq<PlanInfoView>, Seq<RecordFailureView>),
                Seq<RecordFailureView>,
            >((batch.plans.deep_view(), batch.errors.deep_view())),
            Err(nothing) => batch_of(records.deep_view()) == Err::<
                (Seq<PlanInfoView>, Seq<RecordFailureView>),
                Seq<RecordFailureView>,
            >(nothing.errors.deep_view()),
        },
{
    let ghost texts = records.deep_view();
    let ghost plan_options = texts.map_values(|record: (Seq<char>, Seq<char>)| decoded_plan(record));
    let ghost failure_options = texts.map_values(|record: (Seq<char>, Seq<char>)| failure(record));
    let mut plans: Vec<PlanInfo> = Vec::new();
    let mut errors: Vec<RecordFailure> = Vec::new();
    let mut i: usize = 0;
    assert(plan_options.take(0) == Seq::<Option<PlanInfoView>>::empty());
    assert(failure_options.take(0) == Seq::<Option<RecordFailureView>>::empty());
    assert(plans.deep_view() == Seq::<PlanInfoView>::empty());
    assert(errors.deep_view() == Seq::<RecordFailureView>::empty());
    while i < records.len()
        invariant
            i <= records.len(),
            texts == records.deep_view(),
            plan_options == texts.map_values(
                |record: (Seq<char>, Seq<char>)| decoded_plan(record),
            ),
            failure_options == texts.map_values(|record: (Seq<char>, Seq<char>)| failure(record)),
            plans.deep_view() == stable_sort(somes(plan_options.take(i as int)), newest_first()),
            plans.len() == somes(plan_options.take(i as int)).len(),
            errors.deep_view() == somes(failure_options.take(i as int)),
        decreases records.len() - i,
    {
        let record = &records[i];
        assert(texts[i as int] == record.deep_view());
        proof {
            let next_plans = plan_options.take(i + 1);
            assert(next_plans.drop_last() == plan_options.take(i as int));
            assert(next_plans.last() == decoded_plan(texts[i as int]));
            let next_failures = failure_options.take(i + 1);
            assert(next_failures.drop_last() == failure_options.take(i as int));
            assert(next_failures.last() == failure(texts[i as int]));
        }
        match decode_record(record.1.as_str()) {
            Ok(plan) => {
                let ghost sorted = plans.deep_view();
                let ghost plan_view = plan@;
                let mut k: usize = 0;
                while k < plans.len() && plans[k].created_at >= plan.created_at
                    invariant
                        k <= plans.len(),
                        plans.deep_view() == sorted,
                        plan@ == plan_view,
                        forall|j: int|
                            0 <= j < k ==> !newest_first()(plan_view, #[trigger] sorted[j]),
                    decreases plans.len() - k,
                {
                    assert(sorted[k as int] == plans[k as int]@);
                    k += 1;
                }
                proof {
                    if k < plans.len() {
                        assert(sorted[k as int] == plans[k as int]@);
                    }
                    lemma_insert_index_is(sorted, plan_view, newest_first(), k as int);
                    let so_far = somes(plan_options.take(i as int));
                    assert(so_far.push(plan_view).drop_last() == so_far);
                    assert(so_far.push(plan_view).last() == plan_view);
                }
                plans.insert(k, plan);
                assert(plans.deep_view() =~= sorted.insert(k as int, plan_view));
            },
            Err(error) => {
                let ghost before = errors.deep_view();
                let failed = RecordFailure { key: record.0.clone(), error };
                let ghost failed_view = failed@;
                errors.push(failed);
                assert(errors.deep_view() =~= before.push(failed_view));
            },
        }
        i += 1;
    }
    assert(plan_options.take(records.len() as int) == plan_options);
    assert(failure_options.take(records.len() as int) == failure_options);
    if records.len() > 0 && plans.len() == 0 {
        Err(NothingDecoded { errors })
    } else {
        Ok(DecodedBatch { plans, errors })
    }
}

} // verus!
