//! How an operator's metrics are shown: each value in the form that its name
//! calls for, the metrics in the order of their names.

use crate::models::execution_plan::{MetricValues, MetricView};
use crate::sorting::{
    lemma_insert_index_is, orders_with_ties, stable_sort, stable_sort_is_ordered,
    stable_sort_keeps_the_items, stable_sort_keeps_ties_in_order, tied_with,
};
use crate::text::{
    chars_of, contains, contains_chars, decimal_reading, parse_u64_chars, parse_u64_text,
    text_lt, text_lt_chars, text_lt_is_one_way, text_lt_leaves_no_gap,
};
use crate::utils::{
    bytes_text, duration_text, format_bytes, format_duration, format_number, number_text,
    without_ns,
};
use vstd::prelude::*;

verus! {

/// What a metric's value is read as.
#[derive(Clone, Copy, Debug, PartialEq, Eq, Structural)]
pub enum MetricKind {
    /// A duration: the name holds `time` or `elapsed`.
    Duration,
    /// A byte count: the name holds `bytes`.
    Bytes,
    /// A row count: the name holds `rows`.
    Rows,
    /// A text that is shown as it is.
    Plain,
}

/// The kind that a metric's name calls for. Where a name holds several of the
/// words, a duration goes before a byte count and that before a row count.
pub open spec fn kind_of_name(name: Seq<char>) -> MetricKind {
    if contains(name, seq!['t', 'i', 'm', 'e']) || contains(
        name,
        seq!['e', 'l', 'a', 'p', 's', 'e', 'd'],
    ) {
        MetricKind::Duration
    } else if contains(name, seq!['b', 'y', 't', 'e', 's']) {
        MetricKind::Bytes
    } else if contains(name, seq!['r', 'o', 'w', 's']) {
        MetricKind::Rows
    } else {
        MetricKind::Plain
    }
}

/// A byte count given as text, in B, KB, MB or GB; the text itself where it
/// holds no byte count.
pub open spec fn byte_count_text(value: Seq<char>) -> Seq<char> {
    match parse_u64_text(value) {
        Some(bytes) => bytes_text(bytes as nat),
        None => value,
    }
}

/// A value in the form of its kind. A value that does not read as what its
/// kind calls for is shown as it is.
pub open spec fn value_text(kind: MetricKind, value: Seq<char>) -> Seq<char> {
    match kind {
        MetricKind::Duration => duration_text(value),
        MetricKind::Bytes => byte_count_text(value),
        MetricKind::Rows => number_text(value),
        MetricKind::Plain => value,
    }
}

/// A value that holds no number is shown as it is, whatever its kind: no
/// formatter makes anything of a text that it cannot read.
pub proof fn what_is_no_number_is_shown_as_it_is(kind: MetricKind, value: Seq<char>)
    requires
        parse_u64_text(value) is None,
        parse_u64_text(without_ns(value)) is None,
        decimal_reading(without_ns(value)) is NoNumber,
    ensures
        value_text(kind, value) == value,
{
}

/// What is shown for the metric `name` with the value `value`.
pub open spec fn metric_text(name: Seq<char>, value: Seq<char>) -> Seq<char> {
    value_text(kind_of_name(name), value)
}

/// A metric as it is shown: its name and its formatted value.
pub open spec fn shown(metric: MetricView) -> (Seq<char>, Seq<char>) {
    (metric.name, metric_text(metric.name, metric.value))
}

/// The order of shown metrics: by name, as Rust orders strings.
pub open spec fn by_name() -> spec_fn((Seq<char>, Seq<char>), (Seq<char>, Seq<char>)) -> bool {
    |a: (Seq<char>, Seq<char>), b: (Seq<char>, Seq<char>)| text_lt(a.0, b.0)
}

/// The metrics as they are shown: each formatted, sorted by name, metrics of
/// one name in the order in which the server listed them.
pub open spec fn shown_metrics(metrics: Seq<MetricView>) -> Seq<(Seq<char>, Seq<char>)> {
    stable_sort(metrics.map_values(|m: MetricView| shown(m)), by_name())
}

/// `by_name` is an order with ties.
pub proof fn lemma_by_name_orders()
    ensures
        orders_with_ties(by_name()),
{
    let before = by_name();
    assert forall|a: (Seq<char>, Seq<char>), b: (Seq<char>, Seq<char>)| #[trigger]
        before(a, b) implies !before(b, a) by {
        text_lt_is_one_way(a.0, b.0);
    }
    assert forall|a: (Seq<char>, Seq<char>), b: (Seq<char>, Seq<char>), c: (Seq<char>, Seq<char>)|
        #![trigger before(a, b), before(a, c)]
        #![trigger before(a, b), before(c, b)]
        before(a, b) implies before(a, c) || before(c, b) by {
        text_lt_leaves_no_gap(a.0, b.0, c.0);
    }
}

/// The shown metrics are the metrics, each formatted and each as often as it
/// was listed. They stand in the order of their names, and those of one name
/// stand in the order in which they were listed.
pub proof fn metrics_are_shown_by_name(metrics: Seq<MetricView>, name: (Seq<char>, Seq<char>))
    ensures
        shown_metrics(metrics).len() == metrics.len(),
        shown_metrics(metrics).to_multiset() == metrics.map_values(
            |m: MetricView| shown(m),
        ).to_multiset(),
        forall|i: int, j: int|
            0 <= i < j < metrics.len() ==> !text_lt(
                (#[trigger] shown_metrics(metrics)[j]).0,
                (#[trigger] shown_metrics(metrics)[i]).0,
            ),
        tied_with(shown_metrics(metrics), name, by_name()) == tied_with(
            metrics.map_values(|m: MetricView| shown(m)),
            name,
            by_name(),
        ),
{
    let all = metrics.map_values(|m: MetricView| shown(m));
    lemma_by_name_orders();
    stable_sort_keeps_the_items(all, by_name());
    stable_sort_is_ordered(all, by_name());
    stable_sort_keeps_ties_in_order(all, name, by_name());
    let sorted = shown_metrics(metrics);
    assert forall|i: int, j: int| 0 <= i < j < metrics.len() implies !text_lt(
        (#[trigger] sorted[j]).0,
        (#[trigger] sorted[i]).0,
    ) by {
        assert(!by_name()(sorted[j], sorted[i]));
    }
}

/// The kind that a metric's name calls for.
pub fn metric_kind(name: &str) -> (kind: MetricKind)
    ensures
        kind == kind_of_name(name@),
{
    let chars = chars_of(name);
    proof {
        reveal_strlit("time");
        reveal_strlit("elapsed");
        reveal_strlit("bytes");
        reveal_strlit("rows");
    }
    let time = chars_of("time");
    let elapsed = chars_of("elapsed");
    let bytes = chars_of("bytes");
    let rows = chars_of("rows");
    assert(time@ == seq!['t', 'i', 'm', 'e']);
    assert(elapsed@ == seq!['e', 'l', 'a', 'p', 's', 'e', 'd']);
    assert(bytes@ == seq!['b', 'y', 't', 'e', 's']);
    assert(rows@ == seq!['r', 'o', 'w', 's']);
    if contains_chars(&chars, &time) || contains_chars(&chars, &elapsed) {
        MetricKind::Duration
    } else if contains_chars(&chars, &bytes) {
        MetricKind::Bytes
    } else if contains_chars(&chars, &rows) {
        MetricKind::Rows
    } else {
        MetricKind::Plain
    }
}

/// Formats a metric's value in the form that its name calls for.
pub fn format_metric(name: &str, value: &str) -> (out: String)
    ensures
        out@ == metric_text(name@, value@),
{
    match metric_kind(name) {
        MetricKind::Duration => format_duration(value),
        MetricKind::Bytes => {
            let chars = chars_of(value);
            match parse_u64_chars(&chars) {
                Some(bytes) => format_bytes(bytes),
                None => value.to_owned(),
            }
        },
        MetricKind::Rows => format_number(value),
        MetricKind::Plain => value.to_owned(),
    }
}

/// The metrics of an operator as they are shown: name and formatted value,
/// sorted by name.
pub fn metric_rows(metrics: &Vec<MetricValues>) -> (rows: Vec<(String, String)>)
    ensures
        rows.deep_view() == shown_metrics(metrics.deep_view()),
{
    let ghost all = metrics.deep_view().map_values(|m: MetricView| shown(m));
    let mut rows: Vec<(String, String)> = Vec::new();
    let mut i: usize = 0;
    assert(all.take(0) == Seq::<(Seq<char>, Seq<char>)>::empty());
    assert(rows.deep_view() == Seq::<(Seq<char>, Seq<char>)>::empty());
    while i < metrics.len()
        invariant
            i <= metrics.len(),
            all == metrics.deep_view().map_values(|m: MetricView| shown(m)),
            all.len() == metrics.len(),
            rows.deep_view() == stable_sort(all.take(i as int), by_name()),
        decreases metrics.len() - i,
    {
        let metric = &metrics[i];
        let text = format_metric(metric.name.as_str(), metric.value.as_str());
        let row = (metric.name.clone(), text);
        assert(row.deep_view() == all[i as int]);
        let name = chars_of(metric.name.as_str());
        let ghost old_rows = rows.deep_view();
        let mut k: usize = 0;
        let mut found = false;
        while !found && k < rows.len()
            invariant
                k <= rows.len(),
                name@ == row.0@,
                rows.deep_view() == old_rows,
                forall|j: int| 0 <= j < k ==> !by_name()(row.deep_view(), #[trigger] old_rows[j]),
                found ==> k < rows.len() && by_name()(row.deep_view(), old_rows[k as int]),
            decreases rows.len() - k + (if found { 0int } else { 1int }),
        {
            let other = chars_of(rows[k].0.as_str());
            assert(old_rows[k as int] == rows[k as int].deep_view());
            if text_lt_chars(&name, &other) {
                found = true;
            } else {
                k += 1;
            }
        }
        proof {
            lemma_insert_index_is(old_rows, row.deep_view(), by_name(), k as int);
            let next = all.take(i + 1);
            assert(next.drop_last() == all.take(i as int));
            assert(next.last() == all[i as int]);
        }
        let ghost row_view = row.deep_view();
        rows.insert(k, row);
        assert(rows.deep_view() =~= old_rows.insert(k as int, row_view));
        i += 1;
    }
    assert(all.take(metrics.len() as int) == all);
    rows
}

} // verus!
