//! What is drawn for a plan: for each operator a card with its name, its
//! metrics as they are shown, its schema and its statistics, and below the
//! card the cards of its children, joined to it by connector lines.

use crate::metrics::{metric_rows, shown_metrics};
use crate::models::execution_plan::{
    clone_schema, clone_statistics, ExecutionPlanWithStats, PlanNodeView, SchemaField,
    SchemaFieldView, Statistics, StatisticsView,
};
use vstd::prelude::*;

verus! {

/// The card of an operator with the cards below it.
#[derive(Debug)]
pub struct RenderedNode {
    pub name: String,
    /// The metrics, each with its name and its formatted value, in the order
    /// of their names.
    pub metrics: Vec<(String, String)>,
    pub schema: Vec<SchemaField>,
    pub statistics: Option<Statistics>,
    /// Whether connector lines lead down from the card. A leaf has none.
    pub connector: bool,
    /// The cards of the children, in the order of the children.
    pub children: Vec<RenderedNode>,
}

/// The view of `RenderedNode`: its texts as sequences of characters.
pub struct RenderedNodeView {
    pub name: Seq<char>,
    pub metrics: Seq<(Seq<char>, Seq<char>)>,
    pub schema: Seq<SchemaFieldView>,
    pub statistics: Option<StatisticsView>,
    pub connector: bool,
    pub children: Seq<RenderedNodeView>,
}

/// The view of a card: its texts as sequences, and the views of the cards
/// below it.
pub open spec fn rendered_view(node: RenderedNode) -> RenderedNodeView
    decreases node,
{
    RenderedNodeView {
        name: node.name@,
        metrics: node.metrics.deep_view(),
        schema: node.schema.deep_view(),
        statistics: node.statistics.deep_view(),
        connector: node.connector,
        children: Seq::new(
            node.children.len() as nat,
            |i: int|
                if 0 <= i < node.children.len() {
                    rendered_view(node.children[i])
                } else {
                    arbitrary()
                },
        ),
    }
}

impl View for RenderedNode {
    type V = RenderedNodeView;

    open spec fn view(&self) -> RenderedNodeView {
        rendered_view(*self)
    }
}

impl DeepView for RenderedNode {
    type V = RenderedNodeView;

    open spec fn deep_view(&self) -> RenderedNodeView {
        self@
    }
}

/// What is drawn for an operator: its card, connector lines where it has
/// children, and below them what is drawn for each child, however deep the
/// plan goes.
pub open spec fn rendered(node: PlanNodeView) -> RenderedNodeView
    decreases node,
{
    RenderedNodeView {
        name: node.name,
        metrics: shown_metrics(node.metrics),
        schema: node.schema,
        statistics: node.statistics,
        connector: node.children.len() > 0,
        children: Seq::new(
            node.children.len(),
            |i: int|
                if 0 <= i < node.children.len() {
                    rendered(node.children[i])
                } else {
                    arbitrary()
                },
        ),
    }
}

/// The number of operators of a plan.
pub open spec fn operators(node: PlanNodeView) -> nat
    decreases node,
{
    1 + operators_of(node.children)
}

/// The number of operators of a list of plans.
pub open spec fn operators_of(nodes: Seq<PlanNodeView>) -> nat
    decreases nodes,
{
    if nodes.len() == 0 {
        0
    } else {
        operators(nodes.last()) + operators_of(nodes.drop_last())
    }
}

/// The number of cards of a drawing.
pub open spec fn cards(node: RenderedNodeView) -> nat
    decreases node,
{
    1 + cards_of(node.children)
}

/// The number of cards of a list of drawings.
pub open spec fn cards_of(nodes: Seq<RenderedNodeView>) -> nat
    decreases nodes,
{
    if nodes.len() == 0 {
        0
    } else {
        cards(nodes.last()) + cards_of(nodes.drop_last())
    }
}

/// What is drawn for each plan of a list.
pub open spec fn rendered_all(nodes: Seq<PlanNodeView>) -> Seq<RenderedNodeView> {
    Seq::new(nodes.len(), |i: int| rendered(nodes[i]))
}

/// A leaf is drawn as a card alone: no connector lines lead down from it and
/// nothing stands below it.
pub proof fn a_leaf_is_drawn_alone(node: PlanNodeView)
    requires
        node.children.len() == 0,
    ensures
        !rendered(node).connector,
        rendered(node).children.len() == 0,
{
}

/// An operator with children is drawn with connector lines, and what stands
/// below them is what is drawn for each of its children, in their order.
pub proof fn children_are_drawn_below(node: PlanNodeView)
    requires
        node.children.len() > 0,
    ensures
        rendered(node).connector,
        rendered(node).children == rendered_all(node.children),
{
    assert(rendered(node).children =~= rendered_all(node.children));
}

/// Every operator of a plan has its card, at whatever depth it stands: the
/// drawing of a plan has as many cards as the plan has operators.
pub proof fn every_operator_has_its_card(node: PlanNodeView)
    ensures
        cards(rendered(node)) == operators(node),
    decreases node, 0nat,
{
    assert(rendered(node).children =~= rendered_all(node.children));
    lemma_cards_of_all(node.children);
}

/// The drawings of a list of plans have as many cards as the plans have
/// operators.
proof fn lemma_cards_of_all(nodes: Seq<PlanNodeView>)
    ensures
        cards_of(rendered_all(nodes)) == operators_of(nodes),
    decreases nodes, 1nat,
{
    if nodes.len() > 0 {
        every_operator_has_its_card(nodes.last());
        assert(nodes.drop_last() == nodes.subrange(0, nodes.len() - 1));
        lemma_cards_of_all(nodes.drop_last());
        assert(rendered_all(nodes).drop_last() =~= rendered_all(nodes.drop_last()));
        assert(rendered_all(nodes).last() == rendered(nodes.last()));
    }
}

/// Draws an operator with everything below it.
pub fn render(node: &ExecutionPlanWithStats) -> (out: RenderedNode)
    ensures
        out@ == rendered(node@),
    decreases node,
{
    let mut children: Vec<RenderedNode> = Vec::new();
    let mut i: usize = 0;
    while i < node.children.len()
        invariant
            i <= node.children.len(),
            children.len() == i,
            forall|k: int| 0 <= k < i ==> (#[trigger] children[k])@ == rendered(node.children[k]@),
        decreases node.children.len() - i,
    {
        children.push(render(&node.children[i]));
        i += 1;
    }
    let out = RenderedNode {
        name: node.name.clone(),
        metrics: metric_rows(&node.metrics),
        schema: clone_schema(&node.schema),
        statistics: clone_statistics(&node.statistics),
        connector: node.children.len() > 0,
        children,
    };
    assert forall|k: int| 0 <= k < out@.children.len() implies out@.children[k] == rendered(
        node@,
    ).children[k] by {
        assert(out.children[k]@ == rendered(node.children[k]@));
        assert(node@.children[k] == node.children[k]@);
    }
    assert(out@.children =~= rendered(node@).children);
    out
}

} // verus!
