//! The regions of the dashboard.
//!
//! A wide dashboard puts the gauge, the graph of the nodes and the three
//! values side by side, and the two logs side by side. A narrow one
//! stacks the graph above the gauge and the values, and the logs one
//! above the other.

use vstd::prelude::*;
use crate::constraint::Constraint;
use crate::geometry::Direction;
use crate::layout::{LayoutBuilder, Node};
use crate::geometry::{Rect, Region};
use crate::layout_result::LayoutResult;
use crate::resolver::SLOT_SPAN;
use crate::shape::{lemma_span_within, Shape};

verus! {

/// The least width of a wide dashboard.
pub const LARGE_MIN: u16 = 120;

/// The height of the content of a wide dashboard.
pub const WIDE_HEIGHT: u16 = 72;

/// The height of the content of a narrow dashboard.
pub const NARROW_HEIGHT: u16 = 117;

/// The shape of a leaf.
pub open spec fn leaf_shape(name: &str, constraint: Constraint) -> Shape {
    Shape::Leaf { name: name@, constraint }
}

/// The shape of the column of the three values.
pub open spec fn values_shape(constraint: Constraint) -> Shape {
    Shape::Container {
        direction: Direction::Vertical,
        spacing: 0,
        constraint,
        children: seq![
            leaf_shape("net_stats_values_0", Constraint::Fill(1)),
            leaf_shape("net_stats_values_1", Constraint::Fill(1)),
            leaf_shape("net_stats_values_2", Constraint::Fill(1)),
        ],
    }
}

/// The shape of the row of network statistics of a wide dashboard.
pub open spec fn wide_stats_shape() -> Shape {
    Shape::Container {
        direction: Direction::Horizontal,
        spacing: 1,
        constraint: Constraint::Fixed(30),
        children: seq![
            leaf_shape("net_stats_gauge", Constraint::Percentage(25)),
            leaf_shape("net_stats_graph", Constraint::Percentage(50)),
            values_shape(Constraint::Percentage(25)),
        ],
    }
}

/// The shape of the row of network statistics of a narrow dashboard.
pub open spec fn narrow_stats_shape() -> Shape {
    Shape::Container {
        direction: Direction::Horizontal,
        spacing: 1,
        constraint: Constraint::Fixed(30),
        children: seq![
            leaf_shape("net_stats_gauge", Constraint::Fill(1)),
            values_shape(Constraint::Fill(1)),
        ],
    }
}

/// The shape of the row of the two logs of a wide dashboard.
pub open spec fn wide_logs_shape() -> Shape {
    Shape::Container {
        direction: Direction::Horizontal,
        spacing: 1,
        constraint: Constraint::Fixed(20),
        children: seq![
            leaf_shape("txs_logs", Constraint::Fill(1)),
            leaf_shape("mpc_logs", Constraint::Fill(1)),
        ],
    }
}

/// The shape of the column of a wide dashboard.
pub open spec fn wide_column_shape() -> Shape {
    Shape::Container {
        direction: Direction::Vertical,
        spacing: 0,
        constraint: Constraint::Fill(1),
        children: seq![
            leaf_shape("txs_graph", Constraint::Fixed(15)),
            leaf_shape("net_stats_title", Constraint::Fixed(4)),
            wide_stats_shape(),
            leaf_shape("live_logs_title", Constraint::Fixed(3)),
            wide_logs_shape(),
        ],
    }
}

/// The shape of the column of a narrow dashboard.
pub open spec fn narrow_column_shape() -> Shape {
    Shape::Container {
        direction: Direction::Vertical,
        spacing: 0,
        constraint: Constraint::Fill(1),
        children: seq![
            leaf_shape("txs_graph", Constraint::Fixed(15)),
            leaf_shape("net_stats_title", Constraint::Fixed(4)),
            leaf_shape("net_stats_graph", Constraint::Fixed(25)),
            narrow_stats_shape(),
            leaf_shape("live_logs_title", Constraint::Fixed(3)),
            leaf_shape("txs_logs", Constraint::Fixed(20)),
            leaf_shape("mpc_logs", Constraint::Fixed(20)),
        ],
    }
}

/// Whether a dashboard of that width is a wide one.
pub open spec fn is_wide(width: u16) -> bool {
    width >= LARGE_MIN
}

/// The shape of the dashboard for a content of that width: a root with
/// the column of a wide or of a narrow dashboard as its only child.
pub open spec fn dashboard_shape(width: u16) -> Shape {
    Shape::Container {
        direction: Direction::Vertical,
        spacing: 0,
        constraint: Constraint::Fill(1),
        children: seq![
            if is_wide(width) {
                wide_column_shape()
            } else {
                narrow_column_shape()
            },
        ],
    }
}

/// The height of the content of the dashboard in a view of that width.
pub fn content_height(view_width: u16) -> (r: u16)
    ensures
        r == if is_wide(view_width) {
            WIDE_HEIGHT
        } else {
            NARROW_HEIGHT
        },
{
    if view_width >= LARGE_MIN {
        WIDE_HEIGHT
    } else {
        NARROW_HEIGHT
    }
}

/// A leaf with a constraint.
fn leaf(name: &'static str, constraint: Constraint) -> (r: Node)
    ensures
        r@ == leaf_shape(name, constraint),
{
    Node::leaf(name).constraint(constraint)
}

/// The column of the three values.
fn values(constraint: Constraint) -> (r: Node)
    ensures
        r@ == values_shape(constraint),
{
    let first = leaf("net_stats_values_0", Constraint::Fill(1));
    let second = leaf("net_stats_values_1", Constraint::Fill(1));
    let third = leaf("net_stats_values_2", Constraint::Fill(1));
    let node = Node::vertical().child(first).child(second).child(third).constraint(constraint);
    assert(node@.children() =~= values_shape(constraint).children());
    node
}

/// The row of network statistics of a wide dashboard.
fn wide_stats() -> (r: Node)
    ensures
        r@ == wide_stats_shape(),
{
    let gauge = leaf("net_stats_gauge", Constraint::Percentage(25));
    let graph = leaf("net_stats_graph", Constraint::Percentage(50));
    let column = values(Constraint::Percentage(25));
    let node = Node::horizontal().spacing(1).child(gauge).child(graph).child(column).constraint(
        Constraint::Fixed(30),
    );
    assert(node@.children() =~= wide_stats_shape().children());
    node
}

/// The row of network statistics of a narrow dashboard.
fn narrow_stats() -> (r: Node)
    ensures
        r@ == narrow_stats_shape(),
{
    let gauge = leaf("net_stats_gauge", Constraint::Fill(1));
    let column = values(Constraint::Fill(1));
    let node = Node::horizontal().spacing(1).child(gauge).child(column).constraint(
        Constraint::Fixed(30),
    );
    assert(node@.children() =~= narrow_stats_shape().children());
    node
}

/// The row of the two logs of a wide dashboard.
fn wide_logs() -> (r: Node)
    ensures
        r@ == wide_logs_shape(),
{
    let txs = leaf("txs_logs", Constraint::Fill(1));
    let mpc = leaf("mpc_logs", Constraint::Fill(1));
    let node = Node::horizontal().spacing(1).child(txs).child(mpc).constraint(
        Constraint::Fixed(20),
    );
    assert(node@.children() =~= wide_logs_shape().children());
    node
}

/// The column of a wide dashboard.
fn wide_column() -> (r: Node)
    ensures
        r@ == wide_column_shape(),
{
    let graph = leaf("txs_graph", Constraint::Fixed(15));
    let title = leaf("net_stats_title", Constraint::Fixed(4));
    let stats = wide_stats();
    let logs_title = leaf("live_logs_title", Constraint::Fixed(3));
    let logs = wide_logs();
    let node = Node::vertical().child(graph).child(title).child(stats).child(logs_title).child(
        logs,
    );
    assert(node@.children() =~= wide_column_shape().children());
    node
}

/// The column of a narrow dashboard.
fn narrow_column() -> (r: Node)
    ensures
        r@ == narrow_column_shape(),
{
    let graph = leaf("txs_graph", Constraint::Fixed(15));
    let title = leaf("net_stats_title", Constraint::Fixed(4));
    let nodes = leaf("net_stats_graph", Constraint::Fixed(25));
    let stats = narrow_stats();
    let logs_title = leaf("live_logs_title", Constraint::Fixed(3));
    let txs = leaf("txs_logs", Constraint::Fixed(20));
    let mpc = leaf("mpc_logs", Constraint::Fixed(20));
    let node = Node::vertical().child(graph).child(title).child(nodes).child(stats).child(
        logs_title,
    ).child(txs).child(mpc);
    assert(node@.children() =~= narrow_column_shape().children());
    node
}

/// The farthest that the walk of a dashboard moves a region.
pub const TREE_SPAN: u64 = 1_703_910;

/// The column of the three values is well-formed under a well-formed
/// constraint, and its walk moves no region farther than its three slots.
proof fn lemma_values_fit(constraint: Constraint)
    requires
        constraint.wf(),
    ensures
        values_shape(constraint).wf(),
        values_shape(constraint).span() <= 3 * SLOT_SPAN,
{
    let shape = values_shape(constraint);
    assert forall|i: int| 0 <= i < shape.children().len() implies (
    #[trigger] shape.children()[i]).wf() && shape.children()[i].span() <= 0 by {
        assert(shape.children()[i] is Leaf);
    }
    lemma_span_within(shape, 0);
}

/// Every shape of the dashboard is well-formed, and its walk moves no
/// region farther than [`TREE_SPAN`].
pub proof fn lemma_dashboard_fits(width: u16)
    ensures
        dashboard_shape(width).wf(),
        0 <= dashboard_shape(width).span() <= TREE_SPAN,
{
    crate::shape::lemma_span_nonnegative(dashboard_shape(width));
    lemma_values_fit(Constraint::Percentage(25));
    lemma_values_fit(Constraint::Fill(1));
    let column = if is_wide(width) {
        let stats = wide_stats_shape();
        assert forall|i: int| 0 <= i < stats.children().len() implies (
        #[trigger] stats.children()[i]).wf() && stats.children()[i].span() <= 3 * SLOT_SPAN by {
            assert(i == 2 || stats.children()[i] is Leaf);
        }
        lemma_span_within(stats, 3 * SLOT_SPAN);
        let logs = wide_logs_shape();
        assert forall|i: int| 0 <= i < logs.children().len() implies (
        #[trigger] logs.children()[i]).wf() && logs.children()[i].span() <= 0 by {
            assert(logs.children()[i] is Leaf);
        }
        lemma_span_within(logs, 0);
        let column = wide_column_shape();
        assert forall|i: int| 0 <= i < column.children().len() implies (
        #[trigger] column.children()[i]).wf() && column.children()[i].span() <= 6 * SLOT_SPAN by {
            assert(i == 2 || i == 4 || column.children()[i] is Leaf);
        }
        lemma_span_within(column, 6 * SLOT_SPAN);
        column
    } else {
        let stats = narrow_stats_shape();
        assert forall|i: int| 0 <= i < stats.children().len() implies (
        #[trigger] stats.children()[i]).wf() && stats.children()[i].span() <= 3 * SLOT_SPAN by {
            assert(i == 1 || stats.children()[i] is Leaf);
        }
        lemma_span_within(stats, 3 * SLOT_SPAN);
        let column = narrow_column_shape();
        assert forall|i: int| 0 <= i < column.children().len() implies (
        #[trigger] column.children()[i]).wf() && column.children()[i].span() <= 5 * SLOT_SPAN by {
            assert(i == 3 || column.children()[i] is Leaf);
        }
        lemma_span_within(column, 5 * SLOT_SPAN);
        column
    };
    let root = dashboard_shape(width);
    assert(column.span() <= 12 * SLOT_SPAN);
    assert forall|i: int| 0 <= i < root.children().len() implies (#[trigger] root.children()[i]).wf()
        && root.children()[i].span() <= 12 * SLOT_SPAN by {
        assert(root.children()[i] == column);
    }
    lemma_span_within(root, 12 * SLOT_SPAN);
}

/// The tree of the dashboard for a content of that width.
pub fn tree(width: u16) -> (r: LayoutBuilder)
    ensures
        r@ == dashboard_shape(width),
{
    let column = if width >= LARGE_MIN {
        wide_column()
    } else {
        narrow_column()
    };
    let builder = LayoutBuilder::new().child(column);
    assert(builder@.children() =~= dashboard_shape(width).children());
    builder
}

/// The area of a content of that width and height in its own buffer.
pub open spec fn content_at_origin(width: u16, height: u16) -> Region {
    Region { x: 0, y: 0, width: width as int, height: height as int }
}

/// The regions of the dashboard, by their names, for a content of that
/// width and height in its own buffer: wide from [`LARGE_MIN`] columns
/// on, narrow below.
pub fn regions(width: u16, height: u16) -> (r: LayoutResult)
    ensures
        r@ == dashboard_shape(width).layout(content_at_origin(width, height)),
{
    proof {
        lemma_dashboard_fits(width);
    }
    tree(width).build(Rect { x: 0, y: 0, width, height })
}

} // verus!
