//! Trees of named regions as they are built and laid out.

use vstd::prelude::*;
use crate::constraint::Constraint;
use crate::geometry::{Direction, Rect};
use crate::layout_result::LayoutResult;
use crate::resolver::{all_wf, resolve, Extent, SLOT_SPAN};
use crate::shape::{
    child_constraints, child_region, lemma_widest_bounds, lemma_widest_nonnegative, Shape,
};

verus! {

/// What a node is: a named region, or a container of further nodes.
pub enum NodeKind {
    Leaf(&'static str),
    Container { direction: Direction, spacing: u16, children: Vec<Node> },
}

/// A node of a layout tree, with the constraint by which it takes part in
/// the division of its parent.
pub struct Node {
    pub constraint: Constraint,
    pub kind: NodeKind,
}

impl Node {
    /// The tree below this node, as a mathematical value.
    pub open spec fn shape(self) -> Shape
        decreases self,
    {
        match self.kind {
            NodeKind::Leaf(name) => Shape::Leaf { name: name@, constraint: self.constraint },
            NodeKind::Container { direction, spacing, children } => Shape::Container {
                direction,
                spacing: spacing as int,
                constraint: self.constraint,
                children: Seq::new(
                    children.len() as nat,
                    |i: int|
                        if 0 <= i < children.len() {
                            children[i].shape()
                        } else {
                            Shape::leaf(Seq::empty())
                        },
                ),
            },
        }
    }
}

impl View for Node {
    type V = Shape;

    open spec fn view(&self) -> Shape {
        self.shape()
    }
}

/// The view of a container has the container's axis, gap and constraint,
/// and the views of its children in their order.
pub proof fn lemma_view_of_container(node: Node)
    requires
        node.kind is Container,
    ensures
        node@ is Container,
        node@->direction == node.kind->direction,
        node@->spacing == node.kind->spacing,
        node@.constraint() == node.constraint,
        node@.children().len() == node.kind->children.len(),
        forall|i: int|
            0 <= i < node.kind->children.len() ==> #[trigger] node@.children()[i]
                == node.kind->children[i]@,
{
}

impl Node {
    /// A leaf of that name, with a fill of weight one.
    pub fn leaf(name: &'static str) -> (r: Node)
        ensures
            r@ == Shape::leaf(name@),
    {
        Node { constraint: Constraint::Fill(1), kind: NodeKind::Leaf(name) }
    }

    /// A container without children that lays out from top to bottom, with
    /// no gap and a fill of weight one.
    pub fn vertical() -> (r: Node)
        ensures
            r@ == Shape::empty(Direction::Vertical),
    {
        let node = Node {
            constraint: Constraint::Fill(1),
            kind: NodeKind::Container {
                direction: Direction::Vertical,
                spacing: 0,
                children: Vec::new(),
            },
        };
        assert(node@.children() =~= Seq::empty());
        node
    }

    /// A container without children that lays out from left to right,
    /// with no gap and a fill of weight one.
    pub fn horizontal() -> (r: Node)
        ensures
            r@ == Shape::empty(Direction::Horizontal),
    {
        let node = Node {
            constraint: Constraint::Fill(1),
            kind: NodeKind::Container {
                direction: Direction::Horizontal,
                spacing: 0,
                children: Vec::new(),
            },
        };
        assert(node@.children() =~= Seq::empty());
        node
    }

    /// The same node with another constraint.
    pub fn constraint(self, constraint: Constraint) -> (r: Node)
        ensures
            r@ == self@.with_constraint(constraint),
    {
        let node = Node { constraint, kind: self.kind };
        assert(node@.children() =~= self@.children());
        node
    }

    /// The same container with another gap between its children. A leaf
    /// stays as it is.
    pub fn spacing(self, spacing: u16) -> (r: Node)
        ensures
            r@ == self@.with_spacing(spacing as int),
    {
        let ghost before = self@;
        let Node { constraint, kind } = self;
        match kind {
            NodeKind::Leaf(name) => Node { constraint, kind: NodeKind::Leaf(name) },
            NodeKind::Container { direction, spacing: _, children } => {
                let node = Node {
                    constraint,
                    kind: NodeKind::Container { direction, spacing, children },
                };
                assert(node@.children() =~= before.children());
                node
            },
        }
    }

    /// The same container with one more child behind the others. A leaf
    /// stays as it is.
    pub fn child(self, child: Node) -> (r: Node)
        ensures
            r@ == self@.with_child(child@),
    {
        let ghost before = self@;
        let ghost added = child@;
        let Node { constraint, kind } = self;
        match kind {
            NodeKind::Leaf(name) => Node { constraint, kind: NodeKind::Leaf(name) },
            NodeKind::Container { direction, spacing, children } => {
                let mut children = children;
                children.push(child);
                let node = Node {
                    constraint,
                    kind: NodeKind::Container { direction, spacing, children },
                };
                assert(node@.children() =~= before.children().push(added));
                node
            },
        }
    }

    /// Tests whether every constraint in the tree is well-formed.
    pub fn is_wf(&self) -> (r: bool)
        ensures
            r == self@.wf(),
        decreases self,
    {
        if !self.constraint.is_wf() {
            return false;
        }
        match &self.kind {
            NodeKind::Leaf(_) => true,
            NodeKind::Container { children, .. } => {
                proof {
                    lemma_view_of_container(*self);
                }
                let mut i: usize = 0;
                while i < children.len()
                    invariant
                        self.kind is Container,
                        self.kind->children == *children,
                        self@ is Container,
                        self@.children().len() == children.len(),
                        forall|j: int|
                            0 <= j < children.len() ==> #[trigger] self@.children()[j]
                                == children[j]@,
                        0 <= i <= children.len(),
                        forall|j: int| 0 <= j < i ==> (#[trigger] self@.children()[j]).wf(),
                    decreases children.len() - i,
                {
                    if !children[i].is_wf() {
                        assert(!self@.children()[i as int].wf());
                        return false;
                    }
                    i = i + 1;
                }
                true
            },
        }
    }

    /// Computes the span of the tree, unless it is too large for the
    /// machine.
    pub fn span_of(&self) -> (r: Option<u64>)
        ensures
            match r {
                Some(v) => v == self@.span(),
                None => self@.span() > u64::MAX,
            },
        decreases self,
    {
        match &self.kind {
            NodeKind::Leaf(_) => Some(0),
            NodeKind::Container { children, .. } => {
                proof {
                    lemma_view_of_container(*self);
                }
                let mut widest: u64 = 0;
                let mut i: usize = 0;
                while i < children.len()
                    invariant
                        self.kind is Container,
                        self.kind->children == *children,
                        self@ is Container,
                        self@.children().len() == children.len(),
                        forall|j: int|
                            0 <= j < children.len() ==> #[trigger] self@.children()[j]
                                == children[j]@,
                        0 <= i <= children.len(),
                        widest == self@.widest(i as nat),
                    decreases children.len() - i,
                {
                    match children[i].span_of() {
                        Some(v) => {
                            assert(self@.children()[i as int].span() == v);
                            if widest < v {
                                widest = v;
                            }
                        },
                        None => {
                            proof {
                                lemma_widest_bounds(self@, children.len() as nat, i as int);
                                assert(0 <= children.len() * SLOT_SPAN) by (nonlinear_arith)
                                    requires
                                        0 <= children.len(),
                                        0 <= SLOT_SPAN,
                                ;
                            }
                            return None;
                        },
                    }
                    i = i + 1;
                }
                assert(children.len() * SLOT_SPAN <= 0xffff_ffff_ffff_ffff * 131_070)
                    by (nonlinear_arith)
                    requires
                        0 <= children.len() <= 0xffff_ffff_ffff_ffff,
                        SLOT_SPAN == 131_070,
                ;
                let whole: u128 = children.len() as u128 * SLOT_SPAN as u128 + widest as u128;
                if whole <= u64::MAX as u128 {
                    Some(whole as u64)
                } else {
                    None
                }
            },
        }
    }
}

/// Collects the constraints of a list of nodes.
fn constraints_of(children: &Vec<Node>) -> (r: Vec<Constraint>)
    ensures
        r@.len() == children@.len(),
        forall|j: int| 0 <= j < children@.len() ==> r@[j] == (#[trigger] children@[j]).constraint,
{
    let mut constraints: Vec<Constraint> = Vec::new();
    let mut i: usize = 0;
    while i < children.len()
        invariant
            0 <= i <= children.len(),
            constraints@.len() == i,
            forall|j: int| 0 <= j < i ==> constraints@[j] == (#[trigger] children@[j]).constraint,
        decreases children.len() - i,
    {
        constraints.push(children[i].constraint);
        i = i + 1;
    }
    constraints
}

/// The rectangle of a child from its slot along the container's axis.
pub open spec fn child_rect_of(area: Rect, direction: Direction, slot: Extent) -> Rect {
    match direction {
        Direction::Horizontal => Rect {
            x: slot.origin,
            y: area.y,
            width: slot.length,
            height: area.height,
        },
        Direction::Vertical => Rect {
            x: area.x,
            y: slot.origin,
            width: area.width,
            height: slot.length,
        },
    }
}

/// Computes [`child_rect_of`].
fn child_rect(area: Rect, direction: Direction, slot: Extent) -> (r: Rect)
    ensures
        r == child_rect_of(area, direction, slot),
{
    match direction {
        Direction::Horizontal => Rect {
            x: slot.origin,
            y: area.y,
            width: slot.length,
            height: area.height,
        },
        Direction::Vertical => Rect {
            x: area.x,
            y: slot.origin,
            width: area.width,
            height: slot.length,
        },
    }
}

/// Walks `node` in `area` and records the rectangle of every leaf in
/// `out`, a later leaf replacing an earlier one of the same name.
pub fn handle_node(node: &Node, area: Rect, out: &mut LayoutResult)
    requires
        node@.wf(),
        area.x + node@.span() <= u64::MAX,
        area.y + node@.span() <= u64::MAX,
    ensures
        final(out)@ == node@.place(area@, old(out)@),
    decreases node,
{
    match &node.kind {
        NodeKind::Leaf(name) => {
            out.insert(*name, area);
        },
        NodeKind::Container { direction, spacing, children } => {
            let constraints = constraints_of(children);
            let count = children.len();
            let ghost shape = node@;
            proof {
                lemma_view_of_container(*node);
                lemma_widest_nonnegative(shape, count as nat);
                assert(shape.span() == count * SLOT_SPAN + shape.widest(count as nat));
                assert(constraints@ =~= child_constraints(shape.children())) by {
                    assert forall|j: int| 0 <= j < count implies constraints@[j]
                        == shape.children()[j].constraint() by {
                        assert(shape.children()[j] == children[j]@);
                    }
                }
                assert(all_wf(constraints@)) by {
                    assert forall|j: int| 0 <= j < constraints@.len() implies (
                    #[trigger] constraints@[j]).wf() by {
                        assert(shape.children()[j].wf());
                    }
                }
            }
            let extents = match direction {
                Direction::Horizontal => resolve(area.x, area.width, *spacing, constraints.as_slice()),
                Direction::Vertical => resolve(area.y, area.height, *spacing, constraints.as_slice()),
            };
            let mut i: usize = 0;
            while i < count
                invariant
                    node.kind is Container,
                    node.kind->children == *children,
                    shape == node@,
                    shape.wf(),
                    shape is Container,
                    shape->direction == *direction,
                    shape->spacing == *spacing,
                    shape.children().len() == count,
                    count == children.len(),
                    forall|j: int|
                        0 <= j < count ==> #[trigger] shape.children()[j] == children[j]@,
                    constraints@ == child_constraints(shape.children()),
                    area.x + shape.span() <= u64::MAX,
                    area.y + shape.span() <= u64::MAX,
                    extents@.len() == count,
                    forall|j: int|
                        0 <= j < count ==> child_rect_of(area, *direction, #[trigger] extents@[j])@
                            == child_region(
                            area@,
                            *direction,
                            *spacing as int,
                            constraints@,
                            j,
                        ),
                    forall|j: int|
                        0 <= j < count ==> (#[trigger] extents@[j]).origin <= (match direction {
                            Direction::Horizontal => area.x,
                            Direction::Vertical => area.y,
                        }) + j * SLOT_SPAN,
                    0 <= i <= count,
                    out@ == shape.place_first(area@, i as nat, old(out)@),
                decreases count - i,
            {
                let rect = child_rect(area, *direction, extents[i]);
                proof {
                    lemma_widest_bounds(shape, count as nat, i as int);
                    assert(i * SLOT_SPAN <= count * SLOT_SPAN) by (nonlinear_arith)
                        requires
                            0 <= i <= count,
                            0 <= SLOT_SPAN,
                    ;
                    assert(child_rect_of(area, *direction, extents@[i as int]) == rect);
                    assert(shape.children()[i as int] == children[i as int]@);
                    assert(shape.children()[i as int].wf());
                }
                handle_node(&children[i], rect, out);
                i = i + 1;
            }
        },
    }
}

impl From<&'static str> for Node {
    /// A leaf of that name.
    fn from(name: &'static str) -> (r: Node) {
        Node { constraint: Constraint::Fill(1), kind: NodeKind::Leaf(name) }
    }
}

impl vstd::std_specs::convert::FromSpecImpl<&'static str> for Node {
    open spec fn obeys_from_spec() -> bool {
        true
    }

    open spec fn from_spec(name: &'static str) -> Node {
        Node { constraint: Constraint::Fill(1), kind: NodeKind::Leaf(name) }
    }
}

/// A layout under construction: a container that lays out from top to
/// bottom, filled child by child.
pub struct LayoutBuilder {
    pub root: Node,
}

impl View for LayoutBuilder {
    type V = Shape;

    open spec fn view(&self) -> Shape {
        self.root@
    }
}

impl Default for LayoutBuilder {
    /// A builder whose root has no children yet.
    fn default() -> (r: LayoutBuilder)
        ensures
            r@ == Shape::empty(Direction::Vertical),
    {
        LayoutBuilder { root: Node::vertical() }
    }
}

impl From<LayoutBuilder> for Node {
    /// The root of the builder.
    fn from(builder: LayoutBuilder) -> (r: Node) {
        builder.root
    }
}

impl vstd::std_specs::convert::FromSpecImpl<LayoutBuilder> for Node {
    open spec fn obeys_from_spec() -> bool {
        true
    }

    open spec fn from_spec(builder: LayoutBuilder) -> Node {
        builder.root
    }
}

impl LayoutBuilder {
    /// Whether the tree can be laid out in `area`: every constraint is
    /// well-formed, and no rectangle can be moved past what the machine
    /// can count.
    pub open spec fn can_build(self, area: Rect) -> bool {
        &&& self@.wf()
        &&& area.x + self@.span() <= u64::MAX
        &&& area.y + self@.span() <= u64::MAX
    }

    /// A builder whose root has no children yet.
    pub fn new() -> (r: LayoutBuilder)
        ensures
            r@ == Shape::empty(Direction::Vertical),
    {
        LayoutBuilder { root: Node::vertical() }
    }

    /// The same builder with one more child behind the others.
    pub fn child(self, child: Node) -> (r: LayoutBuilder)
        ensures
            r@ == self@.with_child(child@),
    {
        LayoutBuilder { root: self.root.child(child) }
    }

    /// Tests [`LayoutBuilder::can_build`].
    pub fn fits(&self, area: Rect) -> (r: bool)
        ensures
            r == self.can_build(area),
    {
        if !self.root.is_wf() {
            return false;
        }
        match self.root.span_of() {
            Some(span) => span <= u64::MAX - area.x && span <= u64::MAX - area.y,
            None => false,
        }
    }

    /// Lays the tree out in `area`: the rectangle of every leaf, by its
    /// name. Where a name occurs on several leaves, the last of them in
    /// the order of the walk has it.
    pub fn build(self, area: Rect) -> (r: LayoutResult)
        requires
            self.can_build(area),
        ensures
            r@ == self@.layout(area@),
    {
        let mut out = LayoutResult::new();
        handle_node(&self.root, area, &mut out);
        out
    }

    /// Lays the tree out in `area` if it can be, as [`LayoutBuilder::build`]
    /// does.
    pub fn try_build(self, area: Rect) -> (r: Option<LayoutResult>)
        ensures
            match r {
                Some(found) => self.can_build(area) && found@ == self@.layout(area@),
                None => !self.can_build(area),
            },
    {
        if self.fits(area) {
            Some(self.build(area))
        } else {
            None
        }
    }
}

/// Laying out a tree again, or another tree of the same shape, in the
/// same area gives the same mapping: the layout keeps no state between
/// two runs.
pub proof fn lemma_layout_is_repeatable(
    first: LayoutBuilder,
    second: LayoutBuilder,
    first_area: Rect,
    second_area: Rect,
)
    requires
        first@ == second@,
        first_area == second_area,
    ensures
        first@.layout(first_area@) == second@.layout(second_area@),
{
}

} // verus!
