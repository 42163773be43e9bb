//! Trees of named regions as mathematical values, and what their walk
//! gives.
//!
//! A tree is walked from the root down. A leaf takes the region it is
//! given, under its name. A container divides its region among its
//! children along its axis, each child keeping the container's full
//! extent across the axis, and the children are walked in their order.

use vstd::prelude::*;
use crate::constraint::Constraint;
use crate::geometry::{Direction, Region};
use crate::resolver::{lengths, origin_at, usable_length, SLOT_SPAN};

verus! {

/// A tree of named regions. Every node has the constraint by which it
/// takes part in the division of its parent.
pub ghost enum Shape {
    Leaf { name: Seq<char>, constraint: Constraint },
    Container { direction: Direction, spacing: int, constraint: Constraint, children: Seq<Shape> },
}

/// The constraints of a list of trees, in their order.
pub open spec fn child_constraints(children: Seq<Shape>) -> Seq<Constraint> {
    Seq::new(children.len(), |i: int| children[i].constraint())
}

/// The region of the child at index `i` of a container with the region
/// `area`: its slot along the axis, the whole of `area` across it.
pub open spec fn child_region(
    area: Region,
    direction: Direction,
    spacing: int,
    cs: Seq<Constraint>,
    i: int,
) -> Region {
    match direction {
        Direction::Horizontal => {
            let lens = lengths(cs, usable_length(area.width, spacing, cs.len() as int));
            Region {
                x: origin_at(area.x, spacing, lens, i),
                y: area.y,
                width: lens[i],
                height: area.height,
            }
        },
        Direction::Vertical => {
            let lens = lengths(cs, usable_length(area.height, spacing, cs.len() as int));
            Region {
                x: area.x,
                y: origin_at(area.y, spacing, lens, i),
                width: area.width,
                height: lens[i],
            }
        },
    }
}

impl Shape {
    /// The constraint of the root.
    pub open spec fn constraint(self) -> Constraint {
        match self {
            Shape::Leaf { constraint, .. } => constraint,
            Shape::Container { constraint, .. } => constraint,
        }
    }

    /// The children of a container, in their order; none for a leaf.
    pub open spec fn children(self) -> Seq<Shape> {
        match self {
            Shape::Leaf { .. } => Seq::empty(),
            Shape::Container { children, .. } => children,
        }
    }

    /// A leaf with a fill of weight one.
    pub open spec fn leaf(name: Seq<char>) -> Shape {
        Shape::Leaf { name, constraint: Constraint::Fill(1) }
    }

    /// A container without children, without a gap, with a fill of weight
    /// one.
    pub open spec fn empty(direction: Direction) -> Shape {
        Shape::Container {
            direction,
            spacing: 0,
            constraint: Constraint::Fill(1),
            children: Seq::empty(),
        }
    }

    /// The same tree with another constraint at the root.
    pub open spec fn with_constraint(self, constraint: Constraint) -> Shape {
        match self {
            Shape::Leaf { name, .. } => Shape::Leaf { name, constraint },
            Shape::Container { direction, spacing, children, .. } => Shape::Container {
                direction,
                spacing,
                constraint,
                children,
            },
        }
    }

    /// The same container with another gap between its children. A leaf
    /// stays as it is.
    pub open spec fn with_spacing(self, spacing: int) -> Shape {
        match self {
            Shape::Leaf { .. } => self,
            Shape::Container { direction, constraint, children, .. } => Shape::Container {
                direction,
                spacing,
                constraint,
                children,
            },
        }
    }

    /// The same container with one more child behind the others. A leaf
    /// stays as it is.
    pub open spec fn with_child(self, child: Shape) -> Shape {
        match self {
            Shape::Leaf { .. } => self,
            Shape::Container { direction, spacing, constraint, children } => Shape::Container {
                direction,
                spacing,
                constraint,
                children: children.push(child),
            },
        }
    }

    /// Whether every constraint in the tree is well-formed.
    pub open spec fn wf(self) -> bool
        decreases self,
    {
        &&& self.constraint().wf()
        &&& match self {
            Shape::Leaf { .. } => true,
            Shape::Container { children, .. } => forall|i: int|
                0 <= i < children.len() ==> (#[trigger] children[i]).wf(),
        }
    }

    /// How far the walk of the tree can move a region along either axis:
    /// one slot and one gap for every child of a container, and as much
    /// as the walk of the child that moves its regions farthest.
    pub open spec fn span(self) -> int
        decreases self, 1nat, 0nat,
    {
        match self {
            Shape::Leaf { .. } => 0,
            Shape::Container { children, .. } => children.len() * SLOT_SPAN + self.widest(
                children.len(),
            ),
        }
    }

    /// The largest span among the first `k` children.
    pub open spec fn widest(self, k: nat) -> int
        decreases self, 0nat, k,
    {
        match self {
            Shape::Leaf { .. } => 0,
            Shape::Container { children, .. } => if 0 < k <= children.len() {
                let rest = self.widest((k - 1) as nat);
                let last = children[k - 1].span();
                if rest < last {
                    last
                } else {
                    rest
                }
            } else {
                0
            },
        }
    }

    /// The mapping after the walk of this tree in `area`, starting from
    /// the mapping `acc`.
    pub open spec fn place(self, area: Region, acc: Map<Seq<char>, Region>) -> Map<
        Seq<char>,
        Region,
    >
        decreases self, 1nat, 0nat,
    {
        match self {
            Shape::Leaf { name, .. } => acc.insert(name, area),
            Shape::Container { children, .. } => self.place_first(area, children.len(), acc),
        }
    }

    /// The mapping after the walk of the first `k` children of this
    /// container, whose region is `area`, starting from the mapping `acc`.
    pub open spec fn place_first(self, area: Region, k: nat, acc: Map<Seq<char>, Region>) -> Map<
        Seq<char>,
        Region,
    >
        decreases self, 0nat, k,
    {
        match self {
            Shape::Leaf { .. } => acc,
            Shape::Container { direction, spacing, children, .. } => if 0 < k <= children.len() {
                children[k - 1].place(
                    child_region(area, direction, spacing, child_constraints(children), k - 1),
                    self.place_first(area, (k - 1) as nat, acc),
                )
            } else {
                acc
            },
        }
    }

    /// The mapping that the tree gives in `area`.
    pub open spec fn layout(self, area: Region) -> Map<Seq<char>, Region> {
        self.place(area, Map::empty())
    }
}

/// The widest span among any number of children is not negative.
pub proof fn lemma_widest_nonnegative(shape: Shape, k: nat)
    ensures
        0 <= shape.widest(k),
    decreases shape, 0nat, k,
{
    match shape {
        Shape::Leaf { .. } => {},
        Shape::Container { children, .. } => {
            if 0 < k <= children.len() {
                lemma_widest_nonnegative(shape, (k - 1) as nat);
            }
        },
    }
}

/// No span is negative.
pub proof fn lemma_span_nonnegative(shape: Shape)
    ensures
        0 <= shape.span(),
{
    match shape {
        Shape::Leaf { .. } => {},
        Shape::Container { children, .. } => {
            lemma_widest_nonnegative(shape, children.len());
            assert(0 <= children.len() * SLOT_SPAN) by (nonlinear_arith)
                requires
                    0 <= children.len(),
                    0 <= SLOT_SPAN,
            ;
        },
    }
}

/// The span of each of the first `k` children is at most the widest of
/// them.
pub proof fn lemma_widest_bounds(shape: Shape, k: nat, i: int)
    requires
        0 <= i < k <= shape.children().len(),
    ensures
        0 <= shape.children()[i].span() <= shape.widest(k),
    decreases k,
{
    lemma_span_nonnegative(shape.children()[i]);
    if i < k - 1 {
        lemma_widest_bounds(shape, (k - 1) as nat, i);
    }
}

/// The span of a container is at most one slot and one gap for each of
/// its children and a bound on the spans of all of them.
pub proof fn lemma_span_within(shape: Shape, bound: int)
    requires
        shape is Container,
        0 <= bound,
        forall|i: int|
            0 <= i < shape.children().len() ==> (#[trigger] shape.children()[i]).span() <= bound,
    ensures
        shape.span() <= shape.children().len() * SLOT_SPAN + bound,
{
    lemma_widest_within(shape, shape.children().len(), bound);
}

/// The widest span among the first `k` children is at most a bound on
/// the spans of all of them.
proof fn lemma_widest_within(shape: Shape, k: nat, bound: int)
    requires
        0 <= bound,
        k <= shape.children().len(),
        forall|i: int|
            0 <= i < shape.children().len() ==> (#[trigger] shape.children()[i]).span() <= bound,
    ensures
        shape.widest(k) <= bound,
    decreases k,
{
    if k > 0 {
        lemma_widest_within(shape, (k - 1) as nat, bound);
    }
}

/// A leaf has its region under its name once it has been walked,
/// whatever the mapping held under that name before, and leaves every
/// other name as it was.
pub proof fn lemma_leaf_takes_its_name(shape: Shape, area: Region, acc: Map<Seq<char>, Region>)
    requires
        shape is Leaf,
    ensures
        shape.place(area, acc) == acc.insert(shape->name, area),
        shape.place(area, acc).dom().contains(shape->name),
        shape.place(area, acc)[shape->name] == area,
{
}

/// Where the last child of a container is a leaf, the walk of the
/// container leaves that leaf's region under its name: of two leaves of
/// one name, the one that is walked later keeps the name.
pub proof fn lemma_last_leaf_wins(shape: Shape, area: Region, acc: Map<Seq<char>, Region>)
    requires
        shape is Container,
        shape.children().len() > 0,
        shape.children().last() is Leaf,
    ensures
        shape.place(area, acc).dom().contains(shape.children().last()->name),
        shape.place(area, acc)[shape.children().last()->name] == child_region(
            area,
            shape->direction,
            shape->spacing,
            child_constraints(shape.children()),
            shape.children().len() - 1,
        ),
{
    let children = shape.children();
    let count = children.len();
    let last = children[count - 1];
    let before = shape.place_first(area, (count - 1) as nat, acc);
    let region = child_region(
        area,
        shape->direction,
        shape->spacing,
        child_constraints(children),
        count - 1,
    );
    assert(shape.place_first(area, count, acc) == last.place(region, before));
    lemma_leaf_takes_its_name(last, region, before);
}

} // verus!
