//! The leaves of a tree in the order of the walk, and what the layout
//! holds of them.
//!
//! The walk of a tree visits its leaves from the root down, the children
//! of a container in their order. The layout is what is left once every
//! leaf, in that order, has written its region under its name: of the
//! leaves of one name, the one visited last keeps the name.

use vstd::prelude::*;
use crate::geometry::Region;
use crate::shape::{child_constraints, child_region, Shape};

verus! {

/// The leaves of the tree in the order of the walk, each with its name
/// and the region that it takes when the tree is walked in `area`.
pub open spec fn entries(shape: Shape, area: Region) -> Seq<(Seq<char>, Region)>
    decreases shape, 1nat, 0nat,
{
    match shape {
        Shape::Leaf { name, .. } => seq![(name, area)],
        Shape::Container { children, .. } => entries_first(shape, area, children.len()),
    }
}

/// The leaves below the first `k` children of a container, in the order
/// of the walk.
pub open spec fn entries_first(shape: Shape, area: Region, k: nat) -> Seq<(Seq<char>, Region)>
    decreases shape, 0nat, k,
{
    match shape {
        Shape::Leaf { .. } => Seq::empty(),
        Shape::Container { direction, spacing, children, .. } => if 0 < k <= children.len() {
            entries_first(shape, area, (k - 1) as nat) + entries(
                children[k - 1],
                child_region(area, direction, spacing, child_constraints(children), k - 1),
            )
        } else {
            Seq::empty()
        },
    }
}

/// The mapping once the entries have been written to `acc` in their
/// order, each in place of what its name was mapped to before.
pub open spec fn written(acc: Map<Seq<char>, Region>, e: Seq<(Seq<char>, Region)>) -> Map<
    Seq<char>,
    Region,
>
    decreases e.len(),
{
    if e.len() == 0 {
        acc
    } else {
        written(acc, e.drop_last()).insert(e.last().0, e.last().1)
    }
}

/// Whether no two entries have the same name.
pub open spec fn distinct(e: Seq<(Seq<char>, Region)>) -> bool {
    forall|a: int, b: int| 0 <= a < b < e.len() ==> (#[trigger] e[a]).0 != (#[trigger] e[b]).0
}

/// Whether the entries at `i` and `j` have the same name and no other two
/// entries have.
pub open spec fn one_repeat(e: Seq<(Seq<char>, Region)>, i: int, j: int) -> bool {
    &&& 0 <= i < j < e.len()
    &&& e[i].0 == e[j].0
    &&& forall|a: int, b: int|
        0 <= a < b < e.len() && !(a == i && b == j) ==> (#[trigger] e[a]).0 != (#[trigger] e[b]).0
}

/// Writing one list of entries behind another is writing the two lists
/// one after the other.
proof fn lemma_written_append(
    acc: Map<Seq<char>, Region>,
    a: Seq<(Seq<char>, Region)>,
    b: Seq<(Seq<char>, Region)>,
)
    ensures
        written(acc, a + b) == written(written(acc, a), b),
    decreases b.len(),
{
    if b.len() == 0 {
        assert(a + b =~= a);
    } else {
        assert((a + b).drop_last() =~= a + b.drop_last());
        lemma_written_append(acc, a, b.drop_last());
    }
}

/// The walk of a tree gives what the writing of its leaves gives, in the
/// order of the walk.
pub proof fn lemma_walk_writes_entries(shape: Shape, area: Region, acc: Map<Seq<char>, Region>)
    ensures
        shape.place(area, acc) == written(acc, entries(shape, area)),
    decreases shape, 1nat, 0nat,
{
    match shape {
        Shape::Leaf { name, .. } => {
            let e = seq![(name, area)];
            assert(e.drop_last() =~= Seq::<(Seq<char>, Region)>::empty());
            assert(written(acc, e.drop_last()) == acc);
            assert(e.last() == (name, area));
            assert(written(acc, e) == acc.insert(name, area));
        },
        Shape::Container { children, .. } => {
            lemma_walk_writes_first(shape, area, children.len(), acc);
        },
    }
}

/// The walk of the first `k` children of a container gives what the
/// writing of the leaves below them gives.
proof fn lemma_walk_writes_first(shape: Shape, area: Region, k: nat, acc: Map<Seq<char>, Region>)
    requires
        shape is Container,
        k <= shape.children().len(),
    ensures
        shape.place_first(area, k, acc) == written(acc, entries_first(shape, area, k)),
    decreases shape, 0nat, k,
{
    if k > 0 {
        let children = shape.children();
        let region = child_region(
            area,
            shape->direction,
            shape->spacing,
            child_constraints(children),
            k - 1,
        );
        let before = shape.place_first(area, (k - 1) as nat, acc);
        lemma_walk_writes_first(shape, area, (k - 1) as nat, acc);
        lemma_walk_writes_entries(children[k - 1], region, before);
        lemma_written_append(
            acc,
            entries_first(shape, area, (k - 1) as nat),
            entries(children[k - 1], region),
        );
    }
}

/// A name is mapped, once the entries are written, exactly if it was
/// mapped before or some entry has it; and the names stay finitely many.
pub proof fn lemma_written_names(
    acc: Map<Seq<char>, Region>,
    e: Seq<(Seq<char>, Region)>,
    name: Seq<char>,
)
    ensures
        written(acc, e).dom().contains(name) <==> acc.dom().contains(name) || exists|i: int|
            0 <= i < e.len() && (#[trigger] e[i]).0 == name,
        acc.dom().finite() ==> written(acc, e).dom().finite(),
    decreases e.len(),
{
    if e.len() > 0 {
        let front = e.drop_last();
        lemma_written_names(acc, front, name);
        if written(acc, e).dom().contains(name) && !acc.dom().contains(name) {
            if e.last().0 == name {
                assert(e[e.len() - 1].0 == name);
            } else {
                let i = choose|i: int| 0 <= i < front.len() && (#[trigger] front[i]).0 == name;
                assert(e[i].0 == name);
            }
        }
        if exists|i: int| 0 <= i < e.len() && (#[trigger] e[i]).0 == name {
            let i = choose|i: int| 0 <= i < e.len() && (#[trigger] e[i]).0 == name;
            if i < front.len() {
                assert(front[i].0 == name);
            }
        }
    }
}

/// An entry that no later entry of the same name follows has its region
/// under its name once the entries are written, whatever was written
/// under that name before.
pub proof fn lemma_written_last_wins(
    acc: Map<Seq<char>, Region>,
    e: Seq<(Seq<char>, Region)>,
    i: int,
)
    requires
        0 <= i < e.len(),
        forall|j: int| i < j < e.len() ==> (#[trigger] e[j]).0 != e[i].0,
    ensures
        written(acc, e).dom().contains(e[i].0),
        written(acc, e)[e[i].0] == e[i].1,
    decreases e.len(),
{
    if i < e.len() - 1 {
        let front = e.drop_last();
        assert forall|j: int| i < j < front.len() implies (#[trigger] front[j]).0 != front[i].0 by {
            assert(e[j].0 != e[i].0);
        }
        lemma_written_last_wins(acc, front, i);
        assert(e[e.len() - 1].0 != e[i].0);
    }
}

/// With distinct names, as many names are mapped as there are entries.
pub proof fn lemma_written_count(e: Seq<(Seq<char>, Region)>)
    requires
        distinct(e),
    ensures
        written(Map::empty(), e).dom().finite(),
        written(Map::empty(), e).dom().len() == e.len(),
    decreases e.len(),
{
    if e.len() > 0 {
        let front = e.drop_last();
        let last = e.len() - 1;
        assert(distinct(front)) by {
            assert forall|a: int, b: int| 0 <= a < b < front.len() implies (#[trigger] front[a]).0
                != (#[trigger] front[b]).0 by {
                assert(e[a].0 != e[b].0);
            }
        }
        lemma_written_count(front);
        lemma_written_names(Map::empty(), front, e[last].0);
        if written(Map::empty(), front).dom().contains(e[last].0) {
            let i = choose|i: int| 0 <= i < front.len() && (#[trigger] front[i]).0 == e[last].0;
            assert(e[i].0 != e[last].0);
        }
    }
}

/// The layout maps exactly the names of the leaves of the tree.
pub proof fn lemma_layout_names(shape: Shape, area: Region, name: Seq<char>)
    ensures
        shape.layout(area).dom().finite(),
        shape.layout(area).dom().contains(name) <==> exists|i: int|
            0 <= i < entries(shape, area).len() && (#[trigger] entries(shape, area)[i]).0 == name,
{
    lemma_walk_writes_entries(shape, area, Map::empty());
    lemma_written_names(Map::empty(), entries(shape, area), name);
}

/// Of the leaves of one name, the one that the walk visits last has its
/// region in the layout: a leaf that no later leaf of the same name
/// follows is mapped to the region that it takes.
pub proof fn lemma_layout_holds_last_of_a_name(shape: Shape, area: Region, i: int)
    requires
        0 <= i < entries(shape, area).len(),
        forall|j: int|
            i < j < entries(shape, area).len() ==> (#[trigger] entries(shape, area)[j]).0
                != entries(shape, area)[i].0,
    ensures
        shape.layout(area).dom().contains(entries(shape, area)[i].0),
        shape.layout(area)[entries(shape, area)[i].0] == entries(shape, area)[i].1,
{
    lemma_walk_writes_entries(shape, area, Map::empty());
    lemma_written_last_wins(Map::empty(), entries(shape, area), i);
}

/// Where no two leaves have the same name, the layout has one entry for
/// every leaf, and every leaf is mapped to the region that it takes.
pub proof fn lemma_layout_of_distinct_names(shape: Shape, area: Region)
    requires
        distinct(entries(shape, area)),
    ensures
        shape.layout(area).dom().finite(),
        shape.layout(area).dom().len() == entries(shape, area).len(),
        forall|k: int|
            0 <= k < entries(shape, area).len() ==> shape.layout(area).dom().contains(
                (#[trigger] entries(shape, area)[k]).0,
            ) && shape.layout(area)[entries(shape, area)[k].0] == entries(shape, area)[k].1,
{
    let e = entries(shape, area);
    lemma_walk_writes_entries(shape, area, Map::empty());
    lemma_written_count(e);
    assert forall|k: int| 0 <= k < e.len() implies shape.layout(area).dom().contains(
        (#[trigger] e[k]).0,
    ) && shape.layout(area)[e[k].0] == e[k].1 by {
        assert forall|j: int| k < j < e.len() implies (#[trigger] e[j]).0 != e[k].0 by {
            assert(e[k].0 != e[j].0);
        }
        lemma_written_last_wins(Map::empty(), e, k);
    }
}

/// Where exactly two leaves have the same name, the layout has one entry
/// for that name, with the region of the one that the walk visits second.
/// It has one entry less than the tree has leaves, and every other leaf
/// is mapped to the region that it takes.
pub proof fn lemma_one_repeated_name(shape: Shape, area: Region, i: int, j: int)
    requires
        one_repeat(entries(shape, area), i, j),
    ensures
        shape.layout(area).dom().finite(),
        shape.layout(area).dom().len() == entries(shape, area).len() - 1,
        shape.layout(area).dom().contains(entries(shape, area)[j].0),
        shape.layout(area)[entries(shape, area)[j].0] == entries(shape, area)[j].1,
        forall|k: int|
            0 <= k < entries(shape, area).len() && k != i ==> shape.layout(area).dom().contains(
                (#[trigger] entries(shape, area)[k]).0,
            ) && shape.layout(area)[entries(shape, area)[k].0] == entries(shape, area)[k].1,
{
    let e = entries(shape, area);
    let layout = shape.layout(area);
    lemma_walk_writes_entries(shape, area, Map::empty());
    assert forall|k: int| 0 <= k < e.len() && k != i implies layout.dom().contains(
        (#[trigger] e[k]).0,
    ) && layout[e[k].0] == e[k].1 by {
        assert forall|b: int| k < b < e.len() implies (#[trigger] e[b]).0 != e[k].0 by {
            assert(e[k].0 != e[b].0);
        }
        lemma_written_last_wins(Map::empty(), e, k);
    }
    assert(layout.dom().contains(e[j].0) && layout[e[j].0] == e[j].1);
    // The names are those of the entries without the first of the two.
    let rest = Seq::new((e.len() - 1) as nat, |k: int| if k < i { e[k] } else { e[k + 1] });
    assert(distinct(rest)) by {
        assert forall|a: int, b: int| 0 <= a < b < rest.len() implies (#[trigger] rest[a]).0 != (
        #[trigger] rest[b]).0 by {
            let x = if a < i { a } else { a + 1 };
            let y = if b < i { b } else { b + 1 };
            assert(e[x].0 != e[y].0);
        }
    }
    lemma_written_count(rest);
    let other = written(Map::empty(), rest);
    assert forall|name: Seq<char>| layout.dom().contains(name) <==> other.dom().contains(
        name,
    ) by {
        lemma_written_names(Map::empty(), e, name);
        lemma_written_names(Map::empty(), rest, name);
        if layout.dom().contains(name) {
            let k = choose|k: int| 0 <= k < e.len() && (#[trigger] e[k]).0 == name;
            let at = if k == i { j - 1 } else if k < i { k } else { k - 1 };
            assert(rest[at].0 == name);
        }
        if other.dom().contains(name) {
            let k = choose|k: int| 0 <= k < rest.len() && (#[trigger] rest[k]).0 == name;
            let at = if k < i { k } else { k + 1 };
            assert(e[at].0 == name);
        }
    }
    assert(layout.dom() =~= other.dom());
}

/// Whether two trees are the same but for the names of their leaves.
pub open spec fn same_frame(a: Shape, b: Shape) -> bool
    decreases a,
{
    match a {
        Shape::Leaf { constraint, .. } => b is Leaf && b.constraint() == constraint,
        Shape::Container { direction, spacing, constraint, children } => {
            &&& b is Container
            &&& b->direction == direction
            &&& b->spacing == spacing
            &&& b.constraint() == constraint
            &&& b.children().len() == children.len()
            &&& forall|i: int|
                0 <= i < children.len() ==> same_frame(#[trigger] children[i], b.children()[i])
        },
    }
}

/// The names of the leaves move no region: two trees that are the same
/// but for those names have as many leaves, and each leaf takes the same
/// region in both.
pub proof fn lemma_names_move_no_region(a: Shape, b: Shape, area: Region)
    requires
        same_frame(a, b),
    ensures
        entries(a, area).len() == entries(b, area).len(),
        forall|k: int|
            0 <= k < entries(a, area).len() ==> (#[trigger] entries(a, area)[k]).1 == entries(
                b,
                area,
            )[k].1,
    decreases a, 1nat, 0nat,
{
    match a {
        Shape::Leaf { .. } => {},
        Shape::Container { children, .. } => {
            lemma_names_move_no_region_first(a, b, area, children.len());
        },
    }
}

/// The same of the leaves below the first `k` children of two containers.
proof fn lemma_names_move_no_region_first(a: Shape, b: Shape, area: Region, k: nat)
    requires
        same_frame(a, b),
        a is Container,
        k <= a.children().len(),
    ensures
        entries_first(a, area, k).len() == entries_first(b, area, k).len(),
        forall|n: int|
            0 <= n < entries_first(a, area, k).len() ==> (#[trigger] entries_first(a, area, k)[n]).1
                == entries_first(b, area, k)[n].1,
    decreases a, 0nat, k,
{
    if k > 0 {
        let ca = a.children();
        let cb = b.children();
        assert(child_constraints(ca) =~= child_constraints(cb)) by {
            assert forall|i: int| 0 <= i < ca.len() implies ca[i].constraint()
                == cb[i].constraint() by {
                assert(same_frame(ca[i], cb[i]));
            }
        }
        let region = child_region(area, a->direction, a->spacing, child_constraints(ca), k - 1);
        lemma_names_move_no_region_first(a, b, area, (k - 1) as nat);
        assert(same_frame(ca[k - 1], cb[k - 1]));
        lemma_names_move_no_region(ca[k - 1], cb[k - 1], region);
        let front_a = entries_first(a, area, (k - 1) as nat);
        let front_b = entries_first(b, area, (k - 1) as nat);
        let last_a = entries(ca[k - 1], region);
        let last_b = entries(cb[k - 1], region);
        assert(entries_first(a, area, k) == front_a + last_a);
        assert(entries_first(b, area, k) == front_b + last_b);
        assert forall|n: int| 0 <= n < (front_a + last_a).len() implies (#[trigger] (front_a
            + last_a)[n]).1 == (front_b + last_b)[n].1 by {
            if n < front_a.len() {
                assert(front_a[n].1 == front_b[n].1);
            } else {
                assert(last_a[n - front_a.len()].1 == last_b[n - front_a.len()].1);
            }
        }
    }
}

/// A repeated name changes nothing but its own entry: where exactly two
/// leaves of a tree have the same name, and another tree is the same but
/// that the first of the two has a name of its own, every other leaf is
/// mapped in both layouts to the same region.
pub proof fn lemma_repeat_changes_nothing_else(
    repeated: Shape,
    plain: Shape,
    area: Region,
    i: int,
    j: int,
)
    requires
        same_frame(repeated, plain),
        one_repeat(entries(repeated, area), i, j),
        distinct(entries(plain, area)),
        forall|k: int|
            0 <= k < entries(repeated, area).len() && k != i ==> (#[trigger] entries(
                repeated,
                area,
            )[k]).0 == entries(plain, area)[k].0,
    ensures
        forall|k: int|
            0 <= k < entries(repeated, area).len() && k != i ==> {
                let name = (#[trigger] entries(repeated, area)[k]).0;
                &&& repeated.layout(area).dom().contains(name)
                &&& plain.layout(area).dom().contains(name)
                &&& repeated.layout(area)[name] == plain.layout(area)[name]
            },
{
    lemma_names_move_no_region(repeated, plain, area);
    lemma_one_repeated_name(repeated, area, i, j);
    lemma_layout_of_distinct_names(plain, area);
    let e = entries(repeated, area);
    let p = entries(plain, area);
    assert forall|k: int| 0 <= k < e.len() && k != i implies {
        let name = (#[trigger] e[k]).0;
        &&& repeated.layout(area).dom().contains(name)
        &&& plain.layout(area).dom().contains(name)
        &&& repeated.layout(area)[name] == plain.layout(area)[name]
    } by {
        assert(e[k].1 == p[k].1);
        assert(p[k].0 == e[k].0);
        assert(plain.layout(area)[p[k].0] == p[k].1);
    }
}

} // verus!
