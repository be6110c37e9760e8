//! The mathematical model of a manifold's topology: a table with one row of
//! four slots for each edge record, each slot either unset or holding the
//! `Onext` of its position. `Splice` and its laws are stated here, on
//! tables alone.

use crate::node::{Node, QuadEdge};
use vstd::prelude::*;

verus! {

/// The next-pointer table of a manifold, rows in the order of the records.
pub type Table = Seq<Seq<Option<Node>>>;

/// The node at position `i` of the record with ordinal `q`.
pub open spec fn at(q: int, i: int) -> Node {
    Node { quad: QuadEdge { ordinal: q as usize }, index: i as u8 }
}

/// `n` names a position of a record of the table.
pub open spec fn holds(t: Table, n: Node) -> bool {
    (n.quad.ordinal as int) < t.len()
}

/// What the slot of `n` holds.
pub open spec fn slot(t: Table, n: Node) -> Option<Node> {
    t[n.quad.ordinal as int][n.canon().index as int]
}

/// `Onext(n)`, where the slot of `n` is set.
pub open spec fn onext(t: Table, n: Node) -> Node {
    slot(t, n).unwrap()
}

/// Every row has four slots.
pub open spec fn shaped(t: Table) -> bool {
    &&& t.len() <= usize::MAX
    &&& forall|q: int| 0 <= q < t.len() ==> (#[trigger] t[q]).len() == 4
}

/// Every row has four slots, and every slot that is set holds a position in
/// `0..4` of a record of this same table: no pointer dangles.
pub open spec fn well_formed(t: Table) -> bool {
    &&& shaped(t)
    &&& forall|q: int, i: int|
        0 <= q < t.len() && 0 <= i < 4 ==> match #[trigger] t[q][i] {
            Some(n) => n.wf() && holds(t, n),
            None => true,
        }
}

/// Every slot is set.
pub open spec fn complete(t: Table) -> bool {
    forall|q: int, i: int| 0 <= q < t.len() && 0 <= i < 4 ==> (#[trigger] t[q][i]) is Some
}

/// `Onext` never leads from a vertex position to a face position or back:
/// every slot that is set holds a position of its own parity.
pub open spec fn keeps_parity(t: Table) -> bool {
    forall|q: int, i: int|
        0 <= q < t.len() && 0 <= i < 4 ==> match #[trigger] t[q][i] {
            Some(n) => n.index as int % 2 == i % 2,
            None => true,
        }
}

/// `Onext` leads to no position from two places: no two slots that are set
/// hold the same position. Where every slot is set, `Onext` is then a
/// permutation of the positions.
pub open spec fn one_to_one(t: Table) -> bool {
    forall|q1: int, i1: int, q2: int, i2: int|
        0 <= q1 < t.len() && 0 <= i1 < 4 && 0 <= q2 < t.len() && 0 <= i2 < 4 && (
        #[trigger] t[q1][i1]) is Some && t[q1][i1] == #[trigger] t[q2][i2] ==> q1 == q2 && i1
            == i2
}

/// The table with the slot of `n` set to `target`.
#[verifier::opaque]
pub open spec fn with_next(t: Table, n: Node, target: Node) -> Table {
    let q = n.quad.ordinal as int;
    t.update(q, t[q].update(n.canon().index as int, Some(target.canon())))
}

/// The row of an isolated edge: its origin and its destination are rings
/// of one position each, and its two faces are one ring of two.
pub open spec fn isolated(q: QuadEdge) -> Seq<Option<Node>> {
    seq![Some(q.node(0)), Some(q.node(3)), Some(q.node(2)), Some(q.node(1))]
}

/// Both slots can be read, so their contents can be exchanged.
pub open spec fn can_swap(t: Table, a: Node, b: Node) -> bool {
    &&& holds(t, a)
    &&& holds(t, b)
    &&& slot(t, a) is Some
    &&& slot(t, b) is Some
}

/// The table with the contents of the slots of `a` and `b` exchanged.
#[verifier::opaque]
pub open spec fn swapped(t: Table, a: Node, b: Node) -> Table {
    with_next(with_next(t, a, onext(t, b)), b, onext(t, a))
}

/// `a` and `b` are of one parity, and both exchanges of `Splice` find their
/// slots set.
pub open spec fn can_splice(t: Table, a: Node, b: Node) -> bool {
    let s = swapped(t, a, b);
    &&& can_swap(t, a, b)
    &&& a.parity() == b.parity()
    &&& can_swap(s, onext(s, a).rot(), onext(s, b).rot())
}

/// `Splice(a, b)`: the next-pointers of `a` and `b` are exchanged, then
/// those of the duals `Rot(Onext(a))` and `Rot(Onext(b))`.
#[verifier::opaque]
pub open spec fn spliced(t: Table, a: Node, b: Node) -> Table {
    let s = swapped(t, a, b);
    swapped(s, onext(s, a).rot(), onext(s, b).rot())
}

/// Setting a slot changes that slot and no other.
pub proof fn with_next_slots(t: Table, n: Node, target: Node, m: Node)
    requires
        shaped(t),
        holds(t, n),
        holds(t, m),
    ensures
        shaped(with_next(t, n, target)),
        with_next(t, n, target).len() == t.len(),
        slot(with_next(t, n, target), m) == if m.canon() == n.canon() {
            Some(target.canon())
        } else {
            slot(t, m)
        },
{
    reveal(with_next);
}

/// Setting a slot to a position of the table keeps the table well formed.
pub proof fn with_next_well_formed(t: Table, n: Node, target: Node)
    requires
        well_formed(t),
        holds(t, n),
        holds(t, target),
    ensures
        well_formed(with_next(t, n, target)),
        with_next(t, n, target).len() == t.len(),
        complete(t) ==> complete(with_next(t, n, target)),
{
    reveal(with_next);
    let u = with_next(t, n, target);
    assert forall|q: int, i: int| 0 <= q < u.len() && 0 <= i < 4 implies match #[trigger] u[q][i] {
        Some(x) => x.wf() && holds(u, x),
        None => true,
    } by {
        assert(u[q][i] == t[q][i] || u[q][i] == Some(target.canon()));
    }
    if complete(t) {
        assert forall|q: int, i: int| 0 <= q < u.len() && 0 <= i < 4 implies (#[trigger] u[q][i])
            is Some by {
            assert(u[q][i] == t[q][i] || u[q][i] == Some(target.canon()));
        }
    }
}

/// Two tables of one shape that agree on every slot are the same table.
pub proof fn tables_equal(t: Table, u: Table)
    requires
        shaped(t),
        shaped(u),
        t.len() == u.len(),
        forall|q: int, i: int| 0 <= q < t.len() && 0 <= i < 4 ==> #[trigger] t[q][i] == u[q][i],
    ensures
        t == u,
{
    assert forall|q: int| 0 <= q < t.len() implies #[trigger] t[q] == u[q] by {
        assert(t[q].len() == 4 && u[q].len() == 4);
        assert(t[q] =~= u[q]);
    }
    assert(t =~= u);
}

/// What an exchange leaves in each slot: the slots of `a` and `b` hold each
/// other's former contents, every other slot holds what it held.
pub proof fn swapped_slots(t: Table, a: Node, b: Node, m: Node)
    requires
        well_formed(t),
        can_swap(t, a, b),
        holds(t, m),
    ensures
        slot(swapped(t, a, b), m) == if m.canon() == a.canon() {
            slot(t, b)
        } else if m.canon() == b.canon() {
            slot(t, a)
        } else {
            slot(t, m)
        },
{
    reveal(swapped);
    let u = with_next(t, a, onext(t, b));
    with_next_slots(t, a, onext(t, b), m);
    with_next_slots(u, b, onext(t, a), m);
}

/// An exchange keeps the number of records, the shape of the table, and
/// every pointer inside it.
pub proof fn swapped_well_formed(t: Table, a: Node, b: Node)
    requires
        well_formed(t),
        can_swap(t, a, b),
    ensures
        well_formed(swapped(t, a, b)),
        swapped(t, a, b).len() == t.len(),
        complete(t) ==> complete(swapped(t, a, b)),
{
    reveal(swapped);
    let u = with_next(t, a, onext(t, b));
    with_next_well_formed(t, a, onext(t, b));
    with_next_well_formed(u, b, onext(t, a));
}

/// In a table where every slot is set, two positions of one parity can
/// always be spliced.
pub proof fn complete_can_splice(t: Table, a: Node, b: Node)
    requires
        well_formed(t),
        complete(t),
        holds(t, a),
        holds(t, b),
        a.parity() == b.parity(),
    ensures
        can_splice(t, a, b),
{
    let s = swapped(t, a, b);
    swapped_well_formed(t, a, b);
    swapped_slots(t, a, b, a);
    swapped_slots(t, a, b, b);
    let x = onext(s, a).rot();
    let y = onext(s, b).rot();
    assert(s[x.quad.ordinal as int][x.canon().index as int] is Some);
    assert(s[y.quad.ordinal as int][y.canon().index as int] is Some);
}

/// `Splice` keeps the table well formed, with as many records as before.
pub proof fn spliced_well_formed(t: Table, a: Node, b: Node)
    requires
        well_formed(t),
        can_splice(t, a, b),
    ensures
        well_formed(spliced(t, a, b)),
        spliced(t, a, b).len() == t.len(),
        complete(t) ==> complete(spliced(t, a, b)),
{
    reveal(spliced);
    let s = swapped(t, a, b);
    swapped_well_formed(t, a, b);
    swapped_well_formed(s, onext(s, a).rot(), onext(s, b).rot());
}

/// The slot in row `q` and column `i`, by its node.
pub proof fn slot_at(t: Table, q: int, i: int)
    requires
        0 <= q < t.len() <= usize::MAX,
        0 <= i < 4,
    ensures
        holds(t, at(q, i)),
        slot(t, at(q, i)) == t[q][i],
{
}

/// The slot of a position of the table, by row and column.
pub proof fn slot_by_index(t: Table, n: Node)
    requires
        holds(t, n),
    ensures
        0 <= n.quad.ordinal < t.len(),
        0 <= n.canon().index < 4,
        n.canon().index as int % 2 == n.parity(),
        slot(t, n) == t[n.quad.ordinal as int][n.canon().index as int],
{
}

/// Where `Onext` keeps parity, `Splice(a, b)` is the exchange of Guibas and
/// Stolfi: `a` and `b` exchange their next-pointers, the duals
/// `Rot(Onext(a))` and `Rot(Onext(b))` exchange theirs, and every other slot
/// keeps its own.
pub proof fn spliced_slots(t: Table, a: Node, b: Node, m: Node)
    requires
        well_formed(t),
        keeps_parity(t),
        can_splice(t, a, b),
        holds(t, m),
    ensures
        slot(spliced(t, a, b), m) == if m.canon() == a.canon() {
            slot(t, b)
        } else if m.canon() == b.canon() {
            slot(t, a)
        } else if m.canon() == onext(t, b).rot() {
            slot(t, onext(t, a).rot())
        } else if m.canon() == onext(t, a).rot() {
            slot(t, onext(t, b).rot())
        } else {
            slot(t, m)
        },
{
    reveal(spliced);
    let s = swapped(t, a, b);
    let x = onext(s, a).rot();
    let y = onext(s, b).rot();
    swapped_well_formed(t, a, b);
    swapped_slots(t, a, b, a);
    swapped_slots(t, a, b, b);
    slot_by_index(t, a);
    slot_by_index(t, b);
    assert(x == onext(t, b).rot());
    assert(y == onext(t, a).rot());
    assert(x.parity() != a.parity());
    assert(y.parity() != a.parity());
    swapped_slots(t, a, b, x);
    swapped_slots(t, a, b, y);
    swapped_slots(t, a, b, m);
    swapped_slots(s, x, y, m);
}

/// What the slot of a position of a well-formed table holds is a position
/// in `0..4` of the same table.
pub proof fn slot_well_formed(t: Table, n: Node)
    requires
        well_formed(t),
        holds(t, n),
    ensures
        match slot(t, n) {
            Some(x) => x.wf() && holds(t, x) && x.canon() == x,
            None => true,
        },
{
    slot_by_index(t, n);
}

/// In a table that keeps parity, what a slot holds is of the parity of the
/// slot's own position.
pub proof fn slot_keeps_parity(t: Table, n: Node)
    requires
        keeps_parity(t),
        holds(t, n),
    ensures
        match slot(t, n) {
            Some(x) => x.parity() == n.parity(),
            None => true,
        },
{
    slot_by_index(t, n);
}

/// An exchange between two positions of one parity keeps the parity of
/// every next-pointer.
pub proof fn swapped_keeps_parity(t: Table, a: Node, b: Node)
    requires
        well_formed(t),
        keeps_parity(t),
        can_swap(t, a, b),
        a.parity() == b.parity(),
    ensures
        keeps_parity(swapped(t, a, b)),
{
    let u = swapped(t, a, b);
    swapped_well_formed(t, a, b);
    slot_keeps_parity(t, a);
    slot_keeps_parity(t, b);
    assert forall|q: int, i: int| 0 <= q < u.len() && 0 <= i < 4 implies match #[trigger] u[q][i] {
        Some(n) => n.index as int % 2 == i % 2,
        None => true,
    } by {
        swapped_slots(t, a, b, at(q, i));
        slot_keeps_parity(t, at(q, i));
        slot_at(u, q, i);
    }
}

/// After `Splice`, what a slot holds is still of the parity of the slot's
/// own position.
proof fn spliced_slot_parity(t: Table, a: Node, b: Node, m: Node)
    requires
        well_formed(t),
        keeps_parity(t),
        can_splice(t, a, b),
        holds(t, m),
    ensures
        match slot(spliced(t, a, b), m) {
            Some(x) => x.parity() == m.parity(),
            None => true,
        },
{
    let x = onext(t, b).rot();
    let y = onext(t, a).rot();
    spliced_slots(t, a, b, m);
    slot_well_formed(t, a);
    slot_well_formed(t, b);
    slot_keeps_parity(t, a);
    slot_keeps_parity(t, b);
    slot_keeps_parity(t, m);
    slot_keeps_parity(t, x);
    slot_keeps_parity(t, y);
}

/// `Splice` keeps the parity of every next-pointer.
pub proof fn spliced_keeps_parity(t: Table, a: Node, b: Node)
    requires
        well_formed(t),
        keeps_parity(t),
        can_splice(t, a, b),
    ensures
        keeps_parity(spliced(t, a, b)),
{
    let u = spliced(t, a, b);
    spliced_well_formed(t, a, b);
    assert forall|q: int, i: int| 0 <= q < u.len() && 0 <= i < 4 implies match #[trigger] u[q][i] {
        Some(n) => n.index as int % 2 == i % 2,
        None => true,
    } by {
        spliced_slot_parity(t, a, b, at(q, i));
        slot_at(u, q, i);
    }
}

/// The two duals whose next-pointers `Splice(a, b)` exchanges are positions
/// of the table with their slots set, and of the other parity than `a` and
/// `b`.
proof fn splice_duals(t: Table, a: Node, b: Node)
    requires
        well_formed(t),
        keeps_parity(t),
        can_splice(t, a, b),
    ensures
        can_swap(t, onext(t, b).rot(), onext(t, a).rot()),
        onext(t, b).rot().parity() != a.parity(),
        onext(t, a).rot().parity() != a.parity(),
        onext(t, b).rot() != a.canon(),
        onext(t, b).rot() != b.canon(),
        onext(t, a).rot() != a.canon(),
        onext(t, a).rot() != b.canon(),
        onext(t, b).rot().canon() == onext(t, b).rot(),
        onext(t, a).rot().canon() == onext(t, a).rot(),
        onext(swapped(t, a, b), a) == onext(t, b),
        onext(swapped(t, a, b), b) == onext(t, a),
{
    let x = onext(t, b).rot();
    let y = onext(t, a).rot();
    slot_well_formed(t, a);
    slot_well_formed(t, b);
    slot_keeps_parity(t, a);
    slot_keeps_parity(t, b);
    swapped_well_formed(t, a, b);
    swapped_slots(t, a, b, a);
    swapped_slots(t, a, b, b);
    swapped_slots(t, a, b, x);
    swapped_slots(t, a, b, y);
}

/// After `Splice(a, b)` the same two positions can be spliced again, and
/// their next-pointers are each other's former ones.
proof fn spliced_can_splice(t: Table, a: Node, b: Node)
    requires
        well_formed(t),
        keeps_parity(t),
        can_splice(t, a, b),
    ensures
        can_splice(spliced(t, a, b), a, b),
        onext(spliced(t, a, b), a) == onext(t, b),
        onext(spliced(t, a, b), b) == onext(t, a),
{
    let u = spliced(t, a, b);
    let x = onext(t, b).rot();
    let y = onext(t, a).rot();
    splice_duals(t, a, b);
    spliced_well_formed(t, a, b);
    spliced_slots(t, a, b, a);
    spliced_slots(t, a, b, b);
    spliced_slots(t, a, b, x);
    spliced_slots(t, a, b, y);
    assert(can_swap(u, a, b));
    assert(can_swap(u, x, y));
    swapped_well_formed(u, a, b);
    swapped_slots(u, a, b, a);
    swapped_slots(u, a, b, b);
    swapped_slots(u, a, b, x);
    swapped_slots(u, a, b, y);
}

/// After `Splice(a, b)` twice, a slot holds what it held.
proof fn splice_twice_slot(t: Table, a: Node, b: Node, m: Node)
    requires
        well_formed(t),
        keeps_parity(t),
        can_splice(t, a, b),
        holds(t, m),
    ensures
        slot(spliced(spliced(t, a, b), a, b), m) == slot(t, m),
{
    let u = spliced(t, a, b);
    let v = spliced(u, a, b);
    let x = onext(t, b).rot();
    let y = onext(t, a).rot();
    spliced_well_formed(t, a, b);
    spliced_keeps_parity(t, a, b);
    spliced_can_splice(t, a, b);
    splice_duals(t, a, b);
    spliced_slots(u, a, b, m);
    if m.canon() == a.canon() {
        spliced_slots(t, a, b, b);
        assert(slot(v, m) == slot(u, b));
        assert(slot(u, b) == slot(t, a));
    } else if m.canon() == b.canon() {
        spliced_slots(t, a, b, a);
        assert(slot(v, m) == slot(u, a));
        assert(slot(u, a) == slot(t, b));
    } else if m.canon() == y {
        spliced_slots(t, a, b, x);
        assert(slot(v, m) == slot(u, x));
        assert(slot(u, x) == slot(t, y));
    } else if m.canon() == x {
        spliced_slots(t, a, b, y);
        assert(slot(v, m) == slot(u, y));
        assert(slot(u, y) == slot(t, x));
    } else {
        spliced_slots(t, a, b, m);
        assert(slot(v, m) == slot(u, m));
    }
}

/// `Splice` undoes itself: after `Splice(a, b)` the same two positions can be
/// spliced again, and doing so restores every next-pointer of every record.
pub proof fn splice_twice(t: Table, a: Node, b: Node)
    requires
        well_formed(t),
        keeps_parity(t),
        can_splice(t, a, b),
    ensures
        can_splice(spliced(t, a, b), a, b),
        spliced(spliced(t, a, b), a, b) == t,
{
    let u = spliced(t, a, b);
    let v = spliced(u, a, b);
    spliced_well_formed(t, a, b);
    spliced_keeps_parity(t, a, b);
    spliced_can_splice(t, a, b);
    spliced_well_formed(u, a, b);
    assert forall|q: int, i: int| 0 <= q < v.len() && 0 <= i < 4 implies #[trigger] v[q][i]
        == t[q][i] by {
        splice_twice_slot(t, a, b, at(q, i));
        slot_at(v, q, i);
        slot_at(t, q, i);
    }
    tables_equal(v, t);
}

/// The position whose former next-pointer the slot of `m` holds after the
/// slots of `a` and `b` have exchanged their contents.
pub open spec fn exchanged(a: Node, b: Node, m: Node) -> Node {
    if m.canon() == a.canon() {
        b.canon()
    } else if m.canon() == b.canon() {
        a.canon()
    } else {
        m.canon()
    }
}

/// In a one-to-one table, two slots that hold the same position are one
/// slot.
pub proof fn same_slot(t: Table, n: Node, m: Node)
    requires
        one_to_one(t),
        holds(t, n),
        holds(t, m),
        slot(t, n) is Some,
        slot(t, n) == slot(t, m),
    ensures
        n.canon() == m.canon(),
{
    slot_by_index(t, n);
    slot_by_index(t, m);
}

/// An exchange keeps a one-to-one table one-to-one.
pub proof fn swapped_one_to_one(t: Table, a: Node, b: Node)
    requires
        well_formed(t),
        one_to_one(t),
        can_swap(t, a, b),
    ensures
        one_to_one(swapped(t, a, b)),
{
    let u = swapped(t, a, b);
    swapped_well_formed(t, a, b);
    assert forall|q1: int, i1: int, q2: int, i2: int|
        0 <= q1 < u.len() && 0 <= i1 < 4 && 0 <= q2 < u.len() && 0 <= i2 < 4 && (
        #[trigger] u[q1][i1]) is Some && u[q1][i1] == #[trigger] u[q2][i2] implies q1 == q2 && i1
        == i2 by {
        let m1 = at(q1, i1);
        let m2 = at(q2, i2);
        slot_at(u, q1, i1);
        slot_at(u, q2, i2);
        swapped_slots(t, a, b, m1);
        swapped_slots(t, a, b, m2);
        let s1 = exchanged(a, b, m1);
        let s2 = exchanged(a, b, m2);
        assert(slot(u, m1) == slot(t, s1));
        assert(slot(u, m2) == slot(t, s2));
        same_slot(t, s1, s2);
    }
}

/// `Splice` keeps a one-to-one table one-to-one: where `Onext` was a
/// permutation of the positions, it is one still.
pub proof fn spliced_one_to_one(t: Table, a: Node, b: Node)
    requires
        well_formed(t),
        one_to_one(t),
        can_splice(t, a, b),
    ensures
        one_to_one(spliced(t, a, b)),
{
    reveal(spliced);
    let s = swapped(t, a, b);
    swapped_well_formed(t, a, b);
    swapped_one_to_one(t, a, b);
    swapped_one_to_one(s, onext(s, a).rot(), onext(s, b).rot());
}

/// `Splice(a, b)` and `Splice(b, a)` are the same surgery.
pub proof fn splice_symmetric(t: Table, a: Node, b: Node)
    requires
        well_formed(t),
        keeps_parity(t),
        can_splice(t, a, b),
    ensures
        can_splice(t, b, a),
        spliced(t, b, a) == spliced(t, a, b),
{
    reveal(spliced);
    let s = swapped(t, a, b);
    let r = swapped(t, b, a);
    swapped_well_formed(t, a, b);
    swapped_well_formed(t, b, a);
    assert forall|q: int, i: int| 0 <= q < s.len() && 0 <= i < 4 implies #[trigger] s[q][i]
        == r[q][i] by {
        let m = at(q, i);
        swapped_slots(t, a, b, m);
        swapped_slots(t, b, a, m);
        assert(slot(s, m) == s[q][i]);
        assert(slot(r, m) == r[q][i]);
    }
    tables_equal(s, r);
    let x = onext(s, a).rot();
    let y = onext(s, b).rot();
    let u = swapped(s, x, y);
    let v = swapped(s, y, x);
    swapped_well_formed(s, x, y);
    swapped_well_formed(s, y, x);
    assert forall|q: int, i: int| 0 <= q < u.len() && 0 <= i < 4 implies #[trigger] u[q][i]
        == v[q][i] by {
        let m = at(q, i);
        swapped_slots(s, x, y, m);
        swapped_slots(s, y, x, m);
        assert(slot(u, m) == u[q][i]);
        assert(slot(v, m) == v[q][i]);
    }
    tables_equal(u, v);
}

/// A table with the row of an isolated edge added for a new record: the
/// new record's four next-pointers form the pattern of an isolated edge, and
/// whatever held of the table before (no dangling pointer, every slot set,
/// parity kept) holds of it still.
pub proof fn pushed_isolated(t: Table, q: QuadEdge)
    requires
        well_formed(t),
        q.ordinal == t.len(),
        t.len() < usize::MAX,
    ensures
        well_formed(t.push(isolated(q))),
        complete(t) ==> complete(t.push(isolated(q))),
        keeps_parity(t) ==> keeps_parity(t.push(isolated(q))),
        one_to_one(t) ==> one_to_one(t.push(isolated(q))),
        onext(t.push(isolated(q)), q.node(0)) == q.node(0),
        onext(t.push(isolated(q)), q.node(1)) == q.node(3),
        onext(t.push(isolated(q)), q.node(2)) == q.node(2),
        onext(t.push(isolated(q)), q.node(3)) == q.node(1),
{
    let u = t.push(isolated(q));
    assert forall|r: int, i: int| 0 <= r < u.len() && 0 <= i < 4 implies match #[trigger] u[r][i] {
        Some(n) => n.wf() && holds(u, n),
        None => true,
    } by {
        if r < t.len() {
            assert(u[r][i] == t[r][i]);
        }
    }
    if complete(t) {
        assert forall|r: int, i: int| 0 <= r < u.len() && 0 <= i < 4 implies (#[trigger] u[r][i])
            is Some by {
            if r < t.len() {
                assert(u[r][i] == t[r][i]);
            }
        }
    }
    if keeps_parity(t) {
        assert forall|r: int, i: int| 0 <= r < u.len() && 0 <= i < 4 implies match #[trigger] u[r][i] {
            Some(n) => n.index as int % 2 == i % 2,
            None => true,
        } by {
            if r < t.len() {
                assert(u[r][i] == t[r][i]);
            }
        }
    }
    if one_to_one(t) {
        assert forall|q1: int, i1: int, q2: int, i2: int|
            0 <= q1 < u.len() && 0 <= i1 < 4 && 0 <= q2 < u.len() && 0 <= i2 < 4 && (
            #[trigger] u[q1][i1]) is Some && u[q1][i1] == #[trigger] u[q2][i2] implies q1 == q2
            && i1 == i2 by {
            if q1 < t.len() {
                assert(u[q1][i1] == t[q1][i1]);
            }
            if q2 < t.len() {
                assert(u[q2][i2] == t[q2][i2]);
            }
        }
    }
}

/// In a table that keeps parity, `Onext` of a vertex position is a vertex
/// position and `Onext` of a face position is a face position.
pub proof fn onext_keeps_parity(t: Table, n: Node)
    requires
        keeps_parity(t),
        holds(t, n),
        slot(t, n) is Some,
    ensures
        onext(t, n).parity() == n.parity(),
{
    slot_by_index(t, n);
}

/// `Oprev`: the next edge clockwise around the origin, which is
/// `Rot`, then `Onext`, then `Rot`.
pub open spec fn oprev(t: Table, n: Node) -> Node {
    onext(t, n.rot()).rot()
}

/// `Lnext`: the next edge counter-clockwise around the left face, which is
/// `InvRot`, then `Onext`, then `Rot`.
pub open spec fn lnext(t: Table, n: Node) -> Node {
    onext(t, n.inv_rot()).rot()
}

/// `Rnext`: the next edge counter-clockwise around the right face, which is
/// `Rot`, then `Onext`, then `InvRot`.
pub open spec fn rnext(t: Table, n: Node) -> Node {
    onext(t, n.rot()).inv_rot()
}

/// `Dnext`: the next edge counter-clockwise around the destination, which
/// is `Sym`, then `Onext`, then `Sym`.
pub open spec fn dnext(t: Table, n: Node) -> Node {
    onext(t, n.sym()).sym()
}

} // verus!
