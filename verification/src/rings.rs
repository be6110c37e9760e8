//! Rings: the cycles of `Onext`, and what an exchange of two next-pointers
//! does to them. Two rings become one, or one ring becomes two.

use crate::node::Node;
use crate::table::{
    can_splice, can_swap, complete, complete_can_splice, holds, keeps_parity, one_to_one, onext,
    same_slot, slot, slot_by_index, slot_keeps_parity, slot_well_formed, spliced, spliced_slots,
    spliced_well_formed, swapped, swapped_keeps_parity, swapped_slots, swapped_well_formed,
    well_formed, Table,
};
use vstd::prelude::*;

verus! {

/// The position reached from `n` by `k` steps of `Onext`.
pub open spec fn onext_times(t: Table, n: Node, k: nat) -> Node
    decreases k,
{
    if k == 0 {
        n.canon()
    } else {
        onext(t, onext_times(t, n, (k - 1) as nat))
    }
}

/// The ring of `n` has `p` positions: `p` steps of `Onext` lead from `n`
/// back to `n`, and fewer do not.
pub open spec fn ring_length(t: Table, n: Node, p: nat) -> bool {
    &&& p > 0
    &&& onext_times(t, n, p) == n.canon()
    &&& forall|k: nat| 0 < k < p ==> #[trigger] onext_times(t, n, k) != n.canon()
}

/// `m` lies on the ring of `n`: some number of steps of `Onext` leads from
/// `n` to `m`.
pub open spec fn on_ring(t: Table, n: Node, m: Node) -> bool {
    exists|k: nat| #[trigger] onext_times(t, n, k) == m.canon()
}

/// A table of a manifold in which every slot is set.
pub open spec fn full_table(t: Table) -> bool {
    well_formed(t) && complete(t)
}

/// Steps of `Onext` never leave the table.
pub proof fn onext_times_holds(t: Table, n: Node, k: nat)
    requires
        full_table(t),
        holds(t, n),
    ensures
        holds(t, onext_times(t, n, k)),
        onext_times(t, n, k).canon() == onext_times(t, n, k),
        slot(t, onext_times(t, n, k)) is Some,
    decreases k,
{
    if k > 0 {
        onext_times_holds(t, n, (k - 1) as nat);
        slot_well_formed(t, onext_times(t, n, (k - 1) as nat));
    }
    let c = onext_times(t, n, k);
    slot_by_index(t, c);
}

/// One step of `Onext` after an exchange of the next-pointers of `a` and
/// `b`: from `a` it leads where it led from `b`, from `b` where it led from
/// `a`, and from any other position where it led before.
pub proof fn swapped_step(t: Table, a: Node, b: Node, c: Node)
    requires
        full_table(t),
        holds(t, a),
        holds(t, b),
        holds(t, c),
    ensures
        can_swap(t, a, b),
        full_table(swapped(t, a, b)),
        swapped(t, a, b).len() == t.len(),
        onext(swapped(t, a, b), c) == if c.canon() == a.canon() {
            onext(t, b)
        } else if c.canon() == b.canon() {
            onext(t, a)
        } else {
            onext(t, c)
        },
{
    slot_by_index(t, a);
    slot_by_index(t, b);
    swapped_well_formed(t, a, b);
    swapped_slots(t, a, b, c);
}

/// `i` steps and then `j` steps are `i + j` steps.
pub proof fn onext_times_add(t: Table, n: Node, i: nat, j: nat)
    requires
        full_table(t),
        holds(t, n),
    ensures
        onext_times(t, n, i + j) == onext_times(t, onext_times(t, n, i), j),
    decreases j,
{
    onext_times_holds(t, n, i);
    if j > 0 {
        onext_times_add(t, n, i, (j - 1) as nat);
        assert(i + j - 1 == i + (j - 1));
    }
}

/// A walk in the table after an exchange, beside a walk in the table
/// before it: if their first steps lead to the same position, and the walk
/// before the exchange stays clear of `a` and `b` for the next `k - 1`
/// steps, the two walks are at the same position after `k` steps.
proof fn walk_together(t: Table, a: Node, b: Node, n: Node, m: Node, k: nat)
    requires
        full_table(t),
        holds(t, a),
        holds(t, b),
        holds(t, n),
        holds(t, m),
        k > 0,
        onext(swapped(t, a, b), n) == onext(t, m),
        forall|i: nat|
            0 < i < k ==> #[trigger] onext_times(t, m, i) != a.canon() && onext_times(t, m, i)
                != b.canon(),
    ensures
        onext_times(swapped(t, a, b), n, k) == onext_times(t, m, k),
    decreases k,
{
    let s = swapped(t, a, b);
    if k == 1 {
        assert(onext_times(s, n, 0) == n.canon());
        assert(onext_times(t, m, 0) == m.canon());
    } else {
        let j = (k - 1) as nat;
        walk_together(t, a, b, n, m, j);
        let c = onext_times(t, m, j);
        onext_times_holds(t, m, j);
        swapped_step(t, a, b, c);
    }
}

/// `Onext` is a permutation along a ring: the positions met in the first
/// `p` steps round a ring of `p` positions are all different.
pub proof fn ring_positions_differ(t: Table, n: Node, p: nat, i: nat, j: nat)
    requires
        full_table(t),
        one_to_one(t),
        holds(t, n),
        ring_length(t, n, p),
        i < j < p,
    ensures
        onext_times(t, n, i) != onext_times(t, n, j),
    decreases i,
{
    if i > 0 {
        let ci = onext_times(t, n, (i - 1) as nat);
        let cj = onext_times(t, n, (j - 1) as nat);
        ring_positions_differ(t, n, p, (i - 1) as nat, (j - 1) as nat);
        onext_times_holds(t, n, (i - 1) as nat);
        onext_times_holds(t, n, (j - 1) as nat);
        if onext_times(t, n, i) == onext_times(t, n, j) {
            same_slot(t, ci, cj);
        }
    }
}

/// A walk round a ring of `p` positions is at the same position after `k`
/// steps and after `k + p`.
pub proof fn ring_repeats(t: Table, n: Node, p: nat, k: nat)
    requires
        full_table(t),
        holds(t, n),
        ring_length(t, n, p),
    ensures
        onext_times(t, n, k + p) == onext_times(t, n, k),
    decreases k,
{
    if k > 0 {
        ring_repeats(t, n, p, (k - 1) as nat);
        assert(k + p - 1 == (k - 1) + p);
    }
}

/// Every position on a ring of `p` positions is met in fewer than `p`
/// steps.
pub proof fn ring_within(t: Table, n: Node, p: nat, k: nat) -> (i: nat)
    requires
        full_table(t),
        holds(t, n),
        ring_length(t, n, p),
    ensures
        i < p,
        onext_times(t, n, i) == onext_times(t, n, k),
    decreases k,
{
    if k < p {
        k
    } else {
        let j = (k - p) as nat;
        ring_repeats(t, n, p, j);
        ring_within(t, n, p, j)
    }
}

/// A walk goes by the position that a handle stands for, whatever number
/// the handle carries.
pub proof fn onext_times_canon(t: Table, n: Node, k: nat)
    ensures
        onext_times(t, n.canon(), k) == onext_times(t, n, k),
    decreases k,
{
    if k > 0 {
        onext_times_canon(t, n, (k - 1) as nat);
    }
}

/// Where `b` lies `j` steps after `a`, a walk from `b` is a walk from `a`
/// that is `j` steps ahead.
proof fn walk_from_later(t: Table, a: Node, b: Node, j: nat, i: nat)
    requires
        full_table(t),
        holds(t, a),
        onext_times(t, a, j) == b.canon(),
    ensures
        onext_times(t, b, i) == onext_times(t, a, j + i),
{
    onext_times_add(t, a, j, i);
    onext_times_canon(t, b, i);
}

/// An exchange of the next-pointers of two positions on different rings
/// makes one ring of the two. The new ring leaves `a` along what was the
/// ring of `b`, comes to `b`, goes on along what was the ring of `a`, and
/// closes at `a`.
pub proof fn exchange_joins_rings(t: Table, a: Node, b: Node, p: nat, r: nat)
    requires
        full_table(t),
        holds(t, a),
        holds(t, b),
        ring_length(t, a, p),
        ring_length(t, b, r),
        !on_ring(t, a, b),
        !on_ring(t, b, a),
    ensures
        ring_length(swapped(t, a, b), a, p + r),
        on_ring(swapped(t, a, b), a, b),
        forall|k: nat|
            0 < k <= r ==> #[trigger] onext_times(swapped(t, a, b), a, k) == onext_times(t, b, k),
        forall|k: nat|
            0 < k <= p ==> #[trigger] onext_times(swapped(t, a, b), a, r + k) == onext_times(
                t,
                a,
                k,
            ),
{
    let s = swapped(t, a, b);
    swapped_step(t, a, b, a);
    swapped_step(t, a, b, b);
    assert(a.canon() != b.canon()) by {
        assert(onext_times(t, a, 0) == a.canon());
    }
    assert forall|k: nat| 0 < k <= r implies #[trigger] onext_times(s, a, k) == onext_times(
        t,
        b,
        k,
    ) by {
        walk_together(t, a, b, a, b, k);
    }
    assert forall|k: nat| 0 < k <= p implies #[trigger] onext_times(s, a, r + k) == onext_times(
        t,
        a,
        k,
    ) by {
        walk_together(t, a, b, b, a, k);
        onext_times_add(s, a, r, k);
        onext_times_canon(s, b, k);
    }
    assert(onext_times(s, a, r) == b.canon());
    assert(onext_times(s, a, r + p) == a.canon());
    assert forall|k: nat| 0 < k < p + r implies #[trigger] onext_times(s, a, k) != a.canon() by {
        if k > r {
            let i = (k - r) as nat;
            assert(onext_times(s, a, r + i) == onext_times(t, a, i));
        }
    }
}

/// An exchange of the next-pointers of two positions on one ring makes two
/// rings of it. Where `b` lay `j` steps after `a` on a ring of `p`
/// positions, the ring of `a` keeps the `p - j` positions from `b`'s
/// successor round to `a`, and the ring of `b` takes the `j` positions from
/// `a`'s successor to `b`.
pub proof fn exchange_splits_ring(t: Table, a: Node, b: Node, p: nat, j: nat)
    requires
        full_table(t),
        one_to_one(t),
        holds(t, a),
        holds(t, b),
        ring_length(t, a, p),
        0 < j < p,
        onext_times(t, a, j) == b.canon(),
    ensures
        ring_length(swapped(t, a, b), a, (p - j) as nat),
        ring_length(swapped(t, a, b), b, j),
        !on_ring(swapped(t, a, b), a, b),
        !on_ring(swapped(t, a, b), b, a),
        forall|k: nat|
            0 < k <= p - j ==> #[trigger] onext_times(swapped(t, a, b), a, k) == onext_times(
                t,
                a,
                j + k,
            ),
        forall|k: nat|
            0 < k <= j ==> #[trigger] onext_times(swapped(t, a, b), b, k) == onext_times(t, a, k),
{
    let s = swapped(t, a, b);
    let q = (p - j) as nat;
    swapped_step(t, a, b, a);
    swapped_step(t, a, b, b);
    assert(a.canon() != b.canon());
    assert forall|k: nat| 0 < k <= q implies #[trigger] onext_times(s, a, k) == onext_times(
        t,
        a,
        j + k,
    ) by {
        assert forall|i: nat| 0 < i < k implies #[trigger] onext_times(t, b, i) != a.canon()
            && onext_times(t, b, i) != b.canon() by {
            walk_from_later(t, a, b, j, i);
            ring_positions_differ(t, a, p, j, j + i);
        }
        walk_together(t, a, b, a, b, k);
        walk_from_later(t, a, b, j, k);
    }
    assert forall|k: nat| 0 < k <= j implies #[trigger] onext_times(s, b, k) == onext_times(
        t,
        a,
        k,
    ) by {
        assert forall|i: nat| 0 < i < k implies #[trigger] onext_times(t, a, i) != a.canon()
            && onext_times(t, a, i) != b.canon() by {
            ring_positions_differ(t, a, p, i, j);
        }
        walk_together(t, a, b, b, a, k);
    }
    assert(ring_length(s, a, q)) by {
        assert(onext_times(s, a, q) == onext_times(t, a, j + q));
        assert forall|k: nat| 0 < k < q implies #[trigger] onext_times(s, a, k) != a.canon() by {
            assert(onext_times(s, a, k) == onext_times(t, a, j + k));
        }
    }
    assert(ring_length(s, b, j)) by {
        assert(onext_times(s, b, j) == onext_times(t, a, j));
        assert forall|k: nat| 0 < k < j implies #[trigger] onext_times(s, b, k) != b.canon() by {
            assert(onext_times(s, b, k) == onext_times(t, a, k));
            ring_positions_differ(t, a, p, k, j);
        }
    }
    assert forall|k: nat| #[trigger] onext_times(s, a, k) != b.canon() by {
        let i = ring_within(s, a, q, k);
        if i > 0 {
            assert(onext_times(s, a, i) == onext_times(t, a, j + i));
            ring_positions_differ(t, a, p, j, j + i);
        } else {
            assert(onext_times(s, a, 0) == a.canon());
        }
    }
    assert forall|k: nat| #[trigger] onext_times(s, b, k) != a.canon() by {
        let i = ring_within(s, b, j, k);
        if i > 0 {
            assert(onext_times(s, b, i) == onext_times(t, a, i));
        } else {
            assert(onext_times(s, b, 0) == b.canon());
        }
    }
}

/// Where `Onext` keeps parity, a walk stays among the positions of the
/// parity it started with.
pub proof fn onext_times_parity(t: Table, n: Node, k: nat)
    requires
        full_table(t),
        keeps_parity(t),
        holds(t, n),
    ensures
        onext_times(t, n, k).parity() == n.parity(),
    decreases k,
{
    if k > 0 {
        let c = onext_times(t, n, (k - 1) as nat);
        onext_times_parity(t, n, (k - 1) as nat);
        onext_times_holds(t, n, (k - 1) as nat);
        slot_keeps_parity(t, c);
    }
}

/// Two tables agree on every slot of the positions of the parity of `n`.
pub open spec fn agree_beside(t: Table, u: Table, n: Node) -> bool {
    &&& t.len() == u.len()
    &&& forall|m: Node|
        holds(t, m) && m.parity() == n.parity() ==> #[trigger] slot(u, m) == slot(t, m)
}

/// In two tables that agree on the slots of one parity, the walks from a
/// position of that parity are the same walk.
pub proof fn walks_agree(t: Table, u: Table, n: Node, k: nat)
    requires
        full_table(t),
        keeps_parity(t),
        holds(t, n),
        agree_beside(t, u, n),
    ensures
        onext_times(u, n, k) == onext_times(t, n, k),
    decreases k,
{
    if k > 0 {
        let c = onext_times(t, n, (k - 1) as nat);
        walks_agree(t, u, n, (k - 1) as nat);
        onext_times_parity(t, n, (k - 1) as nat);
        onext_times_holds(t, n, (k - 1) as nat);
        assert(slot(u, c) == slot(t, c));
    }
}

/// `Rot(Onext(n))`: the position whose next-pointer `Splice` exchanges
/// along with that of `n`.
pub open spec fn dual(t: Table, n: Node) -> Node {
    onext(t, n).rot()
}

/// `Splice(a, b)` is two exchanges, one for each parity. Among the
/// positions of the parity of `a` and `b` it is the exchange of the
/// next-pointers of `a` and `b`; among the positions of the other parity
/// it is the exchange of those of `Rot(Onext(a))` and `Rot(Onext(b))`.
pub proof fn splice_as_exchanges(t: Table, a: Node, b: Node, n: Node)
    requires
        full_table(t),
        keeps_parity(t),
        holds(t, a),
        holds(t, b),
        holds(t, n),
        a.parity() == b.parity(),
    ensures
        can_splice(t, a, b),
        full_table(spliced(t, a, b)),
        n.parity() == a.parity() ==> agree_beside(swapped(t, a, b), spliced(t, a, b), n),
        n.parity() != a.parity() ==> agree_beside(
            swapped(t, dual(t, a), dual(t, b)),
            spliced(t, a, b),
            n,
        ),
{
    let v = spliced(t, a, b);
    let x = dual(t, a);
    let y = dual(t, b);
    complete_can_splice(t, a, b);
    spliced_well_formed(t, a, b);
    slot_well_formed(t, a);
    slot_well_formed(t, b);
    slot_keeps_parity(t, a);
    slot_keeps_parity(t, b);
    slot_by_index(t, x);
    slot_by_index(t, y);
    swapped_well_formed(t, a, b);
    swapped_well_formed(t, x, y);
    if n.parity() == a.parity() {
        let s = swapped(t, a, b);
        assert forall|m: Node| holds(s, m) && m.parity() == n.parity() implies #[trigger] slot(
            v,
            m,
        ) == slot(s, m) by {
            spliced_slots(t, a, b, m);
            swapped_slots(t, a, b, m);
        }
    } else {
        let s = swapped(t, x, y);
        assert forall|m: Node| holds(s, m) && m.parity() == n.parity() implies #[trigger] slot(
            v,
            m,
        ) == slot(s, m) by {
            spliced_slots(t, a, b, m);
            swapped_slots(t, x, y, m);
        }
    }
}

/// In two tables that agree on the slots of the parity of `n`, the ring of
/// `n` is the same ring.
pub proof fn rings_agree(t: Table, u: Table, n: Node, m: Node, p: nat)
    requires
        full_table(t),
        keeps_parity(t),
        holds(t, n),
        agree_beside(t, u, n),
    ensures
        ring_length(u, n, p) == ring_length(t, n, p),
        on_ring(u, n, m) == on_ring(t, n, m),
{
    walks_agree(t, u, n, p);
    if ring_length(t, n, p) {
        assert forall|k: nat| 0 < k < p implies #[trigger] onext_times(u, n, k) != n.canon() by {
            walks_agree(t, u, n, k);
        }
    }
    if ring_length(u, n, p) {
        assert forall|k: nat| 0 < k < p implies #[trigger] onext_times(t, n, k) != n.canon() by {
            walks_agree(t, u, n, k);
        }
    }
    if on_ring(t, n, m) {
        let k = choose|k: nat| #[trigger] onext_times(t, n, k) == m.canon();
        walks_agree(t, u, n, k);
    }
    if on_ring(u, n, m) {
        let k = choose|k: nat| #[trigger] onext_times(u, n, k) == m.canon();
        walks_agree(t, u, n, k);
    }
}

/// The duals of two positions of one parity are positions of the table, of
/// one parity, which is the other one.
proof fn duals_hold(t: Table, a: Node, b: Node)
    requires
        full_table(t),
        keeps_parity(t),
        holds(t, a),
        holds(t, b),
        a.parity() == b.parity(),
    ensures
        holds(t, dual(t, a)),
        holds(t, dual(t, b)),
        dual(t, a).parity() == dual(t, b).parity(),
        dual(t, a).parity() != a.parity(),
{
    slot_by_index(t, a);
    slot_by_index(t, b);
    slot_well_formed(t, a);
    slot_well_formed(t, b);
    slot_keeps_parity(t, a);
    slot_keeps_parity(t, b);
}

/// `Splice(a, b)` where `a` and `b` lie on different rings: the two rings
/// become one, which holds the positions of both.
pub proof fn splice_joins_rings(t: Table, a: Node, b: Node, p: nat, r: nat)
    requires
        full_table(t),
        keeps_parity(t),
        holds(t, a),
        holds(t, b),
        a.parity() == b.parity(),
        ring_length(t, a, p),
        ring_length(t, b, r),
        !on_ring(t, a, b),
        !on_ring(t, b, a),
    ensures
        ring_length(spliced(t, a, b), a, p + r),
        on_ring(spliced(t, a, b), a, b),
{
    let s = swapped(t, a, b);
    exchange_joins_rings(t, a, b, p, r);
    swapped_step(t, a, b, a);
    swapped_keeps_parity(t, a, b);
    splice_as_exchanges(t, a, b, a);
    rings_agree(s, spliced(t, a, b), a, b, p + r);
}

/// `Splice(a, b)` where `b` lies on the ring of `a`, `j` steps after it:
/// the ring becomes two, one with `a` and one with `b`.
pub proof fn splice_splits_ring(t: Table, a: Node, b: Node, p: nat, j: nat)
    requires
        full_table(t),
        keeps_parity(t),
        one_to_one(t),
        holds(t, a),
        holds(t, b),
        a.parity() == b.parity(),
        ring_length(t, a, p),
        0 < j < p,
        onext_times(t, a, j) == b.canon(),
    ensures
        ring_length(spliced(t, a, b), a, (p - j) as nat),
        ring_length(spliced(t, a, b), b, j),
        !on_ring(spliced(t, a, b), a, b),
        !on_ring(spliced(t, a, b), b, a),
{
    let s = swapped(t, a, b);
    let v = spliced(t, a, b);
    exchange_splits_ring(t, a, b, p, j);
    swapped_step(t, a, b, a);
    swapped_keeps_parity(t, a, b);
    splice_as_exchanges(t, a, b, a);
    splice_as_exchanges(t, a, b, b);
    rings_agree(s, v, a, b, (p - j) as nat);
    rings_agree(s, v, b, a, j);
}

/// `Splice(a, b)` where the duals of `a` and `b` lie on different rings:
/// those two rings become one. What happens to the rings of faces when two
/// vertices are spliced, and to the rings of vertices when two faces are.
pub proof fn splice_joins_dual_rings(t: Table, a: Node, b: Node, p: nat, r: nat)
    requires
        full_table(t),
        keeps_parity(t),
        holds(t, a),
        holds(t, b),
        a.parity() == b.parity(),
        ring_length(t, dual(t, a), p),
        ring_length(t, dual(t, b), r),
        !on_ring(t, dual(t, a), dual(t, b)),
        !on_ring(t, dual(t, b), dual(t, a)),
    ensures
        ring_length(spliced(t, a, b), dual(t, a), p + r),
        on_ring(spliced(t, a, b), dual(t, a), dual(t, b)),
{
    let x = dual(t, a);
    let y = dual(t, b);
    let s = swapped(t, x, y);
    duals_hold(t, a, b);
    exchange_joins_rings(t, x, y, p, r);
    swapped_step(t, x, y, x);
    swapped_keeps_parity(t, x, y);
    splice_as_exchanges(t, a, b, x);
    rings_agree(s, spliced(t, a, b), x, y, p + r);
}

/// `Splice(a, b)` where the dual of `b` lies on the ring of the dual of
/// `a`, `j` steps after it: that ring becomes two.
pub proof fn splice_splits_dual_ring(t: Table, a: Node, b: Node, p: nat, j: nat)
    requires
        full_table(t),
        keeps_parity(t),
        one_to_one(t),
        holds(t, a),
        holds(t, b),
        a.parity() == b.parity(),
        ring_length(t, dual(t, a), p),
        0 < j < p,
        onext_times(t, dual(t, a), j) == dual(t, b).canon(),
    ensures
        ring_length(spliced(t, a, b), dual(t, a), (p - j) as nat),
        ring_length(spliced(t, a, b), dual(t, b), j),
        !on_ring(spliced(t, a, b), dual(t, a), dual(t, b)),
        !on_ring(spliced(t, a, b), dual(t, b), dual(t, a)),
{
    let x = dual(t, a);
    let y = dual(t, b);
    let s = swapped(t, x, y);
    let v = spliced(t, a, b);
    duals_hold(t, a, b);
    exchange_splits_ring(t, x, y, p, j);
    swapped_step(t, x, y, x);
    swapped_keeps_parity(t, x, y);
    splice_as_exchanges(t, a, b, x);
    splice_as_exchanges(t, a, b, y);
    rings_agree(s, v, x, y, (p - j) as nat);
    rings_agree(s, v, y, x, j);
}

} // verus!
