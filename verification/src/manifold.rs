//! The manifold: the owner of the edge records, which it numbers in the
//! order of their making, and the operators that read and change them.

use crate::node::{Node, QuadEdge};
use crate::table::{
    can_splice, can_swap, complete, dnext, holds, isolated, keeps_parity, lnext, one_to_one, onext,
    oprev, pushed_isolated, rnext, slot, spliced_one_to_one,
    slot_by_index, spliced, spliced_keeps_parity, spliced_well_formed, swapped, swapped_slots,
    swapped_well_formed, well_formed, with_next, with_next_well_formed, Table,
};
use vstd::prelude::*;

verus! {

/// What a caller has attached to the four positions of one edge record: a
/// vertex at each end of the edge, a face on each of its sides.
#[derive(Debug)]
pub struct Payload<V, F> {
    /// At position 0: the vertex the edge leaves.
    pub orig: Option<V>,
    /// At position 1: the face on the right of the edge.
    pub right: Option<F>,
    /// At position 2: the vertex the edge arrives at.
    pub dest: Option<V>,
    /// At position 3: the face on the left of the edge.
    pub left: Option<F>,
}

impl<V, F> Payload<V, F> {
    /// The payload of a record to which nothing has been attached.
    pub open spec fn blank() -> Payload<V, F> {
        Payload { orig: None, right: None, dest: None, left: None }
    }

    /// The vertex at position `i`, for `i` even in `0..4`.
    pub open spec fn vertex(self, i: int) -> Option<V> {
        if i == 0 {
            self.orig
        } else {
            self.dest
        }
    }

    /// The face at position `i`, for `i` odd in `0..4`.
    pub open spec fn face(self, i: int) -> Option<F> {
        if i == 1 {
            self.right
        } else {
            self.left
        }
    }

    /// This payload with the vertex at position `i` replaced, `i` even.
    pub open spec fn with_vertex(self, i: int, v: V) -> Payload<V, F> {
        if i == 0 {
            Payload { orig: Some(v), ..self }
        } else {
            Payload { dest: Some(v), ..self }
        }
    }

    /// This payload with the face at position `i` replaced, `i` odd.
    pub open spec fn with_face(self, i: int, f: F) -> Payload<V, F> {
        if i == 1 {
            Payload { right: Some(f), ..self }
        } else {
            Payload { left: Some(f), ..self }
        }
    }
}

/// A collection of edge records, each with the four next-pointers of its
/// positions and the payloads attached to them. Records are never removed,
/// so a record's ordinal names it for as long as the manifold lives.
pub struct Manifold<V, F> {
    next: Vec<[Option<Node>; 4]>,
    data: Vec<Payload<V, F>>,
}

impl<V, F> View for Manifold<V, F> {
    type V = Table;

    /// The next-pointer table: row `q` holds the four slots of record `q`.
    closed spec fn view(&self) -> Table {
        Seq::new(self.next@.len(), |q: int| self.next@[q]@)
    }
}

impl<V, F> Manifold<V, F> {
    /// The payloads of the records, in the order of the records.
    pub closed spec fn payloads(&self) -> Seq<Payload<V, F>> {
        self.data@
    }

    /// Every record has its payload, and no next-pointer leaves the
    /// manifold.
    pub closed spec fn wf(&self) -> bool {
        &&& self.next@.len() == self.data@.len()
        &&& well_formed(self@)
    }

    /// What `wf` says of the model.
    pub proof fn wf_model(&self)
        requires
            self.wf(),
        ensures
            well_formed(self@),
            self.payloads().len() == self@.len(),
    {
    }

    /// A manifold without records.
    pub fn new() -> (m: Manifold<V, F>)
        ensures
            m.wf(),
            m@ == Seq::<Seq<Option<Node>>>::empty(),
            m.payloads() == Seq::<Payload<V, F>>::empty(),
    {
        let m = Manifold { next: Vec::new(), data: Vec::new() };
        assert(m@ =~= Seq::<Seq<Option<Node>>>::empty());
        m
    }

    /// The number of records.
    pub fn len(&self) -> (n: usize)
        ensures
            n == self@.len(),
    {
        self.next.len()
    }

    /// Whether `q` names a record of this manifold.
    pub fn contains(&self, q: QuadEdge) -> (b: bool)
        ensures
            b == (q.ordinal < self@.len()),
    {
        q.ordinal < self.next.len()
    }

    /// The four slots of the record with ordinal `q`.
    pub(crate) fn row(&self, q: usize) -> (row: [Option<Node>; 4])
        requires
            q < self@.len(),
        ensures
            row@ == self@[q as int],
    {
        self.next[q]
    }

    /// Adds a record with no slot set and nothing attached.
    pub(crate) fn push_unset(&mut self)
        requires
            old(self).wf(),
        ensures
            final(self).wf(),
            final(self)@ == old(self)@.push(Seq::new(4, |i: int| None::<Node>)),
            final(self).payloads() == old(self).payloads().push(Payload::blank()),
    {
        let row: [Option<Node>; 4] = [None, None, None, None];
        self.next.push(row);
        self.data.push(Payload { orig: None, right: None, dest: None, left: None });
        let grown: usize = self.next.len();
        proof {
            assert(row@ =~= Seq::new(4, |i: int| None::<Node>));
            assert(self@ =~= old(self)@.push(Seq::new(4, |i: int| None::<Node>)));
            assert forall|q: int, i: int|
                0 <= q < self@.len() && 0 <= i < 4 implies match #[trigger] self@[q][i] {
                Some(n) => n.wf() && holds(self@, n),
                None => true,
            } by {
                if q < old(self)@.len() {
                    assert(self@[q][i] == old(self)@[q][i]);
                }
            }
        }
    }

    /// Replaces the four slots of the record with ordinal `q`.
    pub(crate) fn put_row(&mut self, q: usize, row: [Option<Node>; 4])
        requires
            old(self).wf(),
            q < old(self)@.len(),
            forall|i: int|
                0 <= i < 4 ==> match #[trigger] row@[i] {
                    Some(n) => n.wf() && holds(old(self)@, n),
                    None => true,
                },
        ensures
            final(self).wf(),
            final(self)@ == old(self)@.update(q as int, row@),
            final(self).payloads() == old(self).payloads(),
    {
        self.next[q] = row;
        proof {
            assert(self@ =~= old(self)@.update(q as int, row@));
            assert forall|r: int, i: int|
                0 <= r < self@.len() && 0 <= i < 4 implies match #[trigger] self@[r][i] {
                Some(n) => n.wf() && holds(self@, n),
                None => true,
            } by {
                if r != q {
                    assert(self@[r][i] == old(self)@[r][i]);
                }
            }
        }
    }

    /// Makes an isolated edge: a new record whose origin and destination are
    /// two vertices with no other edge, and whose two sides are one face.
    /// Its ordinal is the number of records made before it.
    pub fn make_quad(&mut self) -> (q: QuadEdge)
        requires
            old(self).wf(),
        ensures
            final(self).wf(),
            q.ordinal == old(self)@.len(),
            final(self)@ == old(self)@.push(isolated(q)),
            final(self).payloads() == old(self).payloads().push(Payload::blank()),
            onext(final(self)@, q.node(0)) == q.node(0),
            onext(final(self)@, q.node(1)) == q.node(3),
            onext(final(self)@, q.node(2)) == q.node(2),
            onext(final(self)@, q.node(3)) == q.node(1),
            complete(old(self)@) ==> complete(final(self)@),
            keeps_parity(old(self)@) ==> keeps_parity(final(self)@),
            one_to_one(old(self)@) ==> one_to_one(final(self)@),
    {
        let n: usize = self.next.len();
        let q = QuadEdge { ordinal: n };
        let row: [Option<Node>; 4] = [Some(q.ind(0)), Some(q.ind(3)), Some(q.ind(2)), Some(q.ind(1))];
        self.next.push(row);
        self.data.push(Payload { orig: None, right: None, dest: None, left: None });
        let grown: usize = self.next.len();
        proof {
            assert(row@ =~= isolated(q));
            assert(self@ =~= old(self)@.push(isolated(q)));
            pushed_isolated(old(self)@, q);
        }
        q
    }
}

impl<V, F> Default for Manifold<V, F> {
    /// A manifold without records.
    fn default() -> (m: Manifold<V, F>)
        ensures
            m.wf(),
            m@ == Seq::<Seq<Option<Node>>>::empty(),
            m.payloads() == Seq::<Payload<V, F>>::empty(),
    {
        Manifold::new()
    }
}

/// The row that holds the four given targets, each reduced into `0..4`.
pub open spec fn row_of(vals: Seq<Node>) -> Seq<Option<Node>> {
    Seq::new(4, |i: int| Some(vals[i].canon()))
}

impl QuadEdge {
    /// `Onext` of position `i` (taken modulo 4) of this record.
    pub fn next<V, F>(self, i: u8, m: &Manifold<V, F>) -> (n: Node)
        requires
            m.wf(),
            holds(m@, self.node(i as int)),
            slot(m@, self.node(i as int)) is Some,
        ensures
            n == onext(m@, self.node(i as int)),
            n.wf(),
            holds(m@, n),
    {
        let k: usize = (i % 4) as usize;
        let row: [Option<Node>; 4] = m.next[self.ordinal];
        proof {
            slot_by_index(m@, self.node(i as int));
            assert(m@[self.ordinal as int][k as int] == row[k as int]);
        }
        row[k].unwrap()
    }

    /// Points position `i` (taken modulo 4) of this record at `target`.
    pub fn set<V, F>(self, i: u8, target: Node, m: &mut Manifold<V, F>)
        requires
            old(m).wf(),
            holds(old(m)@, self.node(i as int)),
            holds(old(m)@, target),
        ensures
            final(m).wf(),
            final(m)@ == with_next(old(m)@, self.node(i as int), target),
            final(m).payloads() == old(m).payloads(),
            complete(old(m)@) ==> complete(final(m)@),
    {
        let k: usize = (i % 4) as usize;
        let mut row: [Option<Node>; 4] = m.next[self.ordinal];
        row[k] = Some(target.quad.ind(target.index));
        m.next[self.ordinal] = row;
        proof {
            reveal(with_next);
            assert(m@ =~= with_next(old(m)@, self.node(i as int), target));
            with_next_well_formed(old(m)@, self.node(i as int), target);
        }
    }

    /// Points the four positions of this record at the four given targets.
    pub fn set_all<V, F>(self, vals: &[Node; 4], m: &mut Manifold<V, F>)
        requires
            old(m).wf(),
            self.ordinal < old(m)@.len(),
            forall|i: int| 0 <= i < 4 ==> holds(old(m)@, #[trigger] vals[i]),
        ensures
            final(m).wf(),
            final(m)@ == old(m)@.update(self.ordinal as int, row_of(vals@)),
            final(m).payloads() == old(m).payloads(),
    {
        self.set(0, vals[0], m);
        self.set(1, vals[1], m);
        self.set(2, vals[2], m);
        self.set(3, vals[3], m);
        proof {
            reveal(with_next);
            assert(m@ =~= old(m)@.update(self.ordinal as int, row_of(vals@))) by {
                assert(m@[self.ordinal as int] =~= row_of(vals@));
            }
        }
    }
}

impl Node {
    /// `Onext`: the next edge counter-clockwise around the origin of this
    /// one.
    pub fn next<V, F>(self, m: &Manifold<V, F>) -> (n: Node)
        requires
            m.wf(),
            holds(m@, self),
            slot(m@, self) is Some,
        ensures
            n == onext(m@, self),
            n.wf(),
            holds(m@, n),
    {
        self.quad.next(self.index, m)
    }

    /// What the slot of this position holds, if the position is one of `m`
    /// and its slot is set.
    pub fn try_next<V, F>(self, m: &Manifold<V, F>) -> (r: Option<Node>)
        requires
            m.wf(),
        ensures
            r == if holds(m@, self) {
                slot(m@, self)
            } else {
                None
            },
    {
        if self.quad.ordinal < m.next.len() {
            let k: usize = (self.index % 4) as usize;
            let row: [Option<Node>; 4] = m.next[self.quad.ordinal];
            proof {
                slot_by_index(m@, self);
                assert(m@[self.quad.ordinal as int][k as int] == row[k as int]);
            }
            row[k]
        } else {
            None
        }
    }

    /// Points this position at `target`.
    pub fn set<V, F>(self, target: Node, m: &mut Manifold<V, F>)
        requires
            old(m).wf(),
            holds(old(m)@, self),
            holds(old(m)@, target),
        ensures
            final(m).wf(),
            final(m)@ == with_next(old(m)@, self, target),
            final(m).payloads() == old(m).payloads(),
            complete(old(m)@) ==> complete(final(m)@),
    {
        proof {
            reveal(with_next);
        }
        self.quad.set(self.index, target, m);
    }

    /// Exchanges the next-pointers of this position and of `other`.
    pub fn swap<V, F>(self, other: Node, m: &mut Manifold<V, F>)
        requires
            old(m).wf(),
            can_swap(old(m)@, self, other),
        ensures
            final(m).wf(),
            final(m)@ == swapped(old(m)@, self, other),
            final(m)@.len() == old(m)@.len(),
            final(m).payloads() == old(m).payloads(),
            complete(old(m)@) ==> complete(final(m)@),
    {
        let self_next = self.next(m);
        let other_next = other.next(m);
        self.set(other_next, m);
        other.set(self_next, m);
        proof {
            reveal(swapped);
            swapped_well_formed(old(m)@, self, other);
        }
    }

    /// `Splice`: exchanges the next-pointers of this position and of
    /// `other`, then those of their duals `Rot(Onext(..))`. Two origin rings
    /// become one, or one becomes two, and so, dually, for the rings of the
    /// faces.
    pub fn splice<V, F>(self, other: Node, m: &mut Manifold<V, F>)
        requires
            old(m).wf(),
            can_splice(old(m)@, self, other),
        ensures
            final(m).wf(),
            final(m)@ == spliced(old(m)@, self, other),
            final(m)@.len() == old(m)@.len(),
            final(m).payloads() == old(m).payloads(),
            complete(old(m)@) ==> complete(final(m)@),
            keeps_parity(old(m)@) ==> keeps_parity(final(m)@),
            one_to_one(old(m)@) ==> one_to_one(final(m)@),
    {
        self.swap(other, m);
        proof {
            swapped_slots(old(m)@, self, other, self);
            swapped_slots(old(m)@, self, other, other);
        }
        let alpha = self.next(m).rot();
        let beta = other.next(m).rot();
        alpha.swap(beta, m);
        proof {
            reveal(spliced);
            spliced_well_formed(old(m)@, self, other);
            if keeps_parity(old(m)@) {
                spliced_keeps_parity(old(m)@, self, other);
            }
            if one_to_one(old(m)@) {
                spliced_one_to_one(old(m)@, self, other);
            }
        }
    }

    /// Whether `splice` may be called on this position and `other`: both
    /// are positions of `m`, of one parity, and both exchanges find their
    /// slots set.
    pub fn can_splice<V, F>(self, other: Node, m: &Manifold<V, F>) -> (b: bool)
        requires
            m.wf(),
        ensures
            b == can_splice(m@, self, other),
    {
        let self_next = self.try_next(m);
        let other_next = other.try_next(m);
        match (self_next, other_next) {
            (Some(x), Some(y)) => {
                let alpha = y.rot();
                let beta = x.rot();
                let a = self.quad.ind(self.index);
                let b = other.quad.ind(other.index);
                proof {
                    let s = swapped(m@, self, other);
                    swapped_well_formed(m@, self, other);
                    swapped_slots(m@, self, other, self);
                    swapped_slots(m@, self, other, other);
                    slot_by_index(m@, self);
                    slot_by_index(m@, other);
                    swapped_slots(m@, self, other, alpha);
                    swapped_slots(m@, self, other, beta);
                }
                let alpha_set = alpha == a || alpha == b || alpha.try_next(m).is_some();
                let beta_set = beta == a || beta == b || beta.try_next(m).is_some();
                self.index % 2 == other.index % 2 && alpha_set && beta_set
            },
            _ => false,
        }
    }
}

impl Node {
    /// `Oprev`: the next edge clockwise around the origin of this one.
    pub fn oprev<V, F>(self, m: &Manifold<V, F>) -> (n: Node)
        requires
            m.wf(),
            holds(m@, self),
            slot(m@, self.rot()) is Some,
        ensures
            n == oprev(m@, self),
            n.wf(),
            holds(m@, n),
    {
        self.rot().next(m).rot()
    }

    /// `Lnext`: the next edge counter-clockwise around the face on the left
    /// of this one.
    pub fn lnext<V, F>(self, m: &Manifold<V, F>) -> (n: Node)
        requires
            m.wf(),
            holds(m@, self),
            slot(m@, self.inv_rot()) is Some,
        ensures
            n == lnext(m@, self),
            n.wf(),
            holds(m@, n),
    {
        self.inv_rot().next(m).rot()
    }

    /// `Rnext`: the next edge counter-clockwise around the face on the
    /// right of this one.
    pub fn rnext<V, F>(self, m: &Manifold<V, F>) -> (n: Node)
        requires
            m.wf(),
            holds(m@, self),
            slot(m@, self.rot()) is Some,
        ensures
            n == rnext(m@, self),
            n.wf(),
            holds(m@, n),
    {
        self.rot().next(m).inv_rot()
    }

    /// `Dnext`: the next edge counter-clockwise around the destination of
    /// this one.
    pub fn dnext<V, F>(self, m: &Manifold<V, F>) -> (n: Node)
        requires
            m.wf(),
            holds(m@, self),
            slot(m@, self.sym()) is Some,
        ensures
            n == dnext(m@, self),
            n.wf(),
            holds(m@, n),
    {
        self.sym().next(m).sym()
    }
}

impl Node {
    /// Attaches a vertex to this position, which must be an even one: the
    /// origin of the edge at position 0, its destination at position 2.
    pub fn set_vertex<V, F>(self, v: V, m: &mut Manifold<V, F>)
        requires
            old(m).wf(),
            holds(old(m)@, self),
            self.parity() == 0,
        ensures
            final(m).wf(),
            final(m)@ == old(m)@,
            final(m).payloads() == old(m).payloads().update(
                self.quad.ordinal as int,
                old(m).payloads()[self.quad.ordinal as int].with_vertex(
                    self.canon().index as int,
                    v,
                ),
            ),
    {
        if self.index % 4 == 0 {
            m.data[self.quad.ordinal].orig = Some(v);
        } else {
            m.data[self.quad.ordinal].dest = Some(v);
        }
        proof {
            assert(m@ =~= old(m)@);
        }
    }

    /// Attaches a face to this position, which must be an odd one: the
    /// face on the right of the edge at position 1, on its left at
    /// position 3.
    pub fn set_face<V, F>(self, f: F, m: &mut Manifold<V, F>)
        requires
            old(m).wf(),
            holds(old(m)@, self),
            self.parity() == 1,
        ensures
            final(m).wf(),
            final(m)@ == old(m)@,
            final(m).payloads() == old(m).payloads().update(
                self.quad.ordinal as int,
                old(m).payloads()[self.quad.ordinal as int].with_face(self.canon().index as int, f),
            ),
    {
        if self.index % 4 == 1 {
            m.data[self.quad.ordinal].right = Some(f);
        } else {
            m.data[self.quad.ordinal].left = Some(f);
        }
        proof {
            assert(m@ =~= old(m)@);
        }
    }

    /// The vertex attached to this position, which must be an even one.
    pub fn vertex<V: Copy, F>(self, m: &Manifold<V, F>) -> (v: Option<V>)
        requires
            m.wf(),
            holds(m@, self),
            self.parity() == 0,
        ensures
            v == m.payloads()[self.quad.ordinal as int].vertex(self.canon().index as int),
    {
        if self.index % 4 == 0 {
            m.data[self.quad.ordinal].orig
        } else {
            m.data[self.quad.ordinal].dest
        }
    }

    /// The face attached to this position, which must be an odd one.
    pub fn face<V, F: Copy>(self, m: &Manifold<V, F>) -> (f: Option<F>)
        requires
            m.wf(),
            holds(m@, self),
            self.parity() == 1,
        ensures
            f == m.payloads()[self.quad.ordinal as int].face(self.canon().index as int),
    {
        if self.index % 4 == 1 {
            m.data[self.quad.ordinal].right
        } else {
            m.data[self.quad.ordinal].left
        }
    }
}

} // verus!
