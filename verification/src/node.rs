//! Handles: an edge record named by its ordinal, and one of its four
//! directed positions.

use vstd::prelude::*;

verus! {

/// One undirected edge together with its dual, named by its ordinal: the
/// place of its record in the manifold that made it, counted from zero in
/// the order of making.
#[derive(Clone, Copy, Debug, PartialEq, Eq, Structural)]
pub struct QuadEdge {
    pub ordinal: usize,
}

/// One of the four directed positions of an edge record.
///
/// Position 0 is the edge itself, from origin to destination; 1 is its
/// dual, from the right face to the left; 2 is the edge reversed; 3 is the
/// dual reversed. Even positions start at a vertex, odd ones at a face.
#[derive(Clone, Copy, Debug, PartialEq, Eq, Structural)]
pub struct Node {
    pub quad: QuadEdge,
    pub index: u8,
}

/// A position number reduced into `0..4`.
pub open spec fn position(i: int) -> u8 {
    (i % 4) as u8
}

impl QuadEdge {
    /// The node at position `i` of this record, `i` counted modulo 4.
    pub open spec fn node(self, i: int) -> Node {
        Node { quad: self, index: position(i) }
    }

    /// The node at position `i`, reduced modulo 4.
    pub fn ind(self, i: u8) -> (n: Node)
        ensures
            n == self.node(i as int),
            n.wf(),
    {
        Node { quad: self, index: i % 4 }
    }

    /// The edge as it leaves its origin: position 0.
    pub fn orig(self) -> (n: Node)
        ensures
            n == self.node(0),
    {
        self.ind(0)
    }

    /// The edge as it leaves its destination: position 2.
    pub fn dest(self) -> (n: Node)
        ensures
            n == self.node(2),
    {
        self.ind(2)
    }

    /// The node one quarter turn after position `i`.
    pub fn rot(self, i: u8) -> (n: Node)
        ensures
            n == self.node(i + 1),
            n == self.node(i as int).rot(),
            n.wf(),
    {
        Node { quad: self, index: (i % 4 + 1) % 4 }
    }
}

impl Default for QuadEdge {
    /// The handle of the first record of a manifold.
    fn default() -> (q: QuadEdge)
        ensures
            q.ordinal == 0,
    {
        QuadEdge { ordinal: 0 }
    }
}

impl Node {
    /// The position lies in `0..4`.
    pub open spec fn wf(self) -> bool {
        self.index < 4
    }

    /// The same position with its number reduced into `0..4`.
    pub open spec fn canon(self) -> Node {
        self.quad.node(self.index as int)
    }

    /// 0 where the position starts at a vertex, 1 where it starts at a face.
    pub open spec fn parity(self) -> int {
        self.index as int % 2
    }

    /// `Rot` as a function of the handle alone.
    pub open spec fn spec_rot(self) -> Node {
        self.quad.node(self.index + 1)
    }

    /// `Sym` as a function of the handle alone.
    pub open spec fn spec_sym(self) -> Node {
        self.quad.node(self.index + 2)
    }

    /// `InvRot` as a function of the handle alone.
    pub open spec fn spec_inv_rot(self) -> Node {
        self.quad.node(self.index + 3)
    }

    /// `Rot`: the dual position, a quarter turn on.
    #[verifier::when_used_as_spec(spec_rot)]
    pub fn rot(self) -> (n: Node)
        ensures
            n == self.spec_rot(),
    {
        self.quad.rot(self.index)
    }

    /// `Sym`: the same edge in the opposite direction.
    #[verifier::when_used_as_spec(spec_sym)]
    pub fn sym(self) -> (n: Node)
        ensures
            n == self.spec_sym(),
    {
        Node { quad: self.quad, index: (self.index % 4 + 2) % 4 }
    }

    /// `InvRot`: the dual position, a quarter turn back.
    #[verifier::when_used_as_spec(spec_inv_rot)]
    pub fn inv_rot(self) -> (n: Node)
        ensures
            n == self.spec_inv_rot(),
    {
        Node { quad: self.quad, index: (self.index % 4 + 3) % 4 }
    }
}

/// Four quarter turns bring a position back to itself.
pub proof fn rot_four_times(n: Node)
    requires
        n.wf(),
    ensures
        n.rot().rot().rot().rot() == n,
{
}

/// Whatever number a handle carries, four quarter turns lead to the position
/// it stands for, and every turn leads to a position in `0..4` of the same
/// record.
pub proof fn rot_closed(n: Node)
    ensures
        n.rot().wf(),
        n.rot().quad == n.quad,
        n.rot().rot().rot().rot() == n.canon(),
        n.canon().rot() == n.rot(),
{
}

/// `Sym` is two quarter turns, `InvRot` is three.
pub proof fn sym_and_inv_rot_by_rot(n: Node)
    ensures
        n.sym() == n.rot().rot(),
        n.inv_rot() == n.rot().rot().rot(),
{
}

/// `Rot` and `InvRot` undo each other, and `Sym` undoes itself.
pub proof fn rot_inverses(n: Node)
    ensures
        n.rot().inv_rot() == n.canon(),
        n.inv_rot().rot() == n.canon(),
        n.sym().sym() == n.canon(),
{
}

/// A quarter turn changes the parity of a position, a half turn keeps it.
pub proof fn rot_parity(n: Node)
    ensures
        n.rot().parity() != n.parity(),
        n.inv_rot().parity() != n.parity(),
        n.sym().parity() == n.parity(),
        n.canon().parity() == n.parity(),
{
}

} // verus!
