//! Payloads kept in an arena: the arena owns the vertices or the faces, and
//! the manifold holds references to them, which stay good for as long as
//! the arena lives however many records are made.

use crate::manifold::Manifold;
use crate::node::Node;
use crate::table::holds;
use typed_arena::Arena;
use vstd::prelude::*;

verus! {

/// `typed_arena::Arena`, of which nothing is looked into.
#[verifier::external_type_specification]
#[verifier::external_body]
#[verifier::reject_recursive_types(T)]
pub struct ExArena<T>(typed_arena::Arena<T>);

/// Calls `typed_arena::Arena::alloc`.
///
/// Trusted: that the reference returned is to the value handed in. Nothing
/// is said of what else the arena holds.
#[verifier::external_body]
fn alloc_in<'a, T>(arena: &'a Arena<T>, value: T) -> (r: &'a T)
    ensures
        *r == value,
{
    arena.alloc(value)
}

impl Node {
    /// Moves a vertex into `arena` and attaches it to this position, which
    /// must be an even one.
    pub fn alloc_vertex<'a, T, F>(self, arena: &'a Arena<T>, v: T, m: &mut Manifold<&'a T, F>)
        requires
            old(m).wf(),
            holds(old(m)@, self),
            self.parity() == 0,
        ensures
            final(m).wf(),
            final(m)@ == old(m)@,
            final(m).payloads() == old(m).payloads().update(
                self.quad.ordinal as int,
                old(m).payloads()[self.quad.ordinal as int].with_vertex(
                    self.canon().index as int,
                    &v,
                ),
            ),
    {
        let kept = alloc_in(arena, v);
        self.set_vertex(kept, m);
    }

    /// Moves a face into `arena` and attaches it to this position, which
    /// must be an odd one.
    pub fn alloc_face<'a, V, T>(self, arena: &'a Arena<T>, f: T, m: &mut Manifold<V, &'a T>)
        requires
            old(m).wf(),
            holds(old(m)@, self),
            self.parity() == 1,
        ensures
            final(m).wf(),
            final(m)@ == old(m)@,
            final(m).payloads() == old(m).payloads().update(
                self.quad.ordinal as int,
                old(m).payloads()[self.quad.ordinal as int].with_face(
                    self.canon().index as int,
                    &f,
                ),
            ),
    {
        let kept = alloc_in(arena, f);
        self.set_face(kept, m);
    }
}

} // verus!
