//! A quad-edge structure after Guibas and Stolfi: the edges, vertices and
//! faces of a subdivision of a surface, held as records of four directed
//! edge positions each, with `Rot`, `Onext` and `Splice` as the algebra
//! on them.
//!
//! A [`Manifold`] owns the records and numbers them in the order of their
//! making. A [`QuadEdge`] names a record by that number, a [`Node`] names
//! one of its four positions. What the manifold holds is modelled as a
//! table of next-pointers (module `table`), on which `Splice` and its laws
//! are stated; the operators of `manifold` are proved to do to the
//! manifold what the model says. `rings` states what `Splice` does to the
//! rings of `Onext`. `format` and `persist` write the table as text and
//! read it back, and `roundtrip` states what the two do together.

pub mod arena;
pub mod format;
pub mod json;
pub mod manifold;
pub mod node;
pub mod persist;
pub mod rings;
pub mod roundtrip;
pub mod table;

pub use crate::manifold::{Manifold, Payload};
pub use crate::node::{Node, QuadEdge};
pub use crate::persist::ImportError;
