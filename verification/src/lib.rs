//! A verified Wavefront OBJ mesh loader: a line-oriented parser that
//! gathers raw attribute arrays and face index triples, and an indexer
//! that deduplicates attribute combinations into an interleaved vertex
//! buffer and a triangle index buffer. Attribute values travel as their
//! literal bytes; a consumer turns them into machine numbers at the
//! edge, outside the verified core.
use vstd::prelude::*;

pub mod index;
pub mod lex;
pub mod loader;
pub mod mesh;
pub mod num;
pub mod parse;

pub use index::Indexer;
pub use index::index_data;
pub use loader::ObjLoader;
pub use mesh::FaceIndices;
pub use mesh::Num2;
pub use mesh::Num3;
pub use mesh::ObjData;
pub use mesh::ObjError;
pub use mesh::ObjObject;
pub use parse::parse_obj;

verus! {

/// An attribute-index triple naming one face vertex: zero-based indices
/// into the position, texture-coordinate and normal arrays. A negative
/// `tex` or `norm` is the sentinel for a slot the face token left empty.
#[derive(Clone, Copy, Debug, PartialEq, Eq, Structural)]
pub struct FaceIndex {
    pub pos: i32,
    pub tex: i32,
    pub norm: i32,
}

impl FaceIndex {
    pub fn new(pos: i32, tex: i32, norm: i32) -> (r: Self)
        ensures
            r == (FaceIndex { pos, tex, norm }),
    {
        FaceIndex { pos, tex, norm }
    }
}

} // verus!
