//! The raw mesh data model: attribute values carried as their literal
//! bytes, face attribute-index triples, and the error taxonomy of the
//! loader.
use vstd::prelude::*;

verus! {

/// What can go wrong while turning OBJ text into buffers: a token of an
/// attribute directive that is no decimal number, a face token whose
/// index part is missing or malformed, an attribute directive with too
/// few components, and a face index that leaves its array's bounds.
#[derive(Clone, Copy, Debug, PartialEq, Eq, Structural)]
pub enum ObjError {
    MalformedNumber,
    MalformedFaceToken,
    InsufficientComponents,
    IndexOutOfRange,
}

/// Three attribute components, each the bytes of one numeric token.
#[derive(Debug, PartialEq, Eq)]
pub struct Num3 {
    pub x: Vec<u8>,
    pub y: Vec<u8>,
    pub z: Vec<u8>,
}

/// Two attribute components, each the bytes of one numeric token.
#[derive(Debug, PartialEq, Eq)]
pub struct Num2 {
    pub x: Vec<u8>,
    pub y: Vec<u8>,
}

impl View for Num3 {
    type V = Seq<Seq<u8>>;

    open spec fn view(&self) -> Seq<Seq<u8>> {
        seq![self.x@, self.y@, self.z@]
    }
}

impl View for Num2 {
    type V = Seq<Seq<u8>>;

    open spec fn view(&self) -> Seq<Seq<u8>> {
        seq![self.x@, self.y@]
    }
}

/// The token denoting zero, the placeholder component value.
pub open spec fn zero_tok() -> Seq<u8> {
    seq![48u8]
}

/// The views of a sequence of component triples.
pub open spec fn num3_views(vs: Seq<Num3>) -> Seq<Seq<Seq<u8>>> {
    Seq::new(vs.len(), |i: int| vs[i]@)
}

/// The views of a sequence of component pairs.
pub open spec fn num2_views(vs: Seq<Num2>) -> Seq<Seq<Seq<u8>>> {
    Seq::new(vs.len(), |i: int| vs[i]@)
}

/// The views of a sequence of faces.
pub open spec fn face_views(fs: Seq<Vec<crate::FaceIndex>>) -> Seq<Seq<crate::FaceIndex>> {
    Seq::new(fs.len(), |i: int| fs[i]@)
}

/// The triples of one face, in declaration order.
pub type FaceIndices = Vec<crate::FaceIndex>;

/// The mathematical model of the parser's output: the four parallel raw
/// collections, attribute entries as sequences of component tokens.
pub ghost struct MeshV {
    pub positions: Seq<Seq<Seq<u8>>>,
    pub tex_coords: Seq<Seq<Seq<u8>>>,
    pub normals: Seq<Seq<Seq<u8>>>,
    pub faces: Seq<Seq<crate::FaceIndex>>,
}

/// The raw mesh data a parse produces: positions, texture coordinates,
/// normals, and per-face index triples.
#[derive(Debug)]
pub struct ObjData {
    pub vert_positions: Vec<Num3>,
    pub tex_coords: Vec<Num2>,
    pub normals: Vec<Num3>,
    pub faces: Vec<FaceIndices>,
}

impl View for ObjData {
    type V = MeshV;

    open spec fn view(&self) -> MeshV {
        MeshV {
            positions: num3_views(self.vert_positions@),
            tex_coords: num2_views(self.tex_coords@),
            normals: num3_views(self.normals@),
            faces: face_views(self.faces@),
        }
    }
}

impl ObjData {
    pub fn new(
        vert_positions: Vec<Num3>,
        tex_coords: Vec<Num2>,
        normals: Vec<Num3>,
        faces: Vec<FaceIndices>,
    ) -> (r: Self)
        ensures
            r.vert_positions == vert_positions,
            r.tex_coords == tex_coords,
            r.normals == normals,
            r.faces == faces,
    {
        ObjData { vert_positions, tex_coords, normals, faces }
    }
}

/// Copies the bytes of one token.
pub fn clone_bytes(v: &Vec<u8>) -> (r: Vec<u8>)
    ensures
        r@ == v@,
{
    let mut r: Vec<u8> = Vec::new();
    let mut i: usize = 0;
    while i < v.len()
        invariant
            i <= v@.len(),
            r@ == v@.take(i as int),
        decreases v@.len() - i,
    {
        r.push(v[i]);
        proof {
            assert(v@.take(i + 1) =~= v@.take(i as int).push(v@[i as int]));
        }
        i = i + 1;
    }
    proof {
        assert(v@.take(i as int) =~= v@);
    }
    r
}

/// Copies a component triple.
pub fn clone_num3(v: &Num3) -> (r: Num3)
    ensures
        r@ == v@,
{
    Num3 { x: clone_bytes(&v.x), y: clone_bytes(&v.y), z: clone_bytes(&v.z) }
}

/// Copies a component pair.
pub fn clone_num2(v: &Num2) -> (r: Num2)
    ensures
        r@ == v@,
{
    Num2 { x: clone_bytes(&v.x), y: clone_bytes(&v.y) }
}

/// One deduplicated output vertex: its dense output index and the
/// component tokens it interleaves. The texture-coordinate and normal
/// slots hold the zero placeholder until the corresponding attribute is
/// fetched.
#[derive(Debug)]
pub struct ObjObject {
    pub index: usize,
    pub pos: Num3,
    pub tex_coord: Num2,
    pub normal: Num3,
}

impl ObjObject {
    pub fn new(index: usize, pos: &Num3) -> (r: Self)
        ensures
            r.index == index,
            r.pos@ == pos@,
            r.tex_coord@ == seq![zero_tok(), zero_tok()],
            r.normal@ == seq![zero_tok(), zero_tok(), zero_tok()],
    {
        let r = ObjObject {
            index,
            pos: clone_num3(pos),
            tex_coord: Num2 { x: vec![48u8], y: vec![48u8] },
            normal: Num3 { x: vec![48u8], y: vec![48u8], z: vec![48u8] },
        };
        proof {
            assert(r.tex_coord@ =~~= seq![zero_tok(), zero_tok()]);
            assert(r.normal@ =~~= seq![zero_tok(), zero_tok(), zero_tok()]);
        }
        r
    }
}

} // verus!
