//! The indexer: walks the parsed faces, deduplicates attribute-index
//! triples into one output vertex each (dense indices in first-encounter
//! order), fan-triangulates every polygon from its first vertex, and
//! interleaves the component tokens of the deduplicated vertices into
//! the output vertex buffer.
use crate::FaceIndex;
use crate::lex::views_of;
use crate::mesh::MeshV;
use crate::mesh::ObjData;
use crate::mesh::ObjError;
use crate::mesh::ObjObject;
use crate::mesh::clone_bytes;
use crate::mesh::clone_num2;
use crate::mesh::clone_num3;
use vstd::prelude::*;

verus! {

/// The triples a face hands to deduplication: every vertex of a polygon
/// with three or more, only the fanned first vertex of a shorter one,
/// nothing of an empty one.
pub open spec fn face_verts(f: Seq<FaceIndex>) -> Seq<FaceIndex> {
    if f.len() >= 3 {
        f
    } else if f.len() >= 1 {
        seq![f[0]]
    } else {
        Seq::empty()
    }
}

/// All triples the faces hand to deduplication, in processing order.
pub open spec fn flat_verts(faces: Seq<Seq<FaceIndex>>) -> Seq<FaceIndex>
    decreases faces.len(),
{
    if faces.len() == 0 {
        Seq::empty()
    } else {
        flat_verts(faces.drop_last()) + face_verts(faces.last())
    }
}

/// The distinct elements of `s` in first-encounter order.
pub open spec fn firsts(s: Seq<FaceIndex>) -> Seq<FaceIndex>
    decreases s.len(),
{
    if s.len() == 0 {
        Seq::empty()
    } else {
        let pre = firsts(s.drop_last());
        if pre.contains(s.last()) {
            pre
        } else {
            pre.push(s.last())
        }
    }
}

/// The deduplicated vertices of a mesh: its flattened triples in
/// first-encounter order.
pub open spec fn keys_of(faces: Seq<Seq<FaceIndex>>) -> Seq<FaceIndex> {
    firsts(flat_verts(faces))
}

/// The index of the first occurrence of `t` in `keys`.
pub open spec fn key_index(keys: Seq<FaceIndex>, t: FaceIndex) -> int
    decreases keys.len(),
{
    if keys.len() == 0 {
        0
    } else if keys[0] == t {
        0
    } else {
        1 + key_index(keys.drop_first(), t)
    }
}

/// The output index of triple `t`, as the index buffer holds it.
pub open spec fn vid(keys: Seq<FaceIndex>, t: FaceIndex) -> u32 {
    key_index(keys, t) as u32
}

/// A triple's indices stay inside the raw arrays it points into; the
/// texture-coordinate and normal slots only matter when that attribute
/// is in use.
pub open spec fn triple_ok(t: FaceIndex, m: MeshV, ctc: bool, cn: bool) -> bool {
    &&& 0 <= t.pos < m.positions.len()
    &&& (ctc ==> 0 <= t.tex < m.tex_coords.len())
    &&& (cn ==> 0 <= t.norm < m.normals.len())
}

/// Every triple any face hands to deduplication is in bounds.
pub open spec fn all_triples_ok(m: MeshV, ctc: bool, cn: bool) -> bool {
    forall|i: int|
        0 <= i < flat_verts(m.faces).len() ==> triple_ok(
            #[trigger] flat_verts(m.faces)[i],
            m,
            ctc,
            cn,
        )
}

/// Indexing succeeds exactly when every referenced triple is in bounds
/// and the deduplicated vertices all get indices that fit the index type.
pub open spec fn spec_index_ok(m: MeshV, ctc: bool, cn: bool) -> bool {
    all_triples_ok(m, ctc, cn) && keys_of(m.faces).len() <= 0x1_0000_0000
}

/// The fan triangles of one face, as output indices: triangle `i` is
/// `(vertex 0, vertex i, vertex i+1)`, nothing for a face under three
/// vertices.
pub open spec fn face_tris(f: Seq<FaceIndex>, keys: Seq<FaceIndex>) -> Seq<u32>
    decreases f.len(),
{
    if f.len() < 3 {
        Seq::empty()
    } else {
        face_tris(f.drop_last(), keys) + seq![
            vid(keys, f[0]),
            vid(keys, f[f.len() - 2]),
            vid(keys, f[f.len() - 1]),
        ]
    }
}

/// The whole index buffer: the faces' fan triangles in order.
pub open spec fn spec_indices(faces: Seq<Seq<FaceIndex>>, keys: Seq<FaceIndex>) -> Seq<u32>
    decreases faces.len(),
{
    if faces.len() == 0 {
        Seq::empty()
    } else {
        spec_indices(faces.drop_last(), keys) + face_tris(faces.last(), keys)
    }
}

/// The interleaved component tokens of one output vertex: position,
/// then texture coordinate if in use, then normal if in use.
pub open spec fn spec_record(m: MeshV, t: FaceIndex, ctc: bool, cn: bool) -> Seq<Seq<u8>> {
    m.positions[t.pos as int] + (if ctc {
        m.tex_coords[t.tex as int]
    } else {
        Seq::empty()
    }) + (if cn {
        m.normals[t.norm as int]
    } else {
        Seq::empty()
    })
}

/// The whole vertex buffer: one record per deduplicated vertex, in
/// output-index order.
pub open spec fn spec_records(m: MeshV, keys: Seq<FaceIndex>, ctc: bool, cn: bool) -> Seq<Seq<u8>>
    decreases keys.len(),
{
    if keys.len() == 0 {
        Seq::empty()
    } else {
        spec_records(m, keys.drop_last(), ctc, cn) + spec_record(m, keys.last(), ctc, cn)
    }
}

/// How many values one vertex occupies in the interleaved buffer.
pub open spec fn spec_stride(ctc: bool, cn: bool) -> int {
    3 + (if ctc {
        2int
    } else {
        0int
    }) + (if cn {
        3int
    } else {
        0int
    })
}

/// Attribute entries have their proper component counts: three for
/// positions and normals, two for texture coordinates.
pub open spec fn mesh_wf(m: MeshV) -> bool {
    &&& forall|i: int| 0 <= i < m.positions.len() ==> (#[trigger] m.positions[i]).len() == 3
    &&& forall|i: int| 0 <= i < m.tex_coords.len() ==> (#[trigger] m.tex_coords[i]).len() == 2
    &&& forall|i: int| 0 <= i < m.normals.len() ==> (#[trigger] m.normals[i]).len() == 3
}

/// The view of any raw mesh value is well formed: its attribute entries
/// carry exactly their component counts.
pub proof fn lemma_objdata_wf(d: ObjData)
    ensures
        mesh_wf(d@),
{
}

/// Appending one element either leaves the first-encounter sequence
/// alone or pushes the element, by whether it was already present.
pub proof fn lemma_firsts_push(s: Seq<FaceIndex>, x: FaceIndex)
    ensures
        firsts(s.push(x)) == if firsts(s).contains(x) {
            firsts(s)
        } else {
            firsts(s).push(x)
        },
{
    assert(s.push(x).drop_last() =~= s);
    assert(s.push(x).last() == x);
}

/// The first-encounter sequence holds exactly the elements of `s`.
pub proof fn lemma_firsts_contains(s: Seq<FaceIndex>, x: FaceIndex)
    ensures
        firsts(s).contains(x) <==> s.contains(x),
    decreases s.len(),
{
    if s.len() > 0 {
        let dl = s.drop_last();
        lemma_firsts_contains(dl, x);
        let pre = firsts(dl);
        assert(s.contains(x) <==> dl.contains(x) || s.last() == x) by {
            if s.contains(x) {
                let i = choose|i: int| 0 <= i < s.len() && s[i] == x;
                if i < s.len() - 1 {
                    assert(dl[i] == x);
                }
            }
            if dl.contains(x) {
                let i = choose|i: int| 0 <= i < dl.len() && dl[i] == x;
                assert(s[i] == x);
            }
            if s.last() == x {
                assert(s[s.len() - 1] == x);
            }
        }
        if !pre.contains(s.last()) {
            assert(firsts(s) == pre.push(s.last()));
            assert(firsts(s).contains(x) <==> pre.contains(x) || s.last() == x) by {
                if firsts(s).contains(x) {
                    let i = choose|i: int| 0 <= i < firsts(s).len() && firsts(s)[i] == x;
                    if i < pre.len() {
                        assert(pre[i] == x);
                    } else {
                        assert(firsts(s)[pre.len() as int] == s.last());
                    }
                }
                if pre.contains(x) {
                    let i = choose|i: int| 0 <= i < pre.len() && pre[i] == x;
                    assert(firsts(s)[i] == x);
                }
                assert(firsts(s)[pre.len() as int] == s.last());
            }
        }
    }
}

/// `s1` is an initial segment of `s2`.
pub open spec fn is_prefix(s1: Seq<FaceIndex>, s2: Seq<FaceIndex>) -> bool {
    s1.len() <= s2.len() && s2.take(s1.len() as int) == s1
}

/// Prefixes carry over from the raw sequences to their first-encounter
/// sequences.
pub proof fn lemma_firsts_prefix(s1: Seq<FaceIndex>, s2: Seq<FaceIndex>)
    requires
        is_prefix(s1, s2),
    ensures
        is_prefix(firsts(s1), firsts(s2)),
    decreases s2.len(),
{
    if s1.len() == s2.len() {
        assert(s2.take(s1.len() as int) =~= s2);
        assert(firsts(s2).take(firsts(s1).len() as int) =~= firsts(s1));
    } else {
        let dl = s2.drop_last();
        assert(dl.take(s1.len() as int) =~= s2.take(s1.len() as int));
        lemma_firsts_prefix(s1, dl);
        let pre = firsts(dl);
        if pre.contains(s2.last()) {
            assert(firsts(s2) == pre);
        } else {
            assert(firsts(s2) == pre.push(s2.last()));
            assert(firsts(s2).take(pre.len() as int) =~= pre);
        }
        assert(firsts(s2).take(firsts(s1).len() as int) =~= firsts(s1));
    }
}

/// Where `t` stands in a prefix, it stands in the whole, at the same
/// first-occurrence index.
pub proof fn lemma_key_index_prefix(s1: Seq<FaceIndex>, s2: Seq<FaceIndex>, t: FaceIndex)
    requires
        is_prefix(s1, s2),
        s1.contains(t),
    ensures
        s2.contains(t),
        key_index(s2, t) == key_index(s1, t),
    decreases s1.len(),
{
    let i = choose|i: int| 0 <= i < s1.len() && s1[i] == t;
    assert(s2[i] == s2.take(s1.len() as int)[i]);
    if s1[0] == t {
        assert(s2[0] == s1[0]);
    } else {
        let d1 = s1.drop_first();
        let d2 = s2.drop_first();
        assert(d1[i - 1] == t);
        assert(is_prefix(d1, d2)) by {
            assert(d2.take(d1.len() as int) =~= d1);
        }
        lemma_key_index_prefix(d1, d2, t);
        assert(s2[0] == s1[0]);
    }
}

/// The first-occurrence index of a present element is a real position.
pub proof fn lemma_key_index_bounds(s: Seq<FaceIndex>, t: FaceIndex)
    requires
        s.contains(t),
    ensures
        0 <= key_index(s, t) < s.len(),
        s[key_index(s, t)] == t,
    decreases s.len(),
{
    if s[0] != t {
        let d = s.drop_first();
        let i = choose|i: int| 0 <= i < s.len() && s[i] == t;
        assert(d[i - 1] == t);
        lemma_key_index_bounds(d, t);
    }
}

/// A fresh element lands at the end, and that is its first occurrence.
pub proof fn lemma_key_index_push(s: Seq<FaceIndex>, x: FaceIndex)
    requires
        !s.contains(x),
    ensures
        key_index(s.push(x), x) == s.len(),
        s.push(x).contains(x),
    decreases s.len(),
{
    assert(s.push(x)[s.len() as int] == x);
    if s.len() > 0 {
        assert(s[0] != x);
        assert(s.push(x)[0] == s[0]);
        let d = s.drop_first();
        assert(!d.contains(x)) by {
            if d.contains(x) {
                let i = choose|i: int| 0 <= i < d.len() && d[i] == x;
                assert(s[i + 1] == x);
            }
        }
        lemma_key_index_push(d, x);
        assert(s.push(x).drop_first() =~= d.push(x));
    }
}

/// What one output vertex carries into the buffer.
pub open spec fn obj_record(o: ObjObject, ctc: bool, cn: bool) -> Seq<Seq<u8>> {
    o.pos@ + (if ctc {
        o.tex_coord@
    } else {
        Seq::empty()
    }) + (if cn {
        o.normal@
    } else {
        Seq::empty()
    })
}

/// The dedup state: the triples seen so far in first-encounter order,
/// the output vertices they resolved to (parallel, same order), and the
/// next dense index to hand out.
pub struct Indexer {
    pub keys: Vec<FaceIndex>,
    pub data_vec: Vec<ObjObject>,
    pub next_index: usize,
}

/// The indexer's invariant against the mesh it resolves from: parallel
/// arrays, dense indices, every stored triple in bounds, and every
/// stored vertex carrying exactly its triple's record.
pub open spec fn indexer_wf(ix: Indexer, m: MeshV, ctc: bool, cn: bool) -> bool {
    &&& ix.keys@.len() == ix.data_vec@.len()
    &&& ix.next_index == ix.keys@.len()
    &&& ix.keys@.len() <= 0x1_0000_0000
    &&& forall|i: int| 0 <= i < ix.data_vec@.len() ==> (#[trigger] ix.data_vec@[i]).index == i
    &&& forall|i: int| 0 <= i < ix.keys@.len() ==> triple_ok(#[trigger] ix.keys@[i], m, ctc, cn)
    &&& forall|i: int|
        0 <= i < ix.data_vec@.len() ==> obj_record(#[trigger] ix.data_vec@[i], ctc, cn)
            == spec_record(m, ix.keys@[i], ctc, cn)
}

impl Indexer {
    /// An indexer with nothing resolved yet.
    pub fn new() -> (r: Self)
        ensures
            r.keys@ == Seq::<FaceIndex>::empty(),
            r.data_vec@ == Seq::<ObjObject>::empty(),
            r.next_index == 0,
    {
        Indexer { keys: Vec::new(), data_vec: Vec::new(), next_index: 0 }
    }

    /// Resolves one triple to its dense output index: hands back the
    /// stored index of an already-seen triple, otherwise fetches the
    /// triple's attributes (failing when an index leaves its array or
    /// the new output index would not fit the index type), appends the
    /// new vertex, and hands back its fresh index.
    pub fn resolve(&mut self, fi: &FaceIndex, data: &ObjData, ctc: bool, cn: bool) -> (r: Result<
        u32,
        ObjError,
    >)
        requires
            indexer_wf(*old(self), data@, ctc, cn),
        ensures
            match r {
                Ok(id) => {
                    &&& indexer_wf(*final(self), data@, ctc, cn)
                    &&& triple_ok(*fi, data@, ctc, cn)
                    &&& final(self).keys@.contains(*fi)
                    &&& id == vid(final(self).keys@, *fi)
                    &&& id < final(self).keys@.len()
                    &&& if old(self).keys@.contains(*fi) {
                        final(self).keys@ == old(self).keys@ && final(self).data_vec@ == old(
                            self,
                        ).data_vec@
                    } else {
                        final(self).keys@ == old(self).keys@.push(*fi)
                    }
                },
                Err(e) => {
                    &&& e == ObjError::IndexOutOfRange
                    &&& *final(self) == *old(self)
                    &&& !old(self).keys@.contains(*fi)
                    &&& (!triple_ok(*fi, data@, ctc, cn) || old(self).keys@.len()
                        >= 0x1_0000_0000)
                },
            },
    {
        let n = self.keys.len();
        let mut k: usize = 0;
        while k < n
            invariant
                n == self.keys@.len(),
                k <= n,
                indexer_wf(*self, data@, ctc, cn),
                self.keys@ == old(self).keys@,
                self.data_vec@ == old(self).data_vec@,
                *self == *old(self),
                forall|j: int| 0 <= j < k ==> self.keys@[j] != *fi,
            decreases n - k,
        {
            if self.keys[k] == *fi {
                proof {
                    lemma_key_index_at(self.keys@, *fi, k as int);
                }
                return Ok(k as u32);
            }
            k = k + 1;
        }
        assert(!self.keys@.contains(*fi));
        if !(fi.pos >= 0 && (fi.pos as usize) < data.vert_positions.len()) {
            return Err(ObjError::IndexOutOfRange);
        }
        if ctc && !(fi.tex >= 0 && (fi.tex as usize) < data.tex_coords.len()) {
            return Err(ObjError::IndexOutOfRange);
        }
        if cn && !(fi.norm >= 0 && (fi.norm as usize) < data.normals.len()) {
            return Err(ObjError::IndexOutOfRange);
        }
        if self.keys.len() > (u32::MAX as usize) {
            return Err(ObjError::IndexOutOfRange);
        }
        assert(triple_ok(*fi, data@, ctc, cn));
        let id = self.next_index;
        let mut obj = ObjObject::new(id, &data.vert_positions[fi.pos as usize]);
        if ctc {
            obj.tex_coord = clone_num2(&data.tex_coords[fi.tex as usize]);
        }
        if cn {
            obj.normal = clone_num3(&data.normals[fi.norm as usize]);
        }
        proof {
            assert(obj_record(obj, ctc, cn) == spec_record(data@, *fi, ctc, cn));
        }
        let ghost old_keys = self.keys@;
        self.keys.push(*fi);
        self.data_vec.push(obj);
        self.next_index = self.data_vec.len();
        proof {
            lemma_key_index_push(old_keys, *fi);
            assert(forall|i: int|
                0 <= i < old_keys.len() ==> #[trigger] self.keys@[i] == old_keys[i]);
            assert(forall|i: int|
                0 <= i < old(self).data_vec@.len() ==> #[trigger] self.data_vec@[i] == old(
                    self,
                ).data_vec@[i]);
        }
        Ok(id as u32)
    }
}

/// An element found at a position before which it does not occur has
/// that position as its first-occurrence index.
proof fn lemma_key_index_at(s: Seq<FaceIndex>, t: FaceIndex, k: int)
    requires
        0 <= k < s.len(),
        s[k] == t,
        forall|j: int| 0 <= j < k ==> s[j] != t,
    ensures
        s.contains(t),
        key_index(s, t) == k,
    decreases s.len(),
{
    if s[0] != t {
        let d = s.drop_first();
        assert(d[k - 1] == t);
        assert(forall|j: int| 0 <= j < k - 1 ==> #[trigger] d[j] == s[j + 1]);
        lemma_key_index_at(d, t, k - 1);
    }
}

/// A failing resolution refutes the whole mesh: the offending triple is
/// the next one the faces hand over, so either it is out of bounds or
/// the deduplicated vertices have outgrown the index type.
proof fn lemma_resolve_err(
    m: MeshV,
    ctc: bool,
    cn: bool,
    processed: Seq<FaceIndex>,
    t: FaceIndex,
)
    requires
        is_prefix(processed.push(t), flat_verts(m.faces)),
        !firsts(processed).contains(t),
        !triple_ok(t, m, ctc, cn) || firsts(processed).len() >= 0x1_0000_0000,
    ensures
        !spec_index_ok(m, ctc, cn),
{
    let flat = flat_verts(m.faces);
    assert(flat[processed.len() as int] == flat.take(processed.len() as int + 1)[processed.len() as int]);
    assert(flat[processed.len() as int] == t);
    if !triple_ok(t, m, ctc, cn) {
        assert(!all_triples_ok(m, ctc, cn));
    } else {
        lemma_firsts_push(processed, t);
        lemma_firsts_prefix(processed.push(t), flat);
        assert(keys_of(m.faces).len() >= firsts(processed.push(t)).len());
    }
}

/// After a successful resolution the key sequence is the first-encounter
/// sequence of the grown processed prefix, and the returned index agrees
/// with the index measured against the final key sequence.
proof fn lemma_resolve_ok(
    m: MeshV,
    processed: Seq<FaceIndex>,
    keys_before: Seq<FaceIndex>,
    keys_after: Seq<FaceIndex>,
    t: FaceIndex,
)
    requires
        keys_before == firsts(processed),
        is_prefix(processed.push(t), flat_verts(m.faces)),
        keys_after == if keys_before.contains(t) {
            keys_before
        } else {
            keys_before.push(t)
        },
        keys_after.contains(t),
    ensures
        keys_after == firsts(processed.push(t)),
        vid(keys_after, t) == vid(keys_of(m.faces), t),
{
    lemma_firsts_push(processed, t);
    lemma_firsts_prefix(processed.push(t), flat_verts(m.faces));
    lemma_key_index_prefix(keys_after, keys_of(m.faces), t);
}

/// The flattened triples of a face prefix begin the flattened triples of
/// the whole.
proof fn lemma_flat_take_prefix(faces: Seq<Seq<FaceIndex>>, i: int)
    requires
        0 <= i <= faces.len(),
    ensures
        is_prefix(flat_verts(faces.take(i)), flat_verts(faces)),
    decreases faces.len() - i,
{
    if i == faces.len() {
        assert(faces.take(i) =~= faces);
        assert(flat_verts(faces).take(flat_verts(faces).len() as int) =~= flat_verts(faces));
    } else {
        lemma_flat_take_prefix(faces, i + 1);
        assert(faces.take(i + 1).drop_last() =~= faces.take(i));
        assert(faces.take(i + 1).last() == faces[i]);
        let a = flat_verts(faces.take(i));
        let b = flat_verts(faces.take(i + 1));
        assert(b == a + face_verts(faces[i]));
        assert(flat_verts(faces).take(a.len() as int) =~= a);
    }
}

/// Prefixes chain.
proof fn lemma_prefix_trans(a: Seq<FaceIndex>, b: Seq<FaceIndex>, c: Seq<FaceIndex>)
    requires
        is_prefix(a, b),
        is_prefix(b, c),
    ensures
        is_prefix(a, c),
{
    assert(c.take(a.len() as int) =~= a) by {
        assert(forall|i: int| 0 <= i < a.len() ==> c.take(b.len() as int)[i] == #[trigger] c[i]);
        assert(forall|i: int| 0 <= i < a.len() ==> b.take(a.len() as int)[i] == #[trigger] b[i]);
    }
}

/// Appends the interleaved component tokens of one output vertex.
fn emit_record(raw: &mut Vec<Vec<u8>>, o: &ObjObject, ctc: bool, cn: bool)
    ensures
        views_of(final(raw)@) == views_of(old(raw)@) + obj_record(*o, ctc, cn),
{
    raw.push(clone_bytes(&o.pos.x));
    raw.push(clone_bytes(&o.pos.y));
    raw.push(clone_bytes(&o.pos.z));
    if ctc {
        raw.push(clone_bytes(&o.tex_coord.x));
        raw.push(clone_bytes(&o.tex_coord.y));
    }
    if cn {
        raw.push(clone_bytes(&o.normal.x));
        raw.push(clone_bytes(&o.normal.y));
        raw.push(clone_bytes(&o.normal.z));
    }
    proof {
        assert(views_of(raw@) =~= views_of(old(raw)@) + obj_record(*o, ctc, cn));
    }
}

/// Turns raw mesh data into the two output buffers: the triangle index
/// buffer of the fan triangulation, and the interleaved vertex buffer of
/// the deduplicated vertices, one component token per entry. Succeeds
/// exactly when every triple the faces hand over stays inside its raw
/// arrays and every dense output index fits the index type; any failure
/// is an out-of-range failure, and the first one stops the run.
pub fn index_data(obj_data: ObjData, contains_tex_coords: bool, contains_normals: bool) -> (r:
    Result<(Vec<u32>, Vec<Vec<u8>>), ObjError>)
    ensures
        match r {
            Ok(out) => {
                &&& spec_index_ok(obj_data@, contains_tex_coords, contains_normals)
                &&& out.0@ == spec_indices(obj_data@.faces, keys_of(obj_data@.faces))
                &&& views_of(out.1@) == spec_records(
                    obj_data@,
                    keys_of(obj_data@.faces),
                    contains_tex_coords,
                    contains_normals,
                )
                &&& views_of(out.1@).len() == spec_stride(contains_tex_coords, contains_normals)
                    * keys_of(obj_data@.faces).len()
                &&& forall|j: int|
                    0 <= j < out.0@.len() ==> (#[trigger] out.0@[j] as int) < keys_of(
                        obj_data@.faces,
                    ).len()
            },
            Err(e) => {
                &&& e == ObjError::IndexOutOfRange
                &&& !spec_index_ok(obj_data@, contains_tex_coords, contains_normals)
            },
        },
{
    let ctc = contains_tex_coords;
    let cn = contains_normals;
    let ghost m = obj_data@;
    let ghost fkeys = keys_of(m.faces);
    let mut indices: Vec<u32> = Vec::new();
    let mut ix = Indexer::new();
    let nfaces = obj_data.faces.len();
    let mut i: usize = 0;
    proof {
        assert(m.faces.take(0) =~= Seq::<Seq<FaceIndex>>::empty());
        assert(ix.keys@ =~= firsts(flat_verts(m.faces.take(0))));
        assert(indices@ =~= spec_indices(m.faces.take(0), fkeys));
    }
    while i < nfaces
        invariant
            i <= nfaces,
            nfaces == obj_data.faces@.len(),
            m == obj_data@,
            ctc == contains_tex_coords,
            cn == contains_normals,
            fkeys == keys_of(m.faces),
            indexer_wf(ix, m, ctc, cn),
            ix.keys@ == firsts(flat_verts(m.faces.take(i as int))),
            indices@ == spec_indices(m.faces.take(i as int), fkeys),
        decreases nfaces - i,
    {
        let ghost base = flat_verts(m.faces.take(i as int));
        proof {
            assert(m.faces.take(i + 1).drop_last() =~= m.faces.take(i as int));
            assert(m.faces.take(i + 1).last() == m.faces[i as int]);
            lemma_flat_take_prefix(m.faces, i + 1);
        }
        let f = &obj_data.faces[i];
        let ghost fv = f@;
        proof {
            assert(fv == m.faces[i as int]);
        }
        let flen = f.len();
        if flen > 0 {
            proof {
                assert(flat_verts(m.faces.take(i + 1)) == base + face_verts(fv));
                if flen >= 3 {
                    assert(face_verts(fv) == fv);
                    assert(base.push(fv[0]) =~= base + fv.take(1));
                    assert(is_prefix(base + fv.take(1), base + fv)) by {
                        assert((base + fv).take((base + fv.take(1)).len() as int) =~= base
                            + fv.take(1));
                    }
                    lemma_prefix_trans(
                        base + fv.take(1),
                        flat_verts(m.faces.take(i + 1)),
                        flat_verts(m.faces),
                    );
                    assert(is_prefix(base.push(fv[0]), flat_verts(m.faces)));
                } else {
                    assert(base.push(fv[0]) =~= base + face_verts(fv));
                    assert(is_prefix(base.push(fv[0]), flat_verts(m.faces)));
                }
            }
            let ghost keys0 = ix.keys@;
            let id0 = match ix.resolve(&f[0], &obj_data, ctc, cn) {
                Ok(v) => v,
                Err(e) => {
                    proof {
                        lemma_resolve_err(m, ctc, cn, base, fv[0]);
                    }
                    return Err(e);
                },
            };
            proof {
                lemma_resolve_ok(m, base, keys0, ix.keys@, fv[0]);
            }
            if flen >= 3 {
                proof {
                    assert(flat_verts(m.faces.take(i + 1)) == base + face_verts(fv));
                    assert(face_verts(fv) == fv);
                    assert((base + fv.take(1)).push(fv[1]) =~= base + fv.take(2));
                    assert(is_prefix(base + fv.take(2), base + fv)) by {
                        assert((base + fv).take((base + fv.take(2)).len() as int) =~= base
                            + fv.take(2));
                    }
                    lemma_prefix_trans(
                        base + fv.take(2),
                        flat_verts(m.faces.take(i + 1)),
                        flat_verts(m.faces),
                    );
                    assert(is_prefix((base + fv.take(1)).push(fv[1]), flat_verts(m.faces)));
                    assert(base.push(fv[0]) =~= base + fv.take(1));
                }
                let ghost keys1 = ix.keys@;
                let mut prev = match ix.resolve(&f[1], &obj_data, ctc, cn) {
                    Ok(v) => v,
                    Err(e) => {
                        proof {
                            lemma_resolve_err(m, ctc, cn, base + fv.take(1), fv[1]);
                        }
                        return Err(e);
                    },
                };
                proof {
                    lemma_resolve_ok(m, base + fv.take(1), keys1, ix.keys@, fv[1]);
                    assert(face_tris(fv.take(2), fkeys) == Seq::<u32>::empty());
                }
                let mut j: usize = 2;
                while j < flen
                    invariant
                        2 <= j <= flen,
                        flen == f@.len(),
                        3 <= flen,
                        fv == f@,
                        m == obj_data@,
                        ctc == contains_tex_coords,
                        cn == contains_normals,
                        fkeys == keys_of(m.faces),
                        i < m.faces.len(),
                        fv == m.faces[i as int],
                        base == flat_verts(m.faces.take(i as int)),
                        indexer_wf(ix, m, ctc, cn),
                        ix.keys@ == firsts(base + fv.take(j as int)),
                        indices@ == spec_indices(m.faces.take(i as int), fkeys) + face_tris(
                            fv.take(j as int),
                            fkeys,
                        ),
                        prev == vid(fkeys, fv[j - 1]),
                        id0 == vid(fkeys, fv[0]),
                    decreases flen - j,
                {
                    proof {
                        assert(m.faces.take(i + 1).drop_last() =~= m.faces.take(i as int));
                        assert(m.faces.take(i + 1).last() == m.faces[i as int]);
                        lemma_flat_take_prefix(m.faces, i + 1);
                        assert(flat_verts(m.faces.take(i + 1)) == base + face_verts(fv));
                        assert(face_verts(fv) == fv);
                        assert((base + fv.take(j as int)).push(fv[j as int]) =~= base + fv.take(
                            j + 1,
                        ));
                        assert(is_prefix(base + fv.take(j + 1), base + fv)) by {
                            assert((base + fv).take((base + fv.take(j + 1)).len() as int) =~= base
                                + fv.take(j + 1));
                        }
                        lemma_prefix_trans(
                            base + fv.take(j + 1),
                            flat_verts(m.faces.take(i + 1)),
                            flat_verts(m.faces),
                        );
                        assert(is_prefix(
                            (base + fv.take(j as int)).push(fv[j as int]),
                            flat_verts(m.faces),
                        ));
                    }
                    let ghost keysj = ix.keys@;
                    let cur = match ix.resolve(&f[j], &obj_data, ctc, cn) {
                        Ok(v) => v,
                        Err(e) => {
                            proof {
                                lemma_resolve_err(m, ctc, cn, base + fv.take(j as int), fv[j as int]);
                            }
                            return Err(e);
                        },
                    };
                    proof {
                        lemma_resolve_ok(m, base + fv.take(j as int), keysj, ix.keys@, fv[j as int]);
                    }
                    let ghost ind0 = indices@;
                    indices.push(id0);
                    indices.push(prev);
                    indices.push(cur);
                    proof {
                        assert(fv.take(j + 1).drop_last() =~= fv.take(j as int));
                        assert(fv.take(j + 1).last() == fv[j as int]);
                        assert(fv.take(j + 1)[0] == fv[0]);
                        assert(fv.take(j + 1)[j - 1] == fv[j - 1]);
                        assert(face_tris(fv.take(j + 1), fkeys) == face_tris(fv.take(j as int), fkeys)
                            + seq![vid(fkeys, fv[0]), vid(fkeys, fv[j - 1]), vid(fkeys, fv[j as int])]);
                        assert(indices@ =~= spec_indices(m.faces.take(i as int), fkeys) + face_tris(
                            fv.take(j + 1),
                            fkeys,
                        ));
                    }
                    prev = cur;
                    j = j + 1;
                }
                proof {
                    assert(fv.take(flen as int) =~= fv);
                    assert(face_verts(fv) == fv);
                    assert(flat_verts(m.faces.take(i + 1)) == base + fv);
                    assert(spec_indices(m.faces.take(i + 1), fkeys) == spec_indices(
                        m.faces.take(i as int),
                        fkeys,
                    ) + face_tris(fv, fkeys));
                }
            } else {
                proof {
                    assert(base.push(fv[0]) =~= base + face_verts(fv));
                    assert(flat_verts(m.faces.take(i + 1)) == base + face_verts(fv));
                    assert(face_tris(fv, fkeys) == Seq::<u32>::empty());
                    assert(spec_indices(m.faces.take(i + 1), fkeys) == spec_indices(
                        m.faces.take(i as int),
                        fkeys,
                    ) + face_tris(fv, fkeys));
                    assert(indices@ =~= spec_indices(m.faces.take(i + 1), fkeys));
                }
            }
        } else {
            proof {
                assert(face_verts(fv) =~= Seq::<FaceIndex>::empty());
                assert(flat_verts(m.faces.take(i + 1)) =~= base);
                assert(face_tris(fv, fkeys) == Seq::<u32>::empty());
                assert(spec_indices(m.faces.take(i + 1), fkeys) == spec_indices(
                    m.faces.take(i as int),
                    fkeys,
                ) + face_tris(fv, fkeys));
                assert(indices@ =~= spec_indices(m.faces.take(i + 1), fkeys));
            }
        }
        i = i + 1;
    }
    proof {
        assert(m.faces.take(i as int) =~= m.faces);
    }
    let ghost flat = flat_verts(m.faces);
    proof {
        assert(ix.keys@ == fkeys);
        assert(spec_index_ok(m, ctc, cn)) by {
            assert forall|idx: int| 0 <= idx < flat.len() implies triple_ok(
                flat[idx],
                m,
                ctc,
                cn,
            ) by {
                assert(flat.contains(flat[idx]));
                lemma_firsts_contains(flat, flat[idx]);
                let k = choose|k: int| 0 <= k < fkeys.len() && fkeys[k] == flat[idx];
                assert(triple_ok(fkeys[k], m, ctc, cn));
            }
        }
    }
    let mut raw: Vec<Vec<u8>> = Vec::new();
    let dlen = ix.data_vec.len();
    let mut k: usize = 0;
    proof {
        assert(fkeys.take(0) =~= Seq::<FaceIndex>::empty());
        assert(views_of(raw@) =~= spec_records(m, fkeys.take(0), ctc, cn));
    }
    while k < dlen
        invariant
            k <= dlen,
            dlen == ix.data_vec@.len(),
            m == obj_data@,
            ctc == contains_tex_coords,
            cn == contains_normals,
            fkeys == keys_of(m.faces),
            indexer_wf(ix, m, ctc, cn),
            ix.keys@ == fkeys,
            views_of(raw@) == spec_records(m, fkeys.take(k as int), ctc, cn),
        decreases dlen - k,
    {
        let o = &ix.data_vec[k];
        emit_record(&mut raw, o, ctc, cn);
        proof {
            assert(fkeys.take(k + 1).drop_last() =~= fkeys.take(k as int));
            assert(fkeys.take(k + 1).last() == fkeys[k as int]);
            assert(obj_record(ix.data_vec@[k as int], ctc, cn) == spec_record(
                m,
                fkeys[k as int],
                ctc,
                cn,
            ));
            assert(views_of(raw@) =~= spec_records(m, fkeys.take(k + 1), ctc, cn));
        }
        k = k + 1;
    }
    proof {
        assert(fkeys.take(k as int) =~= fkeys);
        lemma_objdata_wf(obj_data);
        lemma_dedup_count(m, ctc, cn);
        lemma_index_buffer_bounded(m, ctc, cn);
    }
    Ok((indices, raw))
}

/// The fan triangles of a polygon with three or more vertices: exactly
/// one triangle per vertex beyond the first two, each fanned from
/// vertex 0 over a consecutive pair.
pub proof fn lemma_fan_triangle_count(f: Seq<FaceIndex>, keys: Seq<FaceIndex>)
    requires
        f.len() >= 3,
    ensures
        face_tris(f, keys).len() == 3 * (f.len() - 2),
        forall|t: int|
            0 <= t < f.len() - 2 ==> #[trigger] face_tris(f, keys)[3 * t] == vid(keys, f[0])
                && face_tris(f, keys)[3 * t + 1] == vid(keys, f[t + 1]) && face_tris(f, keys)[3 * t
                + 2] == vid(keys, f[t + 2]),
    decreases f.len(),
{
    let dl = f.drop_last();
    let tail = seq![vid(keys, f[0]), vid(keys, f[f.len() - 2]), vid(keys, f[f.len() - 1])];
    assert(face_tris(f, keys) == face_tris(dl, keys) + tail);
    if f.len() == 3 {
        assert(face_tris(dl, keys) == Seq::<u32>::empty());
        assert(face_tris(f, keys) =~= tail);
    } else {
        lemma_fan_triangle_count(dl, keys);
        assert(dl[0] == f[0]);
        assert forall|t: int| 0 <= t < f.len() - 2 implies #[trigger] face_tris(f, keys)[3 * t]
            == vid(keys, f[0]) && face_tris(f, keys)[3 * t + 1] == vid(keys, f[t + 1]) && face_tris(
            f,
            keys,
        )[3 * t + 2] == vid(keys, f[t + 2]) by {
            if t < f.len() - 3 {
                assert(face_tris(dl, keys)[3 * t] == vid(keys, dl[0]));
                assert(face_tris(dl, keys)[3 * t + 1] == vid(keys, dl[t + 1]));
                assert(face_tris(dl, keys)[3 * t + 2] == vid(keys, dl[t + 2]));
                assert(dl[t + 1] == f[t + 1] && dl[t + 2] == f[t + 2]);
            } else {
                assert(face_tris(f, keys)[3 * t] == tail[0]);
                assert(face_tris(f, keys)[3 * t + 1] == tail[1]);
                assert(face_tris(f, keys)[3 * t + 2] == tail[2]);
            }
        }
    }
}

/// Every triangle entry of one face names a present key.
proof fn lemma_face_tris_bounded(f: Seq<FaceIndex>, keys: Seq<FaceIndex>)
    requires
        keys.len() <= 0x1_0000_0000,
        forall|i: int| 0 <= i < f.len() ==> keys.contains(#[trigger] f[i]),
    ensures
        forall|j: int|
            0 <= j < face_tris(f, keys).len() ==> (#[trigger] face_tris(f, keys)[j] as int)
                < keys.len(),
    decreases f.len(),
{
    if f.len() >= 3 {
        let dl = f.drop_last();
        assert(forall|i: int| 0 <= i < dl.len() ==> #[trigger] dl[i] == f[i]);
        lemma_face_tris_bounded(dl, keys);
        lemma_key_index_bounds(keys, f[0]);
        lemma_key_index_bounds(keys, f[f.len() - 2]);
        lemma_key_index_bounds(keys, f[f.len() - 1]);
        let tail = seq![vid(keys, f[0]), vid(keys, f[f.len() - 2]), vid(keys, f[f.len() - 1])];
        assert(face_tris(f, keys) == face_tris(dl, keys) + tail);
        assert(forall|j: int|
            0 <= j < 3 ==> (#[trigger] tail[j] as int) < keys.len());
    }
}

/// Every entry of the whole index buffer names a present key.
proof fn lemma_indices_bounded(faces: Seq<Seq<FaceIndex>>, keys: Seq<FaceIndex>)
    requires
        keys.len() <= 0x1_0000_0000,
        forall|i: int|
            0 <= i < flat_verts(faces).len() ==> keys.contains(#[trigger] flat_verts(faces)[i]),
    ensures
        forall|j: int|
            0 <= j < spec_indices(faces, keys).len() ==> (#[trigger] spec_indices(faces, keys)[j]
                as int) < keys.len(),
    decreases faces.len(),
{
    if faces.len() > 0 {
        let dl = faces.drop_last();
        let f = faces.last();
        let a = flat_verts(dl);
        let b = face_verts(f);
        assert(flat_verts(faces) == a + b);
        assert(forall|i: int|
            0 <= i < a.len() ==> #[trigger] a[i] == flat_verts(faces)[i]);
        lemma_indices_bounded(dl, keys);
        if f.len() >= 3 {
            assert(b == f);
            assert(forall|i: int|
                0 <= i < f.len() ==> #[trigger] f[i] == flat_verts(faces)[a.len() + i]);
            lemma_face_tris_bounded(f, keys);
        } else {
            assert(face_tris(f, keys) == Seq::<u32>::empty());
        }
        assert(spec_indices(faces, keys) == spec_indices(dl, keys) + face_tris(f, keys));
    }
}

/// Every index in the output index buffer is strictly below the vertex
/// count: the number of deduplicated vertices, which is the vertex
/// buffer's length divided by the stride.
pub proof fn lemma_index_buffer_bounded(m: MeshV, ctc: bool, cn: bool)
    requires
        spec_index_ok(m, ctc, cn),
    ensures
        forall|j: int|
            0 <= j < spec_indices(m.faces, keys_of(m.faces)).len() ==> (#[trigger] spec_indices(
                m.faces,
                keys_of(m.faces),
            )[j] as int) < keys_of(m.faces).len(),
{
    let flat = flat_verts(m.faces);
    let keys = keys_of(m.faces);
    assert forall|i: int| 0 <= i < flat.len() implies keys.contains(#[trigger] flat[i]) by {
        assert(flat.contains(flat[i]));
        lemma_firsts_contains(flat, flat[i]);
    }
    lemma_indices_bounded(m.faces, keys);
}

/// One record per key, each of stride length.
proof fn lemma_records_len(m: MeshV, keys: Seq<FaceIndex>, ctc: bool, cn: bool)
    requires
        mesh_wf(m),
        forall|i: int| 0 <= i < keys.len() ==> triple_ok(#[trigger] keys[i], m, ctc, cn),
    ensures
        spec_records(m, keys, ctc, cn).len() == spec_stride(ctc, cn) * keys.len(),
    decreases keys.len(),
{
    if keys.len() > 0 {
        let dl = keys.drop_last();
        assert(forall|i: int| 0 <= i < dl.len() ==> #[trigger] dl[i] == keys[i]);
        lemma_records_len(m, dl, ctc, cn);
        assert(triple_ok(keys.last(), m, ctc, cn)) by {
            assert(keys[keys.len() - 1] == keys.last());
        }
        assert(spec_record(m, keys.last(), ctc, cn).len() == spec_stride(ctc, cn));
        assert(spec_stride(ctc, cn) * (keys.len() - 1) + spec_stride(ctc, cn) == spec_stride(
            ctc,
            cn,
        ) * keys.len()) by (nonlinear_arith);
    }
}

/// Dedup correctness: the vertex buffer holds exactly one stride-long
/// record for each distinct attribute-index triple the faces reference.
pub proof fn lemma_dedup_count(m: MeshV, ctc: bool, cn: bool)
    requires
        mesh_wf(m),
        spec_index_ok(m, ctc, cn),
    ensures
        spec_records(m, keys_of(m.faces), ctc, cn).len() == spec_stride(ctc, cn) * keys_of(
            m.faces,
        ).len(),
{
    let flat = flat_verts(m.faces);
    let keys = keys_of(m.faces);
    assert forall|i: int| 0 <= i < keys.len() implies triple_ok(#[trigger] keys[i], m, ctc, cn) by {
        assert(keys.contains(keys[i]));
        lemma_firsts_contains(flat, keys[i]);
        let w = choose|w: int| 0 <= w < flat.len() && flat[w] == keys[i];
        assert(triple_ok(flat[w], m, ctc, cn));
    }
    lemma_records_len(m, keys, ctc, cn);
}

/// A triple that has been seen before adds no vertex: a repeat leaves
/// the first-encounter sequence, and with it the vertex buffer, alone.
pub proof fn lemma_reuse_adds_no_vertex(s: Seq<FaceIndex>, t: FaceIndex)
    requires
        s.contains(t),
    ensures
        firsts(s.push(t)) == firsts(s),
{
    lemma_firsts_contains(s, t);
    lemma_firsts_push(s, t);
}

/// Indexing is a function of the raw mesh data alone: equal meshes give
/// equal index buffers and equal vertex buffers, so running the indexer
/// twice over the same data reproduces the buffers exactly.
pub proof fn lemma_index_deterministic(m1: MeshV, m2: MeshV, ctc: bool, cn: bool)
    requires
        m1 == m2,
    ensures
        spec_indices(m1.faces, keys_of(m1.faces)) == spec_indices(m2.faces, keys_of(m2.faces)),
        spec_records(m1, keys_of(m1.faces), ctc, cn) == spec_records(m2, keys_of(m2.faces), ctc, cn),
{
}

} // verus!
