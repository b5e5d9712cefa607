//! The loader: runs the parser and then the indexer over OBJ text and
//! keeps the finished buffers together with the layout flags a consumer
//! needs to read the interleaved vertex data.
use crate::index::index_data;
use crate::index::keys_of;
use crate::index::lemma_dedup_count;
use crate::index::lemma_index_buffer_bounded;
use crate::index::mesh_wf;
use crate::index::spec_index_ok;
use crate::index::spec_indices;
use crate::index::spec_records;
use crate::index::spec_stride;
use crate::lex::spec_split;
use crate::lex::views_of;
use crate::mesh::ObjError;
use crate::parse::empty_mesh;
use crate::parse::lemma_parse_wf;
use crate::parse::parse_obj;
use crate::parse::spec_parse;
use crate::parse::spec_parse_lines;
use vstd::prelude::*;

verus! {

/// The mathematical model of a finished loader: the two buffers and the
/// two layout flags.
pub ghost struct LoaderV {
    pub indices: Seq<u32>,
    pub vert_data: Seq<Seq<u8>>,
    pub contains_tex_coords: bool,
    pub contains_normals: bool,
}

/// What loading a whole OBJ text yields: the parsed mesh indexed with
/// the layout flags read off the gathered attribute arrays, or the
/// first failure of either stage.
pub open spec fn spec_load(text: Seq<u8>) -> Result<LoaderV, ObjError> {
    match spec_parse(text) {
        Err(e) => Err(e),
        Ok(m) => {
            let ctc = m.tex_coords.len() > 0;
            let cn = m.normals.len() > 0;
            if spec_index_ok(m, ctc, cn) {
                Ok(
                    LoaderV {
                        indices: spec_indices(m.faces, keys_of(m.faces)),
                        vert_data: spec_records(m, keys_of(m.faces), ctc, cn),
                        contains_tex_coords: ctc,
                        contains_normals: cn,
                    },
                )
            } else {
                Err(ObjError::IndexOutOfRange)
            }
        },
    }
}

/// A converted mesh: the triangle index buffer, the interleaved vertex
/// buffer (one component token per entry), and the flags saying which
/// attributes the per-vertex layout carries.
#[derive(Debug)]
pub struct ObjLoader {
    indices: Vec<u32>,
    vert_data: Vec<Vec<u8>>,
    contains_tex_coords: bool,
    contains_normals: bool,
}

impl View for ObjLoader {
    type V = LoaderV;

    closed spec fn view(&self) -> LoaderV {
        LoaderV {
            indices: self.indices@,
            vert_data: views_of(self.vert_data@),
            contains_tex_coords: self.contains_tex_coords,
            contains_normals: self.contains_normals,
        }
    }
}

impl ObjLoader {
    /// Converts OBJ text into the two buffers. Texture coordinates and
    /// normals take part in the vertex layout exactly when the text
    /// held at least one line of that attribute.
    pub fn from_text(text: &[u8]) -> (r: Result<Self, ObjError>)
        ensures
            r is Ok ==> spec_load(text@) == Ok::<LoaderV, ObjError>(r->Ok_0@),
            r is Err ==> spec_load(text@) == Err::<LoaderV, ObjError>(r->Err_0),
    {
        let obj_data = match parse_obj(text) {
            Ok(d) => d,
            Err(e) => {
                return Err(e);
            },
        };
        let ghost m = obj_data@;
        let mut contains_tex_coords = false;
        let mut contains_normals = false;
        if obj_data.tex_coords.len() > 0 {
            contains_tex_coords = true;
        }
        if obj_data.normals.len() > 0 {
            contains_normals = true;
        }
        proof {
            assert(contains_tex_coords == (m.tex_coords.len() > 0));
            assert(contains_normals == (m.normals.len() > 0));
        }
        let (indices, vert_data) = match index_data(
            obj_data,
            contains_tex_coords,
            contains_normals,
        ) {
            Ok(p) => p,
            Err(e) => {
                return Err(e);
            },
        };
        Ok(ObjLoader { indices, vert_data, contains_tex_coords, contains_normals })
    }

    /// Whether each vertex record interleaves a texture coordinate.
    pub fn contains_tex_coords(&self) -> (r: bool)
        ensures
            r == self@.contains_tex_coords,
    {
        self.contains_tex_coords
    }

    /// Whether each vertex record interleaves a normal.
    pub fn contains_normals(&self) -> (r: bool)
        ensures
            r == self@.contains_normals,
    {
        self.contains_normals
    }

    /// Gets the vertex data and indices from the loader. Passes ownership
    /// of the data, consuming the loader in the process.
    pub fn get_data(self) -> (r: (Vec<Vec<u8>>, Vec<u32>))
        ensures
            views_of(r.0@) == self@.vert_data,
            r.1@ == self@.indices,
    {
        (self.vert_data, self.indices)
    }
}

/// For every OBJ text that loads, the buffers agree: the vertex buffer
/// holds exactly one stride-long record per deduplicated vertex, and
/// every entry of the index buffer is strictly below that vertex count
/// (the vertex buffer's length divided by the stride).
pub proof fn lemma_load_buffers_consistent(text: Seq<u8>)
    requires
        spec_load(text) is Ok,
    ensures
        ({
            let l = spec_load(text)->Ok_0;
            let m = spec_parse(text)->Ok_0;
            &&& l.vert_data.len() == spec_stride(l.contains_tex_coords, l.contains_normals)
                * keys_of(m.faces).len()
            &&& forall|j: int|
                0 <= j < l.indices.len() ==> (#[trigger] l.indices[j] as int) < keys_of(
                    m.faces,
                ).len()
        }),
{
    let m = spec_parse(text)->Ok_0;
    let ctc = m.tex_coords.len() > 0;
    let cn = m.normals.len() > 0;
    assert(mesh_wf(m)) by {
        assert(spec_parse_lines(spec_split(text, 10), empty_mesh()) is Ok);
        lemma_parse_wf(spec_split(text, 10), empty_mesh());
    }
    lemma_dedup_count(m, ctc, cn);
    lemma_index_buffer_bounded(m, ctc, cn);
}

} // verus!
