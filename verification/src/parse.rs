//! The line-oriented OBJ parser: classifies each line by its leading
//! token, gathers positions, texture coordinates and normals as raw
//! component tokens, and turns face tokens into attribute-index triples.
//! Unrecognized lines are ignored on purpose: the format is forward
//! compatible with directives this loader does not model.
use crate::FaceIndex;
use crate::index::mesh_wf;
use crate::lex::spec_split;
use crate::lex::spec_tokens;
use crate::lex::split_by;
use crate::lex::split_ws;
use crate::lex::views_of;
use crate::mesh::MeshV;
use crate::mesh::Num2;
use crate::mesh::Num3;
use crate::mesh::ObjData;
use crate::mesh::ObjError;
use crate::mesh::clone_bytes;
use crate::mesh::face_views;
use crate::mesh::num2_views;
use crate::mesh::num3_views;
use crate::num::int_val;
use crate::num::is_float_token;
use crate::num::is_int_token;
use crate::num::is_float_bytes;
use crate::num::parse_i32;
use vstd::prelude::*;
use vstd::slice::slice_subrange;

verus! {

/// `line` begins with the prefix `p`.
pub open spec fn starts_with(line: Seq<u8>, p: Seq<u8>) -> bool {
    p.len() <= line.len() && line.take(p.len() as int) == p
}

/// The accumulated mesh the four raw collections denote.
pub open spec fn cur_mesh(
    verts: Seq<Num3>,
    tex_coords: Seq<Num2>,
    normals: Seq<Num3>,
    faces: Seq<Vec<FaceIndex>>,
) -> MeshV {
    MeshV {
        positions: num3_views(verts),
        tex_coords: num2_views(tex_coords),
        normals: num3_views(normals),
        faces: face_views(faces),
    }
}

/// One face token, split on `/`: a mandatory one-based position index,
/// an optional (possibly empty) texture-coordinate index, an optional
/// normal index. Present indices are converted to zero-based; an absent
/// slot gets the sentinel `-1`. A present index below one would be
/// negative after conversion and is out of range.
pub open spec fn spec_face_token(tok: Seq<u8>) -> Result<FaceIndex, ObjError> {
    let parts = spec_split(tok, 47);
    if !is_int_token(parts[0]) {
        Err(ObjError::MalformedFaceToken)
    } else if int_val(parts[0]) < 1 {
        Err(ObjError::IndexOutOfRange)
    } else if parts.len() > 1 && parts[1].len() > 0 && !is_int_token(parts[1]) {
        Err(ObjError::MalformedFaceToken)
    } else if parts.len() > 1 && parts[1].len() > 0 && int_val(parts[1]) < 1 {
        Err(ObjError::IndexOutOfRange)
    } else if parts.len() > 2 && !is_int_token(parts[2]) {
        Err(ObjError::MalformedFaceToken)
    } else if parts.len() > 2 && int_val(parts[2]) < 1 {
        Err(ObjError::IndexOutOfRange)
    } else {
        Ok(
            FaceIndex {
                pos: (int_val(parts[0]) - 1) as i32,
                tex: if parts.len() > 1 && parts[1].len() > 0 {
                    (int_val(parts[1]) - 1) as i32
                } else {
                    -1i32
                },
                norm: if parts.len() > 2 {
                    (int_val(parts[2]) - 1) as i32
                } else {
                    -1i32
                },
            },
        )
    }
}

/// The face a sequence of face tokens yields, or the error of the first
/// token that fails.
pub open spec fn spec_face_tokens(toks: Seq<Seq<u8>>) -> Result<Seq<FaceIndex>, ObjError>
    decreases toks.len(),
{
    if toks.len() == 0 {
        Ok(Seq::empty())
    } else {
        match spec_face_tokens(toks.drop_last()) {
            Err(e) => Err(e),
            Ok(pre) => match spec_face_token(toks.last()) {
                Err(e) => Err(e),
                Ok(fi) => Ok(pre.push(fi)),
            },
        }
    }
}

/// Every token matches the floating-point literal grammar.
pub open spec fn all_float_tokens(toks: Seq<Seq<u8>>) -> bool {
    forall|i: int| 0 <= i < toks.len() ==> is_float_token(#[trigger] toks[i])
}

/// An attribute line's remainder: its tokens must all be numeric and at
/// least `k` of them must be present; the first `k` are the components.
pub open spec fn spec_attr_line(rest: Seq<u8>, k: int) -> Result<Seq<Seq<u8>>, ObjError> {
    let toks = spec_tokens(rest);
    if !all_float_tokens(toks) {
        Err(ObjError::MalformedNumber)
    } else if toks.len() < k {
        Err(ObjError::InsufficientComponents)
    } else {
        Ok(toks.take(k))
    }
}

/// How one line changes the accumulated mesh: positions, texture
/// coordinates, normals and faces by their prefixes, anything else
/// ignored.
pub open spec fn spec_line_step(m: MeshV, line: Seq<u8>) -> Result<MeshV, ObjError> {
    if starts_with(line, seq![118u8, 32u8]) {
        match spec_attr_line(line.skip(2), 3) {
            Err(e) => Err(e),
            Ok(c) => Ok(
                MeshV {
                    positions: m.positions.push(c),
                    tex_coords: m.tex_coords,
                    normals: m.normals,
                    faces: m.faces,
                },
            ),
        }
    } else if starts_with(line, seq![118u8, 116u8, 32u8]) {
        match spec_attr_line(line.skip(3), 2) {
            Err(e) => Err(e),
            Ok(c) => Ok(
                MeshV {
                    positions: m.positions,
                    tex_coords: m.tex_coords.push(c),
                    normals: m.normals,
                    faces: m.faces,
                },
            ),
        }
    } else if starts_with(line, seq![118u8, 110u8, 32u8]) {
        match spec_attr_line(line.skip(3), 3) {
            Err(e) => Err(e),
            Ok(c) => Ok(
                MeshV {
                    positions: m.positions,
                    tex_coords: m.tex_coords,
                    normals: m.normals.push(c),
                    faces: m.faces,
                },
            ),
        }
    } else if starts_with(line, seq![102u8, 32u8]) {
        match spec_face_tokens(spec_tokens(line.skip(2))) {
            Err(e) => Err(e),
            Ok(f) => Ok(
                MeshV {
                    positions: m.positions,
                    tex_coords: m.tex_coords,
                    normals: m.normals,
                    faces: m.faces.push(f),
                },
            ),
        }
    } else {
        Ok(m)
    }
}

/// The mesh with nothing gathered yet.
pub open spec fn empty_mesh() -> MeshV {
    MeshV {
        positions: Seq::empty(),
        tex_coords: Seq::empty(),
        normals: Seq::empty(),
        faces: Seq::empty(),
    }
}

/// Folds the line steps over a sequence of lines, stopping at the first
/// failing line.
pub open spec fn spec_parse_lines(lines: Seq<Seq<u8>>, m: MeshV) -> Result<MeshV, ObjError>
    decreases lines.len(),
{
    if lines.len() == 0 {
        Ok(m)
    } else {
        match spec_line_step(m, lines[0]) {
            Err(e) => Err(e),
            Ok(m2) => spec_parse_lines(lines.drop_first(), m2),
        }
    }
}

/// What parsing a whole OBJ text yields: the text is split into lines
/// and each line contributes per `spec_line_step`.
pub open spec fn spec_parse(text: Seq<u8>) -> Result<MeshV, ObjError> {
    spec_parse_lines(spec_split(text, 10), empty_mesh())
}

/// A two-byte prefix test.
fn starts2(line: &Vec<u8>, a: u8, b: u8) -> (r: bool)
    ensures
        r == starts_with(line@, seq![a, b]),
{
    if line.len() >= 2 {
        let r = line[0] == a && line[1] == b;
        proof {
            if r {
                assert(line@.take(2) =~= seq![a, b]);
            } else {
                assert(line@.take(2)[0] == line@[0] && line@.take(2)[1] == line@[1]);
                assert(seq![a, b][0] == a && seq![a, b][1] == b);
            }
        }
        r
    } else {
        false
    }
}

/// A three-byte prefix test.
fn starts3(line: &Vec<u8>, a: u8, b: u8, c: u8) -> (r: bool)
    ensures
        r == starts_with(line@, seq![a, b, c]),
{
    if line.len() >= 3 {
        let r = line[0] == a && line[1] == b && line[2] == c;
        proof {
            if r {
                assert(line@.take(3) =~= seq![a, b, c]);
            } else {
                assert(line@.take(3)[0] == line@[0] && line@.take(3)[1] == line@[1]
                    && line@.take(3)[2] == line@[2]);
                assert(seq![a, b, c][0] == a && seq![a, b, c][1] == b && seq![a, b, c][2] == c);
            }
        }
        r
    } else {
        false
    }
}

/// Parses one face token into its attribute-index triple.
pub fn parse_face_vertex(tok: &Vec<u8>) -> (r: Result<FaceIndex, ObjError>)
    ensures
        r == spec_face_token(tok@),
{
    let parts = split_by(tok.as_slice(), 47);
    let ghost parts_v = spec_split(tok@, 47);
    proof {
        assert(parts_v == views_of(parts@));
        assert(forall|k: int| 0 <= k < parts@.len() ==> views_of(parts@)[k] == #[trigger] parts@[k]@);
    }
    let v0 = match parse_i32(parts[0].as_slice()) {
        None => {
            return Err(ObjError::MalformedFaceToken);
        },
        Some(v) => v,
    };
    if v0 < 1 {
        return Err(ObjError::IndexOutOfRange);
    }
    let mut tex: i32 = -1;
    if parts.len() > 1 && parts[1].len() > 0 {
        let v1 = match parse_i32(parts[1].as_slice()) {
            None => {
                return Err(ObjError::MalformedFaceToken);
            },
            Some(v) => v,
        };
        if v1 < 1 {
            return Err(ObjError::IndexOutOfRange);
        }
        tex = v1 - 1;
    }
    let mut norm: i32 = -1;
    if parts.len() > 2 {
        let v2 = match parse_i32(parts[2].as_slice()) {
            None => {
                return Err(ObjError::MalformedFaceToken);
            },
            Some(v) => v,
        };
        if v2 < 1 {
            return Err(ObjError::IndexOutOfRange);
        }
        norm = v2 - 1;
    }
    Ok(FaceIndex { pos: v0 - 1, tex, norm })
}

/// A prefix of face tokens that parsed cleanly followed by a failing one
/// makes the whole token sequence fail with that token's error.
proof fn lemma_face_tokens_err(toks: Seq<Seq<u8>>, j: int, e: ObjError)
    requires
        0 <= j < toks.len(),
        spec_face_tokens(toks.take(j)) is Ok,
        spec_face_token(toks[j]) == Err::<FaceIndex, ObjError>(e),
    ensures
        spec_face_tokens(toks) == Err::<Seq<FaceIndex>, ObjError>(e),
    decreases toks.len(),
{
    let dl = toks.drop_last();
    if j == toks.len() - 1 {
        assert(toks.take(j) =~= dl);
        assert(toks.last() == toks[j]);
    } else {
        assert(dl.take(j) =~= toks.take(j));
        assert(dl[j] == toks[j]);
        lemma_face_tokens_err(dl, j, e);
    }
}

/// Parses the remainder of a face line into the face's triples.
pub fn parse_face_line(rest: &[u8]) -> (r: Result<Vec<FaceIndex>, ObjError>)
    ensures
        r is Ok ==> spec_face_tokens(spec_tokens(rest@)) == Ok::<Seq<FaceIndex>, ObjError>(
            r->Ok_0@,
        ),
        r is Err ==> spec_face_tokens(spec_tokens(rest@)) == Err::<Seq<FaceIndex>, ObjError>(
            r->Err_0,
        ),
{
    let toks = split_ws(rest);
    let ghost toks_v = spec_tokens(rest@);
    proof {
        assert(toks_v == views_of(toks@));
        assert(forall|k: int| 0 <= k < toks@.len() ==> views_of(toks@)[k] == #[trigger] toks@[k]@);
    }
    let mut face: Vec<FaceIndex> = Vec::new();
    let mut j: usize = 0;
    proof {
        assert(toks_v.take(0) =~= Seq::<Seq<u8>>::empty());
    }
    while j < toks.len()
        invariant
            j <= toks@.len(),
            toks_v == views_of(toks@),
            toks_v == spec_tokens(rest@),
            forall|k: int| 0 <= k < toks@.len() ==> views_of(toks@)[k] == #[trigger] toks@[k]@,
            spec_face_tokens(toks_v.take(j as int)) == Ok::<Seq<FaceIndex>, ObjError>(face@),
        decreases toks@.len() - j,
    {
        match parse_face_vertex(&toks[j]) {
            Ok(fi) => {
                face.push(fi);
                proof {
                    assert(toks_v.take(j + 1).drop_last() =~= toks_v.take(j as int));
                    assert(toks_v.take(j + 1).last() == toks_v[j as int]);
                }
            },
            Err(e) => {
                proof {
                    lemma_face_tokens_err(toks_v, j as int, e);
                }
                return Err(e);
            },
        }
        j = j + 1;
    }
    proof {
        assert(toks_v.take(j as int) =~= toks_v);
    }
    Ok(face)
}

/// Checks every token of an attribute line against the numeric grammar
/// and hands the tokens back on success.
fn check_attr_tokens(rest: &[u8]) -> (r: Result<Vec<Vec<u8>>, ObjError>)
    ensures
        r is Ok ==> views_of(r->Ok_0@) == spec_tokens(rest@) && all_float_tokens(
            spec_tokens(rest@),
        ),
        r is Err ==> r->Err_0 == ObjError::MalformedNumber && !all_float_tokens(
            spec_tokens(rest@),
        ),
{
    let toks = split_ws(rest);
    let ghost toks_v = spec_tokens(rest@);
    proof {
        assert(toks_v == views_of(toks@));
        assert(forall|k: int| 0 <= k < toks@.len() ==> views_of(toks@)[k] == #[trigger] toks@[k]@);
    }
    let mut j: usize = 0;
    while j < toks.len()
        invariant
            j <= toks@.len(),
            toks_v == views_of(toks@),
            toks_v == spec_tokens(rest@),
            forall|k: int| 0 <= k < toks@.len() ==> views_of(toks@)[k] == #[trigger] toks@[k]@,
            forall|i: int| 0 <= i < j ==> is_float_token(#[trigger] toks_v[i]),
        decreases toks@.len() - j,
    {
        if !is_float_bytes(toks[j].as_slice()) {
            assert(!is_float_token(toks_v[j as int]));
            return Err(ObjError::MalformedNumber);
        }
        j = j + 1;
    }
    Ok(toks)
}

/// Parses an attribute line's remainder into three components.
pub fn parse_attr3(rest: &[u8]) -> (r: Result<Num3, ObjError>)
    ensures
        r is Ok ==> spec_attr_line(rest@, 3) == Ok::<Seq<Seq<u8>>, ObjError>(r->Ok_0@),
        r is Err ==> spec_attr_line(rest@, 3) == Err::<Seq<Seq<u8>>, ObjError>(r->Err_0),
{
    let ghost toks_v = spec_tokens(rest@);
    let toks = match check_attr_tokens(rest) {
        Err(e) => {
            return Err(e);
        },
        Ok(t) => t,
    };
    if toks.len() < 3 {
        return Err(ObjError::InsufficientComponents);
    }
    proof {
        assert(forall|k: int| 0 <= k < toks@.len() ==> views_of(toks@)[k] == #[trigger] toks@[k]@);
    }
    let x = clone_bytes(&toks[0]);
    let y = clone_bytes(&toks[1]);
    let z = clone_bytes(&toks[2]);
    let n = Num3 { x, y, z };
    proof {
        assert(n@ =~= toks_v.take(3));
    }
    Ok(n)
}

/// Parses an attribute line's remainder into two components.
pub fn parse_attr2(rest: &[u8]) -> (r: Result<Num2, ObjError>)
    ensures
        r is Ok ==> spec_attr_line(rest@, 2) == Ok::<Seq<Seq<u8>>, ObjError>(r->Ok_0@),
        r is Err ==> spec_attr_line(rest@, 2) == Err::<Seq<Seq<u8>>, ObjError>(r->Err_0),
{
    let ghost toks_v = spec_tokens(rest@);
    let toks = match check_attr_tokens(rest) {
        Err(e) => {
            return Err(e);
        },
        Ok(t) => t,
    };
    if toks.len() < 2 {
        return Err(ObjError::InsufficientComponents);
    }
    proof {
        assert(forall|k: int| 0 <= k < toks@.len() ==> views_of(toks@)[k] == #[trigger] toks@[k]@);
    }
    let x = clone_bytes(&toks[0]);
    let y = clone_bytes(&toks[1]);
    let n = Num2 { x, y };
    proof {
        assert(n@ =~= toks_v.take(2));
    }
    Ok(n)
}

/// Parses a whole OBJ text into its raw mesh data, or fails with the
/// error of the first line that is malformed.
pub fn parse_obj(text: &[u8]) -> (r: Result<ObjData, ObjError>)
    ensures
        r is Ok ==> spec_parse(text@) == Ok::<MeshV, ObjError>(r->Ok_0@),
        r is Err ==> spec_parse(text@) == Err::<MeshV, ObjError>(r->Err_0),
{
    let lines = split_by(text, 10);
    let ghost lines_v = spec_split(text@, 10);
    proof {
        assert(lines_v == views_of(lines@));
        assert(forall|k: int|
            0 <= k < lines@.len() ==> views_of(lines@)[k] == #[trigger] lines@[k]@);
    }
    let mut verts: Vec<Num3> = Vec::new();
    let mut tex_coords: Vec<Num2> = Vec::new();
    let mut normals: Vec<Num3> = Vec::new();
    let mut faces: Vec<crate::mesh::FaceIndices> = Vec::new();
    let mut i: usize = 0;
    proof {
        assert(lines_v.skip(0) =~= lines_v);
        assert(num3_views(verts@) =~= Seq::<Seq<Seq<u8>>>::empty());
        assert(num2_views(tex_coords@) =~= Seq::<Seq<Seq<u8>>>::empty());
        assert(face_views(faces@) =~= Seq::<Seq<FaceIndex>>::empty());
        assert(cur_mesh(verts@, tex_coords@, normals@, faces@) == empty_mesh());
    }
    while i < lines.len()
        invariant
            i <= lines@.len(),
            lines_v == views_of(lines@),
            forall|k: int| 0 <= k < lines@.len() ==> views_of(lines@)[k] == #[trigger] lines@[k]@,
            spec_parse(text@) == spec_parse_lines(
                lines_v.skip(i as int),
                cur_mesh(verts@, tex_coords@, normals@, faces@),
            ),
        decreases lines@.len() - i,
    {
        let ghost rest_lines = lines_v.skip(i as int);
        let ghost m0 = cur_mesh(verts@, tex_coords@, normals@, faces@);
        proof {
            assert(rest_lines[0] == lines_v[i as int]);
            assert(rest_lines.drop_first() =~= lines_v.skip(i + 1));
        }
        let line = &lines[i];
        let n = line.len();
        if starts2(line, 118, 32) {
            let rest = slice_subrange(line.as_slice(), 2, n);
            proof {
                assert(rest@ =~= line@.skip(2));
            }
            match parse_attr3(rest) {
                Ok(c) => {
                    let ghost cv = c@;
                    let ghost vv = verts@;
                    verts.push(c);
                    proof {
                        assert(num3_views(verts@) =~= num3_views(vv).push(cv));
                        let m1 = MeshV {
                            positions: m0.positions.push(cv),
                            tex_coords: m0.tex_coords,
                            normals: m0.normals,
                            faces: m0.faces,
                        };
                        assert(spec_line_step(m0, lines_v[i as int]) == Ok::<MeshV, ObjError>(m1));
                        assert(cur_mesh(verts@, tex_coords@, normals@, faces@) == m1);
                        assert(spec_parse_lines(rest_lines, m0) == spec_parse_lines(
                            lines_v.skip(i + 1),
                            m1,
                        ));
                    }
                },
                Err(e) => {
                    proof {
                        assert(spec_line_step(m0, lines_v[i as int]) == Err::<MeshV, ObjError>(e));
                        assert(spec_parse_lines(rest_lines, m0) == Err::<MeshV, ObjError>(e));
                    }
                    return Err(e);
                },
            }
        } else if starts3(line, 118, 116, 32) {
            let rest = slice_subrange(line.as_slice(), 3, n);
            proof {
                assert(rest@ =~= line@.skip(3));
            }
            match parse_attr2(rest) {
                Ok(c) => {
                    let ghost cv = c@;
                    let ghost vv = tex_coords@;
                    tex_coords.push(c);
                    proof {
                        assert(num2_views(tex_coords@) =~= num2_views(vv).push(cv));
                        let m1 = MeshV {
                            positions: m0.positions,
                            tex_coords: m0.tex_coords.push(cv),
                            normals: m0.normals,
                            faces: m0.faces,
                        };
                        assert(spec_line_step(m0, lines_v[i as int]) == Ok::<MeshV, ObjError>(m1));
                        assert(cur_mesh(verts@, tex_coords@, normals@, faces@) == m1);
                        assert(spec_parse_lines(rest_lines, m0) == spec_parse_lines(
                            lines_v.skip(i + 1),
                            m1,
                        ));
                    }
                },
                Err(e) => {
                    proof {
                        assert(spec_line_step(m0, lines_v[i as int]) == Err::<MeshV, ObjError>(e));
                        assert(spec_parse_lines(rest_lines, m0) == Err::<MeshV, ObjError>(e));
                    }
                    return Err(e);
                },
            }
        } else if starts3(line, 118, 110, 32) {
            let rest = slice_subrange(line.as_slice(), 3, n);
            proof {
                assert(rest@ =~= line@.skip(3));
            }
            match parse_attr3(rest) {
                Ok(c) => {
                    let ghost cv = c@;
                    let ghost vv = normals@;
                    normals.push(c);
                    proof {
                        assert(num3_views(normals@) =~= num3_views(vv).push(cv));
                        let m1 = MeshV {
                            positions: m0.positions,
                            tex_coords: m0.tex_coords,
                            normals: m0.normals.push(cv),
                            faces: m0.faces,
                        };
                        assert(spec_line_step(m0, lines_v[i as int]) == Ok::<MeshV, ObjError>(m1));
                        assert(cur_mesh(verts@, tex_coords@, normals@, faces@) == m1);
                        assert(spec_parse_lines(rest_lines, m0) == spec_parse_lines(
                            lines_v.skip(i + 1),
                            m1,
                        ));
                    }
                },
                Err(e) => {
                    proof {
                        assert(spec_line_step(m0, lines_v[i as int]) == Err::<MeshV, ObjError>(e));
                        assert(spec_parse_lines(rest_lines, m0) == Err::<MeshV, ObjError>(e));
                    }
                    return Err(e);
                },
            }
        } else if starts2(line, 102, 32) {
            let rest = slice_subrange(line.as_slice(), 2, n);
            proof {
                assert(rest@ =~= line@.skip(2));
            }
            match parse_face_line(rest) {
                Ok(f) => {
                    let ghost fv = f@;
                    let ghost vv = faces@;
                    faces.push(f);
                    proof {
                        assert(face_views(faces@) =~= face_views(vv).push(fv));
                        let m1 = MeshV {
                            positions: m0.positions,
                            tex_coords: m0.tex_coords,
                            normals: m0.normals,
                            faces: m0.faces.push(fv),
                        };
                        assert(spec_line_step(m0, lines_v[i as int]) == Ok::<MeshV, ObjError>(m1));
                        assert(cur_mesh(verts@, tex_coords@, normals@, faces@) == m1);
                        assert(spec_parse_lines(rest_lines, m0) == spec_parse_lines(
                            lines_v.skip(i + 1),
                            m1,
                        ));
                    }
                },
                Err(e) => {
                    proof {
                        assert(spec_line_step(m0, lines_v[i as int]) == Err::<MeshV, ObjError>(e));
                        assert(spec_parse_lines(rest_lines, m0) == Err::<MeshV, ObjError>(e));
                    }
                    return Err(e);
                },
            }
        } else {
            proof {
                assert(spec_line_step(m0, lines_v[i as int]) == Ok::<MeshV, ObjError>(m0));
                assert(spec_parse_lines(rest_lines, m0) == spec_parse_lines(
                    lines_v.skip(i + 1),
                    m0,
                ));
            }
        }
        i = i + 1;
    }
    proof {
        assert(lines_v.skip(i as int) =~= Seq::<Seq<u8>>::empty());
    }
    Ok(ObjData::new(verts, tex_coords, normals, faces))
}

/// Any mesh the parser yields is well formed: every gathered attribute
/// entry holds exactly its component count, since each came from an
/// attribute line that supplied at least that many tokens.
pub proof fn lemma_parse_wf(lines: Seq<Seq<u8>>, m: MeshV)
    requires
        mesh_wf(m),
        spec_parse_lines(lines, m) is Ok,
    ensures
        mesh_wf(spec_parse_lines(lines, m)->Ok_0),
    decreases lines.len(),
{
    if lines.len() > 0 {
        let step = spec_line_step(m, lines[0]);
        let m2 = step->Ok_0;
        assert(mesh_wf(m2)) by {
            if starts_with(lines[0], seq![118u8, 32u8]) {
                let c = spec_attr_line(lines[0].skip(2), 3)->Ok_0;
                assert(c.len() == 3);
                assert(forall|i: int|
                    0 <= i < m.positions.len() ==> #[trigger] m2.positions[i] == m.positions[i]);
                assert(m2.positions[m.positions.len() as int] == c);
            } else if starts_with(lines[0], seq![118u8, 116u8, 32u8]) {
                let c = spec_attr_line(lines[0].skip(3), 2)->Ok_0;
                assert(c.len() == 2);
                assert(forall|i: int|
                    0 <= i < m.tex_coords.len() ==> #[trigger] m2.tex_coords[i]
                        == m.tex_coords[i]);
                assert(m2.tex_coords[m.tex_coords.len() as int] == c);
            } else if starts_with(lines[0], seq![118u8, 110u8, 32u8]) {
                let c = spec_attr_line(lines[0].skip(3), 3)->Ok_0;
                assert(c.len() == 3);
                assert(forall|i: int|
                    0 <= i < m.normals.len() ==> #[trigger] m2.normals[i] == m.normals[i]);
                assert(m2.normals[m.normals.len() as int] == c);
            }
        }
        lemma_parse_wf(lines.drop_first(), m2);
    }
}

} // verus!
