//! End-to-end scenarios through `ObjLoader::from_text`.
use obj_loader::ObjError;
use obj_loader::ObjLoader;

fn toks(v: &[&str]) -> Vec<Vec<u8>> {
    v.iter().map(|s| s.as_bytes().to_vec()).collect()
}

fn as_f32(tokens: &[Vec<u8>]) -> Vec<f32> {
    tokens
        .iter()
        .map(|t| std::str::from_utf8(t).unwrap().parse::<f64>().unwrap() as f32)
        .collect()
}

#[test]
fn triangle_end_to_end() {
    let loader = ObjLoader::from_text(b"v 0 0 0\nv 1 0 0\nv 1 1 0\nf 1 2 3\n").unwrap();
    assert!(!loader.contains_tex_coords());
    assert!(!loader.contains_normals());
    let (verts, indices) = loader.get_data();
    assert_eq!(verts, toks(&["0", "0", "0", "1", "0", "0", "1", "1", "0"]));
    assert_eq!(as_f32(&verts), vec![0.0, 0.0, 0.0, 1.0, 0.0, 0.0, 1.0, 1.0, 0.0]);
    assert_eq!(indices, vec![0, 1, 2]);
}

#[test]
fn quad_fan_triangulation() {
    let loader =
        ObjLoader::from_text(b"v 0 0 0\nv 1 0 0\nv 1 1 0\nv 0 1 0\nf 1 2 3 4\n").unwrap();
    let (verts, indices) = loader.get_data();
    assert_eq!(verts.len(), 12);
    assert_eq!(indices, vec![0, 1, 2, 0, 2, 3]);
}

#[test]
fn pentagon_triangle_count() {
    let text = b"v 0 0 0\nv 2 0 0\nv 3 1 0\nv 1 2 0\nv -1 1 0\nf 1 2 3 4 5\n";
    let loader = ObjLoader::from_text(text).unwrap();
    let (verts, indices) = loader.get_data();
    assert_eq!(verts.len(), 15);
    assert_eq!(indices.len(), 3 * (5 - 2));
    assert_eq!(indices, vec![0, 1, 2, 0, 2, 3, 0, 3, 4]);
}

#[test]
fn shared_triple_reuses_vertex() {
    let text = b"v 0 0 0\nv 1 0 0\nv 1 1 0\nv 0 1 0\nf 1 2 3\nf 1 3 4\n";
    let loader = ObjLoader::from_text(text).unwrap();
    let (verts, indices) = loader.get_data();
    assert_eq!(verts.len(), 12, "shared triples must not grow the vertex buffer");
    assert_eq!(indices, vec![0, 1, 2, 0, 2, 3]);
}

#[test]
fn rerun_is_byte_identical() {
    let text = b"v 0 0 0\nv 1 0 0\nv 1 1 0\nvt 0 0\nvt 1 1\nvn 0 0 1\nf 1/1/1 2/2/1 3/1/1\n";
    let first = ObjLoader::from_text(text).unwrap().get_data();
    let second = ObjLoader::from_text(text).unwrap().get_data();
    assert_eq!(first, second);
}

#[test]
fn empty_tex_slot_without_vt_lines() {
    let text = b"v 0 0 0\nv 1 0 0\nv 1 1 0\nvn 0 0 1\nf 1//1 2//1 3//1\n";
    let loader = ObjLoader::from_text(text).unwrap();
    assert!(!loader.contains_tex_coords());
    assert!(loader.contains_normals());
    let (verts, indices) = loader.get_data();
    assert_eq!(
        verts,
        toks(&[
            "0", "0", "0", "0", "0", "1", "1", "0", "0", "0", "0", "1", "1", "1", "0", "0", "0",
            "1",
        ])
    );
    assert_eq!(indices, vec![0, 1, 2]);
}

#[test]
fn tex_coords_interleaved() {
    let text = b"v 0 0 0\nv 1 0 0\nv 1 1 0\nvt 0.5 0.25\nf 1/1 2/1 3/1\n";
    let loader = ObjLoader::from_text(text).unwrap();
    assert!(loader.contains_tex_coords());
    assert!(!loader.contains_normals());
    let (verts, indices) = loader.get_data();
    assert_eq!(
        verts,
        toks(&[
            "0", "0", "0", "0.5", "0.25", "1", "0", "0", "0.5", "0.25", "1", "1", "0", "0.5",
            "0.25",
        ])
    );
    assert_eq!(indices, vec![0, 1, 2]);
}

#[test]
fn same_position_different_normal_gets_two_vertices() {
    let text = b"v 0 0 0\nv 1 0 0\nv 1 1 0\nv 0 1 0\nvn 0 0 1\nvn 1 0 0\nf 1//1 2//1 3//1\nf 1//2 3//2 4//2\n";
    let loader = ObjLoader::from_text(text).unwrap();
    let (verts, indices) = loader.get_data();
    // six distinct triples, six values per vertex
    assert_eq!(verts.len(), 6 * 6);
    assert_eq!(indices, vec![0, 1, 2, 3, 4, 5]);
}

#[test]
fn unrecognized_lines_are_ignored() {
    let text = b"# comment\no thing\nusemtl none\ns off\n\nv 0 0 0\nv 1 0 0\nv 1 1 0\nf 1 2 3\n";
    let loader = ObjLoader::from_text(text).unwrap();
    let (verts, indices) = loader.get_data();
    assert_eq!(verts.len(), 9);
    assert_eq!(indices, vec![0, 1, 2]);
}

#[test]
fn crlf_lines_parse() {
    let text = b"v 0 0 0\r\nv 1 0 0\r\nv 1 1 0\r\nf 1 2 3\r\n";
    let loader = ObjLoader::from_text(text).unwrap();
    let (verts, indices) = loader.get_data();
    assert_eq!(verts, toks(&["0", "0", "0", "1", "0", "0", "1", "1", "0"]));
    assert_eq!(indices, vec![0, 1, 2]);
}

#[test]
fn extra_attribute_tokens_are_dropped() {
    let text = b"v 0 0 0 1\nv 1 0 0 1\nv 1 1 0 1\nf 1 2 3\n";
    let loader = ObjLoader::from_text(text).unwrap();
    let (verts, _) = loader.get_data();
    assert_eq!(verts.len(), 9);
}

#[test]
fn malformed_number_is_reported() {
    assert_eq!(ObjLoader::from_text(b"v a b c\n").unwrap_err(), ObjError::MalformedNumber);
    assert_eq!(
        ObjLoader::from_text(b"v 1 2 3\nvt 0.5 1.2.3\n").unwrap_err(),
        ObjError::MalformedNumber
    );
}

#[test]
fn insufficient_components_is_reported() {
    assert_eq!(ObjLoader::from_text(b"v 1 2\n").unwrap_err(), ObjError::InsufficientComponents);
    assert_eq!(ObjLoader::from_text(b"vt 1\n").unwrap_err(), ObjError::InsufficientComponents);
    assert_eq!(
        ObjLoader::from_text(b"vn 0 0\n").unwrap_err(),
        ObjError::InsufficientComponents
    );
}

#[test]
fn malformed_face_token_is_reported() {
    assert_eq!(ObjLoader::from_text(b"f x\n").unwrap_err(), ObjError::MalformedFaceToken);
    assert_eq!(ObjLoader::from_text(b"f 1/y/1\n").unwrap_err(), ObjError::MalformedFaceToken);
    assert_eq!(ObjLoader::from_text(b"f 1//\n").unwrap_err(), ObjError::MalformedFaceToken);
    assert_eq!(ObjLoader::from_text(b"f 1/2/3x\n").unwrap_err(), ObjError::MalformedFaceToken);
}

#[test]
fn nonpositive_face_index_is_out_of_range() {
    assert_eq!(ObjLoader::from_text(b"f 0 1 2\n").unwrap_err(), ObjError::IndexOutOfRange);
    assert_eq!(
        ObjLoader::from_text(b"v 0 0 0\nf -1 1 1\n").unwrap_err(),
        ObjError::IndexOutOfRange
    );
}

#[test]
fn face_index_beyond_array_is_out_of_range() {
    assert_eq!(
        ObjLoader::from_text(b"v 0 0 0\nf 1 2 3\n").unwrap_err(),
        ObjError::IndexOutOfRange
    );
    assert_eq!(
        ObjLoader::from_text(b"v 0 0 0\nv 1 0 0\nv 1 1 0\nvt 0 0\nf 1/2 2/1 3/1\n").unwrap_err(),
        ObjError::IndexOutOfRange
    );
}

#[test]
fn special_float_words_are_accepted() {
    let text = b"v inf -inf nan\nv 1e2 .5 3.\nv Infinity NAN +1.5E-2\nf 1 2 3\n";
    let loader = ObjLoader::from_text(text).unwrap();
    let (verts, _) = loader.get_data();
    assert_eq!(verts.len(), 9);
    assert_eq!(as_f32(&verts)[0], f32::INFINITY);
    assert_eq!(as_f32(&verts)[3], 100.0);
}

#[test]
fn short_faces_emit_no_triangles() {
    let text = b"v 0 0 0\nv 1 0 0\nf 1 2\nf 1\n";
    let loader = ObjLoader::from_text(text).unwrap();
    let (verts, indices) = loader.get_data();
    // only the fanned first vertex of each short face is resolved
    assert_eq!(verts.len(), 3);
    assert_eq!(indices.len(), 0);
}

#[test]
fn empty_text_gives_empty_buffers() {
    let loader = ObjLoader::from_text(b"").unwrap();
    assert!(!loader.contains_tex_coords());
    assert!(!loader.contains_normals());
    let (verts, indices) = loader.get_data();
    assert!(verts.is_empty());
    assert!(indices.is_empty());
}

#[test]
fn attribute_line_without_tokens_is_insufficient() {
    assert_eq!(ObjLoader::from_text(b"v \n").unwrap_err(), ObjError::InsufficientComponents);
    assert_eq!(ObjLoader::from_text(b"vt \n").unwrap_err(), ObjError::InsufficientComponents);
}
