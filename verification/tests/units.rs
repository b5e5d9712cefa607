//! Unit tests of the numeric token grammar, the lexer, and the indexer
//! taken on its own.
use obj_loader::FaceIndex;
use obj_loader::Num2;
use obj_loader::Num3;
use obj_loader::ObjData;
use obj_loader::ObjError;
use obj_loader::index_data;
use obj_loader::num::is_float_bytes;
use obj_loader::num::parse_i32;
use obj_loader::parse_obj;

fn n3(x: &str, y: &str, z: &str) -> Num3 {
    Num3 { x: x.as_bytes().to_vec(), y: y.as_bytes().to_vec(), z: z.as_bytes().to_vec() }
}

fn n2(x: &str, y: &str) -> Num2 {
    Num2 { x: x.as_bytes().to_vec(), y: y.as_bytes().to_vec() }
}

#[test]
fn parse_i32_accepts_plain_integers() {
    assert_eq!(parse_i32(b"123"), Some(123));
    assert_eq!(parse_i32(b"+12"), Some(12));
    assert_eq!(parse_i32(b"-7"), Some(-7));
    assert_eq!(parse_i32(b"0"), Some(0));
    assert_eq!(parse_i32(b"2147483647"), Some(i32::MAX));
    assert_eq!(parse_i32(b"-2147483648"), Some(i32::MIN));
}

#[test]
fn parse_i32_rejects_bad_tokens() {
    assert_eq!(parse_i32(b""), None);
    assert_eq!(parse_i32(b"+"), None);
    assert_eq!(parse_i32(b"-"), None);
    assert_eq!(parse_i32(b"1a"), None);
    assert_eq!(parse_i32(b" 1"), None);
    assert_eq!(parse_i32(b"2147483648"), None);
    assert_eq!(parse_i32(b"-2147483649"), None);
    assert_eq!(parse_i32(b"99999999999999999999"), None);
}

#[test]
fn float_grammar_accepts_number_shapes() {
    for tok in ["1", "1.", ".5", "1.5", "1e10", "1E-3", "+4.25e+2", "-0.0", "5.e3", "007"] {
        assert!(is_float_bytes(tok.as_bytes()), "{tok} should be a float token");
    }
}

#[test]
fn float_grammar_accepts_special_words() {
    for tok in ["inf", "-inf", "+inf", "Infinity", "INFINITY", "nan", "NaN", "NAN"] {
        assert!(is_float_bytes(tok.as_bytes()), "{tok} should be a float token");
    }
}

#[test]
fn float_grammar_rejects_bad_tokens() {
    for tok in ["", ".", "e5", "1e", "1e+", "--1", "1.2.3", "0x1", "1 2", "in", "infin", "na"] {
        assert!(!is_float_bytes(tok.as_bytes()), "{tok} should not be a float token");
    }
}

#[test]
fn float_grammar_matches_std_parser() {
    for tok in [
        "1", "1.", ".5", "1e10", "1E-3", "inf", "Infinity", "nan", "-0.0", "5.e3", "", ".", "e5",
        "1e", "--1", "1.2.3", "0x1", "in", "+", "-",
    ] {
        assert_eq!(
            is_float_bytes(tok.as_bytes()),
            tok.parse::<f64>().is_ok(),
            "grammar disagrees with the standard parser on {tok:?}"
        );
    }
}

#[test]
fn face_index_new_keeps_fields() {
    let fi = FaceIndex::new(3, -1, 7);
    assert_eq!(fi.pos, 3);
    assert_eq!(fi.tex, -1);
    assert_eq!(fi.norm, 7);
}

#[test]
fn parse_obj_collects_all_arrays() {
    let d = parse_obj(b"v 0 0 0\nvt 0.5 0.5\nvn 0 0 1\nf 1/1/1\n").unwrap();
    assert_eq!(d.vert_positions.len(), 1);
    assert_eq!(d.tex_coords.len(), 1);
    assert_eq!(d.normals.len(), 1);
    assert_eq!(d.faces.len(), 1);
    assert_eq!(d.faces[0], vec![FaceIndex::new(0, 0, 0)]);
}

#[test]
fn parse_obj_keeps_empty_tex_slot_absent() {
    let d = parse_obj(b"f 1//2 3/4/5 6 7/8\n").unwrap();
    assert_eq!(
        d.faces[0],
        vec![
            FaceIndex::new(0, -1, 1),
            FaceIndex::new(2, 3, 4),
            FaceIndex::new(5, -1, -1),
            FaceIndex::new(6, 7, -1),
        ]
    );
}

#[test]
fn indexer_quad_from_raw_data() {
    let data = ObjData::new(
        vec![n3("0", "0", "0"), n3("1", "0", "0"), n3("1", "1", "0"), n3("0", "1", "0")],
        Vec::new(),
        Vec::new(),
        vec![vec![
            FaceIndex::new(0, -1, -1),
            FaceIndex::new(1, -1, -1),
            FaceIndex::new(2, -1, -1),
            FaceIndex::new(3, -1, -1),
        ]],
    );
    let (indices, verts) = index_data(data, false, false).unwrap();
    assert_eq!(indices, vec![0, 1, 2, 0, 2, 3]);
    assert_eq!(verts.len(), 12);
}

#[test]
fn indexer_rerun_is_identical() {
    let make = || {
        ObjData::new(
            vec![n3("0", "0", "0"), n3("1", "0", "0"), n3("1", "1", "0")],
            vec![n2("0", "0"), n2("1", "1")],
            Vec::new(),
            vec![
                vec![FaceIndex::new(0, 0, -1), FaceIndex::new(1, 1, -1), FaceIndex::new(2, 0, -1)],
                vec![FaceIndex::new(2, 0, -1), FaceIndex::new(1, 1, -1), FaceIndex::new(0, 1, -1)],
            ],
        )
    };
    let first = index_data(make(), true, false).unwrap();
    let second = index_data(make(), true, false).unwrap();
    assert_eq!(first, second);
}

#[test]
fn indexer_dedup_counts_unique_triples() {
    let data = ObjData::new(
        vec![n3("0", "0", "0"), n3("1", "0", "0"), n3("1", "1", "0"), n3("0", "1", "0")],
        Vec::new(),
        Vec::new(),
        vec![
            vec![FaceIndex::new(0, -1, -1), FaceIndex::new(1, -1, -1), FaceIndex::new(2, -1, -1)],
            vec![FaceIndex::new(0, -1, -1), FaceIndex::new(2, -1, -1), FaceIndex::new(3, -1, -1)],
        ],
    );
    let (indices, verts) = index_data(data, false, false).unwrap();
    // four unique triples over six face vertices
    assert_eq!(verts.len(), 4 * 3);
    assert_eq!(indices, vec![0, 1, 2, 0, 2, 3]);
}

#[test]
fn indexer_mixed_presence_fails() {
    // a face asks for texture coordinates while the array is empty
    let data = ObjData::new(
        vec![n3("0", "0", "0")],
        Vec::new(),
        Vec::new(),
        vec![vec![
            FaceIndex::new(0, 0, -1),
            FaceIndex::new(0, 1, -1),
            FaceIndex::new(0, 2, -1),
        ]],
    );
    assert_eq!(index_data(data, true, false).unwrap_err(), ObjError::IndexOutOfRange);
}

#[test]
fn indexer_absent_slot_fails_when_attribute_in_use() {
    // the sentinel for an absent slot is out of range once the
    // attribute takes part in the layout
    let data = ObjData::new(
        vec![n3("0", "0", "0")],
        vec![n2("0", "0")],
        Vec::new(),
        vec![vec![
            FaceIndex::new(0, 0, -1),
            FaceIndex::new(0, -1, -1),
            FaceIndex::new(0, 0, -1),
        ]],
    );
    assert_eq!(index_data(data, true, false).unwrap_err(), ObjError::IndexOutOfRange);
}

#[test]
fn indexer_position_out_of_range_fails() {
    let data = ObjData::new(
        vec![n3("0", "0", "0")],
        Vec::new(),
        Vec::new(),
        vec![vec![
            FaceIndex::new(0, -1, -1),
            FaceIndex::new(1, -1, -1),
            FaceIndex::new(0, -1, -1),
        ]],
    );
    assert_eq!(index_data(data, false, false).unwrap_err(), ObjError::IndexOutOfRange);
}

#[test]
fn indexer_empty_mesh_gives_empty_buffers() {
    let data = ObjData::new(Vec::new(), Vec::new(), Vec::new(), Vec::new());
    let (indices, verts) = index_data(data, false, false).unwrap();
    assert!(indices.is_empty());
    assert!(verts.is_empty());
}
