use wireframe::mesh::{Face, MeshError, Object};
use wireframe::number::{parse_index, real_literal_ok};
use wireframe::text::{lines_of, tokens_of};

fn coords(m: &Object, i: usize) -> (String, String, String) {
    let p = &m.points()[i];
    (
        String::from_utf8(p.x.clone()).unwrap(),
        String::from_utf8(p.y.clone()).unwrap(),
        String::from_utf8(p.z.clone()).unwrap(),
    )
}

#[test]
fn loads_single_triangle() {
    let m = Object::parse(b"v 0 0 0\nv 1 0 0\nv 0 1 0\nf 1 2 3\n").unwrap();
    assert_eq!(m.num_points(), 3);
    assert_eq!(m.num_faces(), 1);
    assert_eq!(coords(&m, 1), ("1".to_string(), "0".to_string(), "0".to_string()));
    assert_eq!(m.faces()[0], Face { a: 0, b: 1, c: 2 });
}

#[test]
fn load_rejects_non_numeric_coordinate() {
    assert_eq!(Object::parse(b"v 1.0 abc 3.0\n").unwrap_err(), MeshError::Parse { line: 1 });
}

#[test]
fn parse_error_names_first_bad_line() {
    let text = b"v 1 2 3\n\nf 1 x 2\nv 1 2\n";
    assert_eq!(Object::parse(text).unwrap_err(), MeshError::Parse { line: 3 });
}

#[test]
fn vertex_needs_exactly_three_coordinates() {
    assert_eq!(Object::parse(b"v 1 2\n").unwrap_err(), MeshError::Parse { line: 1 });
    assert_eq!(Object::parse(b"v 1 2 3 4\n").unwrap_err(), MeshError::Parse { line: 1 });
    assert_eq!(Object::parse(b"v\n").unwrap_err(), MeshError::Parse { line: 1 });
}

#[test]
fn face_index_out_of_range_is_integrity_error() {
    let text = b"v 0 0 0\nv 1 0 0\nv 0 1 0\nf 1 2 3\nf 1 2 4\n";
    assert_eq!(Object::parse(text).unwrap_err(), MeshError::Integrity { face: 2 });
}

#[test]
fn face_index_zero_is_integrity_error() {
    let text = b"v 0 0 0\nv 1 0 0\nv 0 1 0\nf 0 1 2\n";
    assert_eq!(Object::parse(text).unwrap_err(), MeshError::Integrity { face: 1 });
}

#[test]
fn short_face_is_integrity_error() {
    let text = b"v 0 0 0\nv 1 0 0\nf 1 2\n";
    assert_eq!(Object::parse(text).unwrap_err(), MeshError::Integrity { face: 1 });
}

#[test]
fn parse_error_wins_over_integrity_error() {
    let text = b"f 9 9 9\nv 1 2 z\n";
    assert_eq!(Object::parse(text).unwrap_err(), MeshError::Parse { line: 2 });
}

#[test]
fn faces_may_come_before_vertices() {
    let m = Object::parse(b"f 3 1 2\nv 0 0 0\nv 1 0 0\nv 0 1 0").unwrap();
    assert_eq!(m.faces()[0], Face { a: 2, b: 0, c: 1 });
}

#[test]
fn extra_face_indices_are_checked_but_not_drawn() {
    let m = Object::parse(b"v 0 0 0\nv 1 0 0\nv 0 1 0\nv 1 1 0\nf 1 2 3 4\n").unwrap();
    assert_eq!(m.faces(), &[Face { a: 0, b: 1, c: 2 }][..]);
    let bad = Object::parse(b"v 0 0 0\nv 1 0 0\nv 0 1 0\nf 1 2 3 5\n");
    assert_eq!(bad.unwrap_err(), MeshError::Integrity { face: 1 });
}

#[test]
fn other_lines_are_ignored() {
    let text = b"# a comment\nvn 0 0 1\nvt x y\n\n   \no cessna\nv -1.5 +2e3 .25\nf +1 1 1\n";
    let m = Object::parse(text).unwrap();
    assert_eq!(m.num_points(), 1);
    assert_eq!(coords(&m, 0), ("-1.5".to_string(), "+2e3".to_string(), ".25".to_string()));
    assert_eq!(m.faces()[0], Face { a: 0, b: 0, c: 0 });
}

#[test]
fn crlf_and_tabs_separate_tokens() {
    let m = Object::parse(b"v\t1\t2\t3\r\nv 4 5 6\r\nv 7 8 9\r\nf 1\t2 3\r\n").unwrap();
    assert_eq!(m.num_points(), 3);
    assert_eq!(coords(&m, 2), ("7".to_string(), "8".to_string(), "9".to_string()));
    assert_eq!(m.num_faces(), 1);
}

#[test]
fn empty_text_is_empty_mesh() {
    let m = Object::parse(b"").unwrap();
    assert_eq!(m.num_points(), 0);
    assert_eq!(m.num_faces(), 0);
}

#[test]
fn real_literals() {
    for ok in ["0", "1.0", "-1.5", "+.5e-3", "2E10", "1.", ".5", "12e+4", "-0"] {
        assert!(real_literal_ok(ok.as_bytes()), "{}", ok);
    }
    for bad in ["", ".", "-", "e5", "1e", "1e+", "inf", "NaN", "1..2", "--1", "1.2.3", "abc", "1e2.5", "0x10", "1,5"] {
        assert!(!real_literal_ok(bad.as_bytes()), "{}", bad);
    }
}

#[test]
fn index_literals() {
    assert_eq!(parse_index(b"7"), Some(7));
    assert_eq!(parse_index(b"+7"), Some(7));
    assert_eq!(parse_index(b"007"), Some(7));
    assert_eq!(parse_index(b"0"), Some(0));
    assert_eq!(parse_index(usize::MAX.to_string().as_bytes()), Some(usize::MAX));
    let over = format!("{}0", usize::MAX);
    assert_eq!(parse_index(over.as_bytes()), None);
    assert_eq!(parse_index(b"-1"), None);
    assert_eq!(parse_index(b"+"), None);
    assert_eq!(parse_index(b""), None);
    assert_eq!(parse_index(b"1.0"), None);
    assert_eq!(parse_index(b"3a"), None);
}

#[test]
fn splits_lines_and_tokens() {
    let ls = lines_of(b"a b\n\nc");
    assert_eq!(ls, vec![b"a b".to_vec(), vec![], b"c".to_vec()]);
    let ts = tokens_of(b"  f\t12  3 \r");
    assert_eq!(ts, vec![b"f".to_vec(), b"12".to_vec(), b"3".to_vec()]);
    assert!(tokens_of(b" \t ").is_empty());
}
