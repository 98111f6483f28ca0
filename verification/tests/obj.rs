use complife::grid_arg::IntErrorKind;
use complife::obj::{parse_obj, ObjError, ObjText};

fn parse(s: &str) -> (Vec<char>, ObjText) {
    let text: Vec<char> = s.chars().collect();
    let parsed = parse_obj(&text);
    (text, parsed)
}

/// The coordinate words of each vertex line.
fn coords(text: &[char], parsed: &ObjText) -> Vec<(usize, Vec<String>)> {
    parsed
        .vertices
        .iter()
        .map(|v| (v.line, v.coords.iter().map(|&(a, b)| text[a..b].iter().collect()).collect()))
        .collect()
}

const CUBE: &str = "\
v 0.0 0.0 0.0
v 1.0 0.0 0.0
v 1.0 1.0 0.0
v 0.0 1.0 0.0
v 0.0 0.0 1.0
v 1.0 0.0 1.0
v 1.0 1.0 1.0
v 0.0 1.0 1.0
f 1 2 3 4
f 5 6 7 8
f 1 2 6 5
f 2 3 7 6
f 3 4 8 7
f 4 1 5 8
";

#[test]
fn obj_cube_quads_make_twelve_triangles() {
    let (text, parsed) = parse(CUBE);
    // 6 quads -> 12 triangles
    assert_eq!(parsed.faces.len(), 12);
    assert_eq!(parsed.vertices.len(), 8);
    assert_eq!(parsed.error, None);
    assert_eq!(parsed.faces[0], [0, 1, 2]);
    assert_eq!(parsed.faces[1], [0, 2, 3]);
    let vs = coords(&text, &parsed);
    assert_eq!(vs[6], (7, vec!["1.0".to_string(), "1.0".to_string(), "1.0".to_string()]));
}

#[test]
fn obj_skips_comments_blank_lines_and_other_kinds() {
    let s = "# a comment\n\n   \nvn 0 0 1\nvt 0 0\n  v  1 2 3 4\n\tf 1/1/1 2//1 3/2\nusemtl x\n";
    let (text, parsed) = parse(s);
    assert_eq!(parsed.error, None);
    assert_eq!(parsed.faces, vec![[0, 1, 2]]);
    // Only the first three coordinates are kept, and line numbers count
    // every line.
    assert_eq!(
        coords(&text, &parsed),
        vec![(6, vec!["1".to_string(), "2".to_string(), "3".to_string()])]
    );
}

#[test]
fn obj_reads_crlf_and_unicode_white_space() {
    let s = "v 0 0 0\r\nv\u{3000}1 0 0\r\nv 0 1\u{a0}0\r\nf 1 2 3\r\n";
    let (text, parsed) = parse(s);
    assert_eq!(parsed.error, None);
    assert_eq!(parsed.faces, vec![[0, 1, 2]]);
    assert_eq!(coords(&text, &parsed)[2].1, vec!["0".to_string(), "1".to_string(), "0".to_string()]);
}

#[test]
fn obj_refuses_short_lines_and_bad_indices() {
    let (_, parsed) = parse("v 0 0 0\nf 1 2\n");
    assert_eq!(parsed.error, Some(ObjError::ShortFace { line: 2 }));
    let (_, parsed) = parse("v 0 0\nf 1 2 3\n");
    assert_eq!(parsed.error, Some(ObjError::ShortVertex { line: 1 }));
    let (_, parsed) = parse("f 1 x 3\nf 1 2\n");
    assert_eq!(
        parsed.error,
        Some(ObjError::FaceIndex { line: 1, kind: IntErrorKind::InvalidDigit })
    );
    let (_, parsed) = parse("f 1 /2 3\n");
    assert_eq!(parsed.error, Some(ObjError::FaceIndex { line: 1, kind: IntErrorKind::Empty }));
    let (_, parsed) = parse("v 0 0 0\n");
    assert_eq!(parsed.error, Some(ObjError::NoFaces));
    let (_, parsed) = parse("");
    assert_eq!(parsed.error, Some(ObjError::NoFaces));
}

#[test]
fn obj_stops_at_the_first_error() {
    let (_, parsed) = parse("v 0 0 0\nf 1 2\nv 1 1 1\nf 1 2 3\n");
    assert_eq!(parsed.error, Some(ObjError::ShortFace { line: 2 }));
    assert_eq!(parsed.vertices.len(), 1);
    assert!(parsed.faces.is_empty());
}

#[test]
fn obj_vertex_zero_wraps_to_no_vertex() {
    let (_, parsed) = parse("f 0 1 2\n");
    assert_eq!(parsed.faces, vec![[usize::MAX, 0, 1]]);
}

#[test]
fn obj_error_messages() {
    assert_eq!(
        ObjError::FaceIndex { line: 4, kind: IntErrorKind::InvalidDigit }.message("m.obj"),
        "Line 4: invalid face index: invalid digit found in string"
    );
    assert_eq!(ObjError::ShortFace { line: 2 }.message("m.obj"), "Line 2: face needs at least 3 vertices");
    assert_eq!(ObjError::ShortVertex { line: 9 }.message("m.obj"), "Line 9: vertex needs 3 coordinates");
    assert_eq!(ObjError::NoFaces.message("m.obj"), "OBJ file 'm.obj' contains no faces");
}
