use crab_tv::obj::parse_index;
use crab_tv::{parse_obj, FacePoint, ObjError, ObjErrorKind};

fn text_of<'a>(src: &'a [u8], span: crab_tv::obj::Span) -> &'a str {
    std::str::from_utf8(&src[span.start..span.end]).unwrap()
}

#[test]
fn parses_a_small_mesh() {
    let src = b"# a comment\nv 0.608654 -0.568839 -0.416318\nvt  0.532 0.923 0.000\n\nvn  0.001 0.482 -0.876\r\nf 1/1/1 1/1/1 1/1/1\ng ignored\n";
    let mesh = parse_obj(src).unwrap();
    assert_eq!(mesh.vertices.len(), 1);
    assert_eq!(text_of(src, mesh.vertices[0].x), "0.608654");
    assert_eq!(text_of(src, mesh.vertices[0].y), "-0.568839");
    assert_eq!(text_of(src, mesh.vertices[0].z), "-0.416318");
    assert_eq!(mesh.texture_coords.len(), 1);
    assert_eq!(text_of(src, mesh.texture_coords[0].u), "0.532");
    assert_eq!(text_of(src, mesh.texture_coords[0].v), "0.923");
    assert_eq!(mesh.vertex_normals.len(), 1);
    assert_eq!(text_of(src, mesh.vertex_normals[0].z), "-0.876");
    assert_eq!(mesh.faces.len(), 1);
    assert_eq!(mesh.faces[0].points, vec![FacePoint::new(0, 0, 0); 3]);
}

#[test]
fn face_indices_become_zero_based() {
    let src = b"f 1193/1240/1193 1180/1227/1180 +1179/1226/1179/9\n";
    let mesh = parse_obj(src).unwrap();
    assert_eq!(
        mesh.faces[0].points,
        vec![
            FacePoint::new(1192, 1239, 1192),
            FacePoint::new(1179, 1226, 1179),
            FacePoint::new(1178, 1225, 1178),
        ]
    );
}

#[test]
fn empty_text_is_an_empty_mesh() {
    let mesh = parse_obj(b"").unwrap();
    assert!(mesh.vertices.is_empty() && mesh.faces.is_empty());
    let mesh = parse_obj(b"\n\n   \n\tfoo bar\n").unwrap();
    assert!(mesh.vertices.is_empty() && mesh.faces.is_empty());
}

#[test]
fn errors_name_kind_and_line() {
    assert_eq!(
        parse_obj(b"v 1 2 3\nv 1 2\n").err(),
        Some(ObjError { line: 2, kind: ObjErrorKind::MissingValue })
    );
    assert_eq!(
        parse_obj(b"vt 1\n").err(),
        Some(ObjError { line: 1, kind: ObjErrorKind::MissingValue })
    );
    assert_eq!(
        parse_obj(b"\n\nf 1/1 2/2/2 3/3/3\n").err(),
        Some(ObjError { line: 3, kind: ObjErrorKind::BadFacePoint })
    );
    assert_eq!(
        parse_obj(b"f 0/1/1 2/2/2 3/3/3").err(),
        Some(ObjError { line: 1, kind: ObjErrorKind::BadFacePoint })
    );
    assert_eq!(
        parse_obj(b"f -1/1/1 2/2/2 3/3/3").err(),
        Some(ObjError { line: 1, kind: ObjErrorKind::BadFacePoint })
    );
    assert_eq!(
        parse_obj(b"f 1//1 2/2/2 3/3/3").err(),
        Some(ObjError { line: 1, kind: ObjErrorKind::BadFacePoint })
    );
    assert_eq!(
        parse_obj(b"f 1/1/1 2/2/2 3/3/3 4/4/4\n").err(),
        Some(ObjError { line: 1, kind: ObjErrorKind::NotATriangle })
    );
}

#[test]
fn index_parsing_limits() {
    let s = b"2147483647 2147483648 0 +5 -5 12a";
    assert_eq!(parse_index(s, 0, 10), Some(2147483646));
    assert_eq!(parse_index(s, 11, 21), None);
    assert_eq!(parse_index(s, 22, 23), None);
    assert_eq!(parse_index(s, 24, 26), Some(4));
    assert_eq!(parse_index(s, 27, 29), None);
    assert_eq!(parse_index(s, 30, 33), None);
    assert_eq!(parse_index(s, 30, 30), None);
}
