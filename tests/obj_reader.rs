use graphics::mesh::{get_index_from_face, obj_to_triangles, FaceError, ObjVertex};
use graphics::obj::{obj_parser, parse_decimal, parse_face_vertex, Decimal, FaceVertex, ObjError, ObjLine};

fn dec(d: &Decimal) -> (bool, String, String) {
    (
        d.negative,
        String::from_utf8(d.whole.clone()).unwrap(),
        String::from_utf8(d.frac.clone()).unwrap(),
    )
}

fn vertex_text(v: &ObjVertex) -> Vec<(bool, String, String)> {
    vec![dec(&v.x), dec(&v.y), dec(&v.z)]
}

fn plain(s: &str) -> (bool, String, String) {
    (false, s.to_string(), String::new())
}

#[test]
fn three_vertices_and_one_face_give_one_triangle() {
    let recs = obj_parser("v 1 2 3\nv 4 5 6\nv 7 8 9\nf 1 2 3\n").unwrap();
    assert_eq!(recs.len(), 5);
    assert!(matches!(recs[4], ObjLine::Blankline));
    let tris = obj_to_triangles(&recs).unwrap();
    assert_eq!(tris.len(), 1);
    assert_eq!(vertex_text(&tris[0].v0), vec![plain("1"), plain("2"), plain("3")]);
    assert_eq!(vertex_text(&tris[0].v1), vec![plain("4"), plain("5"), plain("6")]);
    assert_eq!(vertex_text(&tris[0].v2), vec![plain("7"), plain("8"), plain("9")]);
}

#[test]
fn faces_name_vertices_by_position_from_one() {
    let recs = obj_parser("v 0 0 0\nv 1 0 0\nv 0 1 0\nf 3 1 2").unwrap();
    let tris = obj_to_triangles(&recs).unwrap();
    assert_eq!(tris.len(), 1);
    assert_eq!(vertex_text(&tris[0].v0), vec![plain("0"), plain("1"), plain("0")]);
    assert_eq!(vertex_text(&tris[0].v1), vec![plain("0"), plain("0"), plain("0")]);
    assert_eq!(vertex_text(&tris[0].v2), vec![plain("1"), plain("0"), plain("0")]);
}

#[test]
fn empty_text_is_one_blank_line() {
    let recs = obj_parser("").unwrap();
    assert_eq!(recs.len(), 1);
    assert!(matches!(recs[0], ObjLine::Blankline));
    assert_eq!(obj_to_triangles(&recs).unwrap().len(), 0);
}

#[test]
fn decimals_in_every_written_form() {
    let d = parse_decimal(b"-12.50").unwrap();
    assert_eq!(dec(&d), (true, "12".to_string(), "50".to_string()));
    let d = parse_decimal(b".5").unwrap();
    assert_eq!(dec(&d), (false, String::new(), "5".to_string()));
    let d = parse_decimal(b"3.").unwrap();
    assert_eq!(dec(&d), (false, "3".to_string(), String::new()));
    let d = parse_decimal(b"007").unwrap();
    assert_eq!(dec(&d), plain("007"));
    assert!(parse_decimal(b"").is_none());
    assert!(parse_decimal(b"-").is_none());
    assert!(parse_decimal(b".").is_none());
    assert!(parse_decimal(b"1.2.3").is_none());
    assert!(parse_decimal(b"1e5").is_none());
    assert!(parse_decimal(b"--1").is_none());
}

#[test]
fn face_corners_in_every_written_form() {
    assert_eq!(parse_face_vertex(b"7"), Some(FaceVertex::Vertex(7)));
    assert_eq!(parse_face_vertex(b"7/3"), Some(FaceVertex::VertexTexture(7, 3)));
    assert_eq!(parse_face_vertex(b"7//2"), Some(FaceVertex::VertexNormal(7, 2)));
    assert_eq!(parse_face_vertex(b"7/3/2"), Some(FaceVertex::VertexTextureNormal(7, 3, 2)));
    assert_eq!(parse_face_vertex(b"2147483647"), Some(FaceVertex::Vertex(2147483647)));
    assert_eq!(parse_face_vertex(b"2147483648"), None);
    assert_eq!(parse_face_vertex(b"/3"), None);
    assert_eq!(parse_face_vertex(b"7/"), None);
    assert_eq!(parse_face_vertex(b"7//"), None);
    assert_eq!(parse_face_vertex(b"7/3/"), None);
    assert_eq!(parse_face_vertex(b"-7"), None);
    assert_eq!(parse_face_vertex(b"7/3/2/1"), None);
}

#[test]
fn vertex_index_of_each_corner_form() {
    assert_eq!(get_index_from_face(FaceVertex::Vertex(4)), 4);
    assert_eq!(get_index_from_face(FaceVertex::VertexTexture(5, 1)), 5);
    assert_eq!(get_index_from_face(FaceVertex::VertexNormal(6, 1)), 6);
    assert_eq!(get_index_from_face(FaceVertex::VertexTextureNormal(8, 1, 2)), 8);
}

#[test]
fn other_records_are_kept_as_text() {
    let text = "# made by hand\r\no cube\nmtllib cube.mtl\nusemtl grey\ns off\ng side\nvt 0.5 1 0\nvn 0 0 -1\nvp 1 2 3\n   \n";
    let recs = obj_parser(text).unwrap();
    assert_eq!(recs.len(), 11);
    match &recs[0] {
        ObjLine::Comment(t) => assert_eq!(t.as_slice(), b"made by hand"),
        _ => panic!("expected a comment"),
    }
    match &recs[1] {
        ObjLine::Name(t) => assert_eq!(t.as_slice(), b"cube"),
        _ => panic!("expected a name"),
    }
    match &recs[2] {
        ObjLine::Material(t) => assert_eq!(t.as_slice(), b"cube.mtl"),
        _ => panic!("expected a material library"),
    }
    match &recs[3] {
        ObjLine::UseMaterial(t) => assert_eq!(t.as_slice(), b"grey"),
        _ => panic!("expected a material"),
    }
    match &recs[4] {
        ObjLine::S(t) => assert_eq!(t.as_slice(), b"off"),
        _ => panic!("expected a smoothing group"),
    }
    match &recs[5] {
        ObjLine::Other(t) => assert_eq!(t.as_slice(), b"g side"),
        _ => panic!("expected an unknown record"),
    }
    match &recs[6] {
        ObjLine::Texture(x, _, _) => assert_eq!(dec(x), (false, "0".to_string(), "5".to_string())),
        _ => panic!("expected a texture coordinate"),
    }
    match &recs[7] {
        ObjLine::VertexNormal(_, _, z) => assert_eq!(dec(z), (true, "1".to_string(), String::new())),
        _ => panic!("expected a normal"),
    }
    assert!(matches!(recs[8], ObjLine::VertexParameter(_, _, _)));
    assert!(matches!(recs[9], ObjLine::Blankline));
    assert!(matches!(recs[10], ObjLine::Blankline));
    assert_eq!(obj_to_triangles(&recs).unwrap().len(), 0);
}

#[test]
fn crlf_lines_and_extra_blanks_read_alike() {
    let recs = obj_parser("v\t1  2 3 \r\nv 4 5 6\r\nv 7 8 9\r\nf 1/1/1 2//2 3/3\r\n").unwrap();
    let tris = obj_to_triangles(&recs).unwrap();
    assert_eq!(tris.len(), 1);
    assert_eq!(vertex_text(&tris[0].v0), vec![plain("1"), plain("2"), plain("3")]);
    assert_eq!(vertex_text(&tris[0].v2), vec![plain("7"), plain("8"), plain("9")]);
}

#[test]
fn malformed_line_is_reported_by_number() {
    assert_eq!(obj_parser("v 1 2 3\nv 1 2\n").unwrap_err(), ObjError { line: 2 });
    assert_eq!(obj_parser("v 1 2 3 4").unwrap_err(), ObjError { line: 1 });
    assert_eq!(obj_parser("v 1 2 x\n").unwrap_err(), ObjError { line: 1 });
    assert_eq!(obj_parser("\n\nf 1 2\n").unwrap_err(), ObjError { line: 3 });
    assert_eq!(obj_parser("f 1 2 3 4\n").unwrap_err(), ObjError { line: 1 });
    assert_eq!(obj_parser("v 1 2 3\nv 1 2 3\nbad line ok\nvn 1 1\n").unwrap_err(), ObjError { line: 4 });
}

#[test]
fn face_naming_a_missing_vertex_is_reported() {
    let recs = obj_parser("v 0 0 0\nv 1 0 0\nv 0 1 0\nf 1 2 4\n").unwrap();
    assert_eq!(obj_to_triangles(&recs).unwrap_err(), FaceError { record: 3 });
    let recs = obj_parser("v 0 0 0\nv 1 0 0\nv 0 1 0\nf 0 1 2\n").unwrap();
    assert_eq!(obj_to_triangles(&recs).unwrap_err(), FaceError { record: 3 });
    let recs = obj_parser("f 1 2 3\nv 0 0 0\nv 1 0 0\nv 0 1 0\n").unwrap();
    assert_eq!(obj_to_triangles(&recs).unwrap_err(), FaceError { record: 0 });
}

#[test]
fn faces_see_only_earlier_vertices() {
    let recs = obj_parser("v 0 0 0\nv 1 0 0\nv 0 1 0\nf 1 2 3\nv 5 5 5\nf 4 1 2\nf 1 2 5\n").unwrap();
    assert_eq!(obj_to_triangles(&recs).unwrap_err(), FaceError { record: 6 });
}
