use meshrender::fixed::SCALE;
use meshrender::geometry::{Triangle, Vec3};
use meshrender::mesh::{cube, parse_mesh, serialize_mesh, ParseErrorKind};

fn fx(v: f64) -> i64 {
    (v * SCALE as f64).round() as i64
}

fn bytes(s: &str) -> Vec<u8> {
    s.as_bytes().to_vec()
}

#[test]
fn parse_single_triangle_in_order() {
    let text = bytes("v 0.0 0.0 0.0\nv 1.0 0.0 0.0\nv 0.0 1.0 0.0\nf 1 2 3\n");
    let mesh = parse_mesh(&text).unwrap();
    assert_eq!(mesh.len(), 1);
    assert_eq!(
        mesh[0],
        Triangle(
            Vec3::new(0, 0, 0),
            Vec3::new(fx(1.0), 0, 0),
            Vec3::new(0, fx(1.0), 0),
        )
    );
}

#[test]
fn face_index_zero_is_an_error() {
    let text = bytes("v 0.0 0.0 0.0\nf 0 1 1\n");
    let err = parse_mesh(&text).unwrap_err();
    assert_eq!(err.kind, ParseErrorKind::BadIndex);
    assert_eq!(err.line, 2);
}

#[test]
fn face_index_beyond_declared_vertices_is_an_error() {
    let text = bytes("v 0.0 0.0 0.0\nf 1 1 2\n");
    let err = parse_mesh(&text).unwrap_err();
    assert_eq!(err.kind, ParseErrorKind::BadIndex);
    assert_eq!(err.line, 2);
}

#[test]
fn face_may_only_reference_vertices_declared_before_it() {
    let text = bytes("v 0.0 0.0 0.0\nf 1 1 2\nv 1.0 1.0 1.0\n");
    let err = parse_mesh(&text).unwrap_err();
    assert_eq!(err.kind, ParseErrorKind::BadIndex);
}

#[test]
fn short_vertex_line_is_missing_tokens() {
    let text = bytes("v 1.0 2.0\n");
    let err = parse_mesh(&text).unwrap_err();
    assert_eq!(err.kind, ParseErrorKind::MissingTokens);
    assert_eq!(err.line, 1);
}

#[test]
fn unparsable_number_is_an_error() {
    let text = bytes("v a 0.0 0.0\n");
    let err = parse_mesh(&text).unwrap_err();
    assert_eq!(err.kind, ParseErrorKind::BadNumber);
}

#[test]
fn double_space_makes_an_empty_token() {
    let text = bytes("v  1.0 2.0 3.0\n");
    let err = parse_mesh(&text).unwrap_err();
    assert_eq!(err.kind, ParseErrorKind::BadNumber);
}

#[test]
fn non_digit_face_index_is_bad_number() {
    let text = bytes("v 0.0 0.0 0.0\nf 1 1 x\n");
    let err = parse_mesh(&text).unwrap_err();
    assert_eq!(err.kind, ParseErrorKind::BadNumber);
}

#[test]
fn unknown_lines_are_ignored() {
    let text = bytes("# comment\nvt 1 2 3\ng group\n\n");
    let mesh = parse_mesh(&text).unwrap();
    assert!(mesh.is_empty());
}

#[test]
fn integer_and_negative_scalars_parse() {
    let text = bytes("v 2 -0.5 -3.25\nv 0.0 0.0 0.0\nv 0.0 0.0 0.0\nf 1 2 3\n");
    let mesh = parse_mesh(&text).unwrap();
    assert_eq!(mesh[0].0, Vec3::new(fx(2.0), fx(-0.5), fx(-3.25)));
}

#[test]
fn coordinate_beyond_range_is_rejected() {
    let text = bytes("v 10001.0 0.0 0.0\n");
    let err = parse_mesh(&text).unwrap_err();
    assert_eq!(err.kind, ParseErrorKind::BadNumber);
    let ok = bytes("v 10000.0 0.0 0.0\n");
    assert!(parse_mesh(&ok).is_ok());
}

#[test]
fn cube_has_twelve_triangles_on_the_unit_cube() {
    let c = cube();
    assert_eq!(c.len(), 12);
    assert_eq!(
        c[0],
        Triangle(
            Vec3::new(0, 0, 0),
            Vec3::new(0, SCALE, 0),
            Vec3::new(SCALE, SCALE, 0),
        )
    );
    for t in &c {
        for v in [&t.0, &t.1, &t.2] {
            assert!(v.x == 0 || v.x == SCALE);
            assert!(v.y == 0 || v.y == SCALE);
            assert!(v.z == 0 || v.z == SCALE);
        }
    }
}

#[test]
fn serializer_emits_expected_text() {
    let mesh = vec![Triangle(
        Vec3::new(0, 0, 0),
        Vec3::new(fx(1.0), 0, 0),
        Vec3::new(fx(-0.5), fx(1.0), 0),
    )];
    let text = serialize_mesh(&mesh);
    assert_eq!(
        String::from_utf8(text).unwrap(),
        "v 0.0000 0.0000 0.0000\nv 1.0000 0.0000 0.0000\nv -0.5000 1.0000 0.0000\nf 1 2 3\n"
    );
}

#[test]
fn cube_round_trips_through_the_text_format() {
    let c = cube();
    let text = serialize_mesh(&c);
    let parsed = parse_mesh(&text).unwrap();
    assert_eq!(parsed, c);
}
