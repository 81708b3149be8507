use meshrender::fixed::SCALE;
use meshrender::geometry::{projection_matrix, Triangle, Vec3};
use meshrender::mesh::cube;
use meshrender::pipeline::{
    depth_sort, is_front_facing, render_frame, shade, transform_vertex, FrameInput, FrameState,
    ShadedTriangle, THETA_STEP,
};

fn fx(v: f64) -> i64 {
    (v * SCALE as f64).round() as i64
}

fn plain_input() -> FrameInput {
    FrameInput {
        cos_theta: SCALE,
        sin_theta: 0,
        depth: fx(5.0),
        light_x: 0,
        projection: projection_matrix(fx(0.75), fx(1.0), -1, fx(1000.0)),
        width: 800,
    }
}

#[test]
fn frame_state_advances_by_fixed_step() {
    let mut s = FrameState::new();
    assert_eq!(s.theta, 0);
    s.advance();
    s.advance();
    assert_eq!(s.theta, 2 * THETA_STEP);
}

#[test]
fn zero_rotation_transform_only_translates() {
    let v = Vec3::new(fx(1.0), fx(2.0), fx(3.0));
    let r = transform_vertex(&v, &plain_input());
    assert_eq!(r, Vec3::new(fx(1.0), fx(2.0), fx(8.0)));
}

fn facing_triangle() -> Triangle {
    // the unit square face at depth five, wound to face the camera
    Triangle(
        Vec3::new(0, 0, fx(5.0)),
        Vec3::new(0, fx(1.0), fx(5.0)),
        Vec3::new(fx(1.0), fx(1.0), fx(5.0)),
    )
}

#[test]
fn cull_keeps_camera_facing_triangle() {
    let camera = Vec3::new(0, 0, 0);
    assert!(is_front_facing(&facing_triangle(), &camera));
}

#[test]
fn swapping_any_two_vertices_culls_a_kept_triangle() {
    let camera = Vec3::new(0, 0, 0);
    let t = facing_triangle();
    assert!(is_front_facing(&t, &camera));
    let s01 = Triangle(t.1, t.0, t.2);
    let s12 = Triangle(t.0, t.2, t.1);
    let s02 = Triangle(t.2, t.1, t.0);
    assert!(!is_front_facing(&s01, &camera));
    assert!(!is_front_facing(&s12, &camera));
    assert!(!is_front_facing(&s02, &camera));
}

#[test]
fn shade_is_full_for_normal_into_the_light() {
    assert_eq!(shade(&facing_triangle(), 0), 255);
}

#[test]
fn shade_clamps_when_normal_faces_away() {
    let t = facing_triangle();
    let away = Triangle(t.1, t.0, t.2);
    assert_eq!(shade(&away, 0), 0);
}

fn item(z: f64, tag: u8) -> ShadedTriangle {
    ShadedTriangle {
        tri: Triangle(
            Vec3::new(0, 0, fx(z)),
            Vec3::new(fx(1.0), 0, fx(z)),
            Vec3::new(0, fx(1.0), fx(z)),
        ),
        shade: tag,
    }
}

#[test]
fn depth_sort_orders_back_to_front() {
    let sorted = depth_sort(vec![item(1.0, 1), item(3.0, 3), item(2.0, 2)]);
    let tags: Vec<u8> = sorted.iter().map(|s| s.shade).collect();
    assert_eq!(tags, vec![3, 2, 1]);
}

#[test]
fn depth_sort_keeps_insertion_order_on_ties() {
    let sorted = depth_sort(vec![item(2.0, 1), item(2.0, 2), item(1.0, 3), item(2.0, 4)]);
    let tags: Vec<u8> = sorted.iter().map(|s| s.shade).collect();
    assert_eq!(tags, vec![1, 2, 4, 3]);
}

#[test]
fn negating_depth_reverses_the_sort_order() {
    let items = vec![item(1.0, 1), item(3.0, 3), item(2.0, 2)];
    let sorted = depth_sort(items.clone());
    let negated: Vec<ShadedTriangle> = items
        .iter()
        .map(|s| ShadedTriangle {
            tri: Triangle(
                Vec3::new(s.tri.0.x, s.tri.0.y, -s.tri.0.z),
                Vec3::new(s.tri.1.x, s.tri.1.y, -s.tri.1.z),
                Vec3::new(s.tri.2.x, s.tri.2.y, -s.tri.2.z),
            ),
            shade: s.shade,
        })
        .collect();
    let sorted_neg = depth_sort(negated);
    let tags: Vec<u8> = sorted.iter().map(|s| s.shade).collect();
    let mut tags_neg: Vec<u8> = sorted_neg.iter().map(|s| s.shade).collect();
    tags_neg.reverse();
    assert_eq!(tags, tags_neg);
}

#[test]
fn projected_vertex_lands_inside_the_window() {
    // a 90 degree field of view makes the factor one exactly
    let mesh = vec![facing_triangle()];
    let out = render_frame(&mesh, &plain_input());
    assert_eq!(out.len(), 1);
    for p in [&out[0].a, &out[0].b, &out[0].c] {
        assert!(0 <= p.x && p.x <= 800 * SCALE);
        assert!(0 <= p.y && p.y <= 800 * SCALE);
    }
}

#[test]
fn cube_frame_shows_the_front_face_at_full_shade() {
    let out = render_frame(&cube(), &plain_input());
    assert_eq!(out.len(), 2);
    assert_eq!(out[0].shade, 255);
    assert_eq!(out[1].shade, 255);
}
