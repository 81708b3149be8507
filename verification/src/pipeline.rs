use vstd::prelude::*;
use crate::fixed::{
    clamp_i64, clamp_to_i64, in_range, lemma_mul_bound, lemma_mul_bound2, lemma_tdiv_bound,
    tdiv, tdiv_i128, tdiv_i128_signed, COORD_MAX, MESH_MAX, NORM_MAX, SCALE,
};
use crate::geometry::{
    dot_exact, cross_exact, in_range3, in_range4, m4, mat_in_range, norm_sq, rot_x_model,
    rot_z_model, t3, tri_in_range, v3, v4, vcross, vdot, vmat, vnorm, vsub, within3, Matrix4x4,
    Quad, MatModel, Triangle, TriModel, Triple, Vec3, Vec4,
};

verus! {

/// The rotation-angle step applied once per displayed frame, in fixed-point
/// radians.
pub const THETA_STEP: i64 = 300;

/// Largest magnitude a vertex component can reach after rotation and the
/// depth translation, for meshes within `MESH_MAX`.
pub const STAGE_MAX: i64 = 2_000_000_000;

/// The one piece of state the pipeline carries across frames: the rotation
/// angle in fixed-point radians, advanced by a fixed step once per frame.
#[derive(Clone, Copy, Debug, PartialEq, Eq, Structural)]
pub struct FrameState {
    pub theta: i64,
}

impl FrameState {
    /// Starts at angle zero.
    pub fn new() -> (r: FrameState)
        ensures
            r.theta == 0,
    {
        FrameState { theta: 0 }
    }

    /// Advances the angle by the fixed per-frame step.
    pub fn advance(&mut self)
        requires
            old(self).theta + THETA_STEP <= i64::MAX,
        ensures
            final(self).theta == old(self).theta + THETA_STEP,
    {
        self.theta = self.theta + THETA_STEP;
    }
}

/// Scene parameters for one frame: the cosine and sine of the rotation
/// angle, the depth offset pushing the mesh in front of the camera, the
/// horizontal light component, the projection matrix, and the window width
/// in pixels.
#[derive(Clone, Copy, Debug)]
pub struct FrameInput {
    pub cos_theta: i64,
    pub sin_theta: i64,
    pub depth: i64,
    pub light_x: i64,
    pub projection: Matrix4x4,
    pub width: i64,
}

/// Ranges under which every frame computation stays within machine bounds.
pub open spec fn input_wf(inp: FrameInput) -> bool {
    &&& -SCALE <= inp.cos_theta <= SCALE
    &&& -SCALE <= inp.sin_theta <= SCALE
    &&& -MESH_MAX <= inp.depth <= MESH_MAX
    &&& -MESH_MAX <= inp.light_x <= MESH_MAX
    &&& mat_in_range(m4(inp.projection))
    &&& 0 < inp.width <= 100_000
}

/// All four components within the given magnitude.
pub open spec fn within4(a: Quad, b: int) -> bool {
    -b <= a.0 <= b && -b <= a.1 <= b && -b <= a.2 <= b && -b <= a.3 <= b
}

/// Every matrix entry within the given magnitude.
pub open spec fn mat_within(m: MatModel, b: int) -> bool {
    within4(m.0, b) && within4(m.1, b) && within4(m.2, b) && within4(m.3, b)
}

/// A fixed-point matrix product of bounded operands is bounded.
proof fn lemma_vmat_bound(v: Quad, m: MatModel, bv: int, bm: int, b: int)
    requires
        within4(v, bv),
        mat_within(m, bm),
        0 <= bv,
        0 <= bm,
        0 <= b,
        4 * bv * bm <= b * SCALE,
    ensures
        within4(vmat(v, m), b),
{
    lemma_mul_bound2(v.0, m.0.0, bv, bm);
    lemma_mul_bound2(v.1, m.1.0, bv, bm);
    lemma_mul_bound2(v.2, m.2.0, bv, bm);
    lemma_mul_bound2(v.3, m.3.0, bv, bm);
    lemma_mul_bound2(v.0, m.0.1, bv, bm);
    lemma_mul_bound2(v.1, m.1.1, bv, bm);
    lemma_mul_bound2(v.2, m.2.1, bv, bm);
    lemma_mul_bound2(v.3, m.3.1, bv, bm);
    lemma_mul_bound2(v.0, m.0.2, bv, bm);
    lemma_mul_bound2(v.1, m.1.2, bv, bm);
    lemma_mul_bound2(v.2, m.2.2, bv, bm);
    lemma_mul_bound2(v.3, m.3.2, bv, bm);
    lemma_mul_bound2(v.0, m.0.3, bv, bm);
    lemma_mul_bound2(v.1, m.1.3, bv, bm);
    lemma_mul_bound2(v.2, m.2.3, bv, bm);
    lemma_mul_bound2(v.3, m.3.3, bv, bm);
    assert(4 * (bv * bm) == 4 * bv * bm) by (nonlinear_arith);
    let e = crate::geometry::vmat_exact(v, m);
    lemma_tdiv_bound(e.0, SCALE as int, b);
    lemma_tdiv_bound(e.1, SCALE as int, b);
    lemma_tdiv_bound(e.2, SCALE as int, b);
    lemma_tdiv_bound(e.3, SCALE as int, b);
}

/// Model of the per-vertex transform stage: rotate about Z, then about X,
/// chained vector-then-matrix, then translate by the depth offset along +Z.
pub open spec fn rt_vertex(p: Triple, c: int, s: int, d: int) -> Triple {
    let q1 = vmat((p.0, p.1, p.2, SCALE as int), rot_z_model(c, s));
    let q2 = vmat(q1, rot_x_model(c, s));
    (q2.0, q2.1, q2.2 + d)
}

/// Model of the transform stage applied to each vertex of a triangle.
pub open spec fn rt_tri(t: TriModel, c: int, s: int, d: int) -> TriModel {
    (rt_vertex(t.0, c, s, d), rt_vertex(t.1, c, s, d), rt_vertex(t.2, c, s, d))
}

/// Rotates a vertex about Z then X and pushes it in front of the camera.
pub fn transform_vertex(v: &Vec3, input: &FrameInput) -> (r: Vec3)
    requires
        within3(v3(*v), MESH_MAX as int),
        input_wf(*input),
    ensures
        v3(r) == rt_vertex(v3(*v), input.cos_theta as int, input.sin_theta as int,
            input.depth as int),
        within3(v3(r), STAGE_MAX as int),
{
    let p4 = Vec4::from_point(v);
    let mz = crate::geometry::rotate_z(input.cos_theta, input.sin_theta);
    let mx = crate::geometry::rotate_x(input.cos_theta, input.sin_theta);
    proof {
        lemma_vmat_bound(v4(p4), m4(mz), MESH_MAX as int, SCALE as int, 400_000_000int);
    }
    let q1 = p4.multiply_by_matrix(&mz);
    proof {
        lemma_vmat_bound(v4(q1), m4(mx), 400_000_000int, SCALE as int, 1_600_000_000int);
    }
    let q2 = q1.multiply_by_matrix(&mx);
    Vec3 { x: q2.x, y: q2.y, z: q2.z + input.depth }
}

/// Applies the per-vertex transform stage to each vertex of a triangle.
pub fn transform_triangle(t: &Triangle, input: &FrameInput) -> (r: Triangle)
    requires
        within3(v3(t.0), MESH_MAX as int),
        within3(v3(t.1), MESH_MAX as int),
        within3(v3(t.2), MESH_MAX as int),
        input_wf(*input),
    ensures
        t3(r) == rt_tri(t3(*t), input.cos_theta as int, input.sin_theta as int,
            input.depth as int),
        within3(v3(r.0), STAGE_MAX as int),
        within3(v3(r.1), STAGE_MAX as int),
        within3(v3(r.2), STAGE_MAX as int),
{
    Triangle(
        transform_vertex(&t.0, input),
        transform_vertex(&t.1, input),
        transform_vertex(&t.2, input),
    )
}

/// The backface-cull test: the triangle faces the camera when the exact dot
/// product of its outward normal with the camera-to-vertex view vector is
/// negative. The sign is taken on the exact edge cross product, which is the
/// sign its normalized normal gives, up to fixed-point truncation.
pub open spec fn front_facing(t: TriModel, cam: Triple) -> bool {
    dot_exact(cross_exact(vsub(t.0, t.1), vsub(t.0, t.2)), vsub(t.0, cam)) < 0
}

/// Decides the backface cull for one triangle, exactly per `front_facing`.
pub fn is_front_facing(t: &Triangle, camera: &Vec3) -> (r: bool)
    requires
        tri_in_range(t3(*t)),
        in_range3(v3(*camera)),
    ensures
        r == front_facing(t3(*t), v3(*camera)),
{
    let ux: i128 = (t.0.x as i128) - (t.1.x as i128);
    let uy: i128 = (t.0.y as i128) - (t.1.y as i128);
    let uz: i128 = (t.0.z as i128) - (t.1.z as i128);
    let wx: i128 = (t.0.x as i128) - (t.2.x as i128);
    let wy: i128 = (t.0.y as i128) - (t.2.y as i128);
    let wz: i128 = (t.0.z as i128) - (t.2.z as i128);
    proof {
        let e: int = 2 * (COORD_MAX as int);
        lemma_mul_bound2(uy as int, wz as int, e, e);
        lemma_mul_bound2(uz as int, wy as int, e, e);
        lemma_mul_bound2(uz as int, wx as int, e, e);
        lemma_mul_bound2(ux as int, wz as int, e, e);
        lemma_mul_bound2(ux as int, wy as int, e, e);
        lemma_mul_bound2(uy as int, wx as int, e, e);
    }
    let cx: i128 = uy * wz - uz * wy;
    let cy: i128 = uz * wx - ux * wz;
    let cz: i128 = ux * wy - uy * wx;
    let vx: i128 = (t.0.x as i128) - (camera.x as i128);
    let vy: i128 = (t.0.y as i128) - (camera.y as i128);
    let vz: i128 = (t.0.z as i128) - (camera.z as i128);
    proof {
        let e: int = 2 * (COORD_MAX as int);
        let c: int = 2 * e * e;
        lemma_mul_bound2(cx as int, vx as int, c, e);
        lemma_mul_bound2(cy as int, vy as int, c, e);
        lemma_mul_bound2(cz as int, vz as int, c, e);
    }
    let d: i128 = cx * vx + cy * vy + cz * vz;
    d < 0
}

/// Clamps a shading value to the byte range.
pub open spec fn byte_clamp(v: int) -> int {
    if v < 0 {
        0
    } else if v > 255 {
        255
    } else {
        v
    }
}

/// The light direction: the externally varied horizontal component, level,
/// looking down the negative Z axis.
pub open spec fn light_model(lx: int) -> Triple {
    (lx, 0, -(SCALE as int))
}

/// Model of the flat-shading stage: the grayscale byte from the dot product
/// of the normalized face normal with the normalized light direction. A face
/// whose normal vanishes on the fixed-point grid shades to black, and the
/// byte cast saturates at both ends.
pub open spec fn shade_model(t: TriModel, lx: int) -> int {
    let n = vcross(vsub(t.0, t.1), vsub(t.0, t.2));
    if n == (0int, 0int, 0int) {
        0
    } else {
        byte_clamp(tdiv(vdot(vnorm(n), vnorm(light_model(lx))) * 255, SCALE as int))
    }
}

/// A nonzero vector has a positive squared norm.
proof fn lemma_norm_sq_pos(a: Triple)
    requires
        a != (0int, 0int, 0int),
    ensures
        norm_sq(a) > 0,
{
    assert(a.0 * a.0 + a.1 * a.1 + a.2 * a.2 > 0) by (nonlinear_arith)
        requires
            !(a.0 == 0 && a.1 == 0 && a.2 == 0),
    ;
}

/// The fixed-point cross product of bounded vectors is bounded.
proof fn lemma_cross_bound(a: Triple, b: Triple, m: int, bb: int)
    requires
        within3(a, m),
        within3(b, m),
        0 <= m,
        0 <= bb,
        2 * (m * m) <= bb * SCALE,
    ensures
        within3(vcross(a, b), bb),
{
    lemma_mul_bound(a.1, b.2, m);
    lemma_mul_bound(a.2, b.1, m);
    lemma_mul_bound(a.2, b.0, m);
    lemma_mul_bound(a.0, b.2, m);
    lemma_mul_bound(a.0, b.1, m);
    lemma_mul_bound(a.1, b.0, m);
    lemma_tdiv_bound(a.1 * b.2 - a.2 * b.1, SCALE as int, bb);
    lemma_tdiv_bound(a.2 * b.0 - a.0 * b.2, SCALE as int, bb);
    lemma_tdiv_bound(a.0 * b.1 - a.1 * b.0, SCALE as int, bb);
}

/// Computes the flat shade of a transformed triangle, exactly per
/// `shade_model`.
pub fn shade(t: &Triangle, light_x: i64) -> (r: u8)
    requires
        within3(v3(t.0), STAGE_MAX as int),
        within3(v3(t.1), STAGE_MAX as int),
        within3(v3(t.2), STAGE_MAX as int),
        -MESH_MAX <= light_x <= MESH_MAX,
    ensures
        r as int == shade_model(t3(*t), light_x as int),
{
    let e1 = t.0.minus(&t.1);
    let e2 = t.0.minus(&t.2);
    proof {
        lemma_cross_bound(v3(e1), v3(e2), 2 * (STAGE_MAX as int), 3_200_000_000_000_000int);
    }
    let n = e1.cross(&e2);
    if n.x == 0 && n.y == 0 && n.z == 0 {
        0
    } else {
        proof {
            lemma_norm_sq_pos(v3(n));
            assert((light_x as int) * (light_x as int) >= 0 && (SCALE as int) * (SCALE as int)
                > 0) by (nonlinear_arith);
        }
        let nn = n.normalized();
        let light = Vec3 { x: light_x, y: 0, z: -SCALE };
        let ln = light.normalized();
        let d = nn.dot(&ln);
        proof {
            lemma_mul_bound(nn.x as int, ln.x as int, SCALE as int);
            lemma_mul_bound(nn.y as int, ln.y as int, SCALE as int);
            lemma_mul_bound(nn.z as int, ln.z as int, SCALE as int);
            lemma_tdiv_bound(dot_exact(v3(nn), v3(ln)), SCALE as int, 3 * (SCALE as int));
        }
        let q: i128 = tdiv_i128((d as i128) * 255, SCALE as i128);
        if q < 0 {
            0
        } else if q > 255 {
            255
        } else {
            q as u8
        }
    }
}

/// Screen-space point produced by projecting and viewport-mapping a vertex,
/// in fixed-point pixels.
#[derive(Clone, Copy, Debug, PartialEq, Eq, Structural)]
pub struct Point2d {
    pub x: i64,
    pub y: i64,
}

/// Model of the projection and viewport stage for one vertex: homogeneous
/// multiplication by the projection matrix, the perspective divide guarded
/// against a vanishing divisor, then the map from normalized device
/// coordinates to pixels, with window width used for both axes. Values
/// beyond the representable range saturate.
pub open spec fn project_vertex_model(p: Triple, m: MatModel, width: int) -> (int, int) {
    let q = vmat((p.0, p.1, p.2, SCALE as int), m);
    let xd = if q.3 != 0 {
        clamp_i64(tdiv(q.0 * SCALE, q.3))
    } else {
        q.0
    };
    let yd = if q.3 != 0 {
        clamp_i64(tdiv(q.1 * SCALE, q.3))
    } else {
        q.1
    };
    (
        clamp_i64(tdiv(xd + SCALE, 2) * width),
        clamp_i64(tdiv(yd + SCALE, 2) * width),
    )
}

/// Projects one camera-space vertex to fixed-point pixel coordinates,
/// exactly per `project_vertex_model`.
pub fn project_vertex(v: &Vec3, projection: &Matrix4x4, width: i64) -> (r: Point2d)
    requires
        in_range3(v3(*v)),
        mat_in_range(m4(*projection)),
        0 < width <= 100_000,
    ensures
        (r.x as int, r.y as int) == project_vertex_model(v3(*v), m4(*projection), width as int),
{
    let p4 = Vec4::from_point(v);
    proof {
        lemma_vmat_bound(v4(p4), m4(*projection), COORD_MAX as int, COORD_MAX as int,
            40_000_000_000_000_000int);
    }
    let q = p4.multiply_by_matrix(projection);
    let xd: i64;
    let yd: i64;
    if q.w != 0 {
        proof {
            lemma_mul_bound2(q.x as int, SCALE as int, 40_000_000_000_000_000int, SCALE as int);
            lemma_mul_bound2(q.y as int, SCALE as int, 40_000_000_000_000_000int, SCALE as int);
        }
        xd = clamp_to_i64(tdiv_i128_signed((q.x as i128) * (SCALE as i128), q.w as i128));
        yd = clamp_to_i64(tdiv_i128_signed((q.y as i128) * (SCALE as i128), q.w as i128));
    } else {
        xd = q.x;
        yd = q.y;
    }
    let hx: i128 = tdiv_i128((xd as i128) + (SCALE as i128), 2);
    let hy: i128 = tdiv_i128((yd as i128) + (SCALE as i128), 2);
    proof {
        lemma_tdiv_bound((xd as int) + (SCALE as int), 2, 5_000_000_000_000_000_000int);
        lemma_tdiv_bound((yd as int) + (SCALE as int), 2, 5_000_000_000_000_000_000int);
        lemma_mul_bound2(hx as int, width as int, 5_000_000_000_000_000_000int, 100_000int);
        lemma_mul_bound2(hy as int, width as int, 5_000_000_000_000_000_000int, 100_000int);
    }
    Point2d { x: clamp_to_i64(hx * (width as i128)), y: clamp_to_i64(hy * (width as i128)) }
}

} // verus!

use vstd::seq_lib::to_multiset_insert;
use vstd::seq_lib::group_to_multiset_ensures;

verus! {

broadcast use group_to_multiset_ensures, to_multiset_insert;

/// A culled, shaded camera-space triangle awaiting depth ordering.
#[derive(Clone, Copy, Debug, PartialEq, Eq, Structural)]
pub struct ShadedTriangle {
    pub tri: Triangle,
    pub shade: u8,
}

/// The model of a shaded triangle.
pub open spec fn st_model(s: ShadedTriangle) -> (TriModel, int) {
    (t3(s.tri), s.shade as int)
}

/// The depth key of a triangle: the sum of its camera-space Z coordinates.
/// Ordering by the sum orders by the average depth.
pub open spec fn zsum(t: TriModel) -> int {
    t.0.2 + t.1.2 + t.2.2
}

/// Painter's order: earlier triangles are at least as deep as later ones.
pub open spec fn back_to_front(s: Seq<ShadedTriangle>) -> bool {
    forall|i: int, j: int|
        0 <= i < j < s.len() ==> zsum(t3(s[i].tri)) >= zsum(t3(s[j].tri))
}

/// Each vertex of every listed triangle within the given magnitude.
pub open spec fn items_within(s: Seq<ShadedTriangle>, b: int) -> bool {
    forall|i: int|
        #![trigger s[i]]
        0 <= i < s.len() ==> within3(v3(s[i].tri.0), b) && within3(v3(s[i].tri.1), b)
            && within3(v3(s[i].tri.2), b)
}

/// The depth key of one triangle.
fn depth_key(t: &Triangle) -> (r: i64)
    requires
        within3(v3(t.0), STAGE_MAX as int),
        within3(v3(t.1), STAGE_MAX as int),
        within3(v3(t.2), STAGE_MAX as int),
    ensures
        r as int == zsum(t3(*t)),
{
    t.0.z + t.1.z + t.2.z
}

/// Orders the surviving triangles back to front by descending depth key,
/// keeping the multiset of items: a stable insertion sort, so triangles of
/// equal depth stay in insertion order.
pub fn depth_sort(items: Vec<ShadedTriangle>) -> (r: Vec<ShadedTriangle>)
    requires
        items_within(items@, STAGE_MAX as int),
    ensures
        back_to_front(r@),
        r@.to_multiset() == items@.to_multiset(),
        r@.map_values(|s: ShadedTriangle| st_model(s)).to_multiset() == items@.map_values(
            |s: ShadedTriangle| st_model(s)).to_multiset(),
        r@.len() == items@.len(),
        items_within(r@, STAGE_MAX as int),
{
    let mut out: Vec<ShadedTriangle> = Vec::new();
    let mut i: usize = 0;
    while i < items.len()
        invariant
            i <= items.len(),
            items_within(items@, STAGE_MAX as int),
            items_within(out@, STAGE_MAX as int),
            back_to_front(out@),
            out@.to_multiset() == items@.take(i as int).to_multiset(),
            out@.map_values(|s: ShadedTriangle| st_model(s)).to_multiset() == items@.take(
                i as int).map_values(|s: ShadedTriangle| st_model(s)).to_multiset(),
            out@.len() == i,
        decreases items.len() - i,
    {
        let item = items[i];
        let k = depth_key(&item.tri);
        let mut pos: usize = 0;
        while pos < out.len() && depth_key(&out[pos].tri) >= k
            invariant
                pos <= out.len(),
                items_within(out@, STAGE_MAX as int),
                forall|j: int| 0 <= j < pos ==> zsum(t3(out@[j].tri)) >= k,
            decreases out.len() - pos,
        {
            pos = pos + 1;
        }
        proof {
            if pos < out.len() {
                assert(zsum(t3(out@[pos as int].tri)) < k);
                assert forall|j: int| pos <= j < out.len() implies zsum(t3(out@[j].tri))
                    < k by {
                    if j > pos {
                        assert(zsum(t3(out@[pos as int].tri)) >= zsum(t3(out@[j].tri)));
                    }
                }
            }
            assert(items@.take(i as int + 1) =~= items@.take(i as int).push(items@[i as int]));
            assert(items@.take(i as int + 1).map_values(|s: ShadedTriangle| st_model(s)) =~= items@
                .take(i as int).map_values(|s: ShadedTriangle| st_model(s)).push(st_model(item)));
        }
        let ghost pre_out = out@;
        out.insert(pos, item);
        proof {
            assert(out@.map_values(|s: ShadedTriangle| st_model(s)) =~= pre_out.map_values(
                |s: ShadedTriangle| st_model(s)).insert(pos as int, st_model(item)));
        }
        i = i + 1;
    }
    proof {
        assert(items@.take(items@.len() as int) =~= items@);
    }
    out
}

/// The negation of every camera-space Z coordinate of an item.
pub open spec fn negate_z(p: (TriModel, int)) -> (TriModel, int) {
    (
        (
            (p.0.0.0, p.0.0.1, -p.0.0.2),
            (p.0.1.0, p.0.1.1, -p.0.1.2),
            (p.0.2.0, p.0.2.1, -p.0.2.2),
        ),
        p.1,
    )
}

/// Painter's order on item models.
pub open spec fn back_to_front_models(s: Seq<(TriModel, int)>) -> bool {
    forall|i: int, j: int| 0 <= i < j < s.len() ==> zsum(s[i].0) >= zsum(s[j].0)
}

/// Reflecting the scene in depth reverses the painter's order: negating
/// every camera-space Z of a back-to-front list and reversing it yields a
/// back-to-front list again, so the depth sort of the reflected scene is the
/// reverse of the original order wherever the depth keys are distinct.
pub proof fn lemma_depth_order_reverses(s: Seq<(TriModel, int)>)
    requires
        back_to_front_models(s),
    ensures
        back_to_front_models(s.map_values(|p: (TriModel, int)| negate_z(p)).reverse()),
{
    let m = s.map_values(|p: (TriModel, int)| negate_z(p)).reverse();
    assert forall|i: int, j: int| 0 <= i < j < m.len() implies zsum(m[i].0) >= zsum(
        m[j].0) by {
        let n = s.len() as int;
        assert(m[i] == negate_z(s[n - 1 - i]));
        assert(m[j] == negate_z(s[n - 1 - j]));
        assert(zsum(s[n - 1 - j].0) >= zsum(s[n - 1 - i].0));
    }
}

/// Swapping any two vertices of a front-facing triangle reverses its
/// winding: the cull dot product changes sign, so the triangle is culled.
pub proof fn lemma_cull_winding_flip(t: TriModel, cam: Triple)
    requires
        front_facing(t, cam),
    ensures
        !front_facing((t.1, t.0, t.2), cam),
        !front_facing((t.0, t.2, t.1), cam),
        !front_facing((t.2, t.1, t.0), cam),
{
    let u = vsub(t.0, t.1);
    let w = vsub(t.0, t.2);
    let n = cross_exact(u, w);
    lemma_swap_first_two(t.0, t.1, t.2, cam, n);
    lemma_swap_last_two(t.0, t.1, t.2, cam, n);
    lemma_swap_outer(t.0, t.1, t.2, cam, n);
}

/// Swapping the first two vertices negates the cull dot product.
#[verifier::rlimit(60)]
proof fn lemma_swap_first_two(a: Triple, b: Triple, c: Triple, cam: Triple, n: Triple)
    requires
        n == cross_exact(vsub(a, b), vsub(a, c)),
    ensures
        dot_exact(cross_exact(vsub(b, a), vsub(b, c)), vsub(b, cam)) == -dot_exact(
            n, vsub(a, cam)),
{
    let n2 = cross_exact(vsub(b, a), vsub(b, c));
    assert(n2.0 == -n.0 && n2.1 == -n.1 && n2.2 == -n.2) by (nonlinear_arith)
        requires
            n == cross_exact(vsub(a, b), vsub(a, c)),
            n2 == cross_exact(vsub(b, a), vsub(b, c)),
    ;
    assert(dot_exact(n, vsub(a, b)) == 0) by (nonlinear_arith)
        requires
            n == cross_exact(vsub(a, b), vsub(a, c)),
    ;
    assert(dot_exact(n2, vsub(b, cam)) == -dot_exact(n, vsub(a, cam))) by (nonlinear_arith)
        requires
            n2.0 == -n.0 && n2.1 == -n.1 && n2.2 == -n.2,
            dot_exact(n, vsub(a, b)) == 0,
    ;
}

/// Swapping the last two vertices negates the cull dot product.
#[verifier::rlimit(60)]
proof fn lemma_swap_last_two(a: Triple, b: Triple, c: Triple, cam: Triple, n: Triple)
    requires
        n == cross_exact(vsub(a, b), vsub(a, c)),
    ensures
        dot_exact(cross_exact(vsub(a, c), vsub(a, b)), vsub(a, cam)) == -dot_exact(
            n, vsub(a, cam)),
{
    let n2 = cross_exact(vsub(a, c), vsub(a, b));
    assert(n2.0 == -n.0 && n2.1 == -n.1 && n2.2 == -n.2) by (nonlinear_arith)
        requires
            n == cross_exact(vsub(a, b), vsub(a, c)),
            n2 == cross_exact(vsub(a, c), vsub(a, b)),
    ;
    assert(dot_exact(n2, vsub(a, cam)) == -dot_exact(n, vsub(a, cam))) by (nonlinear_arith)
        requires
            n2.0 == -n.0 && n2.1 == -n.1 && n2.2 == -n.2,
    ;
}

/// Swapping the outer vertices negates the cull dot product.
#[verifier::rlimit(60)]
proof fn lemma_swap_outer(a: Triple, b: Triple, c: Triple, cam: Triple, n: Triple)
    requires
        n == cross_exact(vsub(a, b), vsub(a, c)),
    ensures
        dot_exact(cross_exact(vsub(c, b), vsub(c, a)), vsub(c, cam)) == -dot_exact(
            n, vsub(a, cam)),
{
    let n2 = cross_exact(vsub(c, b), vsub(c, a));
    assert(n2.0 == -n.0 && n2.1 == -n.1 && n2.2 == -n.2) by (nonlinear_arith)
        requires
            n == cross_exact(vsub(a, b), vsub(a, c)),
            n2 == cross_exact(vsub(c, b), vsub(c, a)),
    ;
    assert(dot_exact(n, vsub(a, c)) == 0) by (nonlinear_arith)
        requires
            n == cross_exact(vsub(a, b), vsub(a, c)),
    ;
    assert(dot_exact(n2, vsub(c, cam)) == -dot_exact(n, vsub(a, cam))) by (nonlinear_arith)
        requires
            n2.0 == -n.0 && n2.1 == -n.1 && n2.2 == -n.2,
            dot_exact(n, vsub(a, c)) == 0,
    ;
}

} // verus!

use crate::mesh::{mesh_model, Mesh};

verus! {

/// A screen triangle handed to the presentation adapter: three fixed-point
/// pixel points and the grayscale shade shared by the three color channels.
#[derive(Clone, Copy, Debug, PartialEq, Eq, Structural)]
pub struct ScreenTriangle {
    pub a: Point2d,
    pub b: Point2d,
    pub c: Point2d,
    pub shade: u8,
}

/// The camera sits at the origin, looking along positive Z.
pub open spec fn camera_model() -> Triple {
    (0, 0, 0)
}

/// Every vertex of every mesh triangle within the given magnitude.
pub open spec fn mesh_within(s: Seq<Triangle>, b: int) -> bool {
    forall|i: int|
        #![trigger s[i]]
        0 <= i < s.len() ==> within3(v3(s[i].0), b) && within3(v3(s[i].1), b) && within3(
            v3(s[i].2), b)
}

/// The transformed, culled and shaded triangles of one frame, in mesh
/// order: each mesh triangle is rotated and translated, kept when it faces
/// the camera, and paired with its flat shade.
pub open spec fn visible_models(s: Seq<TriModel>, c: int, sn: int, d: int, lx: int) -> Seq<
    (TriModel, int),
>
    decreases s.len(),
{
    if s.len() == 0 {
        Seq::empty()
    } else {
        let rest = visible_models(s.drop_last(), c, sn, d, lx);
        let t = rt_tri(s.last(), c, sn, d);
        if front_facing(t, camera_model()) {
            rest.push((t, shade_model(t, lx)))
        } else {
            rest
        }
    }
}

/// What `render_frame` emits: `mid` lists the surviving camera-space
/// triangles, a back-to-front permutation of the frame's visible triangles,
/// and the output projects `mid` pointwise to the screen.
pub open spec fn frame_output_ok(
    mid: Seq<ShadedTriangle>,
    out: Seq<ScreenTriangle>,
    mesh: Seq<Triangle>,
    input: FrameInput,
) -> bool {
    &&& mid.map_values(|s: ShadedTriangle| st_model(s)).to_multiset() == visible_models(
        mesh_model(mesh),
        input.cos_theta as int,
        input.sin_theta as int,
        input.depth as int,
        input.light_x as int,
    ).to_multiset()
    &&& back_to_front(mid)
    &&& out.len() == mid.len()
    &&& forall|i: int|
        0 <= i < mid.len() ==> #[trigger] out[i].shade == mid[i].shade && (
        out[i].a.x as int,
        out[i].a.y as int,
    ) == project_vertex_model(v3(mid[i].tri.0), m4(input.projection), input.width as int) && (
        out[i].b.x as int,
        out[i].b.y as int,
    ) == project_vertex_model(v3(mid[i].tri.1), m4(input.projection), input.width as int) && (
        out[i].c.x as int,
        out[i].c.y as int,
    ) == project_vertex_model(v3(mid[i].tri.2), m4(input.projection), input.width as int)
}

/// Runs one frame of the pipeline over an immutable mesh: rotate and
/// translate every triangle, cull the backfaces, shade the survivors, order
/// them back to front, and project each vertex to the screen.
pub fn render_frame(mesh: &Mesh, input: &FrameInput) -> (out: Vec<ScreenTriangle>)
    requires
        mesh_within(mesh@, MESH_MAX as int),
        input_wf(*input),
    ensures
        exists|mid: Seq<ShadedTriangle>| frame_output_ok(mid, out@, mesh@, *input),
{
    let ghost c: int = input.cos_theta as int;
    let ghost sn: int = input.sin_theta as int;
    let ghost dep: int = input.depth as int;
    let ghost lx: int = input.light_x as int;
    let camera = Vec3 { x: 0, y: 0, z: 0 };
    let mut items: Vec<ShadedTriangle> = Vec::new();
    let mut i: usize = 0;
    while i < mesh.len()
        invariant
            i <= mesh.len(),
            mesh_within(mesh@, MESH_MAX as int),
            input_wf(*input),
            c == input.cos_theta as int,
            sn == input.sin_theta as int,
            dep == input.depth as int,
            lx == input.light_x as int,
            camera == (Vec3 { x: 0i64, y: 0i64, z: 0i64 }),
            items_within(items@, STAGE_MAX as int),
            items@.map_values(|s: ShadedTriangle| st_model(s)) == visible_models(
                mesh_model(mesh@).take(i as int), c, sn, dep, lx),
        decreases mesh.len() - i,
    {
        let tt = transform_triangle(&mesh[i], input);
        let ghost pre = items@;
        if is_front_facing(&tt, &camera) {
            let sh = shade(&tt, input.light_x);
            items.push(ShadedTriangle { tri: tt, shade: sh });
        }
        proof {
            let mm = mesh_model(mesh@);
            assert(mm.take(i + 1).drop_last() =~= mm.take(i as int));
            assert(mm.take(i + 1).last() == t3(mesh@[i as int]));
            assert(t3(tt) == rt_tri(t3(mesh@[i as int]), c, sn, dep));
            if front_facing(t3(tt), camera_model()) {
                assert(items@ =~= pre.push(ShadedTriangle {
                    tri: tt,
                    shade: (shade_model(t3(tt), lx) as u8),
                }));
                assert(items@.map_values(|s: ShadedTriangle| st_model(s)) =~= pre.map_values(
                    |s: ShadedTriangle| st_model(s)).push((t3(tt), shade_model(t3(tt), lx))));
            }
        }
        i = i + 1;
    }
    proof {
        assert(mesh_model(mesh@).take(mesh@.len() as int) =~= mesh_model(mesh@));
    }
    let sorted = depth_sort(items);
    let mut out: Vec<ScreenTriangle> = Vec::new();
    let mut j: usize = 0;
    while j < sorted.len()
        invariant
            j <= sorted.len(),
            input_wf(*input),
            items_within(sorted@, STAGE_MAX as int),
            out@.len() == j,
            forall|k: int|
                0 <= k < j ==> #[trigger] out@[k].shade == sorted@[k].shade && (
                out@[k].a.x as int,
                out@[k].a.y as int,
            ) == project_vertex_model(v3(sorted@[k].tri.0), m4(input.projection),
                input.width as int) && (
                out@[k].b.x as int,
                out@[k].b.y as int,
            ) == project_vertex_model(v3(sorted@[k].tri.1), m4(input.projection),
                input.width as int) && (
                out@[k].c.x as int,
                out@[k].c.y as int,
            ) == project_vertex_model(v3(sorted@[k].tri.2), m4(input.projection),
                input.width as int),
        decreases sorted.len() - j,
    {
        let s = sorted[j];
        let pa = project_vertex(&s.tri.0, &input.projection, input.width);
        let pb = project_vertex(&s.tri.1, &input.projection, input.width);
        let pc = project_vertex(&s.tri.2, &input.projection, input.width);
        out.push(ScreenTriangle { a: pa, b: pb, c: pc, shade: s.shade });
        j = j + 1;
    }
    proof {
        assert(frame_output_ok(sorted@, out@, mesh@, *input));
    }
    out
}

} // verus!

verus! {

/// Pairwise distinct depth keys.
pub open spec fn distinct_depths(s: Seq<(TriModel, int)>) -> bool {
    forall|i: int, j: int| 0 <= i < j < s.len() ==> zsum(s[i].0) != zsum(s[j].0)
}

/// With pairwise distinct depth keys, the painter's order is unique: two
/// back-to-front arrangements of the same items are equal.
pub proof fn lemma_back_to_front_unique(a: Seq<(TriModel, int)>, b: Seq<(TriModel, int)>)
    requires
        back_to_front_models(a),
        back_to_front_models(b),
        distinct_depths(a),
        a.to_multiset() == b.to_multiset(),
    ensures
        a == b,
    decreases a.len(),
{
    a.to_multiset_ensures();
    b.to_multiset_ensures();
    if a.len() == 0 {
        assert(a =~= b);
    } else {
        assert(b.to_multiset().contains(a[0]));
        let k = choose|k: int| 0 <= k < b.len() && b[k] == a[0];
        assert(a.to_multiset().contains(b[0]));
        let m = choose|m: int| 0 <= m < a.len() && a[m] == b[0];
        assert(zsum(b[0].0) >= zsum(b[k].0));
        assert(zsum(a[0].0) >= zsum(a[m].0));
        if m != 0 {
            assert(zsum(a[0].0) != zsum(a[m].0));
            assert(false);
        }
        assert(b[0] == a[0]);
        let at = a.drop_first();
        let bt = b.drop_first();
        assert(a.remove(0) =~= at);
        assert(b.remove(0) =~= bt);
        assert(at.to_multiset() == a.to_multiset().remove(a[0]));
        assert(bt.to_multiset() == b.to_multiset().remove(b[0]));
        assert forall|i: int, j: int| 0 <= i < j < at.len() implies zsum(at[i].0) >= zsum(
            at[j].0) && zsum(at[i].0) != zsum(at[j].0) by {
            assert(at[i] == a[i + 1] && at[j] == a[j + 1]);
        }
        assert forall|i: int, j: int| 0 <= i < j < bt.len() implies zsum(bt[i].0) >= zsum(
            bt[j].0) by {
            assert(bt[i] == b[i + 1] && bt[j] == b[j + 1]);
        }
        lemma_back_to_front_unique(at, bt);
        assert forall|i: int| 0 <= i < a.len() implies a[i] == b[i] by {
            if i > 0 {
                assert(at[i - 1] == a[i]);
                assert(bt[i - 1] == b[i]);
                assert(at[i - 1] == bt[i - 1]);
            }
        }
        assert(a =~= b);
    }
}

/// Reflecting the scene in depth reverses the order exactly: when the depth
/// keys are pairwise distinct, the one back-to-front arrangement of the
/// Z-negated items is the reverse of the Z-negated original arrangement.
pub proof fn lemma_depth_sort_reflection(a: Seq<(TriModel, int)>, b: Seq<(TriModel, int)>)
    requires
        back_to_front_models(a),
        back_to_front_models(b),
        distinct_depths(a),
        b.to_multiset() == a.map_values(|p: (TriModel, int)| negate_z(p)).to_multiset(),
    ensures
        b == a.map_values(|p: (TriModel, int)| negate_z(p)).reverse(),
{
    let an = a.map_values(|p: (TriModel, int)| negate_z(p));
    lemma_depth_order_reverses(a);
    an.lemma_reverse_to_multiset();
    assert forall|i: int, j: int| 0 <= i < j < an.reverse().len() implies zsum(
        #[trigger] an.reverse()[i].0) != zsum(#[trigger] an.reverse()[j].0) by {
        let n = a.len() as int;
        assert(an.reverse()[i] == negate_z(a[n - 1 - i]));
        assert(an.reverse()[j] == negate_z(a[n - 1 - j]));
        assert(zsum(a[n - 1 - j].0) != zsum(a[n - 1 - i].0));
    }
    lemma_back_to_front_unique(an.reverse(), b);
}

} // verus!
