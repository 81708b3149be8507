use vstd::prelude::*;
use crate::fixed::{
    in_range, is_sqrt_floor, lemma_mul_bound, lemma_mul_bound2, lemma_tdiv_bound, mul_fixed,
    smul, sqrt_floor, tdiv, tdiv_i128, isqrt_u128, COORD_MAX, NORM_MAX, SCALE,

};

verus! {

/// Mathematical model of a 3-vector: components as unbounded integers,
/// in fixed-point units.
pub type Triple = (int, int, int);

/// A point or direction in model, world or camera space, in fixed-point
/// units (see `fixed::SCALE`).
#[derive(Clone, Copy, Debug, PartialEq, Eq, Structural)]
pub struct Vec3 {
    pub x: i64,
    pub y: i64,
    pub z: i64,
}

/// The model of a `Vec3`.
pub open spec fn v3(v: Vec3) -> Triple {
    (v.x as int, v.y as int, v.z as int)
}

/// All three components within the range the arithmetic helpers accept.
pub open spec fn in_range3(a: Triple) -> bool {
    in_range(a.0) && in_range(a.1) && in_range(a.2)
}

/// All three components within the given magnitude.
pub open spec fn within3(a: Triple, b: int) -> bool {
    -b <= a.0 <= b && -b <= a.1 <= b && -b <= a.2 <= b
}

/// Componentwise sum.
pub open spec fn vadd(a: Triple, b: Triple) -> Triple {
    (a.0 + b.0, a.1 + b.1, a.2 + b.2)
}

/// Componentwise difference.
pub open spec fn vsub(a: Triple, b: Triple) -> Triple {
    (a.0 - b.0, a.1 - b.1, a.2 - b.2)
}

/// Componentwise fixed-point scaling.
pub open spec fn vscale(a: Triple, s: int) -> Triple {
    (smul(a.0, s), smul(a.1, s), smul(a.2, s))
}

/// Exact componentwise scaling, before any fixed-point rescale.
pub open spec fn escale(a: Triple, k: int) -> Triple {
    (a.0 * k, a.1 * k, a.2 * k)
}

/// Exact dot product of the raw components, before the fixed-point rescale.
pub open spec fn dot_exact(a: Triple, b: Triple) -> int {
    a.0 * b.0 + a.1 * b.1 + a.2 * b.2
}

/// Exact right-handed cross product of the raw components, before the
/// fixed-point rescale.
pub open spec fn cross_exact(a: Triple, b: Triple) -> Triple {
    (a.1 * b.2 - a.2 * b.1, a.2 * b.0 - a.0 * b.2, a.0 * b.1 - a.1 * b.0)
}

/// Fixed-point dot product: the exact dot product rescaled.
pub open spec fn vdot(a: Triple, b: Triple) -> int {
    tdiv(dot_exact(a, b), SCALE as int)
}

/// Fixed-point cross product: the exact cross product rescaled.
pub open spec fn vcross(a: Triple, b: Triple) -> Triple {
    (
        tdiv(a.1 * b.2 - a.2 * b.1, SCALE as int),
        tdiv(a.2 * b.0 - a.0 * b.2, SCALE as int),
        tdiv(a.0 * b.1 - a.1 * b.0, SCALE as int),
    )
}

/// Exact squared Euclidean norm of the raw components.
pub open spec fn norm_sq(a: Triple) -> int {
    dot_exact(a, a)
}

/// Fixed-point Euclidean norm: the integer square root of the squared norm.
pub open spec fn vlength(a: Triple) -> int {
    sqrt_floor(norm_sq(a))
}

/// Fixed-point normalization: each component scaled up and divided by the
/// norm, truncating toward zero.
pub open spec fn vnorm(a: Triple) -> Triple {
    let l = vlength(a);
    (
        tdiv(a.0 * SCALE, l),
        tdiv(a.1 * SCALE, l),
        tdiv(a.2 * SCALE, l),
    )
}

impl Vec3 {
    /// Builds the vector with the given fixed-point components.
    pub fn new(x: i64, y: i64, z: i64) -> (r: Vec3)
        ensures
            r == (Vec3 { x, y, z }),
    {
        Vec3 { x, y, z }
    }

    /// Componentwise fixed-point scaling.
    pub fn multiply_by_scalar(&self, scalar: i64) -> (r: Vec3)
        requires
            in_range3(v3(*self)),
            in_range(scalar as int),
        ensures
            v3(r) == vscale(v3(*self), scalar as int),
    {
        Vec3 {
            x: mul_fixed(self.x, scalar),
            y: mul_fixed(self.y, scalar),
            z: mul_fixed(self.z, scalar),
        }
    }

    /// Euclidean norm, rounded down to the fixed-point grid.
    pub fn length(&self) -> (r: i64)
        requires
            within3(v3(*self), NORM_MAX as int),
        ensures
            r as int == vlength(v3(*self)),
            is_sqrt_floor(norm_sq(v3(*self)), r as int),
            0 <= r <= 2 * NORM_MAX,
    {
        proof {
            lemma_mul_bound(self.x as int, self.x as int, NORM_MAX as int);
            lemma_mul_bound(self.y as int, self.y as int, NORM_MAX as int);
            lemma_mul_bound(self.z as int, self.z as int, NORM_MAX as int);
        }
        let s: i128 = (self.x as i128) * (self.x as i128) + (self.y as i128) * (self.y as i128)
            + (self.z as i128) * (self.z as i128);
        proof {
            assert(0 <= s <= 3 * (NORM_MAX as int) * (NORM_MAX as int)) by (nonlinear_arith)
                requires
                    -NORM_MAX <= self.x <= NORM_MAX,
                    -NORM_MAX <= self.y <= NORM_MAX,
                    -NORM_MAX <= self.z <= NORM_MAX,
                    s == (self.x as int) * (self.x as int) + (self.y as int) * (self.y as int)
                        + (self.z as int) * (self.z as int),
                    NORM_MAX == 10_000_000_000_000_000i64,
            ;
            assert(s == norm_sq(v3(*self)));
        }
        let r: u128 = isqrt_u128(s as u128);
        proof {
            assert(r <= 2 * (NORM_MAX as int)) by (nonlinear_arith)
                requires
                    is_sqrt_floor(s as int, r as int),
                    s <= 3 * (NORM_MAX as int) * (NORM_MAX as int),
                    NORM_MAX == 10_000_000_000_000_000i64,
            ;
        }
        r as i64
    }

    /// Direction of the vector as a fixed-point unit vector. The components
    /// of the result are truncated toward zero, so its norm is one unit on
    /// the fixed-point grid, up to that truncation.
    pub fn normalized(&self) -> (r: Vec3)
        requires
            within3(v3(*self), NORM_MAX as int),
            norm_sq(v3(*self)) > 0,
        ensures
            v3(r) == vnorm(v3(*self)),
            -SCALE <= r.x <= SCALE,
            -SCALE <= r.y <= SCALE,
            -SCALE <= r.z <= SCALE,
    {
        let l = self.length();
        proof {
            assert(l >= 1) by (nonlinear_arith)
                requires
                    is_sqrt_floor(norm_sq(v3(*self)), l as int),
                    norm_sq(v3(*self)) > 0,
            ;
            lemma_norm_component_bound(v3(*self), l as int);
            lemma_mul_bound2(self.x as int, SCALE as int, NORM_MAX as int, SCALE as int);
            lemma_mul_bound2(self.y as int, SCALE as int, NORM_MAX as int, SCALE as int);
            lemma_mul_bound2(self.z as int, SCALE as int, NORM_MAX as int, SCALE as int);
        }
        let r = Vec3 {
            x: tdiv_i128((self.x as i128) * (SCALE as i128), l as i128) as i64,
            y: tdiv_i128((self.y as i128) * (SCALE as i128), l as i128) as i64,
            z: tdiv_i128((self.z as i128) * (SCALE as i128), l as i128) as i64,
        };
        r
    }

    /// Componentwise sum.
    pub fn add(&self, other: &Vec3) -> (r: Vec3)
        requires
            in_range3(v3(*self)),
            in_range3(v3(*other)),
        ensures
            v3(r) == vadd(v3(*self), v3(*other)),
    {
        Vec3 { x: self.x + other.x, y: self.y + other.y, z: self.z + other.z }
    }

    /// Componentwise difference.
    pub fn minus(&self, other: &Vec3) -> (r: Vec3)
        requires
            in_range3(v3(*self)),
            in_range3(v3(*other)),
        ensures
            v3(r) == vsub(v3(*self), v3(*other)),
    {
        Vec3 { x: self.x - other.x, y: self.y - other.y, z: self.z - other.z }
    }

    /// Fixed-point dot product.
    pub fn dot(&self, other: &Vec3) -> (r: i64)
        requires
            in_range3(v3(*self)),
            in_range3(v3(*other)),
        ensures
            r as int == vdot(v3(*self), v3(*other)),
    {
        proof {
            lemma_mul_bound(self.x as int, other.x as int, COORD_MAX as int);
            lemma_mul_bound(self.y as int, other.y as int, COORD_MAX as int);
            lemma_mul_bound(self.z as int, other.z as int, COORD_MAX as int);
        }
        let s: i128 = (self.x as i128) * (other.x as i128) + (self.y as i128) * (other.y as i128)
            + (self.z as i128) * (other.z as i128);
        proof {
            let m: int = (COORD_MAX as int) * (COORD_MAX as int);
            assert(-3 * m <= s <= 3 * m) by (nonlinear_arith)
                requires
                    -COORD_MAX <= self.x <= COORD_MAX,
                    -COORD_MAX <= self.y <= COORD_MAX,
                    -COORD_MAX <= self.z <= COORD_MAX,
                    -COORD_MAX <= other.x <= COORD_MAX,
                    -COORD_MAX <= other.y <= COORD_MAX,
                    -COORD_MAX <= other.z <= COORD_MAX,
                    s == (self.x as int) * (other.x as int) + (self.y as int) * (other.y as int)
                        + (self.z as int) * (other.z as int),
                    m == (COORD_MAX as int) * (COORD_MAX as int),
                    COORD_MAX == 10_000_000_000i64,
            ;
            assert(s == dot_exact(v3(*self), v3(*other)));
            lemma_tdiv_bound(s as int, SCALE as int, 30_000_000_000_000_000int);
        }
        tdiv_i128(s, SCALE as i128) as i64
    }

    /// Fixed-point right-handed cross product.
    pub fn cross(&self, other: &Vec3) -> (r: Vec3)
        requires
            in_range3(v3(*self)),
            in_range3(v3(*other)),
        ensures
            v3(r) == vcross(v3(*self), v3(*other)),
    {
        proof {
            lemma_mul_bound(self.x as int, other.x as int, COORD_MAX as int);
            lemma_mul_bound(self.x as int, other.y as int, COORD_MAX as int);
            lemma_mul_bound(self.x as int, other.z as int, COORD_MAX as int);
            lemma_mul_bound(self.y as int, other.x as int, COORD_MAX as int);
            lemma_mul_bound(self.y as int, other.y as int, COORD_MAX as int);
            lemma_mul_bound(self.y as int, other.z as int, COORD_MAX as int);
            lemma_mul_bound(self.z as int, other.x as int, COORD_MAX as int);
            lemma_mul_bound(self.z as int, other.y as int, COORD_MAX as int);
            lemma_mul_bound(self.z as int, other.z as int, COORD_MAX as int);
        }
        let cx: i128 = (self.y as i128) * (other.z as i128) - (self.z as i128) * (other.y as i128);
        let cy: i128 = (self.z as i128) * (other.x as i128) - (self.x as i128) * (other.z as i128);
        let cz: i128 = (self.x as i128) * (other.y as i128) - (self.y as i128) * (other.x as i128);
        proof {
            let m: int = (COORD_MAX as int) * (COORD_MAX as int);
            assert(-2 * m <= cx <= 2 * m && -2 * m <= cy <= 2 * m && -2 * m <= cz <= 2 * m)
                by (nonlinear_arith)
                requires
                    -COORD_MAX <= self.x <= COORD_MAX,
                    -COORD_MAX <= self.y <= COORD_MAX,
                    -COORD_MAX <= self.z <= COORD_MAX,
                    -COORD_MAX <= other.x <= COORD_MAX,
                    -COORD_MAX <= other.y <= COORD_MAX,
                    -COORD_MAX <= other.z <= COORD_MAX,
                    cx == (self.y as int) * (other.z as int) - (self.z as int) * (other.y as int),
                    cy == (self.z as int) * (other.x as int) - (self.x as int) * (other.z as int),
                    cz == (self.x as int) * (other.y as int) - (self.y as int) * (other.x as int),
                    m == (COORD_MAX as int) * (COORD_MAX as int),
                    COORD_MAX == 10_000_000_000i64,
            ;
            lemma_tdiv_bound(cx as int, SCALE as int, 20_000_000_000_000_000int);
            lemma_tdiv_bound(cy as int, SCALE as int, 20_000_000_000_000_000int);
            lemma_tdiv_bound(cz as int, SCALE as int, 20_000_000_000_000_000int);
        }
        Vec3 {
            x: tdiv_i128(cx, SCALE as i128) as i64,
            y: tdiv_i128(cy, SCALE as i128) as i64,
            z: tdiv_i128(cz, SCALE as i128) as i64,
        }
    }
}

/// Each component of a vector is bounded by its norm, so the normalized
/// components fit one fixed-point unit.
proof fn lemma_norm_component_bound(a: Triple, l: int)
    requires
        is_sqrt_floor(norm_sq(a), l),
        l >= 1,
    ensures
        -SCALE <= tdiv(a.0 * SCALE, l) <= SCALE,
        -SCALE <= tdiv(a.1 * SCALE, l) <= SCALE,
        -SCALE <= tdiv(a.2 * SCALE, l) <= SCALE,
{
    assert(a.0 * a.0 < (l + 1) * (l + 1) && a.1 * a.1 < (l + 1) * (l + 1) && a.2 * a.2 < (l + 1)
        * (l + 1)) by (nonlinear_arith)
        requires
            a.0 * a.0 + a.1 * a.1 + a.2 * a.2 < (l + 1) * (l + 1),
    ;
    assert(-l <= a.0 <= l && -l <= a.1 <= l && -l <= a.2 <= l) by (nonlinear_arith)
        requires
            a.0 * a.0 < (l + 1) * (l + 1),
            a.1 * a.1 < (l + 1) * (l + 1),
            a.2 * a.2 < (l + 1) * (l + 1),
            l >= 1,
    ;
    assert(-(l * SCALE) <= a.0 * SCALE <= l * SCALE && -(l * SCALE) <= a.1 * SCALE <= l * SCALE
        && -(l * SCALE) <= a.2 * SCALE <= l * SCALE) by (nonlinear_arith)
        requires
            -l <= a.0 <= l,
            -l <= a.1 <= l,
            -l <= a.2 <= l,
            SCALE == 10_000i64,
    ;
    assert(l * SCALE == (SCALE as int) * l) by (nonlinear_arith);
    lemma_tdiv_bound(a.0 * SCALE, l, SCALE as int);
    lemma_tdiv_bound(a.1 * SCALE, l, SCALE as int);
    lemma_tdiv_bound(a.2 * SCALE, l, SCALE as int);
}

} // verus!

use vstd::prelude::*;

verus! {

/// Mathematical model of a 4-vector.
pub type Quad = (int, int, int, int);

/// Mathematical model of a 4-by-4 matrix, as four row models.
pub type MatModel = (Quad, Quad, Quad, Quad);

/// Homogeneous coordinate used during matrix multiplication and the
/// perspective divide; `w` carries the perspective divisor.
#[derive(Clone, Copy, Debug, PartialEq, Eq, Structural)]
pub struct Vec4 {
    pub x: i64,
    pub y: i64,
    pub z: i64,
    pub w: i64,
}

/// A 4-by-4 fixed-point transform matrix, row-major, applied to row
/// vectors on the right: `result[col] = sum over rows of v[row] * m[row][col]`.
#[derive(Clone, Copy, Debug, PartialEq, Eq, Structural)]
pub struct Matrix4x4 {
    pub r0: Vec4,
    pub r1: Vec4,
    pub r2: Vec4,
    pub r3: Vec4,
}

/// The model of a `Vec4`.
pub open spec fn v4(v: Vec4) -> Quad {
    (v.x as int, v.y as int, v.z as int, v.w as int)
}

/// The model of a `Matrix4x4`.
pub open spec fn m4(m: Matrix4x4) -> MatModel {
    (v4(m.r0), v4(m.r1), v4(m.r2), v4(m.r3))
}

/// All four components within the range the arithmetic helpers accept.
pub open spec fn in_range4(a: Quad) -> bool {
    in_range(a.0) && in_range(a.1) && in_range(a.2) && in_range(a.3)
}

/// Every entry of the matrix within the range the arithmetic helpers accept.
pub open spec fn mat_in_range(m: MatModel) -> bool {
    in_range4(m.0) && in_range4(m.1) && in_range4(m.2) && in_range4(m.3)
}

/// Exact componentwise scaling of a 4-vector.
pub open spec fn escale4(a: Quad, k: int) -> Quad {
    (a.0 * k, a.1 * k, a.2 * k, a.3 * k)
}

/// Exact row-vector-times-matrix product, before the fixed-point rescale.
pub open spec fn vmat_exact(v: Quad, m: MatModel) -> Quad {
    (
        v.0 * m.0.0 + v.1 * m.1.0 + v.2 * m.2.0 + v.3 * m.3.0,
        v.0 * m.0.1 + v.1 * m.1.1 + v.2 * m.2.1 + v.3 * m.3.1,
        v.0 * m.0.2 + v.1 * m.1.2 + v.2 * m.2.2 + v.3 * m.3.2,
        v.0 * m.0.3 + v.1 * m.1.3 + v.2 * m.2.3 + v.3 * m.3.3,
    )
}

/// Fixed-point row-vector-times-matrix product: each exact column sum
/// rescaled.
pub open spec fn vmat(v: Quad, m: MatModel) -> Quad {
    let e = vmat_exact(v, m);
    (
        tdiv(e.0, SCALE as int),
        tdiv(e.1, SCALE as int),
        tdiv(e.2, SCALE as int),
        tdiv(e.3, SCALE as int),
    )
}

/// The transpose of a matrix model.
pub open spec fn transpose(m: MatModel) -> MatModel {
    (
        (m.0.0, m.1.0, m.2.0, m.3.0),
        (m.0.1, m.1.1, m.2.1, m.3.1),
        (m.0.2, m.1.2, m.2.2, m.3.2),
        (m.0.3, m.1.3, m.2.3, m.3.3),
    )
}

/// Model of the identity transform: ones on the diagonal, in fixed point.
pub open spec fn ident_model() -> MatModel {
    (
        (SCALE as int, 0, 0, 0),
        (0, SCALE as int, 0, 0),
        (0, 0, SCALE as int, 0),
        (0, 0, 0, SCALE as int),
    )
}

/// Model of the right-handed rotation about the Z axis, from the fixed-point
/// cosine and sine of the angle.
pub open spec fn rot_z_model(c: int, s: int) -> MatModel {
    (
        (c, s, 0, 0),
        (-s, c, 0, 0),
        (0, 0, SCALE as int, 0),
        (0, 0, 0, SCALE as int),
    )
}

/// Model of the right-handed rotation about the X axis, from the fixed-point
/// cosine and sine of the angle.
pub open spec fn rot_x_model(c: int, s: int) -> MatModel {
    (
        (SCALE as int, 0, 0, 0),
        (0, c, s, 0),
        (0, -s, c, 0),
        (0, 0, 0, SCALE as int),
    )
}

/// Model of the perspective projection matrix built from the aspect ratio,
/// the field-of-view factor `f`, the depth factor `q`, and the plane `z_near`
/// whose product with `q` fills the last row.
pub open spec fn proj_model(aspect: int, f: int, q: int, z_near: int) -> MatModel {
    (
        (smul(aspect, f), 0, 0, 0),
        (0, f, 0, 0),
        (0, 0, q, SCALE as int),
        (0, 0, -smul(z_near, q), 0),
    )
}

impl Vec4 {
    /// Builds the vector with the given fixed-point components.
    pub fn new(x: i64, y: i64, z: i64, w: i64) -> (r: Vec4)
        ensures
            r == (Vec4 { x, y, z, w }),
    {
        Vec4 { x, y, z, w }
    }

    /// Promotes a point to homogeneous coordinates with `w` equal to one.
    pub fn from_point(v: &Vec3) -> (r: Vec4)
        ensures
            v4(r) == (v.x as int, v.y as int, v.z as int, SCALE as int),
    {
        Vec4 { x: v.x, y: v.y, z: v.z, w: SCALE }
    }

    /// Drops the perspective divisor, keeping the spatial components.
    pub fn xyz(&self) -> (r: Vec3)
        ensures
            v3(r) == (self.x as int, self.y as int, self.z as int),
    {
        Vec3 { x: self.x, y: self.y, z: self.z }
    }

    /// Componentwise fixed-point scaling.
    pub fn multiply_by_scalar(&self, scalar: i64) -> (r: Vec4)
        requires
            in_range4(v4(*self)),
            in_range(scalar as int),
        ensures
            v4(r) == (
                smul(self.x as int, scalar as int),
                smul(self.y as int, scalar as int),
                smul(self.z as int, scalar as int),
                smul(self.w as int, scalar as int),
            ),
    {
        Vec4 {
            x: mul_fixed(self.x, scalar),
            y: mul_fixed(self.y, scalar),
            z: mul_fixed(self.z, scalar),
            w: mul_fixed(self.w, scalar),
        }
    }

    /// Fixed-point row-vector-times-matrix product.
    pub fn multiply_by_matrix(&self, matrix: &Matrix4x4) -> (r: Vec4)
        requires
            in_range4(v4(*self)),
            mat_in_range(m4(*matrix)),
        ensures
            v4(r) == vmat(v4(*self), m4(*matrix)),
    {
        let x = mat_col(self, &matrix.r0.x, &matrix.r1.x, &matrix.r2.x, &matrix.r3.x);
        let y = mat_col(self, &matrix.r0.y, &matrix.r1.y, &matrix.r2.y, &matrix.r3.y);
        let z = mat_col(self, &matrix.r0.z, &matrix.r1.z, &matrix.r2.z, &matrix.r3.z);
        let w = mat_col(self, &matrix.r0.w, &matrix.r1.w, &matrix.r2.w, &matrix.r3.w);
        Vec4 { x, y, z, w }
    }
}

/// One column of the fixed-point row-vector-times-matrix product.
fn mat_col(v: &Vec4, m0: &i64, m1: &i64, m2: &i64, m3: &i64) -> (r: i64)
    requires
        in_range4(v4(*v)),
        in_range(*m0 as int),
        in_range(*m1 as int),
        in_range(*m2 as int),
        in_range(*m3 as int),
    ensures
        r as int == tdiv(
            (v.x as int) * (*m0 as int) + (v.y as int) * (*m1 as int) + (v.z as int) * (*m2 as int)
                + (v.w as int) * (*m3 as int),
            SCALE as int,
        ),
{
    proof {
        lemma_mul_bound(v.x as int, *m0 as int, COORD_MAX as int);
        lemma_mul_bound(v.y as int, *m1 as int, COORD_MAX as int);
        lemma_mul_bound(v.z as int, *m2 as int, COORD_MAX as int);
        lemma_mul_bound(v.w as int, *m3 as int, COORD_MAX as int);
    }
    let s: i128 = (v.x as i128) * (*m0 as i128) + (v.y as i128) * (*m1 as i128) + (v.z as i128)
        * (*m2 as i128) + (v.w as i128) * (*m3 as i128);
    proof {
        lemma_tdiv_bound(s as int, SCALE as int, 40_000_000_000_000_000int);
    }
    tdiv_i128(s, SCALE as i128) as i64
}

/// The identity transform in fixed point.
pub fn identity() -> (r: Matrix4x4)
    ensures
        m4(r) == ident_model(),
{
    Matrix4x4 {
        r0: Vec4 { x: SCALE, y: 0, z: 0, w: 0 },
        r1: Vec4 { x: 0, y: SCALE, z: 0, w: 0 },
        r2: Vec4 { x: 0, y: 0, z: SCALE, w: 0 },
        r3: Vec4 { x: 0, y: 0, z: 0, w: SCALE },
    }
}

/// The right-handed rotation about the Z axis, from the fixed-point cosine
/// and sine of the angle.
pub fn rotate_z(c: i64, s: i64) -> (r: Matrix4x4)
    requires
        -SCALE <= c <= SCALE,
        -SCALE <= s <= SCALE,
    ensures
        m4(r) == rot_z_model(c as int, s as int),
{
    Matrix4x4 {
        r0: Vec4 { x: c, y: s, z: 0, w: 0 },
        r1: Vec4 { x: -s, y: c, z: 0, w: 0 },
        r2: Vec4 { x: 0, y: 0, z: SCALE, w: 0 },
        r3: Vec4 { x: 0, y: 0, z: 0, w: SCALE },
    }
}

/// The right-handed rotation about the X axis, from the fixed-point cosine
/// and sine of the angle.
pub fn rotate_x(c: i64, s: i64) -> (r: Matrix4x4)
    requires
        -SCALE <= c <= SCALE,
        -SCALE <= s <= SCALE,
    ensures
        m4(r) == rot_x_model(c as int, s as int),
{
    Matrix4x4 {
        r0: Vec4 { x: SCALE, y: 0, z: 0, w: 0 },
        r1: Vec4 { x: 0, y: c, z: s, w: 0 },
        r2: Vec4 { x: 0, y: -s, z: c, w: 0 },
        r3: Vec4 { x: 0, y: 0, z: 0, w: SCALE },
    }
}

/// The perspective projection matrix: `aspect` times `f` in the top-left,
/// `f` for the vertical axis, the depth factor `q` with the `w`-carrying one,
/// and `-z_near * q` in the last row.
pub fn projection_matrix(aspect: i64, f: i64, q: i64, z_near: i64) -> (r: Matrix4x4)
    requires
        in_range(aspect as int),
        in_range(f as int),
        in_range(q as int),
        in_range(z_near as int),
    ensures
        m4(r) == proj_model(aspect as int, f as int, q as int, z_near as int),
{
    let af = mul_fixed(aspect, f);
    let zq = mul_fixed(z_near, q);
    Matrix4x4 {
        r0: Vec4 { x: af, y: 0, z: 0, w: 0 },
        r1: Vec4 { x: 0, y: f, z: 0, w: 0 },
        r2: Vec4 { x: 0, y: 0, z: q, w: SCALE },
        r3: Vec4 { x: 0, y: 0, z: -zq, w: 0 },
    }
}

/// An ordered triple of vertices; the vertex order defines the outward
/// normal through the cross product of the edge vectors, so winding is
/// significant for culling.
#[derive(Clone, Copy, Debug, PartialEq, Eq, Structural)]
pub struct Triangle(pub Vec3, pub Vec3, pub Vec3);

/// Model of a triangle: the models of its three vertices.
pub type TriModel = (Triple, Triple, Triple);

/// The model of a `Triangle`.
pub open spec fn t3(t: Triangle) -> TriModel {
    (v3(t.0), v3(t.1), v3(t.2))
}

/// All nine vertex components within range.
pub open spec fn tri_in_range(t: TriModel) -> bool {
    in_range3(t.0) && in_range3(t.1) && in_range3(t.2)
}

} // verus!

verus! {

/// The direction of a triangle normal depends only on the relative vertex
/// positions: uniformly scaling the triangle by a positive factor multiplies
/// the exact edge cross product by the square of that factor (keeping every
/// component's sign), and translating the triangle leaves it unchanged.
pub proof fn lemma_normal_direction_invariant(a: Triple, b: Triple, c: Triple, k: int, t: Triple)
    requires
        k > 0,
    ensures
        cross_exact(vsub(escale(b, k), escale(a, k)), vsub(escale(c, k), escale(a, k)))
            == escale(cross_exact(vsub(b, a), vsub(c, a)), k * k),
        cross_exact(vsub(vadd(b, t), vadd(a, t)), vsub(vadd(c, t), vadd(a, t)))
            == cross_exact(vsub(b, a), vsub(c, a)),
{
    let u = vsub(b, a);
    let w = vsub(c, a);
    lemma_scale_distributes(b.0, a.0, k);
    lemma_scale_distributes(b.1, a.1, k);
    lemma_scale_distributes(b.2, a.2, k);
    lemma_scale_distributes(c.0, a.0, k);
    lemma_scale_distributes(c.1, a.1, k);
    lemma_scale_distributes(c.2, a.2, k);
    assert(vsub(escale(b, k), escale(a, k)) == escale(u, k));
    assert(vsub(escale(c, k), escale(a, k)) == escale(w, k));
    lemma_cross_component_scale(u.1, w.2, u.2, w.1, k);
    lemma_cross_component_scale(u.2, w.0, u.0, w.2, k);
    lemma_cross_component_scale(u.0, w.1, u.1, w.0, k);
    assert(vsub(vadd(b, t), vadd(a, t)) == u);
    assert(vsub(vadd(c, t), vadd(a, t)) == w);
}

/// Scaling distributes over the difference of two coordinates.
#[verifier::rlimit(50)]
proof fn lemma_scale_distributes(x: int, y: int, k: int)
    ensures
        x * k - y * k == (x - y) * k,
{
    assert(x * k - y * k == (x - y) * k) by (nonlinear_arith);
}

/// One component of the cross product of two uniformly scaled vectors is the
/// unscaled component times the square of the factor.
#[verifier::rlimit(50)]
proof fn lemma_cross_component_scale(p: int, q: int, r: int, s: int, k: int)
    ensures
        (p * k) * (q * k) - (r * k) * (s * k) == (p * q - r * s) * (k * k),
{
    assert((p * k) * (q * k) - (r * k) * (s * k) == (p * q - r * s) * (k * k))
        by (nonlinear_arith);
}

/// Rotating by an angle of zero, whose cosine is one and whose sine is zero,
/// is the identity transform, about either axis.
pub proof fn lemma_rotation_zero_identity()
    ensures
        rot_z_model(SCALE as int, 0) == ident_model(),
        rot_x_model(SCALE as int, 0) == ident_model(),
{
}

/// The rotation matrices are orthogonal: the transpose of a rotation is the
/// rotation by the opposite angle, and applying a rotation and then its
/// transpose returns the original vector, scaled by the square of the
/// fixed-point unit that exact application introduces, whenever the cosine
/// and sine lie on the fixed-point unit circle.
pub proof fn lemma_rotation_orthogonal(v: Quad, c: int, s: int)
    requires
        c * c + s * s == (SCALE as int) * (SCALE as int),
    ensures
        transpose(rot_z_model(c, s)) == rot_z_model(c, -s),
        transpose(rot_x_model(c, s)) == rot_x_model(c, -s),
        vmat_exact(vmat_exact(v, rot_z_model(c, s)), transpose(rot_z_model(c, s)))
            == escale4(v, (SCALE as int) * (SCALE as int)),
        vmat_exact(vmat_exact(v, rot_x_model(c, s)), transpose(rot_x_model(c, s)))
            == escale4(v, (SCALE as int) * (SCALE as int)),
{
    let ss = (SCALE as int) * (SCALE as int);
    lemma_rotation_pair(v.0, v.1, c, s, ss);
    lemma_rotation_pair(v.1, v.2, c, s, ss);
    lemma_scale_twice(v.0, SCALE as int, ss);
    lemma_scale_twice(v.1, SCALE as int, ss);
    lemma_scale_twice(v.2, SCALE as int, ss);
    lemma_scale_twice(v.3, SCALE as int, ss);
}

/// Rotating a coordinate pair and then applying the transposed rotation
/// returns the pair scaled by `c * c + s * s`.
#[verifier::rlimit(50)]
proof fn lemma_rotation_pair(x: int, y: int, c: int, s: int, ss: int)
    requires
        c * c + s * s == ss,
    ensures
        (x * c + y * (-s)) * c + (x * s + y * c) * s == x * ss,
        (x * c + y * (-s)) * (-s) + (x * s + y * c) * c == y * ss,
{
    assert((x * c + y * (-s)) * c + (x * s + y * c) * s == x * (c * c + s * s))
        by (nonlinear_arith);
    assert((x * c + y * (-s)) * (-s) + (x * s + y * c) * c == y * (c * c + s * s))
        by (nonlinear_arith);
}

/// Scaling a coordinate twice by the fixed-point unit scales it by the
/// unit's square.
#[verifier::rlimit(50)]
proof fn lemma_scale_twice(x: int, u: int, ss: int)
    requires
        u * u == ss,
    ensures
        (x * u) * u == x * ss,
{
    assert((x * u) * u == x * ss) by (nonlinear_arith)
        requires
            u * u == ss,
    ;
}

} // verus!

verus! {

impl Triangle {
    /// Applies a vertex transform to each corner, in order.
    pub fn transform<F: Fn(&Vec3) -> Vec3>(&self, f: F) -> (r: Triangle)
        requires
            call_requires(f, (&self.0,)),
            call_requires(f, (&self.1,)),
            call_requires(f, (&self.2,)),
        ensures
            call_ensures(f, (&self.0,), r.0),
            call_ensures(f, (&self.1,), r.1),
            call_ensures(f, (&self.2,), r.2),
    {
        let a = f(&self.0);
        let b = f(&self.1);
        let c = f(&self.2);
        Triangle(a, b, c)
    }
}

} // verus!
