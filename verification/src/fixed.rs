use vstd::prelude::*;
use vstd::arithmetic::div_mod::{
    lemma_div_by_multiple, lemma_div_is_ordered, lemma_div_nonincreasing, lemma_div_pos_is_pos,
};

verus! {

/// Number of fixed-point units in 1.0: every scalar of this crate is an `i64`
/// counting ten-thousandths, so 2.5 is stored as 25000.
pub const SCALE: i64 = 10_000;

/// Largest magnitude, in fixed-point units, that the arithmetic helpers accept
/// for their operands (one million whole units).
pub const COORD_MAX: i64 = 10_000_000_000;

/// Largest magnitude the norm helpers accept for a component; admits the
/// unnormalized face normals that the cross product of two in-range vectors
/// can produce.
pub const NORM_MAX: i64 = 10_000_000_000_000_000;

/// Largest magnitude, in fixed-point units, of a mesh vertex coordinate
/// (ten thousand whole units); keeps every frame-pipeline intermediate
/// within `COORD_MAX`.
pub const MESH_MAX: i64 = 100_000_000;

/// Truncating (round-toward-zero) quotient, the rounding used by Rust's `/`
/// on signed integers and by every fixed-point operation of this crate.
/// Unspecified when `d == 0`.
pub open spec fn tdiv(n: int, d: int) -> int {
    let q = (if n < 0 { -n } else { n }) / (if d < 0 { -d } else { d });
    if (n < 0) != (d < 0) {
        -q
    } else {
        q
    }
}

/// Product of two fixed-point scalars, rescaled back to fixed point.
pub open spec fn smul(a: int, b: int) -> int {
    tdiv(a * b, SCALE as int)
}

/// A scalar the arithmetic helpers accept.
pub open spec fn in_range(x: int) -> bool {
    -COORD_MAX <= x <= COORD_MAX
}

/// Truncating toward zero never enlarges the magnitude of the quotient:
/// `|n| <= b * d` gives `|tdiv(n, d)| <= b`.
pub proof fn lemma_tdiv_bound(n: int, d: int, b: int)
    requires
        d > 0,
        b >= 0,
        -(b * d) <= n <= b * d,
    ensures
        -b <= tdiv(n, d) <= b,
{
    if n >= 0 {
        lemma_div_pos_is_pos(n, d);
        lemma_div_is_ordered(n, b * d, d);
        lemma_div_by_multiple(b, d);
    } else {
        lemma_div_pos_is_pos(-n, d);
        lemma_div_is_ordered(-n, b * d, d);
        lemma_div_by_multiple(b, d);
    }
}

/// Truncating division of an `i128`, exact per `tdiv`.
pub fn tdiv_i128(n: i128, d: i128) -> (q: i128)
    requires
        d > 0,
        n > i128::MIN,
    ensures
        q == tdiv(n as int, d as int),
{
    proof {
        if n >= 0 {
            lemma_div_pos_is_pos(n as int, d as int);
            lemma_div_nonincreasing(n as int, d as int);
        } else {
            lemma_div_pos_is_pos(-(n as int), d as int);
            lemma_div_nonincreasing(-(n as int), d as int);
        }
    }
    n / d
}


/// Truncating division of an `i128` by a nonzero divisor of either sign,
/// exact per `tdiv`.
pub fn tdiv_i128_signed(n: i128, d: i128) -> (q: i128)
    requires
        d != 0,
        n > i128::MIN,
        d > i128::MIN,
    ensures
        q == tdiv(n as int, d as int),
{
    let nn: i128 = if n < 0 { -n } else { n };
    let dd: i128 = if d < 0 { -d } else { d };
    let q = tdiv_i128(nn, dd);
    if (n < 0) != (d < 0) { -q } else { q }
}

/// The nearest `i64` value: saturates at the ends of the `i64` range.
pub open spec fn clamp_i64(v: int) -> int {
    if v < i64::MIN { i64::MIN as int } else if v > i64::MAX { i64::MAX as int } else { v }
}

/// Saturating narrowing of an `i128` to the `i64` range, exact per `clamp_i64`.
pub fn clamp_to_i64(v: i128) -> (r: i64)
    ensures
        r as int == clamp_i64(v as int),
{
    if v < i64::MIN as i128 {
        i64::MIN
    } else if v > i64::MAX as i128 {
        i64::MAX
    } else {
        v as i64
    }
}

/// A product of two factors bounded separately is bounded by the product of
/// the bounds.
pub proof fn lemma_mul_bound2(a: int, b: int, ma: int, mb: int)
    requires
        -ma <= a <= ma,
        -mb <= b <= mb,
        0 <= ma,
        0 <= mb,
    ensures
        -(ma * mb) <= a * b <= ma * mb,
{
    assert(-(ma * mb) <= a * b <= ma * mb) by (nonlinear_arith)
        requires
            -ma <= a <= ma,
            -mb <= b <= mb,
            0 <= ma,
            0 <= mb,
    ;
}

/// A product of two bounded factors is bounded by the product of the bounds.
pub proof fn lemma_mul_bound(a: int, b: int, m: int)
    requires
        -m <= a <= m,
        -m <= b <= m,
        0 <= m,
    ensures
        -(m * m) <= a * b <= m * m,
{
    assert(-(m * m) <= a * b <= m * m) by (nonlinear_arith)
        requires
            -m <= a <= m,
            -m <= b <= m,
            0 <= m,
    ;
}

/// `r` is the integer square root of `n`, rounded down.
pub open spec fn is_sqrt_floor(n: int, r: int) -> bool {
    0 <= r && r * r <= n && n < (r + 1) * (r + 1)
}

proof fn lemma_sqrt_exists(n: nat)
    ensures
        exists|r: int| #[trigger] is_sqrt_floor(n as int, r),
    decreases n,
{
    if n == 0 {
        assert(is_sqrt_floor(0, 0));
    } else {
        lemma_sqrt_exists((n - 1) as nat);
        let r = choose|r: int| #[trigger] is_sqrt_floor(n - 1, r);
        if (r + 1) * (r + 1) <= n {
            assert(is_sqrt_floor(n as int, r + 1)) by (nonlinear_arith)
                requires
                    is_sqrt_floor(n - 1, r),
                    (r + 1) * (r + 1) <= n,
            ;
        } else {
            assert(is_sqrt_floor(n as int, r));
        }
    }
}

/// The integer square root, rounded down; unspecified for negative `n`.
pub closed spec fn sqrt_floor(n: int) -> int {
    choose|r: int| #[trigger] is_sqrt_floor(n, r)
}

/// `sqrt_floor` meets its defining property.
pub proof fn lemma_sqrt_floor(n: int)
    requires
        n >= 0,
    ensures
        is_sqrt_floor(n, sqrt_floor(n)),
{
    lemma_sqrt_exists(n as nat);
}

/// The integer square root is the only value with its defining property.
pub proof fn lemma_sqrt_unique(n: int, r: int)
    requires
        is_sqrt_floor(n, r),
    ensures
        r == sqrt_floor(n),
{
    assert(n >= 0) by (nonlinear_arith)
        requires
            is_sqrt_floor(n, r),
    ;
    lemma_sqrt_floor(n);
    let s = sqrt_floor(n);
    assert(r == s) by (nonlinear_arith)
        requires
            is_sqrt_floor(n, r),
            is_sqrt_floor(n, s),
    ;
}

/// Integer square root by bisection, exact per `sqrt_floor`.
pub fn isqrt_u128(n: u128) -> (r: u128)
    requires
        n < u128::MAX,
    ensures
        r as int == sqrt_floor(n as int),
        is_sqrt_floor(n as int, r as int),
{
    let ghost two64: int = 0x1_0000_0000_0000_0000;
    let mut lo: u128 = 0;
    let mut hi: u128 = if n >= 0xffff_ffff_ffff_ffff {
        0x1_0000_0000_0000_0000u128
    } else {
        n + 1
    };
    proof {
        assert(two64 * two64 == 0x1_0000_0000_0000_0000_0000_0000_0000_0000int) by (nonlinear_arith)
            requires
                two64 == 0x1_0000_0000_0000_0000int,
        ;
        if n >= 0xffff_ffff_ffff_ffff {
            assert(n < (hi as int) * (hi as int));
        } else {
            assert((hi as int) * (hi as int) > n) by (nonlinear_arith)
                requires
                    hi == n + 1,
                    n >= 0,
            ;
        }
    }
    while lo + 1 < hi
        invariant
            0 <= lo < hi,
            hi <= 0x1_0000_0000_0000_0000u128,
            (lo as int) * (lo as int) <= n,
            n < (hi as int) * (hi as int),
        decreases hi - lo,
    {
        let mid: u128 = lo + (hi - lo) / 2;
        proof {
            assert((mid as int) * (mid as int) < u128::MAX) by (nonlinear_arith)
                requires
                    0 <= mid < 0x1_0000_0000_0000_0000u128,
            ;
        }
        if mid * mid <= n {
            lo = mid;
        } else {
            hi = mid;
        }
    }
    proof {
        lemma_sqrt_unique(n as int, lo as int);
    }
    lo
}

/// Fixed-point multiplication: `a * b` rescaled, exact per `smul`.
pub fn mul_fixed(a: i64, b: i64) -> (r: i64)
    requires
        in_range(a as int),
        in_range(b as int),
    ensures
        r == smul(a as int, b as int),
        -(COORD_MAX as int) * COORD_MAX <= (a as int) * b <= (COORD_MAX as int) * COORD_MAX,
{
    proof {
        assert((-(COORD_MAX as int) * COORD_MAX) <= (a as int) * b <= (COORD_MAX as int) * COORD_MAX)
            by (nonlinear_arith)
            requires
                in_range(a as int),
                in_range(b as int),
        ;
        lemma_tdiv_bound((a as int) * b, SCALE as int, 10_000_000_000_000_000int);
    }
    let p: i128 = (a as i128) * (b as i128);
    let q: i128 = tdiv_i128(p, SCALE as i128);
    q as i64
}

} // verus!
