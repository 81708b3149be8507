use vstd::prelude::*;
use crate::fixed::SCALE;
use crate::geometry::{t3, v3, within3, Triangle, TriModel, Triple, Vec3};

verus! {

/// An ordered sequence of triangles; the order is the insertion order from
/// the source and only fixes the initial iteration order.
pub type Mesh = Vec<Triangle>;

/// The model of a mesh: the models of its triangles, in order.
pub open spec fn mesh_model(s: Seq<Triangle>) -> Seq<TriModel> {
    s.map_values(|t: Triangle| t3(t))
}

/// The twelve triangles of the unit cube, two per face, with a consistent
/// outward winding.
pub open spec fn cube_model() -> Seq<Triangle> {
    let o: i64 = 0;
    let u: i64 = SCALE;
    seq![
        (Triangle(Vec3 { x: o, y: o, z: o }, Vec3 { x: o, y: u, z: o }, Vec3 { x: u, y: u, z: o })),
        (Triangle(Vec3 { x: o, y: o, z: o }, Vec3 { x: u, y: u, z: o }, Vec3 { x: u, y: o, z: o })),
        (Triangle(Vec3 { x: u, y: o, z: o }, Vec3 { x: u, y: u, z: o }, Vec3 { x: u, y: u, z: u })),
        (Triangle(Vec3 { x: u, y: o, z: o }, Vec3 { x: u, y: u, z: u }, Vec3 { x: u, y: o, z: u })),
        (Triangle(Vec3 { x: u, y: o, z: u }, Vec3 { x: u, y: u, z: u }, Vec3 { x: o, y: u, z: u })),
        (Triangle(Vec3 { x: u, y: o, z: u }, Vec3 { x: o, y: u, z: u }, Vec3 { x: o, y: o, z: u })),
        (Triangle(Vec3 { x: o, y: o, z: u }, Vec3 { x: o, y: u, z: u }, Vec3 { x: o, y: u, z: o })),
        (Triangle(Vec3 { x: o, y: o, z: u }, Vec3 { x: o, y: u, z: o }, Vec3 { x: o, y: o, z: o })),
        (Triangle(Vec3 { x: o, y: u, z: o }, Vec3 { x: o, y: u, z: u }, Vec3 { x: u, y: u, z: u })),
        (Triangle(Vec3 { x: o, y: u, z: o }, Vec3 { x: u, y: u, z: u }, Vec3 { x: u, y: u, z: o })),
        (Triangle(Vec3 { x: u, y: o, z: u }, Vec3 { x: o, y: o, z: u }, Vec3 { x: o, y: o, z: o })),
        (Triangle(Vec3 { x: u, y: o, z: u }, Vec3 { x: o, y: o, z: o }, Vec3 { x: u, y: o, z: o })),
    ]
}

/// Builds the fixed twelve-triangle unit cube, six faces of two triangles
/// each, with vertex coordinates zero or one and outward-facing winding.
pub fn cube() -> (r: Mesh)
    ensures
        r@ == cube_model(),
{
    let o: i64 = 0;
    let u: i64 = SCALE;
    let mut m: Mesh = Vec::new();
    m.push(Triangle(Vec3 { x: o, y: o, z: o }, Vec3 { x: o, y: u, z: o }, Vec3 { x: u, y: u, z: o }));
    m.push(Triangle(Vec3 { x: o, y: o, z: o }, Vec3 { x: u, y: u, z: o }, Vec3 { x: u, y: o, z: o }));
    m.push(Triangle(Vec3 { x: u, y: o, z: o }, Vec3 { x: u, y: u, z: o }, Vec3 { x: u, y: u, z: u }));
    m.push(Triangle(Vec3 { x: u, y: o, z: o }, Vec3 { x: u, y: u, z: u }, Vec3 { x: u, y: o, z: u }));
    m.push(Triangle(Vec3 { x: u, y: o, z: u }, Vec3 { x: u, y: u, z: u }, Vec3 { x: o, y: u, z: u }));
    m.push(Triangle(Vec3 { x: u, y: o, z: u }, Vec3 { x: o, y: u, z: u }, Vec3 { x: o, y: o, z: u }));
    m.push(Triangle(Vec3 { x: o, y: o, z: u }, Vec3 { x: o, y: u, z: u }, Vec3 { x: o, y: u, z: o }));
    m.push(Triangle(Vec3 { x: o, y: o, z: u }, Vec3 { x: o, y: u, z: o }, Vec3 { x: o, y: o, z: o }));
    m.push(Triangle(Vec3 { x: o, y: u, z: o }, Vec3 { x: o, y: u, z: u }, Vec3 { x: u, y: u, z: u }));
    m.push(Triangle(Vec3 { x: o, y: u, z: o }, Vec3 { x: u, y: u, z: u }, Vec3 { x: u, y: u, z: o }));
    m.push(Triangle(Vec3 { x: u, y: o, z: u }, Vec3 { x: o, y: o, z: u }, Vec3 { x: o, y: o, z: o }));
    m.push(Triangle(Vec3 { x: u, y: o, z: u }, Vec3 { x: o, y: o, z: o }, Vec3 { x: u, y: o, z: o }));
    proof {
        assert(m@ =~= cube_model());
    }
    m
}

} // verus!

use crate::fixed::MESH_MAX;

verus! {

/// Why a mesh text failed to parse.
#[derive(Clone, Copy, Debug, PartialEq, Eq, Structural)]
pub enum ParseErrorKind {
    /// A vertex or face line has fewer than three tokens after its marker.
    MissingTokens,
    /// A numeric token is not a decimal of the accepted form, or is out of
    /// the representable coordinate range.
    BadNumber,
    /// A face index is zero or exceeds the vertices declared so far.
    BadIndex,
}

/// A mesh parse failure: the one-based line it arose on, and why.
#[derive(Clone, Copy, Debug, PartialEq, Eq, Structural)]
pub struct MeshParseError {
    pub line: usize,
    pub kind: ParseErrorKind,
}

/// The index of the first occurrence of `c`, or the length when absent.
pub open spec fn find_byte(s: Seq<u8>, c: u8) -> int
    decreases s.len(),
{
    if s.len() == 0 {
        0
    } else if s[0] == c {
        0
    } else {
        1 + find_byte(s.drop_first(), c)
    }
}

/// `find_byte` finds the first occurrence.
pub proof fn lemma_find_byte(s: Seq<u8>, c: u8)
    ensures
        0 <= find_byte(s, c) <= s.len(),
        find_byte(s, c) < s.len() ==> s[find_byte(s, c)] == c,
        forall|j: int| 0 <= j < find_byte(s, c) ==> s[j] != c,
    decreases s.len(),
{
    if s.len() > 0 && s[0] != c {
        lemma_find_byte(s.drop_first(), c);
        assert forall|j: int| 0 <= j < find_byte(s, c) implies s[j] != c by {
            if j > 0 {
                assert(s.drop_first()[j - 1] == s[j]);
            }
        }
    }
}

/// The position of the first occurrence determines `find_byte`.
pub proof fn lemma_find_byte_is(s: Seq<u8>, c: u8, i: int)
    requires
        0 <= i <= s.len(),
        forall|j: int| 0 <= j < i ==> s[j] != c,
        i < s.len() ==> s[i] == c,
    ensures
        find_byte(s, c) == i,
    decreases s.len(),
{
    if s.len() > 0 && s[0] != c {
        assert forall|j: int| 0 <= j < i - 1 implies s.drop_first()[j] != c by {
            assert(s.drop_first()[j] == s[j + 1]);
        }
        lemma_find_byte_is(s.drop_first(), c, i - 1);
    }
}

/// The lines of a text: pieces between newlines, the final piece without a
/// trailing newline included, an empty text yielding no lines.
pub open spec fn split_lines(s: Seq<u8>) -> Seq<Seq<u8>>
    decreases s.len(),
{
    if s.len() == 0 {
        Seq::empty()
    } else {
        let i = find_byte(s, 10);
        if i < 0 || i >= s.len() {
            seq![s]
        } else {
            seq![s.take(i)] + split_lines(s.skip(i + 1))
        }
    }
}

/// The space-separated tokens of a line, empty tokens kept, so the result
/// always holds at least one token.
pub open spec fn split_tokens(s: Seq<u8>) -> Seq<Seq<u8>>
    decreases s.len(),
{
    let i = find_byte(s, 32);
    if i < 0 || i >= s.len() {
        seq![s]
    } else {
        seq![s.take(i)] + split_tokens(s.skip(i + 1))
    }
}

/// An ASCII decimal digit.
pub open spec fn is_digit(c: u8) -> bool {
    48 <= c <= 57
}

/// Every byte a decimal digit.
pub open spec fn all_digits(s: Seq<u8>) -> bool {
    forall|i: int| 0 <= i < s.len() ==> is_digit(#[trigger] s[i])
}

/// The value of a digit string, most significant first.
pub open spec fn digits_val(s: Seq<u8>) -> int
    decreases s.len(),
{
    if s.len() == 0 {
        0
    } else {
        digits_val(s.drop_last()) * 10 + (s.last() - 48)
    }
}

/// Powers of ten.
pub open spec fn pow10(k: int) -> int
    decreases k,
{
    if k <= 0 {
        1
    } else {
        10 * pow10(k - 1)
    }
}

/// A digit string's value is below ten to its length.
pub proof fn lemma_digits_val_bound(s: Seq<u8>)
    requires
        all_digits(s),
    ensures
        0 <= digits_val(s) < pow10(s.len() as int),
    decreases s.len(),
{
    if s.len() > 0 {
        assert(all_digits(s.drop_last()));
        lemma_digits_val_bound(s.drop_last());
    }
}

/// The fixed-point weight of a fractional digit string of the given length.
pub open spec fn frac_scale(k: int) -> int {
    if k == 1 {
        1000
    } else if k == 2 {
        100
    } else if k == 3 {
        10
    } else {
        1
    }
}

/// The accepted shape of a vertex coordinate token: an optional minus sign,
/// one to fourteen integer digits, and optionally a point with one to four
/// fractional digits.
pub open spec fn scalar_shape_ok(s: Seq<u8>) -> bool {
    let body = if s.len() > 0 && s[0] == 45 {
        s.drop_first()
    } else {
        s
    };
    let dot = find_byte(body, 46);
    if dot == body.len() {
        1 <= body.len() <= 14 && all_digits(body)
    } else {
        let ip = body.take(dot);
        let fp = body.skip(dot + 1);
        1 <= ip.len() <= 14 && all_digits(ip) && 1 <= fp.len() <= 4 && all_digits(fp)
    }
}

/// The fixed-point value of a coordinate token of accepted shape.
pub open spec fn scalar_val(s: Seq<u8>) -> int {
    let neg = s.len() > 0 && s[0] == 45;
    let body = if neg {
        s.drop_first()
    } else {
        s
    };
    let dot = find_byte(body, 46);
    let ip = if dot == body.len() {
        body
    } else {
        body.take(dot)
    };
    let fval = if dot == body.len() {
        0
    } else {
        digits_val(body.skip(dot + 1)) * frac_scale(body.len() - dot - 1)
    };
    let mag = digits_val(ip) * SCALE + fval;
    if neg {
        -mag
    } else {
        mag
    }
}

/// A coordinate token is accepted when its shape is right and its value is
/// a representable mesh coordinate.
pub open spec fn scalar_ok(s: Seq<u8>) -> bool {
    scalar_shape_ok(s) && -MESH_MAX <= scalar_val(s) <= MESH_MAX
}

/// The accepted shape of a face index token: one to nineteen decimal
/// digits.
pub open spec fn index_shape_ok(s: Seq<u8>) -> bool {
    1 <= s.len() <= 19 && all_digits(s)
}

} // verus!

verus! {

/// Powers of ten are positive and monotone.
proof fn lemma_pow10_mono(a: int, b: int)
    requires
        a <= b,
    ensures
        1 <= pow10(a) <= pow10(b),
    decreases b,
{
    if b <= 0 {
    } else if a < b {
        lemma_pow10_mono(a, b - 1);
    } else if a == b && a > 0 {
        lemma_pow10_mono(a - 1, a - 1);
    }
}

/// Concrete powers of ten used by the digit accumulators.
proof fn lemma_pow10_values()
    ensures
        pow10(3) == 1_000,
        pow10(4) == 10_000,
        pow10(13) == 10_000_000_000_000,
        pow10(14) == 100_000_000_000_000,
        pow10(18) == 1_000_000_000_000_000_000,
        pow10(19) == 10_000_000_000_000_000_000,
{
    reveal_with_fuel(pow10, 21);
}

/// Reads a run of digits of `t`, from `start` to `end`, most significant
/// first.
fn scan_digits(t: &Vec<u8>, start: usize, end: usize, max_len: usize) -> (r: Option<u64>)
    requires
        start <= end <= t@.len(),
        1 <= max_len <= 19,
    ensures
        match r {
            Some(v) => {
                &&& all_digits(t@.subrange(start as int, end as int))
                &&& 1 <= end - start <= max_len
                &&& v as int == digits_val(t@.subrange(start as int, end as int))
            },
            None => !(all_digits(t@.subrange(start as int, end as int)) && 1 <= end - start
                <= max_len),
        },
{
    if end - start < 1 || end - start > max_len {
        return None;
    }
    let mut acc: u64 = 0;
    let mut k: usize = start;
    while k < end
        invariant
            start <= k <= end <= t@.len(),
            end - start <= 19,
            all_digits(t@.subrange(start as int, k as int)),
            acc as int == digits_val(t@.subrange(start as int, k as int)),
            acc < pow10(k - start),
        decreases end - k,
    {
        let c = t[k];
        if c < 48 || c > 57 {
            proof {
                assert(t@.subrange(start as int, end as int)[k - start] == t@[k as int]);
            }
            return None;
        }
        proof {
            lemma_pow10_values();
            lemma_pow10_mono(k - start, 18);
            assert(t@.subrange(start as int, k + 1).drop_last() =~= t@.subrange(
                start as int, k as int));
            assert(t@.subrange(start as int, k + 1).last() == t@[k as int]);
            assert(all_digits(t@.subrange(start as int, k + 1)));
        }
        acc = acc * 10 + ((c - 48) as u64);
        k = k + 1;
        proof {
            lemma_digits_val_bound(t@.subrange(start as int, k as int));
        }
    }
    proof {
        assert(t@.subrange(start as int, end as int) =~= t@.subrange(start as int, k as int));
    }
    Some(acc)
}

/// Parses a face index token: one to nineteen digits, value as declared.
fn parse_index(t: &Vec<u8>) -> (r: Option<u64>)
    ensures
        match r {
            Some(v) => index_shape_ok(t@) && v as int == digits_val(t@),
            None => !index_shape_ok(t@),
        },
{
    let r = scan_digits(t, 0, t.len(), 19);
    proof {
        assert(t@.subrange(0, t@.len() as int) =~= t@);
    }
    r
}

/// Parses a vertex coordinate token into a fixed-point scalar.
fn parse_scalar(t: &Vec<u8>) -> (r: Option<i64>)
    ensures
        match r {
            Some(v) => scalar_ok(t@) && v as int == scalar_val(t@),
            None => !scalar_ok(t@),
        },
{
    let n = t.len();
    let neg = n > 0 && t[0] == 45;
    let start: usize = if neg {
        1
    } else {
        0
    };
    let ghost body = t@.skip(start as int);
    proof {
        if neg {
            assert(body =~= t@.drop_first());
        } else {
            assert(body =~= t@);
        }
    }
    let mut dot: usize = start;
    while dot < n && t[dot] != 46
        invariant
            start <= dot <= n == t@.len(),
            forall|j: int| start <= j < dot ==> t@[j] != 46,
        decreases n - dot,
    {
        dot = dot + 1;
    }
    proof {
        assert forall|j: int| 0 <= j < dot - start implies body[j] != 46 by {
            assert(body[j] == t@[j + start]);
        }
        lemma_find_byte_is(body, 46, dot - start);
    }
    let ip = scan_digits(t, start, dot, 14);
    proof {
        assert(body.take(dot - start) =~= t@.subrange(start as int, dot as int));
        if dot == n {
            assert(body =~= t@.subrange(start as int, dot as int));
        }
    }
    let ipv = match ip {
        Some(v) => v,
        None => {
            return None;
        },
    };
    proof {
        lemma_pow10_values();
        lemma_digits_val_bound(t@.subrange(start as int, dot as int));
        lemma_pow10_mono(dot - start, 14);
    }
    let mag: u64;
    if dot == n {
        mag = ipv * 10_000;
    } else {
        let fp = scan_digits(t, dot + 1, n, 4);
        proof {
            assert(body.skip(dot - start + 1) =~= t@.subrange(dot + 1, n as int));
        }
        let fpv = match fp {
            Some(v) => v,
            None => {
                return None;
            },
        };
        let flen = n - dot - 1;
        let fs: u64 = if flen == 1 {
            1_000
        } else if flen == 2 {
            100
        } else if flen == 3 {
            10
        } else {
            1
        };
        proof {
            lemma_pow10_values();
            lemma_digits_val_bound(t@.subrange(start as int, dot as int));
            lemma_pow10_mono(dot - start, 14);
            lemma_digits_val_bound(t@.subrange(dot + 1, n as int));
            lemma_pow10_mono(n - dot - 1, 4);
        }
        mag = ipv * 10_000 + fpv * fs;
    }
    proof {
        lemma_pow10_values();
        lemma_digits_val_bound(t@.subrange(start as int, dot as int));
        lemma_pow10_mono(dot - start, 14);
    }
    if mag > 100_000_000 {
        return None;
    }
    if neg {
        Some(-(mag as i64))
    } else {
        Some(mag as i64)
    }
}

} // verus!

verus! {

/// The models of a vertex list.
pub open spec fn vmodels(s: Seq<Vec3>) -> Seq<Triple> {
    s.map_values(|v: Vec3| v3(v))
}

/// Every listed vertex within the given magnitude.
pub open spec fn verts_within(s: Seq<Vec3>, b: int) -> bool {
    forall|i: int| #![trigger s[i]] 0 <= i < s.len() ==> within3(v3(s[i]), b)
}

/// Every vertex of every listed triangle within the given magnitude.
pub open spec fn tris_within(s: Seq<Triangle>, b: int) -> bool {
    forall|i: int|
        #![trigger s[i]]
        0 <= i < s.len() ==> within3(v3(s[i].0), b) && within3(v3(s[i].1), b) && within3(
            v3(s[i].2), b)
}

/// What one line contributes to the mesh.
pub enum LineAction {
    /// A vertex declaration, appended to the vertex list.
    Vertex(Triple),
    /// A face declaration, appended to the triangle list.
    Face(TriModel),
    /// Any other line is ignored.
    Ignore,
}

/// Splits a line into its space-separated tokens, empty tokens kept.
fn split_on_spaces(line: &Vec<u8>) -> (r: Vec<Vec<u8>>)
    ensures
        r@.map_values(|t: Vec<u8>| t@) == split_tokens(line@),
        r@.len() >= 1,
{
    let mut out: Vec<Vec<u8>> = Vec::new();
    let mut cur: Vec<u8> = Vec::new();
    let mut i: usize = 0;
    proof {
        assert(out@.map_values(|t: Vec<u8>| t@) =~= Seq::<Seq<u8>>::empty());
        assert(cur@ + line@.skip(0) =~= line@);
        assert(Seq::<Seq<u8>>::empty() + split_tokens(line@) =~= split_tokens(line@));
    }
    while i < line.len()
        invariant
            i <= line.len(),
            forall|j: int| 0 <= j < cur@.len() ==> cur@[j] != 32,
            split_tokens(line@) == out@.map_values(|t: Vec<u8>| t@) + split_tokens(
                cur@ + line@.skip(i as int)),
        decreases line.len() - i,
    {
        let c = line[i];
        let ghost comb = cur@ + line@.skip(i as int);
        if c == 32 {
            proof {
                assert forall|j: int| 0 <= j < cur@.len() implies comb[j] != 32 by {
                    assert(comb[j] == cur@[j]);
                }
                assert(comb[cur@.len() as int] == line@[i as int]);
                lemma_find_byte_is(comb, 32, cur@.len() as int);
                assert(comb.take(cur@.len() as int) =~= cur@);
                assert(comb.skip(cur@.len() as int + 1) =~= Seq::<u8>::empty() + line@.skip(
                    i as int + 1));
                assert(out@.push(cur).map_values(|t: Vec<u8>| t@) =~= out@.map_values(
                    |t: Vec<u8>| t@).push(cur@));
                assert(out@.map_values(|t: Vec<u8>| t@).push(cur@) + split_tokens(
                    Seq::<u8>::empty() + line@.skip(i as int + 1)) =~= out@.map_values(
                    |t: Vec<u8>| t@) + (seq![cur@] + split_tokens(
                    Seq::<u8>::empty() + line@.skip(i as int + 1))));
            }
            out.push(cur);
            cur = Vec::new();
        } else {
            proof {
                assert(cur@.push(c) + line@.skip(i as int + 1) =~= comb);
            }
            cur.push(c);
        }
        i = i + 1;
    }
    proof {
        assert(cur@ + line@.skip(i as int) =~= cur@);
        lemma_find_byte_is(cur@, 32, cur@.len() as int);
        assert(out@.push(cur).map_values(|t: Vec<u8>| t@) =~= out@.map_values(
            |t: Vec<u8>| t@).push(cur@));
        assert(out@.map_values(|t: Vec<u8>| t@).push(cur@) =~= out@.map_values(|t: Vec<u8>| t@)
            + seq![cur@]);
    }
    out.push(cur);
    out
}

/// What one line means, given the vertices declared so far: a `v` line with
/// three coordinates declares a vertex, an `f` line with three one-based
/// in-range indices declares a triangle, and any other line is ignored.
pub open spec fn line_step(line: Seq<u8>, verts: Seq<Triple>) -> Result<
    LineAction,
    ParseErrorKind,
> {
    let toks = split_tokens(line);
    if toks[0] == seq![118u8] {
        if toks.len() < 4 {
            Err(ParseErrorKind::MissingTokens)
        } else if !scalar_ok(toks[1]) || !scalar_ok(toks[2]) || !scalar_ok(toks[3]) {
            Err(ParseErrorKind::BadNumber)
        } else {
            Ok(LineAction::Vertex((scalar_val(toks[1]), scalar_val(toks[2]), scalar_val(toks[3]))))
        }
    } else if toks[0] == seq![102u8] {
        if toks.len() < 4 {
            Err(ParseErrorKind::MissingTokens)
        } else if !index_shape_ok(toks[1]) || !index_shape_ok(toks[2]) || !index_shape_ok(
            toks[3],
        ) {
            Err(ParseErrorKind::BadNumber)
        } else {
            let a = digits_val(toks[1]);
            let b = digits_val(toks[2]);
            let c = digits_val(toks[3]);
            if a < 1 || a > verts.len() || b < 1 || b > verts.len() || c < 1 || c
                > verts.len() {
                Err(ParseErrorKind::BadIndex)
            } else {
                Ok(LineAction::Face((verts[a - 1], verts[b - 1], verts[c - 1])))
            }
        }
    } else {
        Ok(LineAction::Ignore)
    }
}

/// Folds the remaining lines over the accumulated vertices and triangles,
/// numbering lines from `ln` for error reports.
pub open spec fn parse_lines(
    lines: Seq<Seq<u8>>,
    ln: int,
    verts: Seq<Triple>,
    tris: Seq<TriModel>,
) -> Result<Seq<TriModel>, MeshParseError>
    decreases lines.len(),
{
    if lines.len() == 0 {
        Ok(tris)
    } else {
        match line_step(lines[0], verts) {
            Ok(LineAction::Vertex(v)) => parse_lines(
                lines.drop_first(),
                ln + 1,
                verts.push(v),
                tris,
            ),
            Ok(LineAction::Face(t)) => parse_lines(
                lines.drop_first(),
                ln + 1,
                verts,
                tris.push(t),
            ),
            Ok(LineAction::Ignore) => parse_lines(lines.drop_first(), ln + 1, verts, tris),
            Err(k) => Err(MeshParseError { line: ln as usize, kind: k }),
        }
    }
}

/// The meaning of a whole mesh text: its lines folded from an empty mesh,
/// lines numbered from one.
pub open spec fn parse_mesh_model(text: Seq<u8>) -> Result<Seq<TriModel>, MeshParseError> {
    parse_lines(split_lines(text), 1, Seq::empty(), Seq::empty())
}

/// Applies one line to the growing mesh, exactly per `line_step`.
fn apply_line(line: &Vec<u8>, verts: &mut Vec<Vec3>, tris: &mut Vec<Triangle>) -> (r: Result<
    (),
    ParseErrorKind,
>)
    requires
        verts_within(old(verts)@, MESH_MAX as int),
        tris_within(old(tris)@, MESH_MAX as int),
    ensures
        verts_within(final(verts)@, MESH_MAX as int),
        tris_within(final(tris)@, MESH_MAX as int),
        match line_step(line@, vmodels(old(verts)@)) {
            Ok(a) => r is Ok && (match a {
                LineAction::Vertex(v) => vmodels(final(verts)@) == vmodels(old(verts)@).push(v)
                    && final(tris)@ == old(tris)@,
                LineAction::Face(t) => final(verts)@ == old(verts)@ && mesh_model(final(tris)@)
                    == mesh_model(old(tris)@).push(t),
                LineAction::Ignore => final(verts)@ == old(verts)@ && final(tris)@ == old(tris)@,
            }),
            Err(k) => r == Err::<(), ParseErrorKind>(k) && final(verts)@ == old(verts)@
                && final(tris)@ == old(tris)@,
        },
{
    let tokens = split_on_spaces(line);
    let ghost toks = split_tokens(line@);
    proof {
        assert(toks[0] == tokens@.map_values(|t: Vec<u8>| t@)[0]);
    }
    let t0 = &tokens[0];
    let is_v = t0.len() == 1 && t0[0] == 118;
    let is_f = !is_v && t0.len() == 1 && t0[0] == 102;
    proof {
        if is_v {
            assert(tokens@[0]@ =~= seq![118u8]);
        } else {
            if toks[0] == seq![118u8] {
                assert(tokens@[0]@.len() == 1 && tokens@[0]@[0] == 118);
                assert(false);
            }
        }
        if is_f {
            assert(tokens@[0]@ =~= seq![102u8]);
        } else if !is_v {
            if toks[0] == seq![102u8] {
                assert(tokens@[0]@.len() == 1 && tokens@[0]@[0] == 102);
                assert(false);
            }
        }
    }
    if is_v {
        if tokens.len() < 4 {
            return Err(ParseErrorKind::MissingTokens);
        }
        let a = parse_scalar(&tokens[1]);
        let b = parse_scalar(&tokens[2]);
        let c = parse_scalar(&tokens[3]);
        proof {
            assert(toks[1] == tokens@.map_values(|t: Vec<u8>| t@)[1]);
            assert(toks[2] == tokens@.map_values(|t: Vec<u8>| t@)[2]);
            assert(toks[3] == tokens@.map_values(|t: Vec<u8>| t@)[3]);
        }
        match (a, b, c) {
            (Some(x), Some(y), Some(z)) => {
                let ghost pre = verts@;
                verts.push(Vec3 { x, y, z });
                proof {
                    assert(vmodels(verts@) =~= vmodels(pre).push(
                        (x as int, y as int, z as int)));
                }
                Ok(())
            },
            _ => Err(ParseErrorKind::BadNumber),
        }
    } else if is_f {
        if tokens.len() < 4 {
            return Err(ParseErrorKind::MissingTokens);
        }
        let a = parse_index(&tokens[1]);
        let b = parse_index(&tokens[2]);
        let c = parse_index(&tokens[3]);
        proof {
            assert(toks[1] == tokens@.map_values(|t: Vec<u8>| t@)[1]);
            assert(toks[2] == tokens@.map_values(|t: Vec<u8>| t@)[2]);
            assert(toks[3] == tokens@.map_values(|t: Vec<u8>| t@)[3]);
        }
        match (a, b, c) {
            (Some(ai), Some(bi), Some(ci)) => {
                let n = verts.len() as u64;
                if ai == 0 || ai > n || bi == 0 || bi > n || ci == 0 || ci > n {
                    return Err(ParseErrorKind::BadIndex);
                }
                let ghost pre = tris@;
                let tri = Triangle(
                    verts[(ai - 1) as usize],
                    verts[(bi - 1) as usize],
                    verts[(ci - 1) as usize],
                );
                tris.push(tri);
                proof {
                    assert(mesh_model(tris@) =~= mesh_model(pre).push(t3(tri)));
                    assert(v3(verts@[ai as int - 1]) == vmodels(verts@)[ai as int - 1]);
                    assert(v3(verts@[bi as int - 1]) == vmodels(verts@)[bi as int - 1]);
                    assert(v3(verts@[ci as int - 1]) == vmodels(verts@)[ci as int - 1]);
                }
                Ok(())
            },
            _ => Err(ParseErrorKind::BadNumber),
        }
    } else {
        Ok(())
    }
}

/// Parses a line-oriented mesh text: `v` lines declare vertices, `f` lines
/// declare triangles by one-based vertex index, and other lines are
/// ignored. Returns the mesh in face-declaration order, or the first error
/// with its one-based line number, exactly per `parse_mesh_model`.
pub fn parse_mesh(text: &Vec<u8>) -> (r: Result<Mesh, MeshParseError>)
    requires
        text@.len() < usize::MAX,
    ensures
        match r {
            Ok(m) => parse_mesh_model(text@) == Ok::<Seq<TriModel>, MeshParseError>(
                mesh_model(m@),
            ) && tris_within(m@, MESH_MAX as int),
            Err(e) => parse_mesh_model(text@) == Err::<Seq<TriModel>, MeshParseError>(e),
        },
{
    let mut verts: Vec<Vec3> = Vec::new();
    let mut tris: Vec<Triangle> = Vec::new();
    let mut pos: usize = 0;
    let mut ln: usize = 1;
    proof {
        assert(text@.skip(0) =~= text@);
        assert(vmodels(verts@) =~= Seq::<Triple>::empty());
        assert(mesh_model(tris@) =~= Seq::<TriModel>::empty());
    }
    while pos < text.len()
        invariant
            pos <= text@.len() < usize::MAX,
            ln <= pos + 1,
            verts_within(verts@, MESH_MAX as int),
            tris_within(tris@, MESH_MAX as int),
            parse_mesh_model(text@) == parse_lines(
                split_lines(text@.skip(pos as int)),
                ln as int,
                vmodels(verts@),
                mesh_model(tris@),
            ),
        decreases text@.len() - pos,
    {
        let mut end: usize = pos;
        while end < text.len() && text[end] != 10
            invariant
                pos <= end <= text@.len(),
                forall|j: int| pos <= j < end ==> text@[j] != 10,
            decreases text@.len() - end,
        {
            end = end + 1;
        }
        let ghost rem = text@.skip(pos as int);
        proof {
            assert forall|j: int| 0 <= j < end - pos implies rem[j] != 10 by {
                assert(rem[j] == text@[j + pos]);
            }
            lemma_find_byte_is(rem, 10, end - pos);
        }
        let mut line: Vec<u8> = Vec::new();
        let mut k: usize = pos;
        while k < end
            invariant
                pos <= k <= end <= text@.len(),
                line@ == text@.subrange(pos as int, k as int),
            decreases end - k,
        {
            let ghost lpre = line@;
            line.push(text[k]);
            proof {
                assert(lpre.push(text@[k as int]) =~= text@.subrange(pos as int, k + 1));
            }
            k = k + 1;
        }
        proof {
            if end < text@.len() {
                assert(rem.take(end - pos) =~= line@);
                assert(rem.skip(end - pos + 1) =~= text@.skip(end + 1));
                assert(split_lines(rem) == seq![line@] + split_lines(text@.skip(end + 1)));
                assert((seq![line@] + split_lines(text@.skip(end + 1)))[0] == line@);
                assert((seq![line@] + split_lines(text@.skip(end + 1))).drop_first()
                    =~= split_lines(text@.skip(end + 1)));
            } else {
                assert(rem =~= line@);
                assert(find_byte(rem, 10) == rem.len());
                assert(split_lines(rem) == seq![line@]);
                assert((seq![line@])[0] == line@);
                assert((seq![line@]).drop_first() =~= split_lines(text@.skip(text@.len() as int)));
                assert(text@.skip(text@.len() as int) =~= Seq::<u8>::empty());
            }
        }
        let step = apply_line(&line, &mut verts, &mut tris);
        if let Err(k) = step {
            return Err(MeshParseError { line: ln, kind: k });
        }
        if end < text.len() {
            pos = end + 1;
        } else {
            pos = end;
        }
        ln = ln + 1;
    }
    proof {
        assert(text@.skip(pos as int) =~= Seq::<u8>::empty());
    }
    Ok(tris)
}

} // verus!

verus! {

/// The decimal digits of a nonnegative integer, most significant first.
pub open spec fn dec_digits(n: int) -> Seq<u8>
    decreases n,
{
    if n < 10 {
        seq![(48 + n) as u8]
    } else {
        dec_digits(n / 10).push((48 + n % 10) as u8)
    }
}

/// The text of one fixed-point scalar: an optional minus sign, the integer
/// digits, a point, and exactly four fractional digits.
pub open spec fn ser_scalar(v: int) -> Seq<u8> {
    let m = if v < 0 {
        -v
    } else {
        v
    };
    let sign: Seq<u8> = if v < 0 {
        seq![45u8]
    } else {
        Seq::empty()
    };
    sign + dec_digits(m / (SCALE as int)) + seq![46u8] + dec_digits_frac(m % (SCALE as int))
}

/// Exactly four fractional digits.
pub open spec fn dec_digits_frac(f: int) -> Seq<u8> {
    seq![
        (48 + f / 1000 % 10) as u8,
        (48 + f / 100 % 10) as u8,
        (48 + f / 10 % 10) as u8,
        (48 + f % 10) as u8,
    ]
}

/// The text of one vertex line.
pub open spec fn ser_vertex(p: Triple) -> Seq<u8> {
    seq![118u8, 32u8] + ser_scalar(p.0) + seq![32u8] + ser_scalar(p.1) + seq![32u8] + ser_scalar(
        p.2,
    ) + seq![10u8]
}

/// The text of one face line referencing the three vertices declared just
/// before it, one-based.
pub open spec fn ser_face(base: int) -> Seq<u8> {
    seq![102u8, 32u8] + dec_digits(base + 1) + seq![32u8] + dec_digits(base + 2) + seq![32u8]
        + dec_digits(base + 3) + seq![10u8]
}

/// The text of a whole mesh: for each triangle, its three vertex lines and
/// one face line; vertices are not deduplicated.
pub open spec fn ser_mesh(s: Seq<TriModel>) -> Seq<u8>
    decreases s.len(),
{
    if s.len() == 0 {
        Seq::empty()
    } else {
        let t = s.last();
        ser_mesh(s.drop_last()) + ser_vertex(t.0) + ser_vertex(t.1) + ser_vertex(t.2) + ser_face(
            3 * (s.len() - 1),
        )
    }
}

/// Appends the decimal digits of `n`.
fn write_u64(out: &mut Vec<u8>, n: u64)
    ensures
        final(out)@ == old(out)@ + dec_digits(n as int),
    decreases n,
{
    if n < 10 {
        out.push(48 + (n as u8));
        proof {
            assert(out@ =~= old(out)@ + dec_digits(n as int));
        }
    } else {
        write_u64(out, n / 10);
        out.push(48 + ((n % 10) as u8));
        proof {
            assert(out@ =~= old(out)@ + dec_digits(n as int));
        }
    }
}

/// Appends one fixed-point scalar as decimal text.
fn write_scalar(out: &mut Vec<u8>, v: i64)
    requires
        -MESH_MAX <= v <= MESH_MAX,
    ensures
        final(out)@ == old(out)@ + ser_scalar(v as int),
{
    if v < 0 {
        out.push(45);
    }
    let m: u64 = if v < 0 {
        (-v) as u64
    } else {
        v as u64
    };
    write_u64(out, m / 10_000);
    out.push(46);
    let f = m % 10_000;
    out.push(48 + ((f / 1000 % 10) as u8));
    out.push(48 + ((f / 100 % 10) as u8));
    out.push(48 + ((f / 10 % 10) as u8));
    out.push(48 + ((f % 10) as u8));
    proof {
        assert(out@ =~= old(out)@ + ser_scalar(v as int));
    }
}

/// Appends one vertex line.
fn write_vertex(out: &mut Vec<u8>, p: &Vec3)
    requires
        within3(v3(*p), MESH_MAX as int),
    ensures
        final(out)@ == old(out)@ + ser_vertex(v3(*p)),
{
    out.push(118);
    out.push(32);
    write_scalar(out, p.x);
    out.push(32);
    write_scalar(out, p.y);
    out.push(32);
    write_scalar(out, p.z);
    out.push(10);
    proof {
        assert(out@ =~= old(out)@ + ser_vertex(v3(*p)));
    }
}

/// Renders a mesh to the vertex-and-face text format, exactly per
/// `ser_mesh`: three fresh vertices then one face per triangle.
/// Appends one face line for the triangle whose vertices were just
/// written.
fn write_face(out: &mut Vec<u8>, base: u64)
    requires
        base <= 3_000_000,
    ensures
        final(out)@ == old(out)@ + ser_face(base as int),
{
    out.push(102);
    out.push(32);
    write_u64(out, base + 1);
    out.push(32);
    write_u64(out, base + 2);
    out.push(32);
    write_u64(out, base + 3);
    out.push(10);
    proof {
        assert(out@ =~= old(out)@ + ser_face(base as int));
    }
}

pub fn serialize_mesh(mesh: &Mesh) -> (r: Vec<u8>)
    requires
        tris_within(mesh@, MESH_MAX as int),
        mesh@.len() <= 1_000_000,
    ensures
        r@ == ser_mesh(mesh_model(mesh@)),
{
    let mut out: Vec<u8> = Vec::new();
    let mut i: usize = 0;
    proof {
        assert(mesh_model(mesh@).take(0) =~= Seq::<TriModel>::empty());
        assert(out@ =~= ser_mesh(mesh_model(mesh@).take(0)));
    }
    while i < mesh.len()
        invariant
            i <= mesh@.len() <= 1_000_000,
            tris_within(mesh@, MESH_MAX as int),
            out@ == ser_mesh(mesh_model(mesh@).take(i as int)),
        decreases mesh@.len() - i,
    {
        let ghost pre = out@;
        let t = &mesh[i];
        write_vertex(&mut out, &t.0);
        write_vertex(&mut out, &t.1);
        write_vertex(&mut out, &t.2);
        write_face(&mut out, 3 * (i as u64));
        proof {
            let mm = mesh_model(mesh@);
            assert(mm.take(i + 1).drop_last() =~= mm.take(i as int));
            assert(mm.take(i + 1).last() == t3(mesh@[i as int]));
            assert(out@ =~= ser_mesh(mm.take(i + 1)));
        }
        i = i + 1;
    }
    proof {
        assert(mesh_model(mesh@).take(mesh@.len() as int) =~= mesh_model(mesh@));
    }
    out
}

} // verus!
