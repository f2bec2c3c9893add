use vstd::prelude::*;

use crate::curve::{curvature_value, Curvature};
use crate::divider::{boundary, lemma_boundaries, lemma_floor_ceil, segment_count, segments, Divider};
use crate::law::{frac_add, frac_mul, lerp, linear_curvature, same_value, Ratio};

verus! {

/// The numerator of the heading change over the `i`-th unit segment of a
/// linear-law curve of length `len`, over the denominator `heading_den`:
/// the curvature at the segment's middle times the segment's length.
pub open spec fn delta_num(k0: Curvature, k1: Curvature, len: int, i: int) -> int {
    let a = boundary(0, len, i);
    let b = boundary(0, len, i + 1);
    lerp(curvature_value(k0), curvature_value(k1), (a + b, 2 * len)).0 * (b - a)
}

/// The common denominator of all headings of a linear-law curve.
pub open spec fn heading_den(k0: Curvature, k1: Curvature, len: int) -> int {
    lerp(curvature_value(k0), curvature_value(k1), (0, 2 * len)).1
}

/// The numerator of the heading, relative to the start, at the `i`-th
/// segment boundary: the heading changes of the segments before it, summed.
pub open spec fn heading_num(k0: Curvature, k1: Curvature, len: int, i: int) -> int
    decreases i,
{
    if i <= 0 {
        0
    } else {
        heading_num(k0, k1, len, i - 1) + delta_num(k0, k1, len, i - 1)
    }
}

/// The headings at the segment boundaries of a linear-law curve from
/// curvature `k0` to `k1` over `len` millimetres, relative to the heading at
/// its start, in radians. The curve is cut into unit segments and each turns
/// by the curvature at its middle times its length.
pub fn linear_headings(k0: Curvature, k1: Curvature, len: u32) -> (r: Vec<Ratio>)
    requires
        k0.wf(),
        k1.wf(),
        len > 0,
    ensures
        r@.len() == segment_count(0, len as int) + 1,
        forall|i: int|
            0 <= i < r@.len() ==> #[trigger] r@[i]@ == (
                heading_num(k0, k1, len as int, i),
                heading_den(k0, k1, len as int),
            ),
{
    let ghost l = len as int;
    proof {
        lemma_boundaries(0, l);
        lemma_floor_ceil(0, l);
    }
    let ghost n = segment_count(0, l);
    assert(n <= 0x42_0000);
    let mut d = match Divider::new(0, len) {
        Ok(d) => d,
        // Never taken: a stretch from 0 cannot end before it starts.
        Err(_) => {
            return Vec::new();
        },
    };
    let first = linear_curvature(k0, k1, 0, 2 * len as u64);
    let den = first.den;
    let mut acc: i128 = 0;
    let mut r: Vec<Ratio> = Vec::new();
    r.push(Ratio { num: 0, den });
    loop
        invariant
            d.wf(),
            l == len as int,
            d@.l0 == 0,
            d@.l1 == l,
            n == segment_count(0, l),
            n <= 0x42_0000,
            k0.wf(),
            k1.wf(),
            len > 0,
            den == heading_den(k0, k1, l),
            r@.len() == d@.pos + 1,
            0 <= d@.pos <= n,
            acc == heading_num(k0, k1, l, d@.pos),
            0 <= acc <= d@.pos * 0x2_0000_0000_0000_0000_0000_0000,
            forall|i: int|
                0 <= i < r@.len() ==> #[trigger] r@[i]@ == (
                    heading_num(k0, k1, l, i),
                    heading_den(k0, k1, l),
                ),
            forall|i: int|
                0 <= i < n ==> 0 <= #[trigger] boundary(0, l, i) <= boundary(0, l, i + 1) <= l,
        decreases n - d@.pos,
    {
        let ghost pos = d@.pos;
        match d.next() {
            Some(seg) => {
                let ghost a = boundary(0, l, pos);
                let ghost b = boundary(0, l, pos + 1);
                assert(seg == segments(0, l)[pos]);
                assert(0 <= a <= b <= l);
                assert(seg.s == a + b);
                let k = linear_curvature(k0, k1, seg.s, 2 * len as u64);
                let ghost kv0 = curvature_value(k0);
                let ghost kv1 = curvature_value(k1);
                assert(0 <= k.num <= 0x1_0000_0000 * 0x2_0000_0000) by (nonlinear_arith)
                    requires
                        k.num == kv0.0 * kv1.1 * (2 * l) + (kv1.0 * kv0.1 - kv0.0 * kv1.1) * (a
                            + b),
                        0 <= a + b <= 2 * l,
                        0 < l <= 0xffff_ffff,
                        0 <= kv0.0 <= 1,
                        0 <= kv1.0 <= 1,
                        0 < kv0.1 <= 0xffff_ffff,
                        0 < kv1.1 <= 0xffff_ffff,
                ;
                assert(k.den == den) by (nonlinear_arith)
                    requires
                        k.den == kv0.1 * kv1.1 * (2 * l),
                        den == kv0.1 * kv1.1 * (2 * l),
                ;
                assert(0 <= k.num * seg.len <= 0x2_0000_0000_0000_0000_0000_0000) by (
                nonlinear_arith)
                    requires
                        0 <= k.num <= 0x1_0000_0000 * 0x2_0000_0000,
                        0 <= seg.len <= 0xffff_ffff,
                ;
                assert(pos * 0x2_0000_0000_0000_0000_0000_0000 + 0x2_0000_0000_0000_0000_0000_0000
                    <= 0x42_0000 * 0x2_0000_0000_0000_0000_0000_0000) by (nonlinear_arith)
                    requires
                        pos < 0x42_0000,
                ;
                acc = acc + k.num * seg.len as i128;
                r.push(Ratio { num: acc, den });
            },
            None => {
                assert(segments(0, l).len() == n);
                return r;
            },
        }
    }
}

/// At every segment boundary, the heading of a linear-law curve is the
/// integral of its curvature up to there: `k0 * x + (k1 - k0) * x^2 / (2 * len)`
/// at arc length `x`, written over the denominator `heading_den`.
pub proof fn lemma_heading_closed_form(k0: Curvature, k1: Curvature, len: int, i: int)
    requires
        0 < len <= u32::MAX,
        0 <= i <= segment_count(0, len),
    ensures
        ({
            let a = curvature_value(k0).0 * curvature_value(k1).1;
            let c = curvature_value(k1).0 * curvature_value(k0).1 - a;
            let x = boundary(0, len, i);
            heading_num(k0, k1, len, i) == 2 * a * len * x + c * x * x
        }),
    decreases i,
{
    let a = curvature_value(k0).0 * curvature_value(k1).1;
    let c = curvature_value(k1).0 * curvature_value(k0).1 - a;
    if i > 0 {
        lemma_heading_closed_form(k0, k1, len, i - 1);
        let p = boundary(0, len, i - 1);
        let q = boundary(0, len, i);
        let kv0 = curvature_value(k0);
        let kv1 = curvature_value(k1);
        assert(kv0.0 * kv1.1 * (2 * len) + (kv1.0 * kv0.1 - kv0.0 * kv1.1) * (p + q) == 2 * a * len
            + c * (p + q)) by (nonlinear_arith)
            requires
                a == kv0.0 * kv1.1,
                c == kv1.0 * kv0.1 - a,
        ;
        assert(delta_num(k0, k1, len, i - 1) == (2 * a * len + c * (p + q)) * (q - p));
        assert((2 * a * len * p + c * p * p) + (2 * a * len + c * (p + q)) * (q - p) == 2 * a * len
            * q + c * q * q) by (nonlinear_arith);
    }
}

/// Over its whole length, a linear-law curve turns by the mean of its entry
/// and exit curvatures times its length.
pub proof fn lemma_linear_total_heading(k0: Curvature, k1: Curvature, len: int)
    requires
        k0.wf(),
        k1.wf(),
        0 < len <= u32::MAX,
    ensures
        same_value(
            (heading_num(k0, k1, len, segment_count(0, len)), heading_den(k0, k1, len)),
            frac_mul(frac_add(curvature_value(k0), curvature_value(k1)), (len, 2)),
        ),
{
    lemma_boundaries(0, len);
    let n = segment_count(0, len);
    lemma_heading_closed_form(k0, k1, len, n);
    let kv0 = curvature_value(k0);
    let kv1 = curvature_value(k1);
    let a = kv0.0 * kv1.1;
    let c = kv1.0 * kv0.1 - a;
    assert((2 * a * len * len + c * len * len) * (kv0.1 * kv1.1 * 2) == ((kv0.0 * kv1.1 + kv1.0
        * kv0.1) * len) * (kv0.1 * kv1.1 * (2 * len))) by (nonlinear_arith)
        requires
            a == kv0.0 * kv1.1,
            c == kv1.0 * kv0.1 - a,
    ;
}

/// A curve from a straight to a straight never turns.
pub proof fn lemma_straight_keeps_heading(len: int, i: int)
    requires
        0 < len <= u32::MAX,
        0 <= i <= segment_count(0, len),
    ensures
        heading_num(Curvature::Straight, Curvature::Straight, len, i) == 0,
{
    lemma_heading_closed_form(Curvature::Straight, Curvature::Straight, len, i);
    let x = boundary(0, len, i);
    assert(2 * (0 * 1) * len * x + (0 * 1 - 0 * 1) * x * x == 0) by (nonlinear_arith);
}

} // verus!
