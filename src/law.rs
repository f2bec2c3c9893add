use vstd::prelude::*;

use crate::curve::{curvature_value, Curvature};

verus! {

/// A fraction of two integers with a positive denominator.
#[derive(Clone, Copy, Debug, PartialEq, Eq, Structural)]
pub struct Ratio {
    pub num: i128,
    pub den: i128,
}

impl View for Ratio {
    type V = (int, int);

    open spec fn view(&self) -> (int, int) {
        (self.num as int, self.den as int)
    }
}

/// Two fractions stand for the same number.
pub open spec fn same_value(a: (int, int), b: (int, int)) -> bool {
    a.0 * b.1 == b.0 * a.1
}

pub open spec fn frac_add(a: (int, int), b: (int, int)) -> (int, int) {
    (a.0 * b.1 + b.0 * a.1, a.1 * b.1)
}

pub open spec fn frac_sub(a: (int, int), b: (int, int)) -> (int, int) {
    (a.0 * b.1 - b.0 * a.1, a.1 * b.1)
}

pub open spec fn frac_mul(a: (int, int), b: (int, int)) -> (int, int) {
    (a.0 * b.0, a.1 * b.1)
}

/// `a + (b - a) * t`: the point a fraction `t` of the way from `a` to `b`.
pub open spec fn lerp(a: (int, int), b: (int, int), t: (int, int)) -> (int, int) {
    (a.0 * b.1 * t.1 + (b.0 * a.1 - a.0 * b.1) * t.0, a.1 * b.1 * t.1)
}

/// The linear law's curvature at the normalised position `t = s / len` along
/// a curve from curvature `k0` to `k1`, as a fraction in 1/mm.
pub fn linear_curvature(k0: Curvature, k1: Curvature, s: u64, len: u64) -> (r: Ratio)
    requires
        k0.wf(),
        k1.wf(),
        0 < len <= 2 * (u32::MAX as int) + 2,
        s <= len,
    ensures
        r@ == lerp(curvature_value(k0), curvature_value(k1), (s as int, len as int)),
        r.den > 0,
{
    let (n0, d0): (i128, i128) = match k0 {
        Curvature::Straight => (0, 1),
        Curvature::Circular(rad) => (1, rad.mm as i128),
    };
    let (n1, d1): (i128, i128) = match k1 {
        Curvature::Straight => (0, 1),
        Curvature::Circular(rad) => (1, rad.mm as i128),
    };
    let l = len as i128;
    let t = s as i128;
    assert(0 < d0 * d1 <= 0x1_0000_0000 * 0x1_0000_0000) by (nonlinear_arith)
        requires
            0 < d0 <= 0x1_0000_0000,
            0 < d1 <= 0x1_0000_0000,
    ;
    assert(0 < d0 * d1 * l <= 0x1_0000_0000 * 0x1_0000_0000 * 0x2_0000_0000) by (nonlinear_arith)
        requires
            0 < d0 * d1 <= 0x1_0000_0000 * 0x1_0000_0000,
            0 < l <= 0x2_0000_0000,
    ;
    let a = n0 * d1;
    let b = n1 * d0;
    assert(0 <= a * l <= 0x1_0000_0000 * 0x2_0000_0000) by (nonlinear_arith)
        requires
            0 <= a <= 0x1_0000_0000,
            0 < l <= 0x2_0000_0000,
    ;
    assert(-0x1_0000_0000 * 0x2_0000_0000 <= (b - a) * t <= 0x1_0000_0000 * 0x2_0000_0000)
        by (nonlinear_arith)
        requires
            -0x1_0000_0000 <= b - a <= 0x1_0000_0000,
            0 <= t <= 0x2_0000_0000,
    ;
    Ratio { num: a * l + (b - a) * t, den: d0 * d1 * l }
}

/// The linear law starts at the entry curvature, ends at the exit curvature,
/// and changes by the same amount for the same step anywhere in between.
pub proof fn lemma_linear_law(a: (int, int), b: (int, int), td: int, t: int, u: int)
    requires
        a.1 > 0,
        b.1 > 0,
        td > 0,
    ensures
        same_value(lerp(a, b, (0, td)), a),
        same_value(lerp(a, b, (td, td)), b),
        same_value(
            frac_sub(lerp(a, b, (t, td)), lerp(a, b, (u, td))),
            frac_mul(frac_sub(b, a), (t - u, td)),
        ),
{
    assert(same_value(lerp(a, b, (0, td)), a)) by (nonlinear_arith)
        requires
            a.1 > 0,
            b.1 > 0,
            td > 0,
    ;
    assert(same_value(lerp(a, b, (td, td)), b)) by (nonlinear_arith)
        requires
            a.1 > 0,
            b.1 > 0,
            td > 0,
    ;
    let c = b.0 * a.1 - a.0 * b.1;
    let d = a.1 * b.1 * td;
    let x = lerp(a, b, (t, td));
    let y = lerp(a, b, (u, td));
    assert(x.0 * y.1 - y.0 * x.1 == c * (t - u) * d) by (nonlinear_arith)
        requires
            x == (a.0 * b.1 * td + c * t, d),
            y == (a.0 * b.1 * td + c * u, d),
    ;
    assert(frac_mul(frac_sub(b, a), (t - u, td)) == (c * (t - u), d)) by (nonlinear_arith)
        requires
            c == b.0 * a.1 - a.0 * b.1,
            d == a.1 * b.1 * td,
    ;
    assert((c * (t - u) * d) * d == (c * (t - u)) * (d * d)) by (nonlinear_arith);
}

} // verus!
