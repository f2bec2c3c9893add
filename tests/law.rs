use transition::curve::{Curvature, Radius};
use transition::heading::linear_headings;
use transition::law::{linear_curvature, Ratio};

fn circ(mm: i64) -> Curvature {
    Curvature::Circular(Radius::new(mm).unwrap())
}

fn value(r: Ratio) -> f64 {
    r.num as f64 / r.den as f64
}

fn same(a: Ratio, num: i128, den: i128) -> bool {
    a.num * den == num * a.den
}

#[test]
fn linear_law_meets_both_ends() {
    let k0 = circ(400_000);
    let k1 = circ(100_000);
    assert!(same(linear_curvature(k0, k1, 0, 20_000), 1, 400_000));
    assert!(same(linear_curvature(k0, k1, 20_000, 20_000), 1, 100_000));
}

#[test]
fn linear_law_is_linear() {
    let k0 = Curvature::Straight;
    let k1 = circ(100_000);
    let quarter = linear_curvature(k0, k1, 5_000, 20_000);
    let half = linear_curvature(k0, k1, 10_000, 20_000);
    assert!(same(quarter, 1, 400_000));
    assert!(same(half, 1, 200_000));
    let k0 = circ(400_000);
    let a = linear_curvature(k0, k1, 3_000, 20_000);
    let b = linear_curvature(k0, k1, 7_000, 20_000);
    let c = linear_curvature(k0, k1, 11_000, 20_000);
    assert!(same(Ratio { num: b.num * 2, den: b.den }, a.num + c.num, a.den));
}

#[test]
fn straight_to_circle_over_ten_metres() {
    let k1 = circ(100_000);
    let h = linear_headings(Curvature::Straight, k1, 10_000);
    assert_eq!(h.len(), 11);
    assert_eq!(h[0].num, 0);
    let end = linear_curvature(Curvature::Straight, k1, 20_000, 20_000);
    assert!((value(end) * 1_000.0 - 0.01).abs() < 1e-15);
    let last = *h.last().unwrap();
    assert!(same(last, 1, 20));
    assert!((value(last) - 0.05).abs() < 1e-15);
}

#[test]
fn headings_follow_the_integral() {
    let k1 = circ(100_000);
    let h = linear_headings(Curvature::Straight, k1, 10_000);
    for (i, r) in h.iter().enumerate() {
        let x = 1_000 * i as i128;
        assert!(same(*r, x * x, 2 * 100_000 * 10_000));
    }
}

#[test]
fn fractional_length_keeps_exact_total() {
    let k0 = circ(300_000);
    let k1 = circ(150_000);
    let h = linear_headings(k0, k1, 2_500);
    assert_eq!(h.len(), 4);
    // (1/300000 + 1/150000) / 2 * 2500
    assert!(same(*h.last().unwrap(), 2_500 * 3, 2 * 300_000));
}

#[test]
fn straight_to_straight_never_turns() {
    let h = linear_headings(Curvature::Straight, Curvature::Straight, 10_000);
    assert_eq!(h.len(), 11);
    assert!(h.iter().all(|r| r.num == 0));
}
