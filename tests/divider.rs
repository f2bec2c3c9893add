use transition::curve::CurveError;
use transition::divider::{Divider, Segment, UNIT};

fn all_segments(l0: u32, l1: u32) -> Vec<Segment> {
    let mut d = Divider::new(l0, l1).unwrap();
    d.collect()
}

#[test]
fn lengths_sum_to_the_stretch() {
    for &(l0, l1) in &[(0u32, 10_000u32), (500, 10_250), (1_234, 1_234), (0, 999), (999, 1_001), (3_000, 7_000)] {
        let total: u64 = all_segments(l0, l1).iter().map(|s| s.len as u64).sum();
        assert_eq!(total, (l1 - l0) as u64);
    }
}

#[test]
fn inner_boundaries_are_whole_stations() {
    let segs = all_segments(500, 4_250);
    let lens: Vec<u32> = segs.iter().map(|s| s.len).collect();
    assert_eq!(lens, vec![500, 1_000, 1_000, 1_000, 250]);
    let mut at = 500u32;
    for s in &segs[..segs.len() - 1] {
        at += s.len;
        assert_eq!(at % UNIT, 0);
    }
}

#[test]
fn midpoints_are_measured_from_the_start() {
    let segs = all_segments(500, 2_300);
    assert_eq!(segs, vec![
        Segment { s: 500, len: 500 },
        Segment { s: 2_000, len: 1_000 },
        Segment { s: 3_300, len: 300 },
    ]);
}

#[test]
fn whole_start_gives_a_full_first_segment() {
    let segs = all_segments(2_000, 4_000);
    assert_eq!(segs, vec![Segment { s: 1_000, len: 1_000 }, Segment { s: 3_000, len: 1_000 }]);
}

#[test]
fn declared_count_matches_what_comes_out() {
    for &(l0, l1) in &[(0u32, 10_000u32), (500, 10_250), (7, 7), (0, 1), (1_000, 1_000)] {
        let mut d = Divider::new(l0, l1).unwrap();
        let (lo, hi) = d.size_hint();
        assert_eq!(hi, Some(lo));
        let mut n = 0usize;
        while let Some(_) = d.next() {
            n += 1;
        }
        assert_eq!(n, lo);
        assert_eq!(d.size_hint(), (0, Some(0)));
        assert!(d.next().is_none());
    }
}

#[test]
fn same_unit_interval_gives_one_segment() {
    assert_eq!(all_segments(1_200, 1_700), vec![Segment { s: 500, len: 500 }]);
    assert_eq!(all_segments(1_200, 1_200), vec![Segment { s: 0, len: 0 }]);
    assert_eq!(all_segments(3_000, 3_000), vec![Segment { s: 0, len: 0 }]);
    assert_eq!(all_segments(1_200, 2_000), vec![Segment { s: 800, len: 800 }]);
}

#[test]
fn ten_metres_give_ten_unit_segments() {
    let segs = all_segments(0, 10_000);
    assert_eq!(segs.len(), 10);
    assert!(segs.iter().all(|s| s.len == 1_000));
}

#[test]
fn stretch_ending_before_its_start_is_refused() {
    assert!(matches!(Divider::new(2_000, 1_999), Err(CurveError::InvalidInterval)));
}

#[test]
fn largest_stretch_is_divided() {
    let mut d = Divider::new(0, u32::MAX).unwrap();
    assert_eq!(d.size_hint().0, 4_294_968);
    let segs = d.collect();
    assert_eq!(segs.last().unwrap().len, 295);
}
