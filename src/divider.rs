use vstd::prelude::*;

use crate::curve::CurveError;

verus! {

/// Millimetres between two whole stations: inner segment boundaries fall on
/// multiples of this.
pub const UNIT: u32 = 1000;

/// The index of the whole station at or before `l0` (stationing in millimetres).
pub open spec fn floor_units(l0: int) -> int {
    l0 / (UNIT as int)
}

/// The index of the whole station at or after `l1`.
pub open spec fn ceil_units(l1: int) -> int {
    (l1 + UNIT - 1) / (UNIT as int)
}

/// How many segments the stretch `[l0, l1)` is cut into: one per unit
/// interval it touches, and one when it lies within a single unit interval.
pub open spec fn segment_count(l0: int, l1: int) -> int {
    let n = ceil_units(l1) - floor_units(l0);
    if n < 1 { 1 } else { n }
}

/// The `i`-th boundary of the division of `[l0, l1)`: the first is `l0`, the
/// last is `l1`, and those in between are whole stations.
pub open spec fn boundary(l0: int, l1: int, i: int) -> int {
    if i <= 0 {
        l0
    } else if i >= segment_count(l0, l1) {
        l1
    } else {
        (floor_units(l0) + i) * UNIT
    }
}

/// One piece of a divided stretch of stationing.
#[derive(Clone, Copy, Debug, PartialEq, Eq, Structural)]
pub struct Segment {
    /// Twice the arc length from the start of the stretch to the middle of
    /// this segment, that is, in half-millimetres, so that it stays exact.
    pub s: u64,
    /// The segment's length in millimetres.
    pub len: u32,
}

/// The `i`-th segment of the division of `[l0, l1)`.
pub open spec fn segment_at(l0: int, l1: int, i: int) -> Segment {
    let a = boundary(l0, l1, i);
    let b = boundary(l0, l1, i + 1);
    Segment { s: (2 * (a - l0) + (b - a)) as u64, len: (b - a) as u32 }
}

/// The whole division of `[l0, l1)`, in order of stationing.
pub open spec fn segments(l0: int, l1: int) -> Seq<Segment> {
    Seq::new(segment_count(l0, l1) as nat, |i: int| segment_at(l0, l1, i))
}

/// The sum of the lengths of the first `k` segments of `segs`.
pub open spec fn total_len(segs: Seq<Segment>, k: int) -> int
    decreases k,
{
    if k <= 0 {
        0
    } else {
        total_len(segs, k - 1) + segs[k - 1].len
    }
}

pub(crate) proof fn lemma_floor_ceil(l0: int, l1: int)
    requires
        0 <= l0 <= l1,
    ensures
        floor_units(l0) * UNIT <= l0 < (floor_units(l0) + 1) * UNIT,
        (ceil_units(l1) - 1) * UNIT < l1 <= ceil_units(l1) * UNIT,
        0 <= floor_units(l0) <= ceil_units(l1),
{
    let u = UNIT as int;
    vstd::arithmetic::div_mod::lemma_fundamental_div_mod(l0, u);
    vstd::arithmetic::div_mod::lemma_fundamental_div_mod(l1 + u - 1, u);
    vstd::arithmetic::div_mod::lemma_mod_pos_bound(l0, u);
    vstd::arithmetic::div_mod::lemma_mod_pos_bound(l1 + u - 1, u);
}

/// Boundaries never go back, start at `l0`, end at `l1` and stay between.
pub proof fn lemma_boundaries(l0: int, l1: int)
    requires
        0 <= l0 <= l1,
    ensures
        1 <= segment_count(l0, l1) <= ceil_units(l1) - floor_units(l0) + 1,
        boundary(l0, l1, 0) == l0,
        boundary(l0, l1, segment_count(l0, l1)) == l1,
        forall|i: int|
            0 <= i < segment_count(l0, l1) ==> l0 <= #[trigger] boundary(l0, l1, i) <= boundary(
                l0,
                l1,
                i + 1,
            ) <= l1,
{
    lemma_floor_ceil(l0, l1);
}

proof fn lemma_prefix_len(l0: int, l1: int, k: int)
    requires
        0 <= l0 <= l1 <= u32::MAX,
        0 <= k <= segment_count(l0, l1),
    ensures
        total_len(segments(l0, l1), k) == boundary(l0, l1, k) - l0,
    decreases k,
{
    lemma_boundaries(l0, l1);
    if k > 0 {
        lemma_prefix_len(l0, l1, k - 1);
        assert(l0 <= boundary(l0, l1, k - 1) <= boundary(l0, l1, k) <= l1);
    }
}

/// Segment lengths add up to the length of the stretch.
pub proof fn lemma_lengths_sum(l0: int, l1: int)
    requires
        0 <= l0 <= l1 <= u32::MAX,
    ensures
        total_len(segments(l0, l1), segments(l0, l1).len() as int) == l1 - l0,
{
    lemma_boundaries(l0, l1);
    lemma_prefix_len(l0, l1, segment_count(l0, l1));
}

/// Every boundary but the first and the last is a whole station.
pub proof fn lemma_inner_boundaries_whole(l0: int, l1: int)
    requires
        0 <= l0 <= l1,
    ensures
        forall|i: int|
            0 < i < segment_count(l0, l1) ==> #[trigger] boundary(l0, l1, i) % (UNIT as int) == 0,
        forall|i: int|
            0 <= i < segment_count(l0, l1) ==> #[trigger] segments(l0, l1)[i].len == boundary(
                l0,
                l1,
                i + 1,
            ) - boundary(l0, l1, i),
{
    lemma_boundaries(l0, l1);
    assert forall|i: int| 0 < i < segment_count(l0, l1) implies #[trigger] boundary(l0, l1, i) % (
    UNIT as int) == 0 by {
        vstd::arithmetic::div_mod::lemma_mod_multiples_basic(floor_units(l0) + i, UNIT as int);
    }
}

/// A stretch that lies within one unit interval (an empty one included) is a
/// single segment as long as the stretch.
pub proof fn lemma_single_segment(l0: int, l1: int)
    requires
        0 <= l0 <= l1,
        l1 <= (floor_units(l0) + 1) * UNIT,
    ensures
        segments(l0, l1).len() == 1,
        segments(l0, l1)[0].len == l1 - l0,
{
    lemma_floor_ceil(l0, l1);
}

/// A stretch of positive length is cut into segments of positive length, so
/// their boundaries strictly increase.
pub proof fn lemma_lengths_positive(l0: int, l1: int)
    requires
        0 <= l0 < l1 <= u32::MAX,
    ensures
        forall|i: int| 0 <= i < segment_count(l0, l1) ==> #[trigger] segments(l0, l1)[i].len > 0,
{
    lemma_floor_ceil(l0, l1);
}

/// Where a divider stands: the stretch `[l0, l1)` and the index of the
/// segment it hands out next.
pub ghost struct DividerView {
    pub l0: int,
    pub l1: int,
    pub pos: int,
}

/// Cuts a stretch of stationing `[l0, l1)` (in millimetres) into segments
/// whose inner boundaries are whole stations, and hands them out in order.
pub struct Divider {
    l0: u32,
    l1: u32,
    first_unit: u32,
    count: u32,
    pos: u32,
}

impl View for Divider {
    type V = DividerView;

    closed spec fn view(&self) -> DividerView {
        DividerView { l0: self.l0 as int, l1: self.l1 as int, pos: self.pos as int }
    }
}

impl Divider {
    /// The divider is consistent with the stretch it was made for.
    pub closed spec fn wf(&self) -> bool {
        &&& self.l0 <= self.l1
        &&& self.first_unit == floor_units(self.l0 as int)
        &&& self.count == segment_count(self.l0 as int, self.l1 as int)
        &&& self.pos <= self.count
    }

    /// A divider of `[l0, l1)`; refused when the stretch ends before it starts.
    pub fn new(l0: u32, l1: u32) -> (r: Result<Divider, CurveError>)
        ensures
            l0 <= l1 <==> r is Ok,
            l0 > l1 ==> r == Err::<Divider, CurveError>(CurveError::InvalidInterval),
            r matches Ok(d) ==> d.wf() && d@ == (DividerView { l0: l0 as int, l1: l1 as int, pos: 0 }),
    {
        if l0 > l1 {
            return Err(CurveError::InvalidInterval);
        }
        proof {
            lemma_floor_ceil(l0 as int, l1 as int);
        }
        let first_unit = l0 / UNIT;
        let last_unit: u32 = if l1 % UNIT == 0 { l1 / UNIT } else { l1 / UNIT + 1 };
        assert(last_unit == ceil_units(l1 as int)) by {
            vstd::arithmetic::div_mod::lemma_fundamental_div_mod(l1 as int, UNIT as int);
            vstd::arithmetic::div_mod::lemma_fundamental_div_mod(l1 + UNIT - 1, UNIT as int);
        }
        let count: u32 = if last_unit > first_unit + 1 { last_unit - first_unit } else { 1 };
        Ok(Divider { l0, l1, first_unit, count, pos: 0 })
    }

    /// How many segments are still to come, as a lower and an upper bound.
    pub fn size_hint(&self) -> (r: (usize, Option<usize>))
        requires
            self.wf(),
        ensures
            r.0 == segments(self@.l0, self@.l1).len() - self@.pos,
            r.1 == Some(r.0),
    {
        let size = (self.count - self.pos) as usize;
        (size, Some(size))
    }

    /// The next segment, or `None` once the last one was handed out.
    pub fn next(&mut self) -> (r: Option<Segment>)
        requires
            old(self).wf(),
        ensures
            final(self).wf(),
            old(self)@.pos < segments(old(self)@.l0, old(self)@.l1).len() ==> r == Some(
                segments(old(self)@.l0, old(self)@.l1)[old(self)@.pos],
            ) && final(self)@ == (DividerView { pos: old(self)@.pos + 1, ..old(self)@ }),
            old(self)@.pos >= segments(old(self)@.l0, old(self)@.l1).len() ==> r is None
                && final(self)@ == old(self)@,
    {
        if self.pos >= self.count {
            return None;
        }
        proof {
            lemma_floor_ceil(self.l0 as int, self.l1 as int);
            lemma_boundaries(self.l0 as int, self.l1 as int);
            assert(self.l0 <= boundary(self.l0 as int, self.l1 as int, self.pos as int));
        }
        let start: u32 = if self.pos == 0 {
            self.l0
        } else {
            ((self.first_unit as u64 + self.pos as u64) * UNIT as u64) as u32
        };
        let end: u32 = if self.pos + 1 == self.count {
            self.l1
        } else {
            ((self.first_unit as u64 + self.pos as u64 + 1) * UNIT as u64) as u32
        };
        let len = end - start;
        let s = 2 * (start - self.l0) as u64 + len as u64;
        self.pos = self.pos + 1;
        Some(Segment { s, len })
    }

    /// All the segments still to come, in order.
    pub fn collect(&mut self) -> (r: Vec<Segment>)
        requires
            old(self).wf(),
        ensures
            final(self).wf(),
            r@ == segments(old(self)@.l0, old(self)@.l1).subrange(
                old(self)@.pos,
                segments(old(self)@.l0, old(self)@.l1).len() as int,
            ),
            r@.len() == segments(old(self)@.l0, old(self)@.l1).len() - old(self)@.pos,
            final(self)@ == (DividerView {
                pos: segments(old(self)@.l0, old(self)@.l1).len() as int,
                ..old(self)@
            }),
    {
        let mut r: Vec<Segment> = Vec::new();
        let ghost start = self@.pos;
        let ghost segs = segments(self@.l0, self@.l1);
        loop
            invariant
                self.wf(),
                self@.l0 == old(self)@.l0,
                self@.l1 == old(self)@.l1,
                segs == segments(self@.l0, self@.l1),
                start == old(self)@.pos,
                start <= self@.pos <= segs.len(),
                r@ == segs.subrange(start, self@.pos),
            decreases segs.len() - self@.pos,
        {
            match self.next() {
                Some(seg) => {
                    r.push(seg);
                    assert(r@ =~= segs.subrange(start, self@.pos));
                },
                None => {
                    return r;
                },
            }
        }
    }
}

} // verus!
