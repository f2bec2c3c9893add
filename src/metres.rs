use vstd::prelude::*;

verus! {

/// An ASCII decimal digit.
pub open spec fn is_digit(b: u8) -> bool {
    48 <= b <= 57
}

/// The number that a run of decimal digits spells.
pub open spec fn digits_value(s: Seq<u8>) -> int
    decreases s.len(),
{
    if s.len() == 0 {
        0
    } else {
        10 * digits_value(s.drop_last()) + (s.last() - 48)
    }
}

/// The index of the first byte that is not a digit, or the length.
pub open spec fn first_non_digit(s: Seq<u8>) -> int
    decreases s.len(),
{
    if s.len() == 0 || !is_digit(s[0]) {
        0
    } else {
        1 + first_non_digit(s.skip(1))
    }
}

/// `10` to the power `n`.
pub open spec fn pow10(n: int) -> int
    decreases n,
{
    if n <= 0 {
        1
    } else {
        10 * pow10(n - 1)
    }
}

/// The millimetres that an unsigned decimal number of metres spells: one or
/// more digits, then optionally a point and one to three digits.
pub open spec fn unsigned_mm(s: Seq<u8>) -> Option<int> {
    let k = first_non_digit(s);
    let frac = s.skip(k + 1);
    if k == 0 {
        None
    } else if k == s.len() {
        Some(1000 * digits_value(s))
    } else if s[k] == 46 && 1 <= frac.len() <= 3 && first_non_digit(frac) == frac.len() {
        Some(1000 * digits_value(s.take(k)) + digits_value(frac) * pow10(3 - frac.len()))
    } else {
        None
    }
}

/// The millimetres that a decimal number of metres spells, with an optional
/// leading minus sign.
pub open spec fn mm_of(s: Seq<u8>) -> Option<int> {
    if s.len() > 0 && s[0] == 45 {
        match unsigned_mm(s.skip(1)) {
            Some(v) => Some(-v),
            None => None,
        }
    } else {
        unsigned_mm(s)
    }
}

/// The largest whole number of metres whose millimetres fit in an `i64`.
const WHOLE_CAP: u64 = 9_223_372_036_854_775;

proof fn lemma_first_non_digit(s: Seq<u8>, i: int)
    requires
        0 <= i <= s.len(),
        forall|j: int| 0 <= j < i ==> is_digit(#[trigger] s[j]),
        i == s.len() || !is_digit(s[i]),
    ensures
        first_non_digit(s) == i,
    decreases i,
{
    if i > 0 {
        let t = s.skip(1);
        assert forall|j: int| 0 <= j < i - 1 implies is_digit(#[trigger] t[j]) by {
            assert(t[j] == s[j + 1]);
        }
        lemma_first_non_digit(t, i - 1);
    }
}

proof fn lemma_digits_step(s: Seq<u8>, i: int)
    requires
        0 <= i < s.len(),
    ensures
        digits_value(s.take(i + 1)) == 10 * digits_value(s.take(i)) + (s[i] - 48),
{
    assert(s.take(i + 1).drop_last() =~= s.take(i));
}

/// The millimetres in the decimal number of metres `text` (see `mm_of`), or
/// `None` when it is not such a number or does not fit in an `i64`.
pub fn parse_mm(text: &[u8]) -> (r: Option<i64>)
    ensures
        r == (match mm_of(text@) {
            Some(v) => if i64::MIN <= v <= i64::MAX {
                Some(v as i64)
            } else {
                None
            },
            None => None,
        }),
{
    let negative = text.len() > 0 && text[0] == 45;
    let start: usize = if negative { 1 } else { 0 };
    let ghost s = text@.skip(start as int);
    proof {
        if !negative {
            assert(s =~= text@);
        }
        reveal_with_fuel(pow10, 4);
    }
    let mut whole: u64 = 0;
    let mut too_big = false;
    let mut i: usize = start;
    while i < text.len() && 48 <= text[i] && text[i] <= 57
        invariant
            start <= i <= text.len(),
            s == text@.skip(start as int),
            forall|j: int| 0 <= j < i - start ==> is_digit(#[trigger] s[j]),
            too_big ==> digits_value(s.take(i - start)) > WHOLE_CAP,
            !too_big ==> whole == digits_value(s.take(i - start)) && whole <= WHOLE_CAP,
        decreases text.len() - i,
    {
        proof {
            lemma_digits_step(s, i - start);
        }
        if !too_big {
            let next = whole * 10 + (text[i] - 48) as u64;
            if next > WHOLE_CAP {
                too_big = true;
            } else {
                whole = next;
            }
        }
        i = i + 1;
    }
    let k: usize = i - start;
    proof {
        lemma_first_non_digit(s, k as int);
    }
    let mut frac: u64 = 0;
    let mut scale: u64 = 1000;
    if k == 0 {
        return None;
    } else if i < text.len() {
        if text[i] != 46 || text.len() - i - 1 < 1 || text.len() - i - 1 > 3 {
            return None;
        }
        let ghost f = s.skip(k + 1);
        assert(f =~= text@.skip(i + 1));
        assert(s[k as int] == text[i as int]);
        assert(unsigned_mm(s) is None ==> mm_of(text@) is None);
        let mut j: usize = i + 1;
        while j < text.len()
            invariant
                i + 1 <= j <= text.len(),
                text.len() - i - 1 <= 3,
                f == text@.skip(i + 1),
                f == s.skip(k + 1),
                1 <= f.len() <= 3,
                k == first_non_digit(s),
                0 < k < s.len(),
                s[k as int] == 46,
                unsigned_mm(s) is None ==> mm_of(text@) is None,
                forall|m: int| 0 <= m < j - i - 1 ==> is_digit(#[trigger] f[m]),
                frac == digits_value(f.take(j - i - 1)),
                frac < pow10(j - i - 1),
                scale == pow10(3 - (j - i - 1)),
                pow10(0) == 1 && pow10(1) == 10 && pow10(2) == 100 && pow10(3) == 1000,
            decreases text.len() - j,
        {
            if text[j] < 48 || text[j] > 57 {
                proof {
                    lemma_first_non_digit(f, j - i - 1);
                }
                return None;
            }
            proof {
                lemma_digits_step(f, j - i - 1);
                assert(f[j - i - 1] == text[j as int]);
            }
            frac = frac * 10 + (text[j] - 48) as u64;
            scale = scale / 10;
            j = j + 1;
        }
        proof {
            lemma_first_non_digit(f, f.len() as int);
            assert(f.take(f.len() as int) =~= f);
        }
    } else {
        assert(s.take(k as int) =~= s);
    }
    if too_big {
        assert(1000 * digits_value(s.take(k as int)) > i64::MAX);
        return None;
    }
    assert(frac * scale < 1000) by (nonlinear_arith)
        requires
            scale == 1 || scale == 10 || scale == 100 || scale == 1000,
            scale == 1 ==> frac < 1000,
            scale == 10 ==> frac < 100,
            scale == 100 ==> frac < 10,
            scale == 1000 ==> frac == 0,
    ;
    let v: i128 = 1000 * whole as i128 + (frac * scale) as i128;
    let v: i128 = if negative { -v } else { v };
    if v < i64::MIN as i128 || v > i64::MAX as i128 {
        None
    } else {
        Some(v as i64)
    }
}

} // verus!
