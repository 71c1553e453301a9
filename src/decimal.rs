//! Exact non-negative decimal numbers, as written in measurement cells.

use vstd::prelude::*;
use crate::text::{
    all_digits, before_first, chars_of, find_pattern, first_match, lemma_first_match, lemma_number_value_bound,
    number_value, pow10, read_number,
};

verus! {

/// Millionths in one unit.
pub const MICROS_PER_UNIT: u64 = 1000000;

/// The most digits a decimal may carry after its point.
pub const MAX_FRACTION_DIGITS: usize = 6;

/// A non-negative decimal number, held exactly as a count of millionths.
#[derive(Clone, Copy, Debug, PartialEq, Eq, Structural)]
pub struct Decimal {
    pub micros: u64,
}

/// The digits after the first point of `s`; none when `s` has no point.
pub open spec fn fraction_part(s: Seq<char>) -> Seq<char> {
    match first_match(s, "."@) {
        Some(i) => s.skip(i + 1),
        None => Seq::empty(),
    }
}

/// The value, in millionths, of a decimal written as digits with at most one
/// point (`135`, `5.5`, `.25`, `12.`), with at least one digit and at most six
/// after the point; `None` for any other text or a value beyond `u64`.
pub open spec fn decimal_micros(s: Seq<char>) -> Option<nat> {
    let whole = before_first(s, "."@);
    let frac = fraction_part(s);
    if all_digits(whole) && all_digits(frac) && whole.len() + frac.len() > 0 && frac.len()
        <= 6 {
        let v = number_value(whole) * 1000000 + number_value(frac) * pow10(
            (6 - frac.len()) as nat,
        );
        if v <= u64::MAX {
            Some(v)
        } else {
            None
        }
    } else {
        None
    }
}

/// Ten to the power `n`, for a small `n`.
fn pow10_small(n: usize) -> (r: u64)
    requires
        n <= 6,
    ensures
        r == pow10(n as nat),
{
    proof {
        reveal_with_fuel(pow10, 7);
    }
    if n == 0 {
        1
    } else if n == 1 {
        10
    } else if n == 2 {
        100
    } else if n == 3 {
        1000
    } else if n == 4 {
        10000
    } else if n == 5 {
        100000
    } else {
        1000000
    }
}

proof fn lemma_pow10_small(n: nat)
    requires
        n <= 6,
    ensures
        pow10(n) <= 1000000,
        pow10(n) * pow10((6 - n) as nat) == 1000000,
{
    reveal_with_fuel(pow10, 7);
    assert(pow10(0) == 1);
    assert(pow10(1) == 10);
    assert(pow10(2) == 100);
    assert(pow10(3) == 1000);
    assert(pow10(4) == 10000);
    assert(pow10(5) == 100000);
    assert(pow10(6) == 1000000);
    if n == 0 {
    } else if n == 1 {
    } else if n == 2 {
    } else if n == 3 {
    } else if n == 4 {
    } else if n == 5 {
    } else {
        assert(n == 6);
    }
}

/// Reads a decimal number written as digits with at most one point.
pub fn parse_decimal(text: &str) -> (r: Option<Decimal>)
    ensures
        match decimal_micros(text@) {
            Some(v) => r == Some(Decimal { micros: v as u64 }),
            None => r is None,
        },
{
    let s = chars_of(text);
    let dot = chars_of(".");
    let found = find_pattern(&s, &dot);
    proof {
        reveal_strlit(".");
        lemma_first_match(s@, dot@);
    }
    let whole_end: usize;
    let frac_start: usize;
    match found {
        Some(i) => {
            whole_end = i;
            frac_start = i + 1;
        },
        None => {
            whole_end = s.len();
            frac_start = s.len();
        },
    }
    let ghost whole = s@.subrange(0, whole_end as int);
    let ghost frac = s@.subrange(frac_start as int, s@.len() as int);
    assert(whole =~= before_first(text@, "."@));
    assert(frac =~= fraction_part(text@));
    let frac_len = s.len() - frac_start;
    if whole_end == 0 && frac_len == 0 {
        return None;
    }
    if frac_len > MAX_FRACTION_DIGITS {
        return None;
    }
    let w = match read_number(&s, 0, whole_end) {
        Some(w) => w,
        None => {
            return None;
        },
    };
    let f = match read_number(&s, frac_start, s.len()) {
        Some(f) => f,
        None => {
            proof {
                if all_digits(frac) {
                    lemma_number_value_bound(frac);
                    lemma_pow10_small(frac.len());
                }
            }
            return None;
        },
    };
    let scale = pow10_small(MAX_FRACTION_DIGITS - frac_len);
    proof {
        lemma_number_value_bound(frac);
        lemma_pow10_small(frac.len());
        let p = pow10(frac.len());
        assert(f * scale < 1000000) by (nonlinear_arith)
            requires
                f < p,
                p * scale == 1000000,
        ;
    }
    let fs = f * scale;
    match w.checked_mul(MICROS_PER_UNIT) {
        None => None,
        Some(ws) => match ws.checked_add(fs) {
            None => None,
            Some(v) => Some(Decimal { micros: v }),
        },
    }
}

} // verus!
