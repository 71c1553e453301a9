//! One parser per spreadsheet column, each turning a raw cell into an optional
//! typed value.

use vstd::prelude::*;
use crate::decimal::{decimal_micros, parse_decimal, Decimal};
use crate::text::{
    all_digits, before_first, chars_of, digits_in, digits_of, find_pattern, first_match, is_digit,
    is_text, lemma_first_match, lemma_number_value_bound, number_value, pow10, read_number,
};

verus! {

/// A release status: a year, or one of the two literal tokens.
#[derive(Clone, Copy, Debug, PartialEq, Eq, Structural)]
pub enum ReleaseStatus {
    Year(u32),
    Discontinued,
    Cancelled,
}

/// A measurement cell that holds its unit but no readable number before it.
#[derive(Clone, Copy, Debug, PartialEq, Eq, Structural)]
pub enum FieldFormatError {
    Weight,
    DisplaySize,
}

/// The text of `s` with leading and trailing white space removed.
pub uninterp spec fn trimmed(s: Seq<char>) -> Seq<char>;

/// Whether `c` is alphabetic.
pub uninterp spec fn alphabetic(c: char) -> bool;

/// Relies on `str::trim`: `s` without its leading and trailing Unicode white space.
#[verifier::external_body]
fn trim_text(s: &str) -> (r: &str)
    ensures
        r@ == trimmed(s@),
{
    s.trim()
}

/// Relies on `char::is_alphabetic`: whether `c` has the Unicode Alphabetic property.
#[verifier::external_body]
fn is_alphabetic(c: char) -> (r: bool)
    ensures
        r == alphabetic(c),
{
    c.is_alphabetic()
}

/// The year written in a cell: the digits before its first comma (all of them
/// when there is none), when exactly four remain.
pub open spec fn year_of(s: Seq<char>) -> Option<u32> {
    let d = digits_of(before_first(s, ","@));
    if d.len() == 4 {
        Some(number_value(d) as u32)
    } else {
        None
    }
}

/// The release status written in a cell.
pub open spec fn release_status_of(s: Seq<char>) -> Option<ReleaseStatus> {
    if s == "Discontinued"@ {
        Some(ReleaseStatus::Discontinued)
    } else if s == "Cancelled"@ {
        Some(ReleaseStatus::Cancelled)
    } else {
        match year_of(s) {
            Some(y) => Some(ReleaseStatus::Year(y)),
            None => None,
        }
    }
}

/// The amount, in millionths, written before the first occurrence of `unit`:
/// `None` when the unit is absent, `Some(None)` when the text before it is no
/// decimal number.
pub open spec fn amount_before(s: Seq<char>, unit: Seq<char>) -> Option<Option<nat>> {
    match first_match(s, unit) {
        Some(i) => Some(decimal_micros(trimmed(s.take(i)))),
        None => None,
    }
}

/// The outcome of a measurement parser, given what `amount_before` found.
pub open spec fn measure_result(
    found: Option<Option<nat>>,
    err: FieldFormatError,
) -> Result<Option<Decimal>, FieldFormatError> {
    match found {
        None => Ok(None),
        Some(Some(v)) => Ok(Some(Decimal { micros: v as u64 })),
        Some(None) => Err(err),
    }
}

/// A cell holds at least one alphabetic character.
pub open spec fn has_alphabetic(s: Seq<char>) -> bool {
    exists|i: int| 0 <= i < s.len() && alphabetic(#[trigger] s[i])
}

/// A SIM cell, unless it is exactly `Yes` or `No`.
pub open spec fn sim_of(s: Seq<char>) -> Option<Seq<char>> {
    if s == "Yes"@ || s == "No"@ {
        None
    } else {
        Some(s)
    }
}

/// A sensors cell, when it holds at least one alphabetic character.
pub open spec fn sensors_of(s: Seq<char>) -> Option<Seq<char>> {
    if has_alphabetic(s) {
        Some(s)
    } else {
        None
    }
}

/// A cell, unless it is the placeholder `-`.
pub open spec fn dash_of(s: Seq<char>) -> Option<Seq<char>> {
    if s == "-"@ {
        None
    } else {
        Some(s)
    }
}

/// The text before the first comma, when the cell holds a comma.
pub open spec fn os_of(s: Seq<char>) -> Option<Seq<char>> {
    match first_match(s, ","@) {
        Some(i) => Some(s.take(i)),
        None => None,
    }
}

/// Reads a four-digit year: the digits before the first comma (or of the whole
/// cell when it has none), when there are exactly four of them.
pub fn parse_year(value: &str) -> (r: Option<u32>)
    ensures
        r == year_of(value@),
{
    let s = chars_of(value);
    let comma = chars_of(",");
    let end = match find_pattern(&s, &comma) {
        Some(i) => i,
        None => s.len(),
    };
    proof {
        reveal_strlit(",");
        lemma_first_match(s@, comma@);
    }
    assert(s@.take(end as int) =~= before_first(value@, ","@));
    let d = digits_in(&s, end);
    if d.len() != 4 {
        return None;
    }
    proof {
        assert(all_digits(d@)) by {
            assert forall|i: int| 0 <= i < d@.len() implies is_digit(#[trigger] d@[i]) by {
                s@.take(end as int).lemma_filter_pred(|c: char| is_digit(c), i);
            }
        }
        lemma_number_value_bound(d@);
        reveal_with_fuel(pow10, 5);
    }
    assert(d@.subrange(0, 4) =~= d@);
    match read_number(&d, 0, 4) {
        Some(v) => Some(v as u32),
        None => None,
    }
}

/// Reads a release status: the literal `Discontinued` or `Cancelled`, or else a year.
pub fn parse_announce_year(value: &str) -> (r: Option<ReleaseStatus>)
    ensures
        r == release_status_of(value@),
{
    if is_text(value, "Discontinued") {
        Some(ReleaseStatus::Discontinued)
    } else if is_text(value, "Cancelled") {
        Some(ReleaseStatus::Cancelled)
    } else {
        match parse_year(value) {
            Some(y) => Some(ReleaseStatus::Year(y)),
            None => None,
        }
    }
}

/// Reads the decimal written before the first occurrence of `unit`.
fn read_amount(value: &str, unit: &str) -> (r: Option<Option<Decimal>>)
    ensures
        match amount_before(value@, unit@) {
            None => r is None,
            Some(None) => r == Some(None::<Decimal>),
            Some(Some(v)) => r == Some(Some(Decimal { micros: v as u64 })),
        },
{
    let s = chars_of(value);
    let u = chars_of(unit);
    match find_pattern(&s, &u) {
        None => None,
        Some(i) => {
            proof {
                lemma_first_match(s@, u@);
            }
            let head = value.substring_char(0, i);
            assert(head@ =~= value@.take(i as int));
            Some(parse_decimal(trim_text(head)))
        },
    }
}

/// Reads a weight: the decimal before the first `g`, trimmed.
pub fn parse_weight(value: &str) -> (r: Result<Option<Decimal>, FieldFormatError>)
    ensures
        r == measure_result(amount_before(value@, "g"@), FieldFormatError::Weight),
{
    match read_amount(value, "g") {
        None => Ok(None),
        Some(Some(d)) => Ok(Some(d)),
        Some(None) => Err(FieldFormatError::Weight),
    }
}

/// Reads a display size: the decimal before the first `inches`, trimmed.
pub fn parse_display_size(value: &str) -> (r: Result<Option<Decimal>, FieldFormatError>)
    ensures
        r == measure_result(amount_before(value@, "inches"@), FieldFormatError::DisplaySize),
{
    match read_amount(value, "inches") {
        None => Ok(None),
        Some(Some(d)) => Ok(Some(d)),
        Some(None) => Err(FieldFormatError::DisplaySize),
    }
}

/// Keeps a SIM cell unless it is exactly `Yes` or `No`.
pub fn parse_sim_type(value: &str) -> (r: Option<String>)
    ensures
        r.deep_view() == sim_of(value@),
{
    if is_text(value, "Yes") || is_text(value, "No") {
        None
    } else {
        Some(value.to_owned())
    }
}

/// Keeps a sensors cell when it holds at least one alphabetic character.
pub fn parse_sensors(value: &str) -> (r: Option<String>)
    ensures
        r.deep_view() == sensors_of(value@),
{
    let s = chars_of(value);
    let mut i: usize = 0;
    while i < s.len()
        invariant
            i <= s@.len(),
            s@ == value@,
            forall|j: int| 0 <= j < i ==> !alphabetic(#[trigger] s@[j]),
        decreases s@.len() - i,
    {
        if is_alphabetic(s[i]) {
            return Some(value.to_owned());
        }
        i = i + 1;
    }
    None
}

/// Keeps the text before the first comma of an OS cell; absent without a comma.
pub fn parse_os(value: &str) -> (r: Option<String>)
    ensures
        r.deep_view() == os_of(value@),
{
    let s = chars_of(value);
    let comma = chars_of(",");
    match find_pattern(&s, &comma) {
        None => None,
        Some(i) => {
            proof {
                lemma_first_match(s@, comma@);
            }
            let head = value.substring_char(0, i);
            assert(head@ =~= value@.take(i as int));
            Some(head.to_owned())
        },
    }
}

/// Keeps a cell unless it is the placeholder `-`.
pub fn dash_check(value: &str) -> (r: Option<String>)
    ensures
        r.deep_view() == dash_of(value@),
{
    if is_text(value, "-") {
        None
    } else {
        Some(value.to_owned())
    }
}

} // verus!
