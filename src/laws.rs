//! Properties of the parsers and the assembler, stated over their models.

use vstd::prelude::*;
use crate::decimal::decimal_micros;
use crate::fields::{amount_before, measure_result, trimmed, year_of, FieldFormatError, ReleaseStatus};
use crate::queries::mismatch_of;
use crate::record::{record_of, RecordView};
use crate::text::{
    all_digits, before_first, digits_of, first_match, is_digit, lemma_first_match, lemma_first_match_unique, lemma_number_value_bound, matches_at, pow10,
};

verus! {

/// A one-character pattern occurs first where the character first appears.
proof fn lemma_first_after_prefix(head: Seq<char>, c: char, tail: Seq<char>)
    requires
        !head.contains(c),
    ensures
        first_match(head + seq![c] + tail, seq![c]) == Some(head.len() as int),
{
    let s = head + seq![c] + tail;
    let p = seq![c];
    assert(s.subrange(head.len() as int, head.len() as int + 1) =~= p);
    assert forall|j: int| 0 <= j < head.len() implies !matches_at(s, p, j) by {
        if matches_at(s, p, j) {
            assert(s.subrange(j, j + 1)[0] == c);
            assert(head[j] == c);
        }
    }
    lemma_first_match_unique(s, p, head.len() as int);
}

/// A placeholder `-` in the dimensions, display-type or resolution cell leaves
/// that field of the record absent.
pub proof fn dash_cells_are_absent(row: Seq<Seq<char>>)
    requires
        record_of(row) is Ok,
    ensures
        row[4] == "-"@ ==> record_of(row)->Ok_0.body_dimensions is None,
        row[7] == "-"@ ==> record_of(row)->Ok_0.display_type is None,
        row[9] == "-"@ ==> record_of(row)->Ok_0.display_resolution is None,
{
}

/// A weight cell written as a number, the unit `g`, then anything, is read from
/// the trimmed number alone: nothing after the unit reaches the value.
pub proof fn weight_reads_number_before_unit(number: Seq<char>, rest: Seq<char>)
    requires
        !number.contains('g'),
    ensures
        measure_result(amount_before(number + "g"@ + rest, "g"@), FieldFormatError::Weight)
            == measure_result(
            Some(decimal_micros(trimmed(number))),
            FieldFormatError::Weight,
        ),
{
    reveal_strlit("g");
    assert("g"@ =~= seq!['g']);
    lemma_first_after_prefix(number, 'g', rest);
    assert((number + "g"@ + rest).take(number.len() as int) =~= number);
}

/// A year cell with a comma is read from the text before the first comma alone,
/// and any year read has at most four digits.
pub proof fn year_reads_only_before_comma(head: Seq<char>, tail: Seq<char>)
    requires
        !head.contains(','),
    ensures
        year_of(head + ","@ + tail) == year_of(head),
        year_of(head) matches Some(y) ==> y <= 9999,
{
    reveal_strlit(",");
    assert(","@ =~= seq![',']);
    lemma_first_after_prefix(head, ',', tail);
    let s = head + ","@ + tail;
    assert(s.take(head.len() as int) =~= head);
    lemma_first_match(head, ","@);
    if first_match(head, ","@) is Some {
        let i = first_match(head, ","@)->0;
        assert(head.subrange(i, i + 1)[0] == ',');
        assert(head[i] == ',');
    }
    assert(before_first(head, ","@) == head);
    year_has_four_digits(head);
}

/// Any year read from a cell has at most four digits.
pub proof fn year_has_four_digits(cell: Seq<char>)
    ensures
        year_of(cell) matches Some(y) ==> y <= 9999,
{
    let d = digits_of(before_first(cell, ","@));
    if d.len() == 4 {
        assert(all_digits(d)) by {
            assert forall|i: int| 0 <= i < d.len() implies is_digit(#[trigger] d[i]) by {
                before_first(cell, ","@).lemma_filter_pred(|c: char| is_digit(c), i);
            }
        }
        lemma_number_value_bound(d);
        reveal_with_fuel(pow10, 5);
    }
}

/// Rows with the same cells give the same record: every parser depends on its
/// cell alone.
pub proof fn same_cells_same_record(a: Seq<Seq<char>>, b: Seq<Seq<char>>)
    requires
        a =~~= b,
    ensures
        record_of(a) == record_of(b),
{
}

/// A record keeps the manufacturer and model cells exactly as written.
pub proof fn names_kept_verbatim(row: Seq<Seq<char>>)
    requires
        record_of(row) is Ok,
    ensures
        record_of(row)->Ok_0.manufacturer == row[0],
        record_of(row)->Ok_0.model == row[1],
{
}

/// A phone whose status is `Discontinued` or `Cancelled` is never reported as a mismatch.
pub proof fn literal_status_never_mismatched(r: RecordView)
    requires
        r.release_status == Some(ReleaseStatus::Discontinued) || r.release_status == Some(
            ReleaseStatus::Cancelled,
        ),
    ensures
        mismatch_of(r) is None,
{
}

} // verus!
