//! Shared row machinery of the source adapters: optional-column access, the
//! scan past preamble lines for the true header row, and the accumulation of
//! per-row outcomes — a record, a diagnostic note, or both — over a whole
//! table.

use vstd::prelude::*;

use crate::output::RecordV;
use crate::text::strs_view;
use crate::text::contains_seq;
use crate::text::str_to_chars;

verus! {

/// What one raw row yields: at most one record, and at most one diagnostic
/// note about a skipped, repaired or unreadable row.
pub struct RowEffectV {
    pub rec: Option<RecordV>,
    pub note: Option<Seq<char>>,
}

pub open spec fn effect_recs(e: RowEffectV) -> Seq<RecordV> {
    match e.rec {
        Some(r) => seq![r],
        None => Seq::<RecordV>::empty(),
    }
}

pub open spec fn effect_notes(e: RowEffectV) -> Seq<Seq<char>> {
    match e.note {
        Some(n) => seq![n],
        None => Seq::<Seq<char>>::empty(),
    }
}

/// All records of a table, row by row under the effect function `f`.
pub open spec fn outcome_recs(f: spec_fn(Seq<Seq<char>>) -> RowEffectV, rows: Seq<Seq<Seq<char>>>) -> Seq<
    RecordV,
>
    decreases rows.len(),
{
    if rows.len() == 0 {
        Seq::<RecordV>::empty()
    } else {
        effect_recs(f(rows[0])) + outcome_recs(f, rows.drop_first())
    }
}

/// All diagnostic notes of a table, row by row under `f`.
pub open spec fn outcome_notes(f: spec_fn(Seq<Seq<char>>) -> RowEffectV, rows: Seq<Seq<Seq<char>>>) -> Seq<
    Seq<char>,
>
    decreases rows.len(),
{
    if rows.len() == 0 {
        Seq::<Seq<char>>::empty()
    } else {
        effect_notes(f(rows[0])) + outcome_notes(f, rows.drop_first())
    }
}

pub proof fn lemma_outcomes_push(
    f: spec_fn(Seq<Seq<char>>) -> RowEffectV,
    rows: Seq<Seq<Seq<char>>>,
    x: Seq<Seq<char>>,
)
    ensures
        outcome_recs(f, rows.push(x)) == outcome_recs(f, rows) + effect_recs(f(x)),
        outcome_notes(f, rows.push(x)) == outcome_notes(f, rows) + effect_notes(f(x)),
    decreases rows.len(),
{
    let p = rows.push(x);
    if rows.len() == 0 {
        assert(p.drop_first() =~= Seq::<Seq<Seq<char>>>::empty());
        assert(outcome_recs(f, p.drop_first()) =~= Seq::<RecordV>::empty());
        assert(outcome_notes(f, p.drop_first()) =~= Seq::<Seq<char>>::empty());
        assert(p[0] == x);
        assert(outcome_recs(f, p) =~= outcome_recs(f, rows) + effect_recs(f(x)));
        assert(outcome_notes(f, p) =~= outcome_notes(f, rows) + effect_notes(f(x)));
    } else {
        assert(p.drop_first() =~= rows.drop_first().push(x));
        lemma_outcomes_push(f, rows.drop_first(), x);
        assert(p[0] == rows[0]);
        assert(outcome_recs(f, p) =~= outcome_recs(f, rows) + effect_recs(f(x)));
        assert(outcome_notes(f, p) =~= outcome_notes(f, rows) + effect_notes(f(x)));
    }
}

/// Every record an effect function can emit satisfying `p` row by row
/// satisfies `p` across the whole accumulated outcome.
pub proof fn lemma_outcome_recs_all(
    f: spec_fn(Seq<Seq<char>>) -> RowEffectV,
    rows: Seq<Seq<Seq<char>>>,
    p: spec_fn(RecordV) -> bool,
)
    requires
        forall|row: Seq<Seq<char>>| (#[trigger] f(row)).rec is Some ==> p(f(row).rec->Some_0),
    ensures
        forall|i: int|
            0 <= i < outcome_recs(f, rows).len() ==> p(#[trigger] outcome_recs(f, rows)[i]),
    decreases rows.len(),
{
    if rows.len() > 0 {
        lemma_outcome_recs_all(f, rows.drop_first(), p);
        let whole = outcome_recs(f, rows);
        let head = effect_recs(f(rows[0]));
        let rest = outcome_recs(f, rows.drop_first());
        assert forall|i: int| 0 <= i < whole.len() implies p(#[trigger] whole[i]) by {
            if i < head.len() {
                assert(whole[i] == f(rows[0]).rec->Some_0);
            } else {
                assert(whole[i] == rest[i - head.len()]);
            }
        }
    }
}

/// The column at `i`, or the empty text where the row is too short: a
/// missing optional column reads as an empty field.
pub open spec fn spec_field(row: Seq<Seq<char>>, i: int) -> Seq<char> {
    if 0 <= i < row.len() {
        row[i]
    } else {
        Seq::<char>::empty()
    }
}

pub fn get_field(row: &Vec<String>, i: usize) -> (r: Vec<char>)
    ensures
        r@ == spec_field(strs_view(row@), i as int),
{
    if i < row.len() {
        assert(strs_view(row@)[i as int] == row@[i as int]@);
        str_to_chars(row[i].as_str())
    } else {
        Vec::new()
    }
}

/// The header marker: the first column names the transaction-time label.
pub open spec fn marker_row(row: Seq<Seq<char>>) -> bool {
    contains_seq(spec_field(row, 0), "交易时间"@)
}

/// The rows after the true header row: preamble and banner lines before the
/// marker are discarded, and without a marker anywhere the table reads as
/// empty.
pub open spec fn after_header(rows: Seq<Seq<Seq<char>>>) -> Seq<Seq<Seq<char>>>
    decreases rows.len(),
{
    if rows.len() == 0 {
        rows
    } else if marker_row(rows[0]) {
        rows.drop_first()
    } else {
        after_header(rows.drop_first())
    }
}

pub proof fn lemma_after_header_at(rows: Seq<Seq<Seq<char>>>, h: int)
    requires
        0 <= h < rows.len(),
        marker_row(rows[h]),
        forall|k: int| 0 <= k < h ==> !marker_row(#[trigger] rows[k]),
    ensures
        after_header(rows) == rows.skip(h + 1),
    decreases h,
{
    if h == 0 {
        assert(rows.drop_first() =~= rows.skip(1));
    } else {
        assert(forall|k: int|
            0 <= k < h - 1 ==> rows.drop_first()[k] == #[trigger] rows[k + 1]);
        assert(rows.drop_first()[h - 1] == rows[h]);
        assert(forall|k: int| 0 <= k < h - 1 ==> !marker_row(#[trigger] rows.drop_first()[k]));
        lemma_after_header_at(rows.drop_first(), h - 1);
        assert(rows.drop_first().skip(h) =~= rows.skip(h + 1));
    }
}

pub proof fn lemma_after_header_none(rows: Seq<Seq<Seq<char>>>)
    requires
        forall|k: int| 0 <= k < rows.len() ==> !marker_row(#[trigger] rows[k]),
    ensures
        after_header(rows) == Seq::<Seq<Seq<char>>>::empty(),
    decreases rows.len(),
{
    if rows.len() > 0 {
        assert(forall|k: int|
            0 <= k < rows.len() - 1 ==> rows.drop_first()[k] == #[trigger] rows[k + 1]);
        lemma_after_header_none(rows.drop_first());
    }
}

/// A diagnostic note: the row's timestamp, the provider label, and the
/// message.
pub open spec fn note_text(time: Seq<char>, source: Seq<char>, msg: Seq<char>) -> Seq<char> {
    time + " "@ + source + ": "@ + msg
}

/// Builds a diagnostic note.
pub fn make_note(time: &Vec<char>, source: &str, msg: &str) -> (r: Vec<char>)
    ensures
        r@ == note_text(time@, source@, msg@),
{
    let mut out: Vec<char> = Vec::new();
    crate::text::append_chars(&mut out, time);
    crate::text::append_str(&mut out, " ");
    crate::text::append_str(&mut out, source);
    crate::text::append_str(&mut out, ": ");
    crate::text::append_str(&mut out, msg);
    assert(out@ =~= note_text(time@, source@, msg@));
    out
}

} // verus!
