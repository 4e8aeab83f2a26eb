//! The canonical ledger record, and the assembler that merges, sorts,
//! validates and serializes the records of all sources.

use vstd::prelude::*;
use vstd::string::StrSliceExecFns;
use vstd::string::StringExecFns;

use crate::ConvertError;
use crate::num::format_amount;
use crate::num::parse_amount;
use crate::num::lemma_amount_round_trip;
use crate::num::spec_format_amount;
use crate::num::spec_parse_amount;
use crate::outside::csv_parse;
use crate::outside::csv_rows;
use crate::outside::csv_text;
use crate::outside::csv_write;
use crate::outside::rows_view;
use crate::text::chars_to_string;
use crate::text::lex_le;
use crate::text::lex_le_exec;
use crate::text::lemma_lex_refl;
use crate::text::lemma_lex_total;
use crate::text::lemma_lex_trans;
use crate::text::str_to_chars;
use crate::text::strs_view;
use crate::text::append_str;
use crate::text::append_chars;

verus! {

/// The mathematical model of a ledger record: every text field as a
/// character sequence, the amount as a whole number of hundredths.
pub struct RecordV {
    pub date: Seq<char>,
    pub kind: Seq<char>,
    pub amount_cents: int,
    pub category1: Seq<char>,
    pub category2: Seq<char>,
    pub account1: Seq<char>,
    pub account2: Seq<char>,
    pub remark: Seq<char>,
    pub currency: Seq<char>,
    pub tag: Seq<char>,
    pub source: Seq<char>,
}

/// The canonical, source-agnostic ledger record. `kind` is the transaction
/// direction drawn from the closed set of expense, income, transfer and
/// refund labels; `amount_cents` is the non-negative magnitude in
/// hundredths, the sign living in `kind`; `account2` names the target
/// account of a transfer and is empty otherwise; `tag` is reserved for
/// manual post-processing and always empty at construction.
#[derive(Debug)]
pub struct OutputRecord {
    pub date: String,
    pub kind: String,
    pub amount_cents: u64,
    pub category1: String,
    pub category2: String,
    pub account1: String,
    pub account2: String,
    pub remark: String,
    pub currency: String,
    pub tag: String,
    pub source: String,
}

impl View for OutputRecord {
    type V = RecordV;

    open spec fn view(&self) -> RecordV {
        RecordV {
            date: self.date@,
            kind: self.kind@,
            amount_cents: self.amount_cents as int,
            category1: self.category1@,
            category2: self.category2@,
            account1: self.account1@,
            account2: self.account2@,
            remark: self.remark@,
            currency: self.currency@,
            tag: self.tag@,
            source: self.source@,
        }
    }
}

impl OutputRecord {
    /// A field-for-field copy.
    pub fn duplicate(&self) -> (r: OutputRecord)
        ensures
            r@ == self@,
    {
        OutputRecord {
            date: self.date.clone(),
            kind: self.kind.clone(),
            amount_cents: self.amount_cents,
            category1: self.category1.clone(),
            category2: self.category2.clone(),
            account1: self.account1.clone(),
            account2: self.account2.clone(),
            remark: self.remark.clone(),
            currency: self.currency.clone(),
            tag: self.tag.clone(),
            source: self.source.clone(),
        }
    }
}

impl PartialEq for OutputRecord {
    fn eq(&self, other: &Self) -> (r: bool) {
        self.date == other.date && self.kind == other.kind && self.amount_cents
            == other.amount_cents && self.category1 == other.category1 && self.category2
            == other.category2 && self.account1 == other.account1 && self.account2
            == other.account2 && self.remark == other.remark && self.currency == other.currency
            && self.tag == other.tag && self.source == other.source
    }
}

impl vstd::std_specs::cmp::PartialEqSpecImpl for OutputRecord {
    open spec fn obeys_eq_spec() -> bool {
        true
    }

    open spec fn eq_spec(&self, other: &Self) -> bool {
        self@ == other@
    }
}

/// The views of a sequence of records.
pub open spec fn recs_view(s: Seq<OutputRecord>) -> Seq<RecordV> {
    s.map_values(|r: OutputRecord| r@)
}

/// The closed set of transaction directions.
pub open spec fn valid_kind(k: Seq<char>) -> bool {
    k == "支出"@ || k == "收入"@ || k == "转账"@ || k == "退款"@
}

/// A structurally valid record: a direction from the closed set, a source
/// account, and — for a transfer — a target account.
pub open spec fn record_valid(r: RecordV) -> bool {
    valid_kind(r.kind) && r.account1.len() > 0 && (r.kind == "转账"@ ==> r.account2.len() > 0)
}

/// The canonical output row of a record, one text field per column.
pub open spec fn row_of_record(r: RecordV) -> Seq<Seq<char>> {
    seq![
        r.date,
        r.kind,
        spec_format_amount(r.amount_cents),
        r.category1,
        r.category2,
        r.account1,
        r.account2,
        r.remark,
        r.currency,
        r.tag,
        r.source,
    ]
}

/// The fixed localized column header of the canonical schema.
pub open spec fn header_row() -> Seq<Seq<char>> {
    seq![
        "日期"@,
        "类型"@,
        "金额"@,
        "一级分类"@,
        "二级分类"@,
        "账户1"@,
        "账户2"@,
        "备注"@,
        "货币"@,
        "标签"@,
        "来源"@,
    ]
}

/// The record a canonical row names, when its shape and amount are well
/// formed.
pub open spec fn record_of_row(row: Seq<Seq<char>>) -> Option<RecordV> {
    if row.len() == 11 && spec_parse_amount(row[2]) is Some {
        Some(
            RecordV {
                date: row[0],
                kind: row[1],
                amount_cents: spec_parse_amount(row[2])->Some_0,
                category1: row[3],
                category2: row[4],
                account1: row[5],
                account2: row[6],
                remark: row[7],
                currency: row[8],
                tag: row[9],
                source: row[10],
            },
        )
    } else {
        None
    }
}

/// Builds the canonical output row of a record.
pub fn record_to_row(r: &OutputRecord) -> (row: Vec<String>)
    ensures
        strs_view(row@) == row_of_record(r@),
{
    let mut row: Vec<String> = Vec::new();
    row.push(r.date.clone());
    row.push(r.kind.clone());
    row.push(chars_to_string(&format_amount(r.amount_cents)));
    row.push(r.category1.clone());
    row.push(r.category2.clone());
    row.push(r.account1.clone());
    row.push(r.account2.clone());
    row.push(r.remark.clone());
    row.push(r.currency.clone());
    row.push(r.tag.clone());
    row.push(r.source.clone());
    assert(strs_view(row@) =~= row_of_record(r@));
    row
}

/// Reads a canonical row back into a record; a row of the wrong width or
/// with an unreadable amount is a format error.
pub fn record_from_row(row: &Vec<String>) -> (r: Result<OutputRecord, ConvertError>)
    ensures
        match r {
            Ok(rec) => record_of_row(strs_view(row@)) == Some(rec@),
            Err(e) => record_of_row(strs_view(row@)) is None && e is Format,
        },
{
    if row.len() != 11 {
        return Err(ConvertError::Format(String::from_str("wrong column count")));
    }
    assert(forall|i: int| 0 <= i < row@.len() ==> strs_view(row@)[i] == #[trigger] row@[i]@);
    let amount_chars = str_to_chars(row[2].as_str());
    let cents = match parse_amount(&amount_chars) {
        Some(n) => n,
        None => {
            return Err(ConvertError::Format(String::from_str("unreadable amount")));
        },
    };
    Ok(
        OutputRecord {
            date: row[0].clone(),
            kind: row[1].clone(),
            amount_cents: cents,
            category1: row[3].clone(),
            category2: row[4].clone(),
            account1: row[5].clone(),
            account2: row[6].clone(),
            remark: row[7].clone(),
            currency: row[8].clone(),
            tag: row[9].clone(),
            source: row[10].clone(),
        },
    )
}

/// Round trip at the schema level: the canonical row written for a record
/// reads back as the very record, field for field — the serialization of the
/// canonical schema is lossless.
pub proof fn lemma_record_row_round_trip(r: RecordV)
    requires
        0 <= r.amount_cents <= u64::MAX,
    ensures
        record_of_row(row_of_record(r)) == Some(r),
{
    lemma_amount_round_trip(r.amount_cents as u64);
}

// ---------------------------------------------------------------------------
// Sorting: stable insertion sort, descending by the canonical date text.
// ---------------------------------------------------------------------------

/// Inserts `x` into a descending-sorted sequence, after every record whose
/// date is not strictly below — so a record entering later stays behind its
/// date-equals.
pub open spec fn insert_desc(x: RecordV, s: Seq<RecordV>) -> Seq<RecordV>
    decreases s.len(),
{
    if s.len() == 0 {
        seq![x]
    } else if lex_le(x.date, s[0].date) {
        seq![s[0]] + insert_desc(x, s.drop_first())
    } else {
        seq![x] + s
    }
}

/// The stable descending sort by date.
pub open spec fn sort_desc(s: Seq<RecordV>) -> Seq<RecordV>
    decreases s.len(),
{
    if s.len() == 0 {
        s
    } else {
        insert_desc(s.last(), sort_desc(s.drop_last()))
    }
}

/// Non-increasing by date.
pub open spec fn sorted_desc(s: Seq<RecordV>) -> bool {
    forall|i: int, j: int| 0 <= i < j < s.len() ==> lex_le(s[j].date, s[i].date)
}

/// The subsequence of records carrying the date `d`, in their original
/// order.
pub open spec fn date_filter(s: Seq<RecordV>, d: Seq<char>) -> Seq<RecordV>
    decreases s.len(),
{
    if s.len() == 0 {
        s
    } else {
        let rest = date_filter(s.drop_first(), d);
        if s[0].date == d {
            seq![s[0]] + rest
        } else {
            rest
        }
    }
}

/// Every element of the insertion stays below any common upper bound.
proof fn lemma_insert_desc_ub(x: RecordV, s: Seq<RecordV>, ub: Seq<char>)
    requires
        lex_le(x.date, ub),
        forall|k: int| 0 <= k < s.len() ==> lex_le(#[trigger] s[k].date, ub),
    ensures
        forall|k: int|
            0 <= k < insert_desc(x, s).len() ==> lex_le(#[trigger] insert_desc(x, s)[k].date, ub),
    decreases s.len(),
{
    if s.len() == 0 {
    } else if lex_le(x.date, s[0].date) {
        assert(forall|k: int|
            0 <= k < s.drop_first().len() ==> lex_le(#[trigger] s.drop_first()[k].date, ub));
        lemma_insert_desc_ub(x, s.drop_first(), ub);
        let r = insert_desc(x, s);
        let ins = insert_desc(x, s.drop_first());
        assert(forall|k: int| 1 <= k < r.len() ==> r[k] == ins[k - 1]);
    } else {
        let r = insert_desc(x, s);
        assert(forall|k: int| 1 <= k < r.len() ==> r[k] == s[k - 1]);
    }
}

proof fn lemma_insert_desc_sorted(x: RecordV, s: Seq<RecordV>)
    requires
        sorted_desc(s),
    ensures
        sorted_desc(insert_desc(x, s)),
    decreases s.len(),
{
    if s.len() == 0 {
    } else if lex_le(x.date, s[0].date) {
        let tail = s.drop_first();
        assert(forall|i: int, j: int|
            0 <= i < j < tail.len() ==> lex_le(#[trigger] tail[j].date, #[trigger] tail[i].date));
        lemma_insert_desc_sorted(x, tail);
        assert(forall|k: int| 0 <= k < tail.len() ==> lex_le(#[trigger] tail[k].date, s[0].date));
        lemma_insert_desc_ub(x, tail, s[0].date);
        let r = insert_desc(x, s);
        let ins = insert_desc(x, tail);
        assert(forall|k: int| 1 <= k < r.len() ==> r[k] == ins[k - 1]);
        assert forall|i: int, j: int| 0 <= i < j < r.len() implies lex_le(
            r[j].date,
            r[i].date,
        ) by {
            if i == 0 {
                assert(lex_le(ins[j - 1].date, s[0].date));
            } else {
                assert(lex_le(ins[j - 1].date, ins[i - 1].date));
            }
        }
    } else {
        lemma_lex_total(x.date, s[0].date);
        let r = insert_desc(x, s);
        assert(forall|k: int| 1 <= k < r.len() ==> r[k] == s[k - 1]);
        assert forall|i: int, j: int| 0 <= i < j < r.len() implies lex_le(
            r[j].date,
            r[i].date,
        ) by {
            if i == 0 {
                if j == 1 {
                    assert(lex_le(s[0].date, x.date));
                } else {
                    assert(lex_le(s[j - 1].date, s[0].date));
                    lemma_lex_trans(s[j - 1].date, s[0].date, x.date);
                }
            } else {
                assert(lex_le(s[j - 1].date, s[i - 1].date));
            }
        }
    }
}

proof fn lemma_date_filter_empty(s: Seq<RecordV>, d: Seq<char>)
    requires
        forall|k: int| 0 <= k < s.len() ==> (#[trigger] s[k].date) != d,
    ensures
        date_filter(s, d) == Seq::<RecordV>::empty(),
    decreases s.len(),
{
    if s.len() > 0 {
        assert(forall|k: int|
            0 <= k < s.drop_first().len() ==> (#[trigger] s.drop_first()[k].date) != d);
        lemma_date_filter_empty(s.drop_first(), d);
        assert(date_filter(s, d) =~= Seq::<RecordV>::empty());
    }
}

proof fn lemma_date_filter_push(s: Seq<RecordV>, e: RecordV, d: Seq<char>)
    ensures
        date_filter(s.push(e), d) == if e.date == d {
            date_filter(s, d).push(e)
        } else {
            date_filter(s, d)
        },
    decreases s.len(),
{
    let p = s.push(e);
    if s.len() == 0 {
        assert(p.drop_first() =~= Seq::<RecordV>::empty());
        assert(date_filter(p.drop_first(), d) =~= Seq::<RecordV>::empty());
        assert(p[0] == e);
        if e.date == d {
            assert(date_filter(p, d) =~= date_filter(s, d).push(e));
        } else {
            assert(date_filter(p, d) =~= date_filter(s, d));
        }
    } else {
        assert(p.drop_first() =~= s.drop_first().push(e));
        lemma_date_filter_push(s.drop_first(), e, d);
        assert(p[0] == s[0]);
        if e.date == d {
            assert(date_filter(p, d) =~= date_filter(s, d).push(e));
        } else {
            assert(date_filter(p, d) =~= date_filter(s, d));
        }
    }
}

proof fn lemma_insert_desc_filter(x: RecordV, s: Seq<RecordV>, d: Seq<char>)
    requires
        sorted_desc(s),
    ensures
        date_filter(insert_desc(x, s), d) == if x.date == d {
            date_filter(s, d).push(x)
        } else {
            date_filter(s, d)
        },
    decreases s.len(),
{
    let r = insert_desc(x, s);
    if s.len() == 0 {
        assert(r.drop_first() =~= Seq::<RecordV>::empty());
        assert(date_filter(r.drop_first(), d) =~= Seq::<RecordV>::empty());
        assert(r[0] == x);
        if x.date == d {
            assert(date_filter(r, d) =~= date_filter(s, d).push(x));
        } else {
            assert(date_filter(r, d) =~= date_filter(s, d));
        }
    } else if lex_le(x.date, s[0].date) {
        let tail = s.drop_first();
        assert(forall|i: int, j: int|
            0 <= i < j < tail.len() ==> lex_le(#[trigger] tail[j].date, #[trigger] tail[i].date));
        lemma_insert_desc_filter(x, tail, d);
        let ins = insert_desc(x, tail);
        assert(r == seq![s[0]] + ins);
        assert(r[0] == s[0]);
        assert(r.drop_first() =~= ins);
        if x.date == d {
            if s[0].date == d {
                assert(date_filter(r, d) =~= (seq![s[0]] + date_filter(tail, d)).push(x));
                assert(date_filter(s, d) =~= seq![s[0]] + date_filter(tail, d));
            } else {
                assert(date_filter(r, d) =~= date_filter(tail, d).push(x));
                assert(date_filter(s, d) =~= date_filter(tail, d));
            }
        } else {
            if s[0].date == d {
                assert(date_filter(r, d) =~= seq![s[0]] + date_filter(tail, d));
                assert(date_filter(s, d) =~= seq![s[0]] + date_filter(tail, d));
            } else {
                assert(date_filter(r, d) =~= date_filter(tail, d));
                assert(date_filter(s, d) =~= date_filter(tail, d));
            }
        }
    } else {
        assert(r == seq![x] + s);
        assert(r[0] == x);
        assert(r.drop_first() =~= s);
        if x.date == d {
            // below the insertion point no record carries this date: any such
            // record would order the new one above the head, against the
            // stopping test
            assert forall|k: int| 0 <= k < s.len() implies (#[trigger] s[k].date) != d by {
                if s[k].date == d {
                    lemma_lex_refl(x.date);
                    if k > 0 {
                        lemma_lex_trans(x.date, s[k].date, s[0].date);
                    }
                    assert(lex_le(x.date, s[0].date));
                }
            }
            lemma_date_filter_empty(s, d);
            assert(date_filter(r, d) =~= seq![x] + date_filter(s, d));
            assert(seq![x] + date_filter(s, d) =~= date_filter(s, d).push(x));
        } else {
            assert(date_filter(r, d) =~= date_filter(s, d));
        }
    }
}

/// The assembler's ordering law: the sort leaves the record set
/// non-increasing by the canonical date text, and it is stable — for every
/// date, the records carrying it keep their original relative order. The two
/// clauses pin the sorted sequence completely.
pub proof fn lemma_sort_desc_stable(s: Seq<RecordV>)
    ensures
        sorted_desc(sort_desc(s)),
        forall|d: Seq<char>| #[trigger] date_filter(sort_desc(s), d) == date_filter(s, d),
    decreases s.len(),
{
    if s.len() > 0 {
        let dl = s.drop_last();
        lemma_sort_desc_stable(dl);
        lemma_insert_desc_sorted(s.last(), sort_desc(dl));
        assert forall|d: Seq<char>| #[trigger] date_filter(sort_desc(s), d) == date_filter(
            s,
            d,
        ) by {
            lemma_insert_desc_filter(s.last(), sort_desc(dl), d);
            lemma_date_filter_push(dl, s.last(), d);
            assert(dl.push(s.last()) =~= s);
        }
    }
}

fn date_le(a: &String, b: &String) -> (r: bool)
    ensures
        r == lex_le(a@, b@),
{
    let va = str_to_chars(a.as_str());
    let vb = str_to_chars(b.as_str());
    lex_le_exec(&va, &vb)
}

fn insert_record(out: &mut Vec<OutputRecord>, x: OutputRecord)
    ensures
        recs_view(final(out)@) == insert_desc(x@, recs_view(old(out)@)),
{
    let mut pos: usize = 0;
    while pos < out.len() && date_le(&x.date, &out[pos].date)
        invariant
            pos <= out@.len(),
            out@ == old(out)@,
            forall|k: int| 0 <= k < pos ==> lex_le(x@.date, #[trigger] out@[k]@.date),
        decreases out@.len() - pos,
    {
        pos = pos + 1;
    }
    proof {
        lemma_insert_desc_at(x@, recs_view(out@), pos as int);
    }
    out.insert(pos, x);
    assert(recs_view(out@) =~= recs_view(old(out)@).take(pos as int) + seq![x@] + recs_view(
        old(out)@,
    ).skip(pos as int));
}

proof fn lemma_insert_desc_at(x: RecordV, s: Seq<RecordV>, p: int)
    requires
        0 <= p <= s.len(),
        forall|k: int| 0 <= k < p ==> lex_le(x.date, #[trigger] s[k].date),
        p < s.len() ==> !lex_le(x.date, s[p].date),
    ensures
        insert_desc(x, s) == s.take(p) + seq![x] + s.skip(p),
    decreases p,
{
    if p == 0 {
        if s.len() == 0 {
            assert(insert_desc(x, s) =~= s.take(0) + seq![x] + s.skip(0));
        } else {
            assert(insert_desc(x, s) =~= s.take(0) + seq![x] + s.skip(0));
        }
    } else {
        let tail = s.drop_first();
        assert(forall|k: int| 0 <= k < p - 1 ==> lex_le(x.date, #[trigger] tail[k].date));
        assert(p - 1 < tail.len() ==> !lex_le(x.date, tail[p - 1].date));
        lemma_insert_desc_at(x, tail, p - 1);
        assert(insert_desc(x, s) == seq![s[0]] + insert_desc(x, tail));
        assert(seq![s[0]] + (tail.take(p - 1) + seq![x] + tail.skip(p - 1)) =~= s.take(p)
            + seq![x] + s.skip(p));
    }
}

impl OutputRecord {
    /// Sorts the merged records in place: descending by the canonical date
    /// text, stable across the records of all sources.
    pub fn sort_by_time(records: &mut Vec<OutputRecord>)
        ensures
            recs_view(final(records)@) == sort_desc(recs_view(old(records)@)),
            sorted_desc(recs_view(final(records)@)),
            forall|d: Seq<char>|
                #[trigger] date_filter(recs_view(final(records)@), d) == date_filter(
                    recs_view(old(records)@),
                    d,
                ),
    {
        let mut out: Vec<OutputRecord> = Vec::new();
        assert(recs_view(records@.take(0)) =~= Seq::<RecordV>::empty());
        let mut i: usize = 0;
        while i < records.len()
            invariant
                i <= records@.len(),
                records@ == old(records)@,
                recs_view(out@) == sort_desc(recs_view(records@.take(i as int))),
            decreases records@.len() - i,
        {
            let x = records[i].duplicate();
            insert_record(&mut out, x);
            i = i + 1;
            proof {
                let t = recs_view(records@.take(i as int));
                assert(t.drop_last() =~= recs_view(records@.take(i - 1)));
                assert(t.last() == records@[i - 1]@);
            }
        }
        assert(records@.take(i as int) =~= records@);
        *records = out;
        proof {
            lemma_sort_desc_stable(recs_view(old(records)@));
        }
    }
}

// ---------------------------------------------------------------------------
// Structural validation.
// ---------------------------------------------------------------------------

/// The warning a record draws from the structural check, if any: an unknown
/// direction, a missing source account, or a transfer without a target.
pub open spec fn record_warning(r: RecordV) -> Option<Seq<char>> {
    if !valid_kind(r.kind) {
        Some("未知的交易方向: "@ + r.kind + ", 日期: "@ + r.date)
    } else if r.account1.len() == 0 {
        Some("账户1为空: "@ + r.date)
    } else if r.kind == "转账"@ && r.account2.len() == 0 {
        Some("转账时账户2为空: "@ + r.date)
    } else {
        None
    }
}

/// All warnings of a record sequence, in order.
pub open spec fn check_warnings(s: Seq<RecordV>) -> Seq<Seq<char>>
    decreases s.len(),
{
    if s.len() == 0 {
        Seq::<Seq<char>>::empty()
    } else {
        let rest = check_warnings(s.drop_first());
        match record_warning(s[0]) {
            Some(w) => seq![w] + rest,
            None => rest,
        }
    }
}

proof fn lemma_check_warnings_push(s: Seq<RecordV>, e: RecordV)
    ensures
        check_warnings(s.push(e)) == check_warnings(s) + match record_warning(e) {
            Some(w) => seq![w],
            None => Seq::<Seq<char>>::empty(),
        },
    decreases s.len(),
{
    let p = s.push(e);
    if s.len() == 0 {
        assert(p.drop_first() =~= Seq::<RecordV>::empty());
        assert(check_warnings(p.drop_first()) =~= Seq::<Seq<char>>::empty());
        assert(p[0] == e);
        match record_warning(e) {
            Some(w) => {
                assert(check_warnings(p) =~= check_warnings(s) + seq![w]);
            },
            None => {
                assert(check_warnings(p) =~= check_warnings(s) + Seq::<Seq<char>>::empty());
            },
        }
    } else {
        assert(p.drop_first() =~= s.drop_first().push(e));
        lemma_check_warnings_push(s.drop_first(), e);
        assert(p[0] == s[0]);
        match record_warning(e) {
            Some(w) => {
                assert(check_warnings(p) =~= check_warnings(s) + seq![w]);
            },
            None => {
                assert(check_warnings(p) =~= check_warnings(s) + Seq::<Seq<char>>::empty());
            },
        }
    }
}

/// No warnings means every record is structurally valid, and conversely.
pub proof fn lemma_check_warnings_empty(s: Seq<RecordV>)
    ensures
        check_warnings(s).len() == 0 <==> (forall|i: int|
            0 <= i < s.len() ==> record_valid(#[trigger] s[i])),
    decreases s.len(),
{
    if s.len() > 0 {
        lemma_check_warnings_empty(s.drop_first());
        assert(forall|i: int| 1 <= i < s.len() ==> s.drop_first()[i - 1] == #[trigger] s[i]);
        assert(record_warning(s[0]) is None <==> record_valid(s[0]));
        if check_warnings(s).len() == 0 {
            assert forall|i: int| 0 <= i < s.len() implies record_valid(#[trigger] s[i]) by {
                if i > 0 {
                    assert(s.drop_first()[i - 1] == s[i]);
                }
            }
        }
    }
}

/// Validation passed implies every transfer names its target account.
pub proof fn lemma_transfer_has_target(s: Seq<RecordV>, i: int)
    requires
        check_warnings(s).len() == 0,
        0 <= i < s.len(),
        s[i].kind == "转账"@,
    ensures
        s[i].account2.len() > 0,
{
    lemma_check_warnings_empty(s);
}

impl OutputRecord {
    /// Runs the structural check over the whole merged set and returns every
    /// violation, one warning per bad record; the caller aborts the run when
    /// any warning came back, so nothing partially invalid is ever written.
    pub fn check(records: &Vec<OutputRecord>) -> (warnings: Vec<String>)
        ensures
            strs_view(warnings@) == check_warnings(recs_view(records@)),
            warnings@.len() == 0 <==> (forall|i: int|
                0 <= i < records@.len() ==> record_valid(#[trigger] recs_view(records@)[i])),
    {
        let mut warnings: Vec<String> = Vec::new();
        assert(recs_view(records@.take(0)) =~= Seq::<RecordV>::empty());
        assert(strs_view(warnings@) =~= check_warnings(recs_view(records@.take(0))));
        let mut i: usize = 0;
        while i < records.len()
            invariant
                i <= records@.len(),
                strs_view(warnings@) == check_warnings(recs_view(records@.take(i as int))),
            decreases records@.len() - i,
        {
            let r = &records[i];
            let ghost prev = warnings@;
            let kind = str_to_chars(r.kind.as_str());
            let known = crate::text::chars_eq_str(&kind, "支出") || crate::text::chars_eq_str(
                &kind,
                "收入",
            ) || crate::text::chars_eq_str(&kind, "转账") || crate::text::chars_eq_str(
                &kind,
                "退款",
            );
            if !known {
                let mut w: Vec<char> = Vec::new();
                append_str(&mut w, "未知的交易方向: ");
                append_chars(&mut w, &kind);
                append_str(&mut w, ", 日期: ");
                let datec = str_to_chars(r.date.as_str());
                append_chars(&mut w, &datec);
                warnings.push(chars_to_string(&w));
                assert(w@ == record_warning(r@)->Some_0);
            } else if r.account1.as_str().unicode_len() == 0 {
                let mut w: Vec<char> = Vec::new();
                append_str(&mut w, "账户1为空: ");
                let datec = str_to_chars(r.date.as_str());
                append_chars(&mut w, &datec);
                warnings.push(chars_to_string(&w));
                assert(w@ == record_warning(r@)->Some_0);
            } else if crate::text::chars_eq_str(&kind, "转账") && r.account2.as_str().unicode_len()
                == 0 {
                let mut w: Vec<char> = Vec::new();
                append_str(&mut w, "转账时账户2为空: ");
                let datec = str_to_chars(r.date.as_str());
                append_chars(&mut w, &datec);
                warnings.push(chars_to_string(&w));
                assert(w@ == record_warning(r@)->Some_0);
            } else {
                assert(record_warning(r@) is None);
            }
            i = i + 1;
            proof {
                let t = recs_view(records@.take(i as int));
                assert(t.drop_last() =~= recs_view(records@.take(i - 1)));
                assert(t =~= recs_view(records@.take(i - 1)).push(records@[i - 1]@));
                lemma_check_warnings_push(recs_view(records@.take(i - 1)), records@[i - 1]@);
                match record_warning(records@[i - 1]@) {
                    Some(w) => {
                        assert(strs_view(warnings@) =~= strs_view(prev).push(w));
                        assert(strs_view(warnings@) =~= check_warnings(t));
                    },
                    None => {
                        assert(strs_view(warnings@) =~= check_warnings(t));
                    },
                }
            }
        }
        assert(records@.take(i as int) =~= records@);
        proof {
            lemma_check_warnings_empty(recs_view(records@));
        }
        warnings
    }
}

// ---------------------------------------------------------------------------
// Serialization of the canonical schema.
// ---------------------------------------------------------------------------

/// The full output table: the fixed header, then one row per record.
pub open spec fn spec_output_rows(s: Seq<RecordV>) -> Seq<Seq<Seq<char>>> {
    seq![header_row()] + s.map_values(|r: RecordV| row_of_record(r))
}

/// The canonical output text of a record sequence.
pub open spec fn spec_write(s: Seq<RecordV>) -> Seq<char> {
    csv_text(spec_output_rows(s))
}

impl OutputRecord {
    /// Serializes the ordered records to the canonical delimited text, the
    /// fixed localized header first; the caller persists the text.
    pub fn write(records: &Vec<OutputRecord>) -> (text: String)
        ensures
            text@ == spec_write(recs_view(records@)),
    {
        let mut rows: Vec<Vec<String>> = Vec::new();
        let mut header: Vec<String> = Vec::new();
        header.push(String::from_str("日期"));
        header.push(String::from_str("类型"));
        header.push(String::from_str("金额"));
        header.push(String::from_str("一级分类"));
        header.push(String::from_str("二级分类"));
        header.push(String::from_str("账户1"));
        header.push(String::from_str("账户2"));
        header.push(String::from_str("备注"));
        header.push(String::from_str("货币"));
        header.push(String::from_str("标签"));
        header.push(String::from_str("来源"));
        assert(strs_view(header@) =~= header_row());
        rows.push(header);
        assert(rows_view(rows@) =~= spec_output_rows(recs_view(records@.take(0))));
        let mut i: usize = 0;
        while i < records.len()
            invariant
                i <= records@.len(),
                rows_view(rows@) == spec_output_rows(recs_view(records@.take(i as int))),
            decreases records@.len() - i,
        {
            let row = record_to_row(&records[i]);
            let ghost prev_rows = rows@;
            let ghost row_v = row@;
            rows.push(row);
            i = i + 1;
            proof {
                let prev_t = recs_view(records@.take(i - 1));
                let t = recs_view(records@.take(i as int));
                assert(t =~= prev_t.push(records@[i - 1]@));
                assert(rows_view(rows@) =~= rows_view(prev_rows).push(
                    row_v.map_values(|f: String| f@),
                ));
                assert(row_v.map_values(|f: String| f@) =~= strs_view(row_v));
                assert(spec_output_rows(t) =~= spec_output_rows(prev_t).push(
                    row_of_record(records@[i - 1]@),
                ));
                assert(rows_view(rows@) =~= spec_output_rows(t));
            }
        }
        assert(records@.take(i as int) =~= records@);
        csv_write(&rows)
    }
}

/// The records named by a table of canonical rows; `None` as soon as one
/// row is malformed.
pub open spec fn records_of_rows(rows: Seq<Seq<Seq<char>>>) -> Option<Seq<RecordV>>
    decreases rows.len(),
{
    if rows.len() == 0 {
        Some(Seq::<RecordV>::empty())
    } else {
        match record_of_row(rows[0]) {
            Some(r) => match records_of_rows(rows.drop_first()) {
                Some(rest) => Some(seq![r] + rest),
                None => None,
            },
            None => None,
        }
    }
}

proof fn lemma_records_of_rows_push(rows: Seq<Seq<Seq<char>>>, x: Seq<Seq<char>>)
    ensures
        records_of_rows(rows.push(x)) == match (records_of_rows(rows), record_of_row(x)) {
            (Some(rest), Some(r)) => Some(rest.push(r)),
            _ => None,
        },
    decreases rows.len(),
{
    let p = rows.push(x);
    if rows.len() == 0 {
        assert(p.drop_first() =~= Seq::<Seq<Seq<char>>>::empty());
        assert(records_of_rows(p.drop_first()) == Some(Seq::<RecordV>::empty()));
        assert(p[0] == x);
        match record_of_row(x) {
            Some(r) => {
                assert(seq![r] + Seq::<RecordV>::empty() =~= Seq::<RecordV>::empty().push(r));
            },
            None => {},
        }
    } else {
        assert(p.drop_first() =~= rows.drop_first().push(x));
        lemma_records_of_rows_push(rows.drop_first(), x);
        assert(p[0] == rows[0]);
        match (record_of_row(rows[0]), records_of_rows(rows.drop_first()), record_of_row(x)) {
            (Some(r0), Some(rest), Some(r)) => {
                assert(seq![r0] + rest.push(r) =~= (seq![r0] + rest).push(r));
            },
            _ => {},
        }
    }
}

/// Reads a canonical output text back into records; the first malformed row
/// is a format error.
pub fn read_output(text: &str) -> (r: Result<Vec<OutputRecord>, ConvertError>)
    ensures
        match r {
            Ok(v) => records_of_rows(csv_rows(text@)) == Some(recs_view(v@)),
            Err(e) => records_of_rows(csv_rows(text@)) is None && e is Format,
        },
{
    let rows = csv_parse(text);
    let ghost rv = csv_rows(text@);
    assert(forall|k: int| 0 <= k < rows@.len() ==> rows_view(rows@)[k] == #[trigger] rv[k]);
    let mut out: Vec<OutputRecord> = Vec::new();
    assert(rv.take(0) =~= Seq::<Seq<Seq<char>>>::empty());
    assert(recs_view(out@) =~= Seq::<RecordV>::empty());
    let mut i: usize = 0;
    while i < rows.len()
        invariant
            i <= rows@.len(),
            rows@.len() == rv.len(),
            forall|k: int| 0 <= k < rows@.len() ==> strs_view(rows@[k]@) == #[trigger] rv[k],
            records_of_rows(rv.take(i as int)) == Some(recs_view(out@)),
        decreases rows@.len() - i,
    {
        let rec = match record_from_row(&rows[i]) {
            Ok(rec) => rec,
            Err(e) => {
                proof {
                    lemma_records_of_rows_prefix_none(rv, i as int);
                }
                return Err(e);
            },
        };
        let ghost prev = out@;
        out.push(rec);
        i = i + 1;
        proof {
            assert(rv.take(i as int) =~= rv.take(i - 1).push(rv[i - 1]));
            lemma_records_of_rows_push(rv.take(i - 1), rv[i - 1]);
            assert(recs_view(out@) =~= recs_view(prev).push(rec@));
        }
        assert(records_of_rows(rv.take(i as int)) == Some(recs_view(out@)));
    }
    assert(rv.take(i as int) =~= rv);
    Ok(out)
}

/// A malformed row anywhere leaves the whole table unreadable.
proof fn lemma_records_of_rows_prefix_none(rows: Seq<Seq<Seq<char>>>, i: int)
    requires
        0 <= i < rows.len(),
        record_of_row(rows[i]) is None,
    ensures
        records_of_rows(rows) is None,
    decreases i,
{
    if i == 0 {
    } else {
        assert(rows.drop_first()[i - 1] == rows[i]);
        lemma_records_of_rows_prefix_none(rows.drop_first(), i - 1);
    }
}

/// Round trip over a whole record set: the table written for any records
/// reads back as the very records.
pub proof fn lemma_records_round_trip(s: Seq<RecordV>)
    requires
        forall|i: int| 0 <= i < s.len() ==> 0 <= (#[trigger] s[i]).amount_cents <= u64::MAX,
    ensures
        records_of_rows(s.map_values(|r: RecordV| row_of_record(r))) == Some(s),
    decreases s.len(),
{
    let rows = s.map_values(|r: RecordV| row_of_record(r));
    if s.len() == 0 {
        assert(rows.len() == 0);
    } else {
        assert(forall|i: int|
            0 <= i < s.drop_first().len() ==> s.drop_first()[i] == #[trigger] s[i + 1]);
        lemma_records_round_trip(s.drop_first());
        lemma_record_row_round_trip(s[0]);
        assert(rows[0] == row_of_record(s[0]));
        assert(rows.drop_first() =~= s.drop_first().map_values(|r: RecordV| row_of_record(r)));
        assert(seq![s[0]] + s.drop_first() =~= s);
    }
}

} // verus!
