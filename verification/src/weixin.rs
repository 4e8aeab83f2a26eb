//! The adapter of the second provider: UTF-8 exports whose rows carry time,
//! declared type, counterparty, remark, direction, amount, paying account
//! and status columns. The adapter drops fully-refunded rows, carves the
//! sweep into the yield sub-account back into a transfer, reclassifies
//! wallet deposits as income, decorates the shared accounts, infers
//! categories, and normalizes the timestamp. The currency tag is set only
//! when the raw amount carries the local currency glyph.
//!
//! A row whose amount or timestamp cannot be read yields a diagnostic note
//! and is dropped; the file's other rows still convert — the row-scoped
//! failure policy.

use vstd::prelude::*;

use crate::arguments::User;
use crate::arguments::spec_user_suffix;
use crate::arguments::user_suffix;
use crate::num::parse_amount;
use crate::num::spec_parse_amount;
use crate::datefmt::normalize_date;
use crate::datefmt::spec_normalize_date;
use crate::output::OutputRecord;
use crate::output::RecordV;
use crate::output::recs_view;
use crate::outside::csv_parse;
use crate::outside::csv_rows;
use crate::outside::utf8_decoded;
use crate::outside::utf8_to_string;
use crate::outside::rows_view;
use crate::rowproc::RowEffectV;
use crate::rowproc::after_header;
use crate::rowproc::get_field;
use crate::rowproc::lemma_after_header_at;
use crate::rowproc::lemma_after_header_none;
use crate::rowproc::lemma_outcome_recs_all;
use crate::rowproc::lemma_outcomes_push;
use crate::rowproc::make_note;
use crate::rowproc::marker_row;
use crate::rowproc::note_text;
use crate::rowproc::outcome_notes;
use crate::rowproc::outcome_recs;
use crate::rowproc::spec_field;
use crate::text::append_chars;
use crate::text::append_str;
use crate::text::chars_contains_str;
use crate::text::chars_eq_str;
use crate::text::chars_to_string;
use crate::text::contains_seq;
use crate::text::str_to_chars;
use crate::text::strs_view;

verus! {

/// The provider label on records and diagnostics.
pub open spec fn source_label() -> Seq<char> {
    "微信"@
}

/// Owner decoration of the two accounts shared between household members;
/// any other account passes through unchanged.
pub open spec fn spec_append_user_postfix(account: Seq<char>, user: User) -> Seq<char> {
    if account == "零钱"@ || account == "微信零钱通"@ {
        account + spec_user_suffix(user)
    } else {
        account
    }
}

/// Category inference: transfers short-circuit to empty categories; the
/// counterparty substring rules assign first, and the remark substring rule
/// overrides them.
pub open spec fn spec_filter_category(
    counterparty: Seq<char>,
    remark: Seq<char>,
    direction: Seq<char>,
) -> (Seq<char>, Seq<char>) {
    if direction == "转账"@ {
        (Seq::<char>::empty(), Seq::<char>::empty())
    } else if contains_seq(remark, "霸王茶姬"@) {
        ("餐饮"@, "饮料"@)
    } else if contains_seq(counterparty, "禹泉水处理设备"@) {
        ("账单"@, "水费"@)
    } else if contains_seq(counterparty, "北京市顺义区妇幼保健院"@) {
        ("医疗"@, "门诊"@)
    } else if contains_seq(counterparty, "易寄件"@) {
        ("杂项"@, "快递费"@)
    } else if contains_seq(counterparty, "顺义鑫绿都生活超市后沙峪店"@) {
        ("食材"@, "蔬菜"@)
    } else if contains_seq(counterparty, "永辉超市"@) {
        ("食材"@, "蔬菜"@)
    } else {
        ("未知"@, Seq::<char>::empty())
    }
}

/// The currency tag of a raw amount: the local code when the field opens
/// with the local currency glyph, otherwise left empty.
pub open spec fn spec_currency(amount_raw: Seq<char>) -> Seq<char> {
    if amount_raw.len() > 0 && amount_raw[0] == '¥' {
        "CNY"@
    } else {
        Seq::<char>::empty()
    }
}

/// What one raw row of this provider yields.
pub open spec fn row_effect(row: Seq<Seq<char>>, user: User) -> RowEffectV {
    let time = spec_field(row, 0);
    let kind0 = spec_field(row, 1);
    let counterparty = spec_field(row, 2);
    let remark0 = spec_field(row, 3);
    let direction0 = spec_field(row, 4);
    let amount_raw = spec_field(row, 5);
    let account_raw = spec_field(row, 6);
    let status = spec_field(row, 7);
    if spec_parse_amount(amount_raw) is None {
        RowEffectV {
            rec: None,
            note: Some(note_text(time, source_label(), "不支持的金额输入格式"@)),
        }
    } else {
        let cents = spec_parse_amount(amount_raw)->Some_0;
        if status == "已全额退款"@ {
            RowEffectV {
                rec: None,
                note: Some(note_text(time, source_label(), "跳过全额退款交易"@)),
            }
        } else {
            let carve = direction0 == "/"@ && contains_seq(kind0, "转入零钱通"@);
            let direction1 = if carve {
                "转账"@
            } else {
                direction0
            };
            let from1 = if carve {
                "零钱"@
            } else {
                account_raw
            };
            let to1 = if carve {
                "微信零钱通"@
            } else {
                Seq::<char>::empty()
            };
            let remark1 = if carve {
                kind0
            } else {
                remark0
            };
            let deposited = status == "已存入零钱"@ && from1 == "/"@;
            let direction2 = if deposited {
                "收入"@
            } else {
                direction1
            };
            let from2 = if deposited {
                "零钱"@
            } else {
                from1
            };
            if spec_normalize_date(time, '/', false) is None {
                RowEffectV {
                    rec: None,
                    note: Some(note_text(time, source_label(), "日期时间格式不正确"@)),
                }
            } else {
                let cat = spec_filter_category(counterparty, remark1, direction2);
                RowEffectV {
                    rec: Some(
                        RecordV {
                            date: spec_normalize_date(time, '/', false)->Some_0,
                            kind: direction2,
                            amount_cents: cents,
                            category1: cat.0,
                            category2: cat.1,
                            account1: spec_append_user_postfix(from2, user),
                            account2: spec_append_user_postfix(to1, user),
                            remark: remark1 + ": "@ + counterparty,
                            currency: spec_currency(amount_raw),
                            tag: Seq::<char>::empty(),
                            source: source_label(),
                        },
                    ),
                    note: None,
                }
            }
        }
    }
}

pub open spec fn effect_fn(user: User) -> spec_fn(Seq<Seq<char>>) -> RowEffectV {
    |row: Seq<Seq<char>>| row_effect(row, user)
}

/// The records this provider's file text yields.
pub open spec fn spec_records(text: Seq<char>, user: User) -> Seq<RecordV> {
    outcome_recs(effect_fn(user), after_header(csv_rows(text)))
}

/// The diagnostic notes this provider's file text yields.
pub open spec fn spec_notes(text: Seq<char>, user: User) -> Seq<Seq<char>> {
    outcome_notes(effect_fn(user), after_header(csv_rows(text)))
}

/// Decorates a shared account for its owner.
pub fn append_user_postfix(account: &str, user: &User) -> (r: String)
    ensures
        r@ == spec_append_user_postfix(account@, *user),
{
    let v = str_to_chars(account);
    let out = append_postfix_chars(&v, user);
    chars_to_string(&out)
}

fn append_postfix_chars(account: &Vec<char>, user: &User) -> (r: Vec<char>)
    ensures
        r@ == spec_append_user_postfix(account@, *user),
{
    let mut out: Vec<char> = Vec::new();
    append_chars(&mut out, account);
    if chars_eq_str(&out, "零钱") || chars_eq_str(&out, "微信零钱通") {
        append_str(&mut out, user_suffix(user));
    }
    out
}

/// The date normalizer of this provider: raw `year/month/day hour:minute`,
/// the missing second reading as zero; canonical zero-padded output. A
/// malformed timestamp is refused, and the caller drops the row with a
/// note.
pub fn format_date(input: &str) -> (r: Option<String>)
    ensures
        match r {
            Some(s) => spec_normalize_date(input@, '/', false) == Some(s@),
            None => spec_normalize_date(input@, '/', false) is None,
        },
{
    let v = str_to_chars(input);
    match normalize_date(&v, '/', false) {
        Some(c) => Some(chars_to_string(&c)),
        None => None,
    }
}

fn filter_category_chars(counterparty: &Vec<char>, remark: &Vec<char>, direction: &Vec<char>) -> (r:
    (Vec<char>, Vec<char>))
    ensures
        r.0@ == spec_filter_category(counterparty@, remark@, direction@).0,
        r.1@ == spec_filter_category(counterparty@, remark@, direction@).1,
{
    if chars_eq_str(direction, "转账") {
        return (Vec::new(), Vec::new());
    }
    if chars_contains_str(remark, "霸王茶姬") {
        return (str_to_chars("餐饮"), str_to_chars("饮料"));
    }
    if chars_contains_str(counterparty, "禹泉水处理设备") {
        return (str_to_chars("账单"), str_to_chars("水费"));
    }
    if chars_contains_str(counterparty, "北京市顺义区妇幼保健院") {
        return (str_to_chars("医疗"), str_to_chars("门诊"));
    }
    if chars_contains_str(counterparty, "易寄件") {
        return (str_to_chars("杂项"), str_to_chars("快递费"));
    }
    if chars_contains_str(counterparty, "顺义鑫绿都生活超市后沙峪店") {
        return (str_to_chars("食材"), str_to_chars("蔬菜"));
    }
    if chars_contains_str(counterparty, "永辉超市") {
        return (str_to_chars("食材"), str_to_chars("蔬菜"));
    }
    (str_to_chars("未知"), Vec::new())
}

/// Category inference over plain text fields.
pub fn filter_category(counterparty: &str, remark: &str, transaction_direction: &str) -> (r: (
    String,
    String,
))
    ensures
        r.0@ == spec_filter_category(counterparty@, remark@, transaction_direction@).0,
        r.1@ == spec_filter_category(counterparty@, remark@, transaction_direction@).1,
{
    let c = str_to_chars(counterparty);
    let m = str_to_chars(remark);
    let d = str_to_chars(transaction_direction);
    let pair = filter_category_chars(&c, &m, &d);
    (chars_to_string(&pair.0), chars_to_string(&pair.1))
}

/// Converts one raw row: at most one record and at most one note.
fn convert_row(row: &Vec<String>, user: &User) -> (r: (Option<OutputRecord>, Option<String>))
    ensures
        ({
            let eff = row_effect(strs_view(row@), *user);
            &&& match r.0 {
                Some(rec) => eff.rec == Some(rec@),
                None => eff.rec is None,
            }
            &&& match r.1 {
                Some(n) => eff.note == Some(n@),
                None => eff.note is None,
            }
        }),
{
    let time = get_field(row, 0);
    let kind0 = get_field(row, 1);
    let counterparty = get_field(row, 2);
    let remark0 = get_field(row, 3);
    let direction0 = get_field(row, 4);
    let amount_raw = get_field(row, 5);
    let account_raw = get_field(row, 6);
    let status = get_field(row, 7);
    let cents = match parse_amount(&amount_raw) {
        Some(c) => c,
        None => {
            let n = make_note(&time, "微信", "不支持的金额输入格式");
            return (None, Some(chars_to_string(&n)));
        },
    };
    if chars_eq_str(&status, "已全额退款") {
        let n = make_note(&time, "微信", "跳过全额退款交易");
        return (None, Some(chars_to_string(&n)));
    }
    let carve = chars_eq_str(&direction0, "/") && chars_contains_str(&kind0, "转入零钱通");
    let direction1: Vec<char> = if carve {
        str_to_chars("转账")
    } else {
        let mut d: Vec<char> = Vec::new();
        append_chars(&mut d, &direction0);
        d
    };
    let from1: Vec<char> = if carve {
        str_to_chars("零钱")
    } else {
        let mut a: Vec<char> = Vec::new();
        append_chars(&mut a, &account_raw);
        a
    };
    let to1: Vec<char> = if carve {
        str_to_chars("微信零钱通")
    } else {
        Vec::new()
    };
    let remark1: Vec<char> = if carve {
        let mut m: Vec<char> = Vec::new();
        append_chars(&mut m, &kind0);
        m
    } else {
        let mut m: Vec<char> = Vec::new();
        append_chars(&mut m, &remark0);
        m
    };
    let deposited = chars_eq_str(&status, "已存入零钱") && chars_eq_str(&from1, "/");
    let direction2: Vec<char> = if deposited {
        str_to_chars("收入")
    } else {
        direction1
    };
    let from2: Vec<char> = if deposited {
        str_to_chars("零钱")
    } else {
        from1
    };
    let date = match normalize_date(&time, '/', false) {
        Some(d) => d,
        None => {
            let n = make_note(&time, "微信", "日期时间格式不正确");
            return (None, Some(chars_to_string(&n)));
        },
    };
    let account1 = append_postfix_chars(&from2, user);
    let account2 = append_postfix_chars(&to1, user);
    let cat = filter_category_chars(&counterparty, &remark1, &direction2);
    let mut remark: Vec<char> = Vec::new();
    append_chars(&mut remark, &remark1);
    append_str(&mut remark, ": ");
    append_chars(&mut remark, &counterparty);
    let currency: Vec<char> = if amount_raw.len() > 0 && amount_raw[0] == '¥' {
        str_to_chars("CNY")
    } else {
        Vec::new()
    };
    let rec = OutputRecord {
        date: chars_to_string(&date),
        kind: chars_to_string(&direction2),
        amount_cents: cents,
        category1: chars_to_string(&cat.0),
        category2: chars_to_string(&cat.1),
        account1: chars_to_string(&account1),
        account2: chars_to_string(&account2),
        remark: chars_to_string(&remark),
        currency: chars_to_string(&currency),
        tag: chars_to_string(&Vec::new()),
        source: {
            let mut s: Vec<char> = Vec::new();
            append_str(&mut s, "微信");
            chars_to_string(&s)
        },
    };
    (Some(rec), None)
}

/// Reads one decoded export: scans past the preamble for the true header
/// row, then converts every following row, collecting records and
/// diagnostic notes. Without a header marker the read yields zero records.
pub fn read_input_file(bytes: &Vec<u8>, user: &User) -> (r: (Vec<OutputRecord>, Vec<String>))
    ensures
        recs_view(r.0@) == spec_records(utf8_decoded(bytes@), *user),
        strs_view(r.1@) == spec_notes(utf8_decoded(bytes@), *user),
{
    let text = utf8_to_string(bytes);
    let rows = csv_parse(text.as_str());
    let ghost rowsv = csv_rows(text@);
    let ghost f = effect_fn(*user);
    assert(forall|k: int| 0 <= k < rows@.len() ==> rows_view(rows@)[k] == #[trigger] rowsv[k]);
    assert(forall|k: int|
        0 <= k < rows@.len() ==> strs_view(#[trigger] rows@[k]@) == rows_view(rows@)[k]);
    let n = rows.len();
    let mut h: usize = 0;
    let mut found = false;
    while !found && h < n
        invariant
            h <= n,
            n == rows@.len(),
            rows@.len() == rowsv.len(),
            forall|k: int| 0 <= k < rows@.len() ==> strs_view(#[trigger] rows@[k]@) == rowsv[k],
            forall|k: int| 0 <= k < h ==> !marker_row(#[trigger] rowsv[k]),
            found ==> h < n && marker_row(rowsv[h as int]),
        decreases n - h, (if found { 0int } else { 1int }),
    {
        let f0 = get_field(&rows[h], 0);
        if chars_contains_str(&f0, "交易时间") {
            found = true;
        } else {
            h = h + 1;
        }
    }
    let mut recs: Vec<OutputRecord> = Vec::new();
    let mut notes: Vec<String> = Vec::new();
    if !found {
        proof {
            lemma_after_header_none(rowsv);
            assert(recs_view(recs@) =~= spec_records(text@, *user));
            assert(strs_view(notes@) =~= spec_notes(text@, *user));
        }
        return (recs, notes);
    }
    proof {
        lemma_after_header_at(rowsv, h as int);
    }
    let mut j: usize = h + 1;
    assert(rowsv.subrange(h + 1, j as int) =~= Seq::<Seq<Seq<char>>>::empty());
    assert(recs_view(recs@) =~= outcome_recs(f, rowsv.subrange(h + 1, j as int)));
    assert(strs_view(notes@) =~= outcome_notes(f, rowsv.subrange(h + 1, j as int)));
    while j < n
        invariant
            h < n,
            h + 1 <= j <= n,
            n == rows@.len(),
            rows@.len() == rowsv.len(),
            forall|k: int| 0 <= k < rows@.len() ==> strs_view(#[trigger] rows@[k]@) == rowsv[k],
            f == effect_fn(*user),
            recs_view(recs@) == outcome_recs(f, rowsv.subrange(h + 1, j as int)),
            strs_view(notes@) == outcome_notes(f, rowsv.subrange(h + 1, j as int)),
        decreases n - j,
    {
        let (rec, note) = convert_row(&rows[j], user);
        let ghost prev_recs = recs@;
        let ghost prev_notes = notes@;
        match rec {
            Some(rec) => { recs.push(rec); },
            None => {},
        }
        match note {
            Some(note) => { notes.push(note); },
            None => {},
        }
        j = j + 1;
        proof {
            let sub = rowsv.subrange(h + 1, j as int);
            assert(sub =~= rowsv.subrange(h + 1, j - 1).push(rowsv[j - 1]));
            lemma_outcomes_push(f, rowsv.subrange(h + 1, j - 1), rowsv[j - 1]);
            let eff = f(rowsv[j - 1]);
            assert(eff == row_effect(strs_view(rows@[j - 1]@), *user));
            match eff.rec {
                Some(rv) => {
                    assert(recs_view(recs@) =~= recs_view(prev_recs).push(rv));
                },
                None => {},
            }
            assert(recs_view(recs@) =~= outcome_recs(f, sub));
            match eff.note {
                Some(nv) => {
                    assert(strs_view(notes@) =~= strs_view(prev_notes).push(nv));
                },
                None => {},
            }
            assert(strs_view(notes@) =~= outcome_notes(f, sub));
        }
    }
    proof {
        assert(rowsv.subrange(h + 1, n as int) =~= rowsv.skip(h + 1));
    }
    (recs, notes)
}

/// Converts one export and appends its records to the merged collection;
/// the diagnostic notes come back for the caller to log.
pub fn handle_bill(user: &User, records: &mut Vec<OutputRecord>, bytes: &Vec<u8>) -> (notes: Vec<
    String,
>)
    ensures
        recs_view(final(records)@) == recs_view(old(records)@) + spec_records(
            utf8_decoded(bytes@),
            *user,
        ),
        strs_view(notes@) == spec_notes(utf8_decoded(bytes@), *user),
{
    let (mut recs, notes) = read_input_file(bytes, user);
    let ghost added = recs@;
    records.append(&mut recs);
    assert(recs_view(records@) =~= recs_view(old(records)@) + recs_view(added));
    notes
}


/// Transfers never carry categories: every record this provider emits with
/// the transfer direction has both category fields empty.
pub proof fn lemma_transfer_no_category(text: Seq<char>, user: User)
    ensures
        forall|i: int|
            0 <= i < spec_records(text, user).len() && (#[trigger] spec_records(text, user)[i]).kind
                == "转账"@ ==> spec_records(text, user)[i].category1.len() == 0 && spec_records(
                text,
                user,
            )[i].category2.len() == 0,
{
    let f = effect_fn(user);
    let p = (|r: RecordV| r.kind == "转账"@ ==> r.category1.len() == 0 && r.category2.len() == 0);
    assert forall|row: Seq<Seq<char>>| (#[trigger] f(row)).rec is Some implies p(
        f(row).rec->Some_0,
    ) by {
        let eff = row_effect(row, user);
        if eff.rec is Some {
            let rec = eff.rec->Some_0;
            if rec.kind == "转账"@ {
                assert(rec.category1.len() == 0 && rec.category2.len() == 0);
            }
        }
    }
    lemma_outcome_recs_all(f, after_header(csv_rows(text)), p);
    assert forall|i: int|
        0 <= i < spec_records(text, user).len() && (#[trigger] spec_records(text, user)[i]).kind
            == "转账"@ implies spec_records(text, user)[i].category1.len() == 0 && spec_records(
        text,
        user,
    )[i].category2.len() == 0 by {
        assert(p(outcome_recs(f, after_header(csv_rows(text)))[i]));
    }
}

} // verus!
