//! The adapter of the first provider: GBK-encoded exports whose rows carry
//! time, counterparty, description, declared type, amount, paying account,
//! status and remark columns. The adapter drops out-of-scope rows, carves a
//! few "not counted" rows back into real income or transfers, reclassifies
//! the direction by status, canonicalizes and decorates account names,
//! infers categories, and normalizes the timestamp.
//!
//! A row whose amount or timestamp cannot be read yields a diagnostic note
//! and is dropped; the file's other rows still convert — the row-scoped
//! failure policy.

use vstd::prelude::*;

use crate::arguments::User;
use crate::arguments::spec_user_suffix;
use crate::arguments::user_suffix;
use crate::num::parse_amount;
use crate::num::spec_parse_amount;
use crate::datefmt::normalize_date;
use crate::datefmt::spec_normalize_date;
use crate::output::OutputRecord;
use crate::output::RecordV;
use crate::output::recs_view;
use crate::outside::csv_parse;
use crate::outside::csv_rows;
use crate::outside::gbk_decoded;
use crate::outside::gbk_to_string;
use crate::outside::rows_view;
use crate::rowproc::RowEffectV;
use crate::rowproc::after_header;
use crate::rowproc::get_field;
use crate::rowproc::lemma_after_header_at;
use crate::rowproc::lemma_after_header_none;
use crate::rowproc::lemma_outcome_recs_all;
use crate::rowproc::lemma_outcomes_push;
use crate::rowproc::make_note;
use crate::rowproc::marker_row;
use crate::rowproc::note_text;
use crate::rowproc::outcome_notes;
use crate::rowproc::outcome_recs;
use crate::rowproc::spec_field;
use crate::text::append_chars;
use crate::text::append_str;
use crate::text::chars_contains_str;
use crate::text::chars_eq_str;
use crate::text::chars_split;
use crate::text::chars_to_string;
use crate::text::contains_seq;
use crate::text::lemma_split_len_pos;
use crate::text::split_seq;
use crate::text::str_to_chars;
use crate::text::strs_view;
use crate::text::vecs_view;

verus! {

/// The provider label on records and diagnostics.
pub open spec fn source_label() -> Seq<char> {
    "支付宝"@
}

/// Account canonicalization and owner decoration: the generic balance label
/// becomes the canonical wallet name, and the two accounts shared between
/// household members get the owner suffix.
pub open spec fn spec_append_user_postfix(account: Seq<char>, user: User) -> Seq<char> {
    let canon = if account == "账户余额"@ {
        "支付宝零钱"@
    } else {
        account
    };
    if canon == "支付宝零钱"@ || canon == "余额宝"@ {
        canon + spec_user_suffix(user)
    } else {
        canon
    }
}

/// A compound account names several candidates cut by `&`; the first listed
/// account pays.
pub open spec fn spec_first_account(account: Seq<char>) -> Seq<char> {
    split_seq(account, '&')[0]
}

/// The category the counterparty name draws, before any remark rule.
pub open spec fn spec_base_category(
    counterparty: Seq<char>,
    remark: Seq<char>,
    kind: Seq<char>,
    cents: int,
) -> (Seq<char>, Seq<char>) {
    if counterparty == "北京一卡通"@ {
        (
            "交通"@,
            if cents < 200 {
                "公交"@
            } else {
                "地铁"@
            },
        )
    } else if counterparty == "饿了么"@ {
        ("餐饮"@, "外卖"@)
    } else if counterparty == "兴全基金管理有限公司"@ {
        if kind == "收入"@ {
            ("资本"@, "投资收入"@)
        } else if kind == "支出"@ {
            ("资本"@, "投资亏损"@)
        } else {
            ("未知"@, Seq::<char>::empty())
        }
    } else if counterparty == "中国移动"@ {
        if contains_seq(remark, "话费充值"@) {
            ("账单"@, "电话费"@)
        } else {
            ("未知"@, Seq::<char>::empty())
        }
    } else if counterparty == "蚂蚁森林"@ {
        ("意外收入"@, Seq::<char>::empty())
    } else if counterparty == "Steam"@ {
        ("网络"@, "游戏"@)
    } else if counterparty == "众博康健大药房"@ {
        ("医疗"@, "药品"@)
    } else if counterparty == "北京永辉超市有限公司"@ {
        ("食材"@, "蔬菜"@)
    } else if counterparty == "北京大学口腔医院"@ {
        ("医疗"@, "牙齿"@)
    } else if counterparty == "淮南牛肉汤"@ {
        ("餐饮"@, "三餐"@)
    } else if counterparty == "汤鲜生浦项中心店"@ {
        ("餐饮"@, "三餐"@)
    } else if counterparty == "滴滴出行（北京）网络平台技术有限公司"@ {
        ("交通"@, "打车"@)
    } else {
        ("未知"@, Seq::<char>::empty())
    }
}

/// Category inference: transfers short-circuit to empty categories; the
/// counterparty rules assign first, and the remark substring rules override
/// them, the last matching remark rule winning.
pub open spec fn spec_filter_category(
    counterparty: Seq<char>,
    remark: Seq<char>,
    kind: Seq<char>,
    cents: int,
) -> (Seq<char>, Seq<char>) {
    if kind == "转账"@ {
        (Seq::<char>::empty(), Seq::<char>::empty())
    } else if contains_seq(remark, "火车票"@) {
        ("交通"@, "火车"@)
    } else if contains_seq(remark, "电费"@) {
        ("账单"@, "电费"@)
    } else {
        spec_base_category(counterparty, remark, kind, cents)
    }
}

/// What one raw row of this provider yields.
pub open spec fn row_effect(row: Seq<Seq<char>>, user: User) -> RowEffectV {
    let time = spec_field(row, 0);
    let counterparty = spec_field(row, 2);
    let desc = spec_field(row, 4);
    let kind0 = spec_field(row, 5);
    let amount_raw = spec_field(row, 6);
    let account_raw = spec_field(row, 7);
    let status = spec_field(row, 8);
    let remark0 = spec_field(row, 11);
    if spec_parse_amount(amount_raw) is None {
        RowEffectV {
            rec: None,
            note: Some(note_text(time, source_label(), "不支持的金额输入格式"@)),
        }
    } else {
        let cents = spec_parse_amount(amount_raw)->Some_0;
        let not_counted = kind0 == "不计收支"@;
        let carve_income = not_counted && contains_seq(desc, "余额宝"@) && contains_seq(
            desc,
            "收益发放"@,
        );
        let carve_transfer = !carve_income && not_counted && contains_seq(
            desc,
            "余额宝-自动转入"@,
        );
        if not_counted && contains_seq(account_raw, "亲情卡"@) {
            RowEffectV {
                rec: None,
                note: Some(note_text(time, source_label(), "跳过亲情卡交易"@)),
            }
        } else if not_counted && contains_seq(account_raw, "他人代付"@) {
            RowEffectV {
                rec: None,
                note: Some(note_text(time, source_label(), "跳过他人代付交易"@)),
            }
        } else if not_counted && !carve_income && !carve_transfer {
            RowEffectV {
                rec: None,
                note: Some(note_text(time, source_label(), "跳过其他不计收支交易"@)),
            }
        } else if status == "已关闭"@ || status == "交易关闭"@ {
            RowEffectV {
                rec: None,
                note: Some(note_text(time, source_label(), "跳过已关闭交易"@)),
            }
        } else {
            let kind1 = if carve_income {
                "收入"@
            } else if carve_transfer {
                "转账"@
            } else {
                kind0
            };
            let from1 = if carve_transfer {
                "支付宝零钱"@
            } else {
                account_raw
            };
            let to1 = if carve_transfer {
                "余额宝"@
            } else {
                Seq::<char>::empty()
            };
            let refund = status == "退款成功"@;
            let repay = !refund && status == "还款成功"@ && desc == "信用卡还款"@;
            let kind2 = if refund {
                "退款"@
            } else if repay {
                "转账"@
            } else {
                kind1
            };
            let to2 = if repay {
                "未知"@
            } else {
                to1
            };
            if cents == 0 {
                RowEffectV {
                    rec: None,
                    note: Some(note_text(time, source_label(), "跳过金额为0的交易"@)),
                }
            } else if spec_normalize_date(time, '-', true) is None {
                RowEffectV {
                    rec: None,
                    note: Some(note_text(time, source_label(), "日期时间格式不正确"@)),
                }
            } else {
                let cat = spec_filter_category(counterparty, desc, kind2, cents);
                RowEffectV {
                    rec: Some(
                        RecordV {
                            date: spec_normalize_date(time, '-', true)->Some_0,
                            kind: kind2,
                            amount_cents: cents,
                            category1: cat.0,
                            category2: cat.1,
                            account1: spec_first_account(
                                spec_append_user_postfix(from1, user),
                            ),
                            account2: spec_first_account(spec_append_user_postfix(to2, user)),
                            remark: desc + ": "@ + remark0,
                            currency: "CNY"@,
                            tag: Seq::<char>::empty(),
                            source: source_label(),
                        },
                    ),
                    note: if repay {
                        Some(
                            note_text(
                                time,
                                source_label(),
                                "需要手动添加还款目标卡"@,
                            ),
                        )
                    } else {
                        None
                    },
                }
            }
        }
    }
}

pub open spec fn effect_fn(user: User) -> spec_fn(Seq<Seq<char>>) -> RowEffectV {
    |row: Seq<Seq<char>>| row_effect(row, user)
}

/// The records this provider's file text yields.
pub open spec fn spec_records(text: Seq<char>, user: User) -> Seq<RecordV> {
    outcome_recs(effect_fn(user), after_header(csv_rows(text)))
}

/// The diagnostic notes this provider's file text yields.
pub open spec fn spec_notes(text: Seq<char>, user: User) -> Seq<Seq<char>> {
    outcome_notes(effect_fn(user), after_header(csv_rows(text)))
}

/// Canonicalizes a raw account name and decorates it for its owner.
pub fn append_user_postfix(account: &str, user: &User) -> (r: String)
    ensures
        r@ == spec_append_user_postfix(account@, *user),
{
    let v = str_to_chars(account);
    let out = append_postfix_chars(&v, user);
    chars_to_string(&out)
}

fn append_postfix_chars(account: &Vec<char>, user: &User) -> (r: Vec<char>)
    ensures
        r@ == spec_append_user_postfix(account@, *user),
{
    let mut out: Vec<char> = Vec::new();
    if chars_eq_str(account, "账户余额") {
        append_str(&mut out, "支付宝零钱");
    } else {
        append_chars(&mut out, account);
    }
    if chars_eq_str(&out, "支付宝零钱") || chars_eq_str(&out, "余额宝") {
        append_str(&mut out, user_suffix(user));
    }
    out
}

fn take_first_account(v: &Vec<char>) -> (r: Vec<char>)
    ensures
        r@ == spec_first_account(v@),
{
    let mut parts = chars_split(v, '&');
    proof {
        lemma_split_len_pos(v@, '&');
        assert(vecs_view(parts@)[0] == parts@[0]@);
    }
    parts.remove(0)
}

/// The date normalizer of this provider: raw `year-month-day
/// hour:minute:second`, canonical zero-padded output; a malformed timestamp
/// is refused, and the caller drops the row with a note.
pub fn format_date(input: &str) -> (r: Option<String>)
    ensures
        match r {
            Some(s) => spec_normalize_date(input@, '-', true) == Some(s@),
            None => spec_normalize_date(input@, '-', true) is None,
        },
{
    let v = str_to_chars(input);
    match normalize_date(&v, '-', true) {
        Some(c) => Some(chars_to_string(&c)),
        None => None,
    }
}

fn filter_category_chars(
    counterparty: &Vec<char>,
    remark: &Vec<char>,
    kind: &Vec<char>,
    cents: u64,
) -> (r: (Vec<char>, Vec<char>))
    ensures
        r.0@ == spec_filter_category(counterparty@, remark@, kind@, cents as int).0,
        r.1@ == spec_filter_category(counterparty@, remark@, kind@, cents as int).1,
{
    if chars_eq_str(kind, "转账") {
        return (Vec::new(), Vec::new());
    }
    if chars_contains_str(remark, "火车票") {
        return (str_to_chars("交通"), str_to_chars("火车"));
    }
    if chars_contains_str(remark, "电费") {
        return (str_to_chars("账单"), str_to_chars("电费"));
    }
    if chars_eq_str(counterparty, "北京一卡通") {
        if cents < 200 {
            return (str_to_chars("交通"), str_to_chars("公交"));
        } else {
            return (str_to_chars("交通"), str_to_chars("地铁"));
        }
    }
    if chars_eq_str(counterparty, "饿了么") {
        return (str_to_chars("餐饮"), str_to_chars("外卖"));
    }
    if chars_eq_str(counterparty, "兴全基金管理有限公司") {
        if chars_eq_str(kind, "收入") {
            return (str_to_chars("资本"), str_to_chars("投资收入"));
        } else if chars_eq_str(kind, "支出") {
            return (str_to_chars("资本"), str_to_chars("投资亏损"));
        } else {
            return (str_to_chars("未知"), Vec::new());
        }
    }
    if chars_eq_str(counterparty, "中国移动") {
        if chars_contains_str(remark, "话费充值") {
            return (str_to_chars("账单"), str_to_chars("电话费"));
        } else {
            return (str_to_chars("未知"), Vec::new());
        }
    }
    if chars_eq_str(counterparty, "蚂蚁森林") {
        return (str_to_chars("意外收入"), Vec::new());
    }
    if chars_eq_str(counterparty, "Steam") {
        return (str_to_chars("网络"), str_to_chars("游戏"));
    }
    if chars_eq_str(counterparty, "众博康健大药房") {
        return (str_to_chars("医疗"), str_to_chars("药品"));
    }
    if chars_eq_str(counterparty, "北京永辉超市有限公司") {
        return (str_to_chars("食材"), str_to_chars("蔬菜"));
    }
    if chars_eq_str(counterparty, "北京大学口腔医院") {
        return (str_to_chars("医疗"), str_to_chars("牙齿"));
    }
    if chars_eq_str(counterparty, "淮南牛肉汤") {
        return (str_to_chars("餐饮"), str_to_chars("三餐"));
    }
    if chars_eq_str(counterparty, "汤鲜生浦项中心店") {
        return (str_to_chars("餐饮"), str_to_chars("三餐"));
    }
    if chars_eq_str(counterparty, "滴滴出行（北京）网络平台技术有限公司") {
        return (str_to_chars("交通"), str_to_chars("打车"));
    }
    (str_to_chars("未知"), Vec::new())
}

/// Category inference over plain text fields.
pub fn filter_category(counterparty: &str, remark: &str, transaction_type: &str, amount_cents: u64) -> (r:
    (String, String))
    ensures
        r.0@ == spec_filter_category(counterparty@, remark@, transaction_type@, amount_cents as int).0,
        r.1@ == spec_filter_category(counterparty@, remark@, transaction_type@, amount_cents as int).1,
{
    let c = str_to_chars(counterparty);
    let m = str_to_chars(remark);
    let k = str_to_chars(transaction_type);
    let pair = filter_category_chars(&c, &m, &k, amount_cents);
    (chars_to_string(&pair.0), chars_to_string(&pair.1))
}

/// Converts one raw row: at most one record and at most one note.
fn convert_row(row: &Vec<String>, user: &User) -> (r: (Option<OutputRecord>, Option<String>))
    ensures
        ({
            let eff = row_effect(strs_view(row@), *user);
            &&& match r.0 {
                Some(rec) => eff.rec == Some(rec@),
                None => eff.rec is None,
            }
            &&& match r.1 {
                Some(n) => eff.note == Some(n@),
                None => eff.note is None,
            }
        }),
{
    let ghost rowv = strs_view(row@);
    let time = get_field(row, 0);
    let counterparty = get_field(row, 2);
    let desc = get_field(row, 4);
    let kind0 = get_field(row, 5);
    let amount_raw = get_field(row, 6);
    let account_raw = get_field(row, 7);
    let status = get_field(row, 8);
    let remark0 = get_field(row, 11);
    let cents = match parse_amount(&amount_raw) {
        Some(c) => c,
        None => {
            let n = make_note(&time, "支付宝", "不支持的金额输入格式");
            return (None, Some(chars_to_string(&n)));
        },
    };
    let not_counted = chars_eq_str(&kind0, "不计收支");
    if not_counted && chars_contains_str(&account_raw, "亲情卡") {
        let n = make_note(&time, "支付宝", "跳过亲情卡交易");
        return (None, Some(chars_to_string(&n)));
    }
    if not_counted && chars_contains_str(&account_raw, "他人代付") {
        let n = make_note(&time, "支付宝", "跳过他人代付交易");
        return (None, Some(chars_to_string(&n)));
    }
    let carve_income = not_counted && chars_contains_str(&desc, "余额宝") && chars_contains_str(
        &desc,
        "收益发放",
    );
    let carve_transfer = !carve_income && not_counted && chars_contains_str(
        &desc,
        "余额宝-自动转入",
    );
    if not_counted && !carve_income && !carve_transfer {
        let n = make_note(&time, "支付宝", "跳过其他不计收支交易");
        return (None, Some(chars_to_string(&n)));
    }
    if chars_eq_str(&status, "已关闭") || chars_eq_str(&status, "交易关闭") {
        let n = make_note(&time, "支付宝", "跳过已关闭交易");
        return (None, Some(chars_to_string(&n)));
    }
    let kind1: Vec<char> = if carve_income {
        str_to_chars("收入")
    } else if carve_transfer {
        str_to_chars("转账")
    } else {
        let mut k: Vec<char> = Vec::new();
        append_chars(&mut k, &kind0);
        k
    };
    let from1: Vec<char> = if carve_transfer {
        str_to_chars("支付宝零钱")
    } else {
        let mut a: Vec<char> = Vec::new();
        append_chars(&mut a, &account_raw);
        a
    };
    let to1: Vec<char> = if carve_transfer {
        str_to_chars("余额宝")
    } else {
        Vec::new()
    };
    let refund = chars_eq_str(&status, "退款成功");
    let repay = !refund && chars_eq_str(&status, "还款成功") && chars_eq_str(
        &desc,
        "信用卡还款",
    );
    let kind2: Vec<char> = if refund {
        str_to_chars("退款")
    } else if repay {
        str_to_chars("转账")
    } else {
        kind1
    };
    let to2: Vec<char> = if repay {
        str_to_chars("未知")
    } else {
        to1
    };
    if cents == 0 {
        let n = make_note(&time, "支付宝", "跳过金额为0的交易");
        return (None, Some(chars_to_string(&n)));
    }
    let date = match normalize_date(&time, '-', true) {
        Some(d) => d,
        None => {
            let n = make_note(&time, "支付宝", "日期时间格式不正确");
            return (None, Some(chars_to_string(&n)));
        },
    };
    let account1 = take_first_account(&append_postfix_chars(&from1, user));
    let account2 = take_first_account(&append_postfix_chars(&to2, user));
    let cat = filter_category_chars(&counterparty, &desc, &kind2, cents);
    let mut remark: Vec<char> = Vec::new();
    append_chars(&mut remark, &desc);
    append_str(&mut remark, ": ");
    append_chars(&mut remark, &remark0);
    let note: Option<String> = if repay {
        let n = make_note(&time, "支付宝", "需要手动添加还款目标卡");
        Some(chars_to_string(&n))
    } else {
        None
    };
    let rec = OutputRecord {
        date: chars_to_string(&date),
        kind: chars_to_string(&kind2),
        amount_cents: cents,
        category1: chars_to_string(&cat.0),
        category2: chars_to_string(&cat.1),
        account1: chars_to_string(&account1),
        account2: chars_to_string(&account2),
        remark: chars_to_string(&remark),
        currency: {
            let mut c: Vec<char> = Vec::new();
            append_str(&mut c, "CNY");
            chars_to_string(&c)
        },
        tag: chars_to_string(&Vec::new()),
        source: {
            let mut s: Vec<char> = Vec::new();
            append_str(&mut s, "支付宝");
            chars_to_string(&s)
        },
    };
    (Some(rec), note)
}

/// Reads one decoded export: scans past the preamble for the true header
/// row, then converts every following row, collecting records and
/// diagnostic notes. Without a header marker the read yields zero records.
pub fn read_input_file(bytes: &Vec<u8>, user: &User) -> (r: (Vec<OutputRecord>, Vec<String>))
    ensures
        recs_view(r.0@) == spec_records(gbk_decoded(bytes@), *user),
        strs_view(r.1@) == spec_notes(gbk_decoded(bytes@), *user),
{
    let text = gbk_to_string(bytes);
    let rows = csv_parse(text.as_str());
    let ghost rowsv = csv_rows(text@);
    let ghost f = effect_fn(*user);
    assert(forall|k: int| 0 <= k < rows@.len() ==> rows_view(rows@)[k] == #[trigger] rowsv[k]);
    assert(forall|k: int|
        0 <= k < rows@.len() ==> strs_view(#[trigger] rows@[k]@) == rows_view(rows@)[k]);
    let n = rows.len();
    let mut h: usize = 0;
    let mut found = false;
    while !found && h < n
        invariant
            h <= n,
            n == rows@.len(),
            rows@.len() == rowsv.len(),
            forall|k: int| 0 <= k < rows@.len() ==> strs_view(#[trigger] rows@[k]@) == rowsv[k],
            forall|k: int| 0 <= k < h ==> !marker_row(#[trigger] rowsv[k]),
            found ==> h < n && marker_row(rowsv[h as int]),
        decreases n - h, (if found { 0int } else { 1int }),
    {
        let f0 = get_field(&rows[h], 0);
        if chars_contains_str(&f0, "交易时间") {
            found = true;
        } else {
            h = h + 1;
        }
    }
    let mut recs: Vec<OutputRecord> = Vec::new();
    let mut notes: Vec<String> = Vec::new();
    if !found {
        proof {
            lemma_after_header_none(rowsv);
            assert(recs_view(recs@) =~= spec_records(text@, *user));
            assert(strs_view(notes@) =~= spec_notes(text@, *user));
        }
        return (recs, notes);
    }
    proof {
        lemma_after_header_at(rowsv, h as int);
    }
    let mut j: usize = h + 1;
    assert(rowsv.subrange(h + 1, j as int) =~= Seq::<Seq<Seq<char>>>::empty());
    assert(recs_view(recs@) =~= outcome_recs(f, rowsv.subrange(h + 1, j as int)));
    assert(strs_view(notes@) =~= outcome_notes(f, rowsv.subrange(h + 1, j as int)));
    while j < n
        invariant
            h < n,
            h + 1 <= j <= n,
            n == rows@.len(),
            rows@.len() == rowsv.len(),
            forall|k: int| 0 <= k < rows@.len() ==> strs_view(#[trigger] rows@[k]@) == rowsv[k],
            f == effect_fn(*user),
            recs_view(recs@) == outcome_recs(f, rowsv.subrange(h + 1, j as int)),
            strs_view(notes@) == outcome_notes(f, rowsv.subrange(h + 1, j as int)),
        decreases n - j,
    {
        let (rec, note) = convert_row(&rows[j], user);
        let ghost prev_recs = recs@;
        let ghost prev_notes = notes@;
        match rec {
            Some(rec) => { recs.push(rec); },
            None => {},
        }
        match note {
            Some(note) => { notes.push(note); },
            None => {},
        }
        j = j + 1;
        proof {
            let sub = rowsv.subrange(h + 1, j as int);
            assert(sub =~= rowsv.subrange(h + 1, j - 1).push(rowsv[j - 1]));
            lemma_outcomes_push(f, rowsv.subrange(h + 1, j - 1), rowsv[j - 1]);
            let eff = f(rowsv[j - 1]);
            assert(eff == row_effect(strs_view(rows@[j - 1]@), *user));
            match eff.rec {
                Some(rv) => {
                    assert(recs_view(recs@) =~= recs_view(prev_recs).push(rv));
                },
                None => {},
            }
            assert(recs_view(recs@) =~= outcome_recs(f, sub));
            match eff.note {
                Some(nv) => {
                    assert(strs_view(notes@) =~= strs_view(prev_notes).push(nv));
                },
                None => {},
            }
            assert(strs_view(notes@) =~= outcome_notes(f, sub));
        }
    }
    proof {
        assert(rowsv.subrange(h + 1, n as int) =~= rowsv.skip(h + 1));
    }
    (recs, notes)
}

/// Converts one export and appends its records to the merged collection;
/// the diagnostic notes come back for the caller to log.
pub fn handle_bill(user: &User, records: &mut Vec<OutputRecord>, bytes: &Vec<u8>) -> (notes: Vec<
    String,
>)
    ensures
        recs_view(final(records)@) == recs_view(old(records)@) + spec_records(
            gbk_decoded(bytes@),
            *user,
        ),
        strs_view(notes@) == spec_notes(gbk_decoded(bytes@), *user),
{
    let (mut recs, notes) = read_input_file(bytes, user);
    let ghost added = recs@;
    records.append(&mut recs);
    assert(recs_view(records@) =~= recs_view(old(records)@) + recs_view(added));
    notes
}


/// Transfers never carry categories: every record this provider emits with
/// the transfer direction has both category fields empty.
pub proof fn lemma_transfer_no_category(text: Seq<char>, user: User)
    ensures
        forall|i: int|
            0 <= i < spec_records(text, user).len() && (#[trigger] spec_records(text, user)[i]).kind
                == "转账"@ ==> spec_records(text, user)[i].category1.len() == 0 && spec_records(
                text,
                user,
            )[i].category2.len() == 0,
{
    let f = effect_fn(user);
    let p = (|r: RecordV| r.kind == "转账"@ ==> r.category1.len() == 0 && r.category2.len() == 0);
    assert forall|row: Seq<Seq<char>>| (#[trigger] f(row)).rec is Some implies p(
        f(row).rec->Some_0,
    ) by {
        let eff = row_effect(row, user);
        if eff.rec is Some {
            let rec = eff.rec->Some_0;
            if rec.kind == "转账"@ {
                assert(rec.category1.len() == 0 && rec.category2.len() == 0);
            }
        }
    }
    lemma_outcome_recs_all(f, after_header(csv_rows(text)), p);
    assert forall|i: int|
        0 <= i < spec_records(text, user).len() && (#[trigger] spec_records(text, user)[i]).kind
            == "转账"@ implies spec_records(text, user)[i].category1.len() == 0 && spec_records(
        text,
        user,
    )[i].category2.len() == 0 by {
        assert(p(outcome_recs(f, after_header(csv_rows(text)))[i]));
    }
}

} // verus!
