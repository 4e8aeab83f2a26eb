//! The whole single-pass run: convert each provided export, merge the
//! records, sort them descending by date, validate the merged set, and —
//! only when validation passed — produce the canonical output text. The
//! summary tallies the directions and flags the records needing manual
//! follow-up, as the caller's user-visible diagnostics.

use vstd::prelude::*;

use crate::arguments::User;
use crate::output::OutputRecord;
use crate::output::RecordV;
use crate::output::check_warnings;
use crate::output::recs_view;
use crate::output::sort_desc;
use crate::output::spec_write;
use crate::outside::gbk_decoded;
use crate::outside::utf8_decoded;
use crate::text::append_chars;
use crate::text::append_str;
use crate::text::chars_eq_str;
use crate::text::chars_to_string;
use crate::text::str_to_chars;
use crate::text::strs_view;

verus! {

pub open spec fn opt_bytes(o: Option<&Vec<u8>>) -> Option<Seq<u8>> {
    match o {
        Some(b) => Some(b@),
        None => None,
    }
}

/// The records of both providers, first provider first, in file order.
pub open spec fn merged_records(zfb: Option<Seq<u8>>, wx: Option<Seq<u8>>, user: User) -> Seq<
    RecordV,
> {
    (match zfb {
        Some(b) => crate::zhifubao::spec_records(gbk_decoded(b), user),
        None => Seq::<RecordV>::empty(),
    }) + (match wx {
        Some(b) => crate::weixin::spec_records(utf8_decoded(b), user),
        None => Seq::<RecordV>::empty(),
    })
}

/// The diagnostic notes of both providers, in the same order.
pub open spec fn merged_notes(zfb: Option<Seq<u8>>, wx: Option<Seq<u8>>, user: User) -> Seq<
    Seq<char>,
> {
    (match zfb {
        Some(b) => crate::zhifubao::spec_notes(gbk_decoded(b), user),
        None => Seq::<Seq<char>>::empty(),
    }) + (match wx {
        Some(b) => crate::weixin::spec_notes(utf8_decoded(b), user),
        None => Seq::<Seq<char>>::empty(),
    })
}

/// The merged set after the sort.
pub open spec fn pipeline_records(zfb: Option<Seq<u8>>, wx: Option<Seq<u8>>, user: User) -> Seq<
    RecordV,
> {
    sort_desc(merged_records(zfb, wx, user))
}

/// The validation warnings over the sorted set.
pub open spec fn pipeline_warnings(zfb: Option<Seq<u8>>, wx: Option<Seq<u8>>, user: User) -> Seq<
    Seq<char>,
> {
    check_warnings(pipeline_records(zfb, wx, user))
}

/// The output text of a run: produced exactly when validation passed, so
/// nothing structurally invalid is ever persisted.
pub open spec fn pipeline_text(zfb: Option<Seq<u8>>, wx: Option<Seq<u8>>, user: User) -> Option<
    Seq<char>,
> {
    if pipeline_warnings(zfb, wx, user).len() == 0 {
        Some(spec_write(pipeline_records(zfb, wx, user)))
    } else {
        None
    }
}

/// What one run yields: the sorted records, the providers' diagnostic
/// notes, the validation warnings, and — when there were none — the output
/// text.
pub struct ConvertOutcome {
    pub records: Vec<OutputRecord>,
    pub notes: Vec<String>,
    pub warnings: Vec<String>,
    pub text: Option<String>,
}

/// Runs the whole pipeline over the provided exports. The outcome is a
/// function of the input bytes and the member selector alone.
pub fn convert(zfb_bill: Option<&Vec<u8>>, wx_bill: Option<&Vec<u8>>, user: &User) -> (r:
    ConvertOutcome)
    ensures
        recs_view(r.records@) == pipeline_records(opt_bytes(zfb_bill), opt_bytes(wx_bill), *user),
        strs_view(r.notes@) == merged_notes(opt_bytes(zfb_bill), opt_bytes(wx_bill), *user),
        strs_view(r.warnings@) == pipeline_warnings(
            opt_bytes(zfb_bill),
            opt_bytes(wx_bill),
            *user,
        ),
        match r.text {
            Some(t) => Some(t@) == pipeline_text(opt_bytes(zfb_bill), opt_bytes(wx_bill), *user),
            None => pipeline_text(opt_bytes(zfb_bill), opt_bytes(wx_bill), *user) is None,
        },
{
    let mut records: Vec<OutputRecord> = Vec::new();
    let mut notes: Vec<String> = Vec::new();
    assert(recs_view(records@) =~= Seq::<RecordV>::empty());
    assert(strs_view(notes@) =~= Seq::<Seq<char>>::empty());
    match zfb_bill {
        Some(bytes) => {
            let mut more = crate::zhifubao::handle_bill(user, &mut records, bytes);
            let ghost prev = notes@;
            let ghost morev = more@;
            notes.append(&mut more);
            assert(strs_view(notes@) =~= strs_view(prev) + strs_view(morev));
        },
        None => {},
    }
    let ghost zfb_recs = recs_view(records@);
    let ghost zfb_notes = strs_view(notes@);
    match wx_bill {
        Some(bytes) => {
            let mut more = crate::weixin::handle_bill(user, &mut records, bytes);
            let ghost prev = notes@;
            let ghost morev = more@;
            notes.append(&mut more);
            assert(strs_view(notes@) =~= strs_view(prev) + strs_view(morev));
        },
        None => {},
    }
    proof {
        assert(recs_view(records@) =~= merged_records(
            opt_bytes(zfb_bill),
            opt_bytes(wx_bill),
            *user,
        ));
        assert(strs_view(notes@) =~= merged_notes(opt_bytes(zfb_bill), opt_bytes(wx_bill), *user));
    }
    OutputRecord::sort_by_time(&mut records);
    let warnings = OutputRecord::check(&records);
    let text: Option<String> = if warnings.len() == 0 {
        Some(OutputRecord::write(&records))
    } else {
        None
    };
    ConvertOutcome { records, notes, warnings, text }
}

/// Idempotence of the run: the pipeline's outcome is a mathematical
/// function of the input bytes and the member selector, so byte-identical
/// inputs under the same selector give the identical records, warnings and
/// output text — running the conversion twice changes nothing.
pub proof fn lemma_pipeline_deterministic(
    zfb1: Option<Seq<u8>>,
    wx1: Option<Seq<u8>>,
    user1: User,
    zfb2: Option<Seq<u8>>,
    wx2: Option<Seq<u8>>,
    user2: User,
)
    requires
        zfb1 == zfb2,
        wx1 == wx2,
        user1 == user2,
    ensures
        pipeline_records(zfb1, wx1, user1) == pipeline_records(zfb2, wx2, user2),
        pipeline_warnings(zfb1, wx1, user1) == pipeline_warnings(zfb2, wx2, user2),
        pipeline_text(zfb1, wx1, user1) == pipeline_text(zfb2, wx2, user2),
{
}

// ---------------------------------------------------------------------------
// The post-run summary.
// ---------------------------------------------------------------------------

/// The follow-up flag a record draws in the summary: a transfer whose
/// target account is still the unresolved marker, or a direction outside
/// the three tallied ones.
pub open spec fn flag_of(r: RecordV) -> Seq<Seq<char>> {
    if r.kind == "转账"@ && r.account2 == "未知"@ {
        seq![r.date + " "@ + r.source + ": 转账记录缺少目标账户，请手动添加"@]
    } else if r.kind != "支出"@ && r.kind != "收入"@ && r.kind != "转账"@ {
        seq![r.date + " "@ + r.source + ": 未知的交易类型: "@ + r.kind + "，请手动处理"@]
    } else {
        Seq::<Seq<char>>::empty()
    }
}

/// How many records carry the direction `k`.
pub open spec fn count_kind(s: Seq<RecordV>, k: Seq<char>) -> int
    decreases s.len(),
{
    if s.len() == 0 {
        0
    } else {
        count_kind(s.drop_last(), k) + if s.last().kind == k {
            1int
        } else {
            0int
        }
    }
}

/// All follow-up flags of a record sequence, in order.
pub open spec fn spec_flagged(s: Seq<RecordV>) -> Seq<Seq<char>>
    decreases s.len(),
{
    if s.len() == 0 {
        Seq::<Seq<char>>::empty()
    } else {
        spec_flagged(s.drop_last()) + flag_of(s.last())
    }
}

/// The user-visible tallies of a run.
pub struct Summary {
    pub expense_count: usize,
    pub income_count: usize,
    pub transfer_count: usize,
    pub flagged: Vec<String>,
}

/// Tallies the three directions over the final records and collects the
/// follow-up flags. As in the summary's historical shape, a refund is
/// reported like an unrecognized direction rather than tallied.
#[verifier::rlimit(60)]
pub fn summarize(records: &Vec<OutputRecord>) -> (r: Summary)
    ensures
        r.expense_count == count_kind(recs_view(records@), "支出"@),
        r.income_count == count_kind(recs_view(records@), "收入"@),
        r.transfer_count == count_kind(recs_view(records@), "转账"@),
        strs_view(r.flagged@) == spec_flagged(recs_view(records@)),
{
    let mut expense_count: usize = 0;
    let mut income_count: usize = 0;
    let mut transfer_count: usize = 0;
    let mut flagged: Vec<String> = Vec::new();
    assert(recs_view(records@.take(0)) =~= Seq::<RecordV>::empty());
    assert(strs_view(flagged@) =~= spec_flagged(recs_view(records@.take(0))));
    let mut i: usize = 0;
    while i < records.len()
        invariant
            i <= records@.len(),
            expense_count == count_kind(recs_view(records@.take(i as int)), "支出"@),
            income_count == count_kind(recs_view(records@.take(i as int)), "收入"@),
            transfer_count == count_kind(recs_view(records@.take(i as int)), "转账"@),
            expense_count + income_count + transfer_count <= i,
            strs_view(flagged@) == spec_flagged(recs_view(records@.take(i as int))),
        decreases records@.len() - i,
    {
        let r = &records[i];
        let ghost prev = flagged@;
        let kind = str_to_chars(r.kind.as_str());
        let is_expense = chars_eq_str(&kind, "支出");
        let is_income = chars_eq_str(&kind, "收入");
        let is_transfer = chars_eq_str(&kind, "转账");
        if is_expense {
            expense_count = expense_count + 1;
        } else if is_income {
            income_count = income_count + 1;
        } else if is_transfer {
            transfer_count = transfer_count + 1;
            let acc2 = str_to_chars(r.account2.as_str());
            if chars_eq_str(&acc2, "未知") {
                let mut w: Vec<char> = Vec::new();
                let datec = str_to_chars(r.date.as_str());
                let sourcec = str_to_chars(r.source.as_str());
                append_chars(&mut w, &datec);
                append_str(&mut w, " ");
                append_chars(&mut w, &sourcec);
                append_str(&mut w, ": 转账记录缺少目标账户，请手动添加");
                flagged.push(chars_to_string(&w));
                assert(w@ == flag_of(r@)[0]);
            }
        } else {
            let mut w: Vec<char> = Vec::new();
            let datec = str_to_chars(r.date.as_str());
            let sourcec = str_to_chars(r.source.as_str());
            append_chars(&mut w, &datec);
            append_str(&mut w, " ");
            append_chars(&mut w, &sourcec);
            append_str(&mut w, ": 未知的交易类型: ");
            append_chars(&mut w, &kind);
            append_str(&mut w, "，请手动处理");
            flagged.push(chars_to_string(&w));
            assert(w@ == flag_of(r@)[0]);
        }
        i = i + 1;
        proof {
            broadcast use vstd::string::group_string_axioms;

            reveal_strlit("支出");
            reveal_strlit("收入");
            reveal_strlit("转账");
            assert("支出"@[0] == '支');
            assert("收入"@[0] == '收');
            assert("转账"@[0] == '转');
            assert("支出"@ != "收入"@ && "支出"@ != "转账"@ && "收入"@ != "转账"@);
            let t = recs_view(records@.take(i as int));
            assert(t.drop_last() =~= recs_view(records@.take(i - 1)));
            assert(t.last() == records@[i - 1]@);
            assert(count_kind(t, "支出"@) == count_kind(t.drop_last(), "支出"@) + if t.last().kind
                == "支出"@ {
                1int
            } else {
                0int
            });
            assert(count_kind(t, "收入"@) == count_kind(t.drop_last(), "收入"@) + if t.last().kind
                == "收入"@ {
                1int
            } else {
                0int
            });
            assert(count_kind(t, "转账"@) == count_kind(t.drop_last(), "转账"@) + if t.last().kind
                == "转账"@ {
                1int
            } else {
                0int
            });
            if flag_of(records@[i - 1]@).len() > 0 {
                assert(strs_view(flagged@) =~= strs_view(prev).push(flag_of(records@[i - 1]@)[0]));
                assert(strs_view(flagged@) =~= spec_flagged(t));
            } else {
                assert(strs_view(flagged@) =~= spec_flagged(t));
            }
        }
    }
    assert(records@.take(i as int) =~= records@);
    Summary { expense_count, income_count, transfer_count, flagged }
}

} // verus!
