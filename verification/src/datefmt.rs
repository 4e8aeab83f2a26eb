//! Date normalization. Every provider's raw timestamp is rewritten into one
//! canonical, zero-padded form, `YYYY年MM月DD日 HH:MM:SS`, whose lexicographic
//! order coincides with time order because every numeric field is padded to a
//! fixed width and the fields stand from the most to the least significant.

use vstd::prelude::*;

use crate::num::all_digits;
use crate::num::digit_char;
use crate::num::digits_val;
use crate::num::lemma_digit_char_val;
use crate::num::lemma_digits_val_nonneg;
use crate::num::lemma_digits_val_bound;
use crate::num::lemma_digits_val_concat;
use crate::num::lemma_lex_digits;
use crate::num::parse_digits;
use crate::num::pow10;
use crate::text::append_str;
use crate::text::chars_split;
use crate::text::lemma_lex_same_prefix;
use crate::text::lemma_lex_strict_concat;
use crate::text::lex_le;
use crate::text::split_seq;

verus! {

pub open spec fn two_digits(n: int) -> Seq<char> {
    seq![digit_char(n / 10), digit_char(n % 10)]
}

pub open spec fn four_digits(n: int) -> Seq<char> {
    two_digits(n / 100) + two_digits(n % 100)
}

/// The canonical timestamp text of the given components.
pub open spec fn canonical_date(y: int, mo: int, d: int, h: int, mi: int, s: int) -> Seq<char> {
    four_digits(y) + "年"@ + two_digits(mo) + "月"@ + two_digits(d) + "日 "@ + two_digits(h) + ":"@
        + two_digits(mi) + ":"@ + two_digits(s)
}

/// A one- or two-digit numeric component.
pub open spec fn ok_component(p: Seq<char>) -> bool {
    1 <= p.len() <= 2 && all_digits(p)
}

/// A four-digit year.
pub open spec fn ok_year(p: Seq<char>) -> bool {
    p.len() == 4 && all_digits(p)
}

/// The canonical text of a raw timestamp, when the raw text is well formed:
/// a date of year, month and day cut by `date_sep`, one space, and a time of
/// hour and minute — with a second field exactly when `with_seconds` holds,
/// a missing second reading as zero.
pub open spec fn spec_normalize_date(input: Seq<char>, date_sep: char, with_seconds: bool) -> Option<
    Seq<char>,
> {
    let parts = split_seq(input, ' ');
    if parts.len() != 2 {
        None
    } else {
        let dparts = split_seq(parts[0], date_sep);
        let tparts = split_seq(parts[1], ':');
        let nt: int = if with_seconds {
            3
        } else {
            2
        };
        if dparts.len() == 3 && tparts.len() == nt && ok_year(dparts[0]) && ok_component(dparts[1])
            && ok_component(dparts[2]) && ok_component(tparts[0]) && ok_component(tparts[1]) && (
        with_seconds ==> ok_component(tparts[2])) {
            Some(
                canonical_date(
                    digits_val(dparts[0]),
                    digits_val(dparts[1]),
                    digits_val(dparts[2]),
                    digits_val(tparts[0]),
                    digits_val(tparts[1]),
                    if with_seconds {
                        digits_val(tparts[2])
                    } else {
                        0
                    },
                ),
            )
        } else {
            None
        }
    }
}

fn two_digits_push(out: &mut Vec<char>, n: u64)
    requires
        n < 100,
    ensures
        final(out)@ == old(out)@ + two_digits(n as int),
{
    out.push(crate::num::digit_char_exec(n / 10));
    out.push(crate::num::digit_char_exec(n % 10));
    assert(out@ =~= old(out)@ + two_digits(n as int));
}

fn four_digits_push(out: &mut Vec<char>, n: u64)
    requires
        n < 10000,
    ensures
        final(out)@ == old(out)@ + four_digits(n as int),
{
    two_digits_push(out, n / 100);
    two_digits_push(out, n % 100);
    assert(out@ =~= old(out)@ + four_digits(n as int));
}

/// Reads a one- or two-digit component; `None` unless `ok_component` holds.
fn parse_component(p: &Vec<char>) -> (r: Option<u64>)
    ensures
        match r {
            Some(n) => ok_component(p@) && n == digits_val(p@) && n < 100,
            None => !ok_component(p@),
        },
{
    if p.len() < 1 || p.len() > 2 {
        return None;
    }
    proof {
        if all_digits(p@) {
            lemma_digits_val_bound(p@);
            assert(pow10(0) == 1);
            assert(pow10(1) == 10);
            assert(pow10(2) == 100);
            assert(pow10(p@.len()) <= 100);
        }
    }
    parse_digits(p, 99)
}

/// Reads a four-digit year; `None` unless `ok_year` holds.
fn parse_year(p: &Vec<char>) -> (r: Option<u64>)
    ensures
        match r {
            Some(n) => ok_year(p@) && n == digits_val(p@) && n < 10000,
            None => !ok_year(p@),
        },
{
    if p.len() != 4 {
        return None;
    }
    proof {
        if all_digits(p@) {
            lemma_digits_val_bound(p@);
            assert(pow10(0) == 1);
            assert(pow10(1) == 10);
            assert(pow10(2) == 100);
            assert(pow10(3) == 1000);
            assert(pow10(4) == 10000);
        }
    }
    parse_digits(p, 9999)
}

/// Rewrites a raw timestamp into the canonical, zero-padded form.
pub fn normalize_date(input: &Vec<char>, date_sep: char, with_seconds: bool) -> (r: Option<
    Vec<char>,
>)
    ensures
        match r {
            Some(v) => spec_normalize_date(input@, date_sep, with_seconds) == Some(v@),
            None => spec_normalize_date(input@, date_sep, with_seconds) is None,
        },
{
    let parts = chars_split(input, ' ');
    assert(parts@.len() == split_seq(input@, ' ').len());
    if parts.len() != 2 {
        return None;
    }
    assert(parts@[0]@ == split_seq(input@, ' ')[0]);
    assert(parts@[1]@ == split_seq(input@, ' ')[1]);
    let dparts = chars_split(&parts[0], date_sep);
    let tparts = chars_split(&parts[1], ':');
    proof {
        let dv = split_seq(parts@[0]@, date_sep);
        let tv = split_seq(parts@[1]@, ':');
        assert(dparts@.len() == dv.len());
        assert(tparts@.len() == tv.len());
        assert(forall|k: int| 0 <= k < dparts@.len() ==> dparts@[k]@ == #[trigger] dv[k]);
        assert(forall|k: int| 0 <= k < tparts@.len() ==> tparts@[k]@ == #[trigger] tv[k]);
    }
    if dparts.len() != 3 {
        return None;
    }
    if with_seconds {
        if tparts.len() != 3 {
            return None;
        }
    } else {
        if tparts.len() != 2 {
            return None;
        }
    }
    let y = match parse_year(&dparts[0]) {
        Some(n) => n,
        None => { return None; },
    };
    let mo = match parse_component(&dparts[1]) {
        Some(n) => n,
        None => { return None; },
    };
    let d = match parse_component(&dparts[2]) {
        Some(n) => n,
        None => { return None; },
    };
    let h = match parse_component(&tparts[0]) {
        Some(n) => n,
        None => { return None; },
    };
    let mi = match parse_component(&tparts[1]) {
        Some(n) => n,
        None => { return None; },
    };
    let s = if with_seconds {
        match parse_component(&tparts[2]) {
            Some(n) => n,
            None => { return None; },
        }
    } else {
        0
    };
    let mut out: Vec<char> = Vec::new();
    four_digits_push(&mut out, y);
    append_str(&mut out, "年");
    two_digits_push(&mut out, mo);
    append_str(&mut out, "月");
    two_digits_push(&mut out, d);
    append_str(&mut out, "日 ");
    two_digits_push(&mut out, h);
    append_str(&mut out, ":");
    two_digits_push(&mut out, mi);
    append_str(&mut out, ":");
    two_digits_push(&mut out, s);
    assert(out@ =~= canonical_date(y as int, mo as int, d as int, h as int, mi as int, s as int));
    Some(out)
}

proof fn lemma_two_digits_shape(n: int)
    requires
        0 <= n < 100,
    ensures
        two_digits(n).len() == 2,
        all_digits(two_digits(n)),
        digits_val(two_digits(n)) == n,
{
    lemma_digit_char_val(n / 10);
    lemma_digit_char_val(n % 10);
    let t = two_digits(n);
    assert(t.drop_last() =~= seq![digit_char(n / 10)]);
    assert(t.drop_last().drop_last() =~= Seq::<char>::empty());
    assert(digits_val(Seq::<char>::empty()) == 0);
    assert(digits_val(t.drop_last()) == n / 10);
    assert(digits_val(t) == n / 10 * 10 + n % 10);
}

proof fn lemma_four_digits_shape(n: int)
    requires
        0 <= n < 10000,
    ensures
        four_digits(n).len() == 4,
        all_digits(four_digits(n)),
        digits_val(four_digits(n)) == n,
{
    lemma_two_digits_shape(n / 100);
    lemma_two_digits_shape(n % 100);
    let hi = two_digits(n / 100);
    let lo = two_digits(n % 100);
    assert(forall|i: int| 0 <= i < 2 ==> (hi + lo)[i] == #[trigger] hi[i]);
    assert(forall|i: int| 2 <= i < 4 ==> #[trigger] (hi + lo)[i] == lo[i - 2]);
    assert(all_digits(hi + lo)) by {
        assert(forall|i: int|
            0 <= i < 4 ==> crate::num::is_digit(#[trigger] (hi + lo)[i]));
    }
    lemma_digits_val_concat(hi, lo);
    assert(crate::num::pow10(2) == 100) by {
        assert(crate::num::pow10(0) == 1);
        assert(crate::num::pow10(1) == 10);
    }
    assert(digits_val(hi + lo) == n / 100 * 100 + n % 100);
}

/// Comparing texts that open with one two-digit field each compares that
/// field first, numerically, and only a tie passes the decision on.
proof fn lemma_two_field_step(v1: int, v2: int, r1: Seq<char>, r2: Seq<char>)
    requires
        0 <= v1 < 100,
        0 <= v2 < 100,
    ensures
        lex_le(two_digits(v1) + r1, two_digits(v2) + r2) == (v1 < v2 || (v1 == v2 && lex_le(
            r1,
            r2,
        ))),
{
    lemma_two_digits_shape(v1);
    lemma_two_digits_shape(v2);
    let x = two_digits(v1);
    let y = two_digits(v2);
    if v1 == v2 {
        lemma_lex_same_prefix(x, r1, r2);
    } else if v1 < v2 {
        lemma_lex_digits(x, y);
        lemma_lex_digits(y, x);
        lemma_lex_strict_concat(x, y, r1, r2);
    } else {
        lemma_lex_digits(x, y);
        lemma_lex_digits(y, x);
        lemma_lex_strict_concat(y, x, r2, r1);
    }
}

/// The same, for the four-digit year field.
proof fn lemma_four_field_step(v1: int, v2: int, r1: Seq<char>, r2: Seq<char>)
    requires
        0 <= v1 < 10000,
        0 <= v2 < 10000,
    ensures
        lex_le(four_digits(v1) + r1, four_digits(v2) + r2) == (v1 < v2 || (v1 == v2 && lex_le(
            r1,
            r2,
        ))),
{
    lemma_four_digits_shape(v1);
    lemma_four_digits_shape(v2);
    let x = four_digits(v1);
    let y = four_digits(v2);
    if v1 == v2 {
        lemma_lex_same_prefix(x, r1, r2);
    } else if v1 < v2 {
        lemma_lex_digits(x, y);
        lemma_lex_digits(y, x);
        lemma_lex_strict_concat(x, y, r1, r2);
    } else {
        lemma_lex_digits(x, y);
        lemma_lex_digits(y, x);
        lemma_lex_strict_concat(y, x, r2, r1);
    }
}

/// Chronological order on timestamp components, most significant first.
pub open spec fn time_le(
    y1: int,
    mo1: int,
    d1: int,
    h1: int,
    mi1: int,
    s1: int,
    y2: int,
    mo2: int,
    d2: int,
    h2: int,
    mi2: int,
    s2: int,
) -> bool {
    y1 < y2 || (y1 == y2 && (mo1 < mo2 || (mo1 == mo2 && (d1 < d2 || (d1 == d2 && (h1 < h2 || (h1
        == h2 && (mi1 < mi2 || (mi1 == mi2 && s1 <= s2)))))))))
}

/// On canonical timestamps the text order is the time order: every numeric
/// field is zero-padded to a fixed width and the fields stand from the most
/// to the least significant, so comparing the texts lexicographically
/// compares the moments chronologically — which is what entitles the
/// assembler to sort the ledger by the date text.
#[verifier::rlimit(100)]
#[verifier::spinoff_prover]
pub proof fn lemma_canonical_date_order(
    y1: int,
    mo1: int,
    d1: int,
    h1: int,
    mi1: int,
    s1: int,
    y2: int,
    mo2: int,
    d2: int,
    h2: int,
    mi2: int,
    s2: int,
)
    requires
        0 <= y1 < 10000,
        0 <= mo1 < 100,
        0 <= d1 < 100,
        0 <= h1 < 100,
        0 <= mi1 < 100,
        0 <= s1 < 100,
        0 <= y2 < 10000,
        0 <= mo2 < 100,
        0 <= d2 < 100,
        0 <= h2 < 100,
        0 <= mi2 < 100,
        0 <= s2 < 100,
    ensures
        lex_le(
            canonical_date(y1, mo1, d1, h1, mi1, s1),
            canonical_date(y2, mo2, d2, h2, mi2, s2),
        ) == time_le(y1, mo1, d1, h1, mi1, s1, y2, mo2, d2, h2, mi2, s2),
{
    let ra5 = ":"@ + two_digits(s1);
    let ra4 = ":"@ + (two_digits(mi1) + ra5);
    let ra3 = "日 "@ + (two_digits(h1) + ra4);
    let ra2 = "月"@ + (two_digits(d1) + ra3);
    let ra1 = "年"@ + (two_digits(mo1) + ra2);
    let rb5 = ":"@ + two_digits(s2);
    let rb4 = ":"@ + (two_digits(mi2) + rb5);
    let rb3 = "日 "@ + (two_digits(h2) + rb4);
    let rb2 = "月"@ + (two_digits(d2) + rb3);
    let rb1 = "年"@ + (two_digits(mo2) + rb2);
    assert(canonical_date(y1, mo1, d1, h1, mi1, s1) =~= four_digits(y1) + ra1);
    assert(canonical_date(y2, mo2, d2, h2, mi2, s2) =~= four_digits(y2) + rb1);
    lemma_four_field_step(y1, y2, ra1, rb1);
    lemma_lex_same_prefix("年"@, two_digits(mo1) + ra2, two_digits(mo2) + rb2);
    lemma_two_field_step(mo1, mo2, ra2, rb2);
    lemma_lex_same_prefix("月"@, two_digits(d1) + ra3, two_digits(d2) + rb3);
    lemma_two_field_step(d1, d2, ra3, rb3);
    lemma_lex_same_prefix("日 "@, two_digits(h1) + ra4, two_digits(h2) + rb4);
    lemma_two_field_step(h1, h2, ra4, rb4);
    lemma_lex_same_prefix(":"@, two_digits(mi1) + ra5, two_digits(mi2) + rb5);
    lemma_two_field_step(mi1, mi2, ra5, rb5);
    lemma_lex_same_prefix(":"@, two_digits(s1), two_digits(s2));
    assert(two_digits(s1) =~= two_digits(s1) + Seq::<char>::empty());
    assert(two_digits(s2) =~= two_digits(s2) + Seq::<char>::empty());
    lemma_two_field_step(s1, s2, Seq::<char>::empty(), Seq::<char>::empty());
    assert(lex_le(Seq::<char>::empty(), Seq::<char>::empty()));
}

/// Every normalized timestamp is the canonical text of in-range
/// components, so the order theorem above covers every date the adapters
/// emit.
pub proof fn lemma_normalize_date_components(input: Seq<char>, date_sep: char, with_seconds: bool)
    requires
        spec_normalize_date(input, date_sep, with_seconds) is Some,
    ensures
        exists|y: int, mo: int, d: int, h: int, mi: int, s: int|
            0 <= y < 10000 && 0 <= mo < 100 && 0 <= d < 100 && 0 <= h < 100 && 0 <= mi < 100 && 0
                <= s < 100 && spec_normalize_date(input, date_sep, with_seconds)->Some_0
                == #[trigger] canonical_date(y, mo, d, h, mi, s),
{
    let parts = split_seq(input, ' ');
    let dparts = split_seq(parts[0], date_sep);
    let tparts = split_seq(parts[1], ':');
    assert(pow10(0) == 1);
    assert(pow10(1) == 10);
    assert(pow10(2) == 100);
    assert(pow10(3) == 1000);
    assert(pow10(4) == 10000);
    let y = digits_val(dparts[0]);
    let mo = digits_val(dparts[1]);
    let d = digits_val(dparts[2]);
    let h = digits_val(tparts[0]);
    let mi = digits_val(tparts[1]);
    let s: int = if with_seconds {
        digits_val(tparts[2])
    } else {
        0
    };
    lemma_digits_val_bound(dparts[0]);
    lemma_digits_val_nonneg(dparts[0]);
    lemma_digits_val_bound(dparts[1]);
    lemma_digits_val_nonneg(dparts[1]);
    lemma_digits_val_bound(dparts[2]);
    lemma_digits_val_nonneg(dparts[2]);
    lemma_digits_val_bound(tparts[0]);
    lemma_digits_val_nonneg(tparts[0]);
    lemma_digits_val_bound(tparts[1]);
    lemma_digits_val_nonneg(tparts[1]);
    if with_seconds {
        lemma_digits_val_bound(tparts[2]);
        lemma_digits_val_nonneg(tparts[2]);
    }
    assert(spec_normalize_date(input, date_sep, with_seconds)->Some_0 == canonical_date(
        y,
        mo,
        d,
        h,
        mi,
        s,
    ));
}

} // verus!
