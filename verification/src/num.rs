//! Decimal amounts. An amount is a non-negative magnitude kept as a whole
//! number of hundredths (the sign of a transaction is carried by its type, not
//! by the number). Raw amount fields are parsed by stripping any non-digit
//! prefix such as a currency glyph, dropping grouping commas, and reading an
//! integer part with up to two fraction digits; the canonical text form is the
//! integer part, a point, and exactly two fraction digits.

use vstd::prelude::*;

use crate::text::split_seq;
use crate::text::chars_split;

verus! {

pub open spec fn is_digit(c: char) -> bool {
    48 <= c as u32 && c as u32 <= 57
}

pub open spec fn digit_val(c: char) -> int {
    c as u32 - 48
}

pub open spec fn digit_char(d: int) -> char {
    if d == 0 {
        '0'
    } else if d == 1 {
        '1'
    } else if d == 2 {
        '2'
    } else if d == 3 {
        '3'
    } else if d == 4 {
        '4'
    } else if d == 5 {
        '5'
    } else if d == 6 {
        '6'
    } else if d == 7 {
        '7'
    } else if d == 8 {
        '8'
    } else {
        '9'
    }
}

pub open spec fn all_digits(s: Seq<char>) -> bool {
    forall|i: int| 0 <= i < s.len() ==> is_digit(#[trigger] s[i])
}

/// The value of a string of decimal digits, most significant first.
pub open spec fn digits_val(s: Seq<char>) -> int
    decreases s.len(),
{
    if s.len() == 0 {
        0
    } else {
        digits_val(s.drop_last()) * 10 + digit_val(s.last())
    }
}

/// The shortest decimal digit string of the value `n`.
pub open spec fn dec_digits(n: int) -> Seq<char>
    decreases n,
{
    if n < 10 {
        seq![digit_char(n)]
    } else {
        dec_digits(n / 10).push(digit_char(n % 10))
    }
}

pub proof fn lemma_digit_char_val(d: int)
    requires
        0 <= d < 10,
    ensures
        is_digit(digit_char(d)),
        digit_val(digit_char(d)) == d,
{
}

pub proof fn lemma_digits_val_nonneg(s: Seq<char>)
    requires
        all_digits(s),
    ensures
        digits_val(s) >= 0,
    decreases s.len(),
{
    if s.len() > 0 {
        assert(all_digits(s.drop_last())) by {
            assert(forall|i: int|
                0 <= i < s.len() - 1 ==> s.drop_last()[i] == #[trigger] s[i]);
        }
        lemma_digits_val_nonneg(s.drop_last());
    }
}

pub proof fn lemma_dec_digits_shape(n: int)
    requires
        n >= 0,
    ensures
        dec_digits(n).len() >= 1,
        all_digits(dec_digits(n)),
        digits_val(dec_digits(n)) == n,
    decreases n,
{
    if n < 10 {
        lemma_digit_char_val(n);
        let s = dec_digits(n);
        assert(s =~= seq![digit_char(n)]);
        assert(s.drop_last() =~= Seq::<char>::empty());
        assert(digits_val(s) == digits_val(s.drop_last()) * 10 + digit_val(s.last()));
        assert(digits_val(Seq::<char>::empty()) == 0);
    } else {
        lemma_dec_digits_shape(n / 10);
        lemma_digit_char_val(n % 10);
        let d = dec_digits(n / 10);
        assert(dec_digits(n) == d.push(digit_char(n % 10)));
        assert(forall|i: int|
            0 <= i < d.len() ==> d.push(digit_char(n % 10))[i] == #[trigger] d[i]);
        assert(dec_digits(n).drop_last() =~= d);
        assert(digits_val(dec_digits(n)) == n / 10 * 10 + n % 10);
    }
}

/// Every position of a digit string before `i` bounds the whole value from
/// below: the remaining digits only multiply it further.
pub proof fn lemma_digits_val_prefix(s: Seq<char>, i: int)
    requires
        all_digits(s),
        0 <= i <= s.len(),
    ensures
        digits_val(s) >= digits_val(s.take(i)),
    decreases s.len() - i,
{
    if i == s.len() {
        assert(s.take(i) =~= s);
    } else {
        lemma_digits_val_prefix(s, i + 1);
        let t = s.take(i + 1);
        assert(t.drop_last() =~= s.take(i));
        assert(t.last() == s[i]);
        lemma_digits_val_nonneg(s.take(i));
        assert(digits_val(t) == digits_val(s.take(i)) * 10 + digit_val(s[i]));
        assert(digits_val(s.take(i)) * 10 >= digits_val(s.take(i))) by (nonlinear_arith)
            requires digits_val(s.take(i)) >= 0;
    }
}

pub open spec fn pow10(n: nat) -> int
    decreases n,
{
    if n == 0 {
        1
    } else {
        10 * pow10((n - 1) as nat)
    }
}

pub proof fn lemma_digits_val_bound(s: Seq<char>)
    requires
        all_digits(s),
    ensures
        digits_val(s) < pow10(s.len()),
    decreases s.len(),
{
    if s.len() > 0 {
        assert(forall|i: int|
            0 <= i < s.len() - 1 ==> s.drop_last()[i] == #[trigger] s[i]);
        lemma_digits_val_bound(s.drop_last());
        assert(digit_val(s.last()) <= 9);
        assert(pow10(s.len()) == 10 * pow10((s.len() - 1) as nat));
    }
}

pub proof fn lemma_pow10_pos(n: nat)
    ensures
        pow10(n) >= 1,
    decreases n,
{
    if n > 0 {
        lemma_pow10_pos((n - 1) as nat);
    }
}

/// The value of a digit string splits at the front: the leading digit
/// weighs a power of ten for each digit behind it.
pub proof fn lemma_digits_val_front(s: Seq<char>)
    requires
        s.len() > 0,
    ensures
        digits_val(s) == digit_val(s[0]) * pow10((s.len() - 1) as nat) + digits_val(
            s.drop_first(),
        ),
    decreases s.len(),
{
    if s.len() == 1 {
        assert(s.drop_last() =~= Seq::<char>::empty());
        assert(s.drop_first() =~= Seq::<char>::empty());
        assert(digits_val(Seq::<char>::empty()) == 0);
        assert(s.last() == s[0]);
        assert(digits_val(s) == digit_val(s[0]));
        assert(pow10(0) == 1);
    } else {
        let dl = s.drop_last();
        lemma_digits_val_front(dl);
        assert(dl[0] == s[0]);
        assert(digits_val(s) == digits_val(dl) * 10 + digit_val(s.last()));
        assert(dl.drop_first() =~= s.drop_first().drop_last());
        assert(s.drop_first().last() == s.last());
        assert(digits_val(s.drop_first()) == digits_val(s.drop_first().drop_last()) * 10
            + digit_val(s.drop_first().last()));
        let a = digit_val(s[0]);
        let p = pow10((s.len() - 2) as nat);
        assert(digits_val(dl) == a * p + digits_val(dl.drop_first()));
        assert((a * p + digits_val(dl.drop_first())) * 10 == a * (10 * p) + digits_val(
            dl.drop_first(),
        ) * 10) by (nonlinear_arith);
        assert(pow10((s.len() - 1) as nat) == 10 * p);
    }
}

/// The value of two digit strings in a row: the first weighs a power of ten
/// for each digit of the second.
pub proof fn lemma_digits_val_concat(a: Seq<char>, b: Seq<char>)
    ensures
        digits_val(a + b) == digits_val(a) * pow10(b.len()) + digits_val(b),
    decreases b.len(),
{
    if b.len() == 0 {
        assert(a + b =~= a);
        assert(pow10(0) == 1);
    } else {
        lemma_digits_val_concat(a, b.drop_last());
        assert((a + b).drop_last() =~= a + b.drop_last());
        assert((a + b).last() == b.last());
        assert(digits_val(a + b) == digits_val(a + b.drop_last()) * 10 + digit_val(b.last()));
        let q = pow10((b.len() - 1) as nat);
        assert((digits_val(a) * q + digits_val(b.drop_last())) * 10 == digits_val(a) * (10 * q)
            + digits_val(b.drop_last()) * 10) by (nonlinear_arith);
        assert(pow10(b.len()) == 10 * q);
    }
}

/// On digit strings of one width, the text order is the numeric order.
pub proof fn lemma_lex_digits(x: Seq<char>, y: Seq<char>)
    requires
        x.len() == y.len(),
        all_digits(x),
        all_digits(y),
    ensures
        crate::text::lex_le(x, y) <==> digits_val(x) <= digits_val(y),
    decreases x.len(),
{
    if x.len() == 0 {
        assert(x =~= y);
    } else {
        let xt = x.drop_first();
        let yt = y.drop_first();
        assert(forall|i: int| 0 <= i < xt.len() ==> xt[i] == #[trigger] x[i + 1]);
        assert(forall|i: int| 0 <= i < yt.len() ==> yt[i] == #[trigger] y[i + 1]);
        lemma_lex_digits(xt, yt);
        lemma_digits_val_front(x);
        lemma_digits_val_front(y);
        lemma_digits_val_bound(xt);
        lemma_digits_val_bound(yt);
        lemma_digits_val_nonneg(xt);
        lemma_digits_val_nonneg(yt);
        lemma_pow10_pos((x.len() - 1) as nat);
        let p = pow10((x.len() - 1) as nat);
        let a = digit_val(x[0]);
        let b = digit_val(y[0]);
        if a < b {
            assert(a * p + digits_val(xt) < b * p + digits_val(yt)) by (nonlinear_arith)
                requires
                    a < b,
                    p >= 1,
                    0 <= digits_val(xt) < p,
                    0 <= digits_val(yt),
            ;
            assert((x[0] as u32) < (y[0] as u32));
        } else if a > b {
            assert(b * p + digits_val(yt) < a * p + digits_val(xt)) by (nonlinear_arith)
                requires
                    b < a,
                    p >= 1,
                    0 <= digits_val(yt) < p,
                    0 <= digits_val(xt),
            ;
            assert((x[0] as u32) > (y[0] as u32));
        } else {
            assert(x[0] as u32 == y[0] as u32);
            assert(crate::text::lex_le(x, y) == crate::text::lex_le(xt, yt));
        }
    }
}

/// Leading characters up to the first decimal digit, such as currency glyphs,
/// are dropped before an amount is read.
pub open spec fn strip_prefix(s: Seq<char>) -> Seq<char>
    decreases s.len(),
{
    if s.len() == 0 {
        s
    } else if is_digit(s[0]) {
        s
    } else {
        strip_prefix(s.drop_first())
    }
}

/// Grouping commas are dropped before an amount is read.
pub open spec fn drop_commas(s: Seq<char>) -> Seq<char>
    decreases s.len(),
{
    if s.len() == 0 {
        s
    } else {
        let rest = drop_commas(s.drop_last());
        if s.last() == ',' {
            rest
        } else {
            rest.push(s.last())
        }
    }
}

/// The hundredths named by a fraction field of zero to two digits.
pub open spec fn frac_cents(f: Seq<char>) -> int {
    if f.len() == 0 {
        0
    } else if f.len() == 1 {
        digit_val(f[0]) * 10
    } else {
        digit_val(f[0]) * 10 + digit_val(f[1])
    }
}

pub open spec fn ok_int_part(p: Seq<char>) -> bool {
    p.len() >= 1 && all_digits(p)
}

pub open spec fn ok_frac_part(f: Seq<char>) -> bool {
    f.len() <= 2 && all_digits(f)
}

/// The parsed value of a raw amount field, in hundredths: any non-digit
/// prefix is stripped and grouping commas dropped; what remains must be a
/// digit string with an optional point and at most two fraction digits, and
/// the value must fit the machine word holding hundredths.
pub open spec fn spec_parse_amount(raw: Seq<char>) -> Option<int> {
    let s = drop_commas(strip_prefix(raw));
    let parts = split_seq(s, '.');
    if parts.len() == 1 && ok_int_part(parts[0]) && digits_val(parts[0]) * 100 <= u64::MAX {
        Some(digits_val(parts[0]) * 100)
    } else if parts.len() == 2 && ok_int_part(parts[0]) && ok_frac_part(parts[1]) && digits_val(
        parts[0],
    ) * 100 + frac_cents(parts[1]) <= u64::MAX {
        Some(digits_val(parts[0]) * 100 + frac_cents(parts[1]))
    } else {
        None
    }
}

/// The canonical text of an amount of `cents` hundredths: the units, a
/// point, and exactly two fraction digits.
pub open spec fn spec_format_amount(cents: int) -> Seq<char> {
    dec_digits(cents / 100) + seq!['.', digit_char(cents % 100 / 10), digit_char(cents % 10)]
}

pub(crate) fn digit_char_exec(d: u64) -> (c: char)
    requires
        d < 10,
    ensures
        c == digit_char(d as int),
{
    if d == 0 {
        '0'
    } else if d == 1 {
        '1'
    } else if d == 2 {
        '2'
    } else if d == 3 {
        '3'
    } else if d == 4 {
        '4'
    } else if d == 5 {
        '5'
    } else if d == 6 {
        '6'
    } else if d == 7 {
        '7'
    } else if d == 8 {
        '8'
    } else {
        '9'
    }
}

fn is_digit_exec(c: char) -> (r: bool)
    ensures
        r == is_digit(c),
{
    let u = c as u32;
    48 <= u && u <= 57
}

/// Reads a digit string; `None` when empty, not all digits, or over `max`.
pub(crate) fn parse_digits(v: &Vec<char>, max: u64) -> (r: Option<u64>)
    ensures
        match r {
            Some(n) => all_digits(v@) && v@.len() >= 1 && n == digits_val(v@) && n <= max,
            None => !(all_digits(v@) && v@.len() >= 1 && digits_val(v@) <= max),
        },
{
    if v.len() == 0 {
        return None;
    }
    let mut val: u64 = 0;
    let mut i: usize = 0;
    while i < v.len()
        invariant
            i <= v@.len(),
            all_digits(v@.take(i as int)),
            val == digits_val(v@.take(i as int)),
            val <= max,
        decreases v@.len() - i,
    {
        let c = v[i];
        if !is_digit_exec(c) {
            assert(!all_digits(v@));
            return None;
        }
        assert(48 <= c as u32 <= 57);
        let d = (c as u32 - 48) as u64;
        proof {
            let t = v@.take(i + 1);
            assert(t.drop_last() =~= v@.take(i as int));
            assert(t.last() == v@[i as int]);
        }
        if d > max || val > (max - d) / 10 {
            proof {
                lemma_digits_val_nonneg(v@.take(i as int));
                assert(val * 10 + d > max) by (nonlinear_arith)
                    requires
                        d > max || val > (max - d) / 10,
                        0 <= d < 10,
                        0 <= val,
                        max >= 0,
                        d <= max ==> max == (max - d) / 10 * 10 + ((max - d) % 10) + d
                            && (max - d) % 10 < 10,
                ;
                assert(digits_val(v@.take(i + 1)) > max);
                if all_digits(v@) {
                    lemma_digits_val_prefix(v@, i + 1);
                }
            }
            return None;
        }
        assert(val * 10 + d <= max) by (nonlinear_arith)
            requires
                val <= (max - d) / 10,
                0 <= d,
                d <= max,
                max - d >= (max - d) / 10 * 10,
        ;
        assert(digits_val(v@.take(i + 1)) == val * 10 + d);
        val = val * 10 + d;
        i = i + 1;
    }
    assert(v@.take(i as int) =~= v@);
    Some(val)
}

/// Reads a raw amount field into hundredths.
///
/// The result is pinned by `spec_parse_amount`: a currency glyph or any other
/// non-digit prefix is stripped, grouping commas are dropped, and the rest
/// must be digits with an optional point and at most two fraction digits.
pub fn parse_amount(raw: &Vec<char>) -> (r: Option<u64>)
    ensures
        match r {
            Some(n) => spec_parse_amount(raw@) == Some(n as int),
            None => spec_parse_amount(raw@) is None,
        },
{
    // strip the non-digit prefix
    assert(raw@.skip(0) =~= raw@);
    let mut start: usize = 0;
    while start < raw.len() && !is_digit_exec(raw[start])
        invariant
            start <= raw@.len(),
            strip_prefix(raw@) == strip_prefix(raw@.skip(start as int)),
        decreases raw@.len() - start,
    {
        proof {
            let t = raw@.skip(start as int);
            assert(t.drop_first() =~= raw@.skip(start + 1));
        }
        start = start + 1;
    }
    let mut cleaned: Vec<char> = Vec::new();
    let ghost stripped = strip_prefix(raw@);
    proof {
        let t = raw@.skip(start as int);
        if start < raw@.len() {
            assert(t[0] == raw@[start as int]);
        }
        assert(stripped == t);
    }
    // drop grouping commas
    let mut j: usize = start;
    while j < raw.len()
        invariant
            start <= j <= raw@.len(),
            stripped == raw@.skip(start as int),
            cleaned@ == drop_commas(raw@.skip(start as int).take(j - start)),
        decreases raw@.len() - j,
    {
        let c = raw[j];
        proof {
            let t = raw@.skip(start as int).take(j + 1 - start);
            assert(t.drop_last() =~= raw@.skip(start as int).take(j - start));
            assert(t.last() == raw@[j as int]);
        }
        if c != ',' {
            cleaned.push(c);
        }
        j = j + 1;
    }
    assert(raw@.skip(start as int).take(raw@.len() - start) =~= raw@.skip(start as int));
    assert(cleaned@ == drop_commas(stripped));
    // split at the decimal point and read the parts
    let parts = chars_split(&cleaned, '.');
    proof {
        crate::text::lemma_split_len_pos(cleaned@, '.');
    }
    let sparts = Ghost(split_seq(cleaned@, '.'));
    if parts.len() == 1 {
        assert(parts@[0]@ == sparts@[0]);
        match parse_digits(&parts[0], u64::MAX / 100) {
            Some(n) => {
                proof {
                    lemma_digits_val_nonneg(sparts@[0]);
                    assert(n * 100 <= u64::MAX / 100 * 100) by (nonlinear_arith)
                        requires n <= u64::MAX / 100;
                }
                Some(n * 100)
            },
            None => {
                proof {
                    if ok_int_part(sparts@[0]) && digits_val(sparts@[0]) * 100 <= u64::MAX {
                        assert(digits_val(sparts@[0]) <= u64::MAX / 100) by (nonlinear_arith)
                            requires digits_val(sparts@[0]) * 100 <= u64::MAX;
                    }
                }
                None
            },
        }
    } else if parts.len() == 2 {
        assert(parts@[0]@ == sparts@[0]);
        assert(parts@[1]@ == sparts@[1]);
        let frac = &parts[1];
        if frac.len() > 2 {
            return None;
        }
        let mut fval: u64 = 0;
        let mut fok = true;
        if frac.len() >= 1 {
            if !is_digit_exec(frac[0]) {
                fok = false;
            } else {
                fval = (frac[0] as u32 - 48) as u64 * 10;
            }
        }
        if fok && frac.len() == 2 {
            if !is_digit_exec(frac[1]) {
                fok = false;
            } else {
                fval = fval + (frac[1] as u32 - 48) as u64;
            }
        }
        if !fok {
            assert(!all_digits(sparts@[1]));
            return None;
        }
        assert(all_digits(sparts@[1])) by {
            assert(forall|k: int| 0 <= k < sparts@[1].len() ==> is_digit(#[trigger] sparts@[1][k]));
        }
        assert(fval == frac_cents(sparts@[1]) && fval <= 99);
        match parse_digits(&parts[0], (u64::MAX - fval) / 100) {
            Some(n) => {
                proof {
                    lemma_digits_val_nonneg(sparts@[0]);
                    assert(n * 100 + fval <= u64::MAX) by (nonlinear_arith)
                        requires
                            n <= (u64::MAX - fval) / 100,
                            0 <= fval <= 99,
                    ;
                }
                Some(n * 100 + fval)
            },
            None => {
                proof {
                    if ok_int_part(sparts@[0]) && digits_val(sparts@[0]) * 100 + frac_cents(
                        sparts@[1],
                    ) <= u64::MAX {
                        assert(digits_val(sparts@[0]) <= (u64::MAX - fval) / 100)
                            by (nonlinear_arith)
                            requires
                                digits_val(sparts@[0]) * 100 + fval <= u64::MAX,
                                0 <= fval <= 99,
                        ;
                    }
                }
                None
            },
        }
    } else {
        None
    }
}

/// Appends the decimal digits of `n`.
fn push_dec_digits(out: &mut Vec<char>, n: u64)
    ensures
        final(out)@ == old(out)@ + dec_digits(n as int),
    decreases n,
{
    if n < 10 {
        out.push(digit_char_exec(n));
    } else {
        push_dec_digits(out, n / 10);
        out.push(digit_char_exec(n % 10));
    }
}

/// Writes an amount of `cents` hundredths in the canonical form: units, a
/// point, and exactly two fraction digits.
pub fn format_amount(cents: u64) -> (r: Vec<char>)
    ensures
        r@ == spec_format_amount(cents as int),
{
    let mut out: Vec<char> = Vec::new();
    push_dec_digits(&mut out, cents / 100);
    out.push('.');
    out.push(digit_char_exec(cents % 100 / 10));
    out.push(digit_char_exec(cents % 10));
    assert(cents % 100 / 10 == cents as int % 100 / 10);
    assert(cents % 10 == cents as int % 10);
    assert(out@ =~= spec_format_amount(cents as int));
    out
}

pub proof fn lemma_drop_commas_id(s: Seq<char>)
    requires
        forall|i: int| 0 <= i < s.len() ==> s[i] != ',',
    ensures
        drop_commas(s) == s,
    decreases s.len(),
{
    if s.len() > 0 {
        assert(forall|i: int|
            0 <= i < s.len() - 1 ==> s.drop_last()[i] == #[trigger] s[i]);
        lemma_drop_commas_id(s.drop_last());
        assert(drop_commas(s) =~= s);
    }
}

pub proof fn lemma_split_no_sep(a: Seq<char>, sep: char)
    requires
        forall|i: int| 0 <= i < a.len() ==> a[i] != sep,
    ensures
        split_seq(a, sep) == seq![a],
    decreases a.len(),
{
    if a.len() == 0 {
        assert(split_seq(a, sep) =~~= seq![a]);
    } else {
        assert(forall|i: int|
            0 <= i < a.len() - 1 ==> a.drop_last()[i] == #[trigger] a[i]);
        lemma_split_no_sep(a.drop_last(), sep);
        let rest = split_seq(a.drop_last(), sep);
        assert(a.last() == a[a.len() - 1]);
        assert(a.last() != sep);
        assert(split_seq(a, sep) == rest.drop_last() + seq![rest.last().push(a.last())]);
        assert(rest.drop_last() =~= Seq::<Seq<char>>::empty());
        assert(rest.last().push(a.last()) =~= a);
        assert(split_seq(a, sep) =~~= seq![a]);
    }
}

/// Splitting `a`, one separator, then `b` — with no separator inside either
/// side — yields exactly the two fields.
pub proof fn lemma_split_two(a: Seq<char>, b: Seq<char>, sep: char)
    requires
        forall|i: int| 0 <= i < a.len() ==> a[i] != sep,
        forall|i: int| 0 <= i < b.len() ==> b[i] != sep,
    ensures
        split_seq(a + seq![sep] + b, sep) == seq![a, b],
    decreases b.len(),
{
    let s = a + seq![sep] + b;
    if b.len() == 0 {
        lemma_split_no_sep(a, sep);
        assert(s.drop_last() =~= a);
        assert(s.last() == sep);
        assert(split_seq(s, sep) =~~= seq![a, b]);
    } else {
        assert(forall|i: int|
            0 <= i < b.len() - 1 ==> b.drop_last()[i] == #[trigger] b[i]);
        lemma_split_two(a, b.drop_last(), sep);
        assert(s.drop_last() =~= a + seq![sep] + b.drop_last());
        assert(s.last() == b.last());
        let rest = split_seq(s.drop_last(), sep);
        assert(rest == seq![a, b.drop_last()]);
        assert(rest.drop_last() =~= seq![a]);
        assert(rest.last().push(b.last()) =~= b);
        assert(split_seq(s, sep) =~~= seq![a, b]);
    }
}

/// Writing an amount and reading it back restores the very value: the
/// canonical amount text is lossless.
pub proof fn lemma_amount_round_trip(cents: u64)
    ensures
        spec_parse_amount(spec_format_amount(cents as int)) == Some(cents as int),
{
    let c = cents as int;
    let units = c / 100;
    lemma_dec_digits_shape(units);
    lemma_digit_char_val(c % 100 / 10);
    lemma_digit_char_val(c % 10);
    let a = dec_digits(units);
    let f = seq![digit_char(c % 100 / 10), digit_char(c % 10)];
    let s = spec_format_amount(c);
    assert(s =~= a + seq!['.'] + f);
    assert(s[0] == a[0]);
    assert(is_digit(s[0]));
    assert(strip_prefix(s) == s);
    assert forall|i: int| 0 <= i < s.len() implies s[i] != ',' by {
        if i < a.len() {
            assert(s[i] == a[i] && is_digit(a[i]));
        } else if i == a.len() {
            assert(s[i] == '.');
        } else {
            assert(s[i] == f[i - a.len() - 1]);
            assert(is_digit(s[i]));
        }
    }
    lemma_drop_commas_id(s);
    assert forall|i: int| 0 <= i < a.len() implies a[i] != '.' by {
        assert(is_digit(a[i]));
    }
    assert forall|i: int| 0 <= i < f.len() implies f[i] != '.' by {
        assert(is_digit(f[i]));
    }
    lemma_split_two(a, f, '.');
    let parts = split_seq(s, '.');
    assert(parts == seq![a, f]);
    assert(parts.len() == 2 && parts[0] == a && parts[1] == f);
    assert(frac_cents(f) == c % 100 / 10 * 10 + c % 10);
    assert(c % 100 == c % 100 / 10 * 10 + c % 100 % 10);
    assert(c % 100 % 10 == c % 10) by (nonlinear_arith)
        requires c >= 0;
    assert(c == c / 100 * 100 + c % 100);
    assert(digits_val(parts[0]) * 100 + frac_cents(parts[1]) == c);
}

/// A parsed amount is never negative: the magnitude's sign lives in the
/// transaction type.
pub proof fn lemma_parse_amount_nonneg(raw: Seq<char>)
    ensures
        spec_parse_amount(raw) is Some ==> spec_parse_amount(raw)->Some_0 >= 0,
{
    let s = drop_commas(strip_prefix(raw));
    let parts = split_seq(s, '.');
    if spec_parse_amount(raw) is Some {
        lemma_digits_val_nonneg(parts[0]);
        if parts.len() == 2 {
            assert(frac_cents(parts[1]) >= 0);
        }
    }
}

} // verus!
