//! Decimal number text as `str::parse::<f64>` reads it.
//!
//! Policies keep ratios and window sizes as decimal text. A value is accepted
//! where the text is a float literal (optional sign, digits with an optional
//! fraction, optional exponent; or `inf`/`infinity`/`nan`) whose rounded
//! value is finite and not negative. Rounding is decided on the decimal
//! digits: a value overflows when it reaches 2^1024 - 2^970 and a negative
//! value rounds to -0 when its magnitude is at most 2^-1075.

use crate::text::{all_digits, eq_ignore_case, is_digit, lower};
use vstd::prelude::*;

verus! {

/// Significant digits of 2^1024 - 2^970, the least magnitude that rounds to
/// infinity; its decimal exponent is 309.
pub const OVERFLOW_DIGITS: &'static str = "179769313486231580793728971405303415079934132710037826936173778980444968292764750946649017977587207096330286416692887910946555547851940402630657488671505820681908902000708383676273854845817711531764475730270069855571366959622842914819860834936475292719074168444365510704342711559699508093042880177904174497792";

/// Significant digits of 2^-1075, the largest magnitude that rounds to
/// zero; its decimal exponent is -323.
pub const UNDERFLOW_DIGITS: &'static str = "24703282292062327208828439643411068618252990130716238221279284125033775363510437593264991818081799618989828234772285886546332835517796989819938739800539093906315035659515570226392290858392449105184435931802849936536152500319370457678249219365623669863658480757001585769269903706311928279558551332927834338409351978015531246597263579574622766465272827220056374006485499977096599470454020828166226237857393450736339007967761930577506740176324673600968951340535537458516661134223766678604162159680461914467291840300530057530849048765391711386591646239524912623653881879636239373280423891018672348497668235089863388587925628302755995657524455507255189313690836254779186948667994968324049705821028513185451396213837722826145437693412532098591327667236328125";

/// Number of leading characters of `s` that satisfy `p`.
pub open spec fn lead_count(s: Seq<char>, p: spec_fn(char) -> bool) -> nat
    decreases s.len(),
{
    if s.len() > 0 && p(s[0]) {
        1 + lead_count(s.drop_first(), p)
    } else {
        0
    }
}

pub open spec fn digit_pred() -> spec_fn(char) -> bool {
    |c: char| is_digit(c)
}

pub open spec fn zero_pred() -> spec_fn(char) -> bool {
    |c: char| c == '0'
}

pub proof fn lemma_lead_count(s: Seq<char>, p: spec_fn(char) -> bool, n: nat)
    requires
        n <= s.len(),
        forall|k: int| 0 <= k < n ==> p(#[trigger] s[k]),
        n < s.len() ==> !p(s[n as int]),
    ensures
        lead_count(s, p) == n,
    decreases s.len(),
{
    if n > 0 {
        assert(p(s[0]));
        assert forall|k: int| 0 <= k < n - 1 implies p(#[trigger] s.drop_first()[k]) by {
            assert(s.drop_first()[k] == s[k + 1]);
        }
        if n - 1 < s.drop_first().len() {
            assert(s.drop_first()[n - 1] == s[n as int]);
        }
        lemma_lead_count(s.drop_first(), p, (n - 1) as nat);
    } else if s.len() > 0 {
        assert(!p(s[0]));
    }
}

/// The sign and the rest of a float literal.
pub open spec fn split_sign(s: Seq<char>) -> (bool, Seq<char>) {
    if s.len() > 0 && (s[0] == '+' || s[0] == '-') {
        (s[0] == '-', s.drop_first())
    } else {
        (false, s)
    }
}

/// The exponent digits as the parser accumulates them: it stops growing once
/// it reaches 65536.
pub open spec fn exponent_value(d: Seq<char>) -> int
    decreases d.len(),
{
    if d.len() == 0 {
        0
    } else {
        let e = exponent_value(d.drop_last());
        if e < 0x10000 {
            10 * e + crate::text::digit_value(d.last())
        } else {
            e
        }
    }
}

/// The exponent part after `e`/`E`: an optional sign, then at least one digit.
pub open spec fn parse_exponent(x: Seq<char>) -> Option<int> {
    let (neg, d) = split_sign(x);
    if d.len() > 0 && all_digits(d) {
        Some(
            if neg {
                -exponent_value(d)
            } else {
                exponent_value(d)
            },
        )
    } else {
        None
    }
}

/// A decimal literal `I[.F][(e|E)X]` as `(I followed by F, length of I + exponent)`.
pub open spec fn parse_decimal_literal(r: Seq<char>) -> Option<(Seq<char>, int)> {
    let i = lead_count(r, digit_pred());
    let int_part = r.take(i as int);
    let rest1 = r.skip(i as int);
    let has_dot = rest1.len() > 0 && rest1[0] == '.';
    let after_dot = if has_dot {
        rest1.drop_first()
    } else {
        rest1
    };
    let f = if has_dot {
        lead_count(after_dot, digit_pred())
    } else {
        0
    };
    let frac_part = after_dot.take(f as int);
    let rest2 = after_dot.skip(f as int);
    if int_part.len() + frac_part.len() == 0 {
        None
    } else if rest2.len() == 0 {
        Some((int_part + frac_part, int_part.len() as int))
    } else if rest2[0] == 'e' || rest2[0] == 'E' {
        match parse_exponent(rest2.drop_first()) {
            Some(e) => Some((int_part + frac_part, int_part.len() + e)),
            None => None,
        }
    } else {
        None
    }
}

/// Compares two digit strings as decimal fractions `0.a` and `0.b`:
/// -1, 0 or 1.
pub open spec fn frac_order(a: Seq<char>, b: Seq<char>) -> int
    decreases a.len() + b.len(),
{
    if a.len() == 0 && b.len() == 0 {
        0
    } else {
        let x = if a.len() > 0 {
            a[0]
        } else {
            '0'
        };
        let y = if b.len() > 0 {
            b[0]
        } else {
            '0'
        };
        if x < y {
            -1
        } else if x > y {
            1
        } else {
            frac_order(
                if a.len() > 0 {
                    a.drop_first()
                } else {
                    a
                },
                if b.len() > 0 {
                    b.drop_first()
                } else {
                    b
                },
            )
        }
    }
}

/// Whether a decimal value `0.digits x 10^shift` with the given sign parses
/// to a finite, non-negative float.
pub open spec fn decimal_ok(negative: bool, digits: Seq<char>, shift: int) -> bool {
    let z = lead_count(digits, zero_pred());
    if z == digits.len() {
        true
    } else {
        let sig = digits.skip(z as int);
        let d = shift - z;
        let finite = d <= 308 || (d == 309 && frac_order(sig, OVERFLOW_DIGITS@) < 0);
        let to_zero = d <= -324 || (d == -323 && frac_order(sig, UNDERFLOW_DIGITS@) <= 0);
        finite && (!negative || to_zero)
    }
}

/// `None` where `str::parse::<f64>` fails; otherwise whether the parsed value
/// is finite and not negative.
pub open spec fn float_text_class(s: Seq<char>) -> Option<bool> {
    let (negative, r) = split_sign(s);
    if eq_ignore_case(r, "nan"@) || eq_ignore_case(r, "inf"@) || eq_ignore_case(r, "infinity"@) {
        Some(false)
    } else {
        match parse_decimal_literal(r) {
            Some((digits, shift)) => Some(decimal_ok(negative, digits, shift)),
            None => None,
        }
    }
}

fn lead_char_ok(c: char, digits: bool) -> (r: bool)
    ensures
        r == (if digits {
            digit_pred()
        } else {
            zero_pred()
        })(c),
{
    if digits {
        '0' <= c && c <= '9'
    } else {
        c == '0'
    }
}

fn count_lead(s: &[char], start: usize, digits: bool) -> (r: usize)
    requires
        start <= s@.len(),
    ensures
        start + r <= s@.len(),
        r == lead_count(
            s@.skip(start as int),
            if digits {
                digit_pred()
            } else {
                zero_pred()
            },
        ),
{
    let ghost p = if digits {
        digit_pred()
    } else {
        zero_pred()
    };
    let mut i = start;
    while i < s.len() && lead_char_ok(s[i], digits)
        invariant
            start <= i <= s@.len(),
            p == (if digits {
                digit_pred()
            } else {
                zero_pred()
            }),
            forall|k: int| start <= k < i ==> p(#[trigger] s@[k]),
        decreases s.len() - i,
    {
        i += 1;
    }
    proof {
        let t = s@.skip(start as int);
        assert forall|k: int| 0 <= k < i - start implies p(#[trigger] t[k]) by {
            assert(t[k] == s@[k + start]);
        }
        if i - start < t.len() {
            assert(t[i - start] == s@[i as int]);
        }
        lemma_lead_count(t, p, (i - start) as nat);
    }
    i - start
}

fn frac_less(a: &[char], b: &[char], or_equal: bool) -> (r: bool)
    ensures
        r == (if or_equal {
            frac_order(a@, b@) <= 0
        } else {
            frac_order(a@, b@) < 0
        }),
{
    let n = if a.len() >= b.len() {
        a.len()
    } else {
        b.len()
    };
    let mut k: usize = 0;
    proof {
        assert(tail(a@, 0) =~= a@);
        assert(tail(b@, 0) =~= b@);
    }
    while k < n
        invariant
            n == (if a@.len() >= b@.len() {
                a@.len()
            } else {
                b@.len()
            }),
            k <= n,
            frac_order(a@, b@) == frac_order(tail(a@, k as int), tail(b@, k as int)),
        decreases n - k,
    {
        let x = if k < a.len() {
            a[k]
        } else {
            '0'
        };
        let y = if k < b.len() {
            b[k]
        } else {
            '0'
        };
        proof {
            lemma_tail_step(a@, k as int);
            lemma_tail_step(b@, k as int);
        }
        if x < y {
            return true;
        }
        if x > y {
            return false;
        }
        k += 1;
    }
    proof {
        assert(tail(a@, k as int).len() == 0);
        assert(tail(b@, k as int).len() == 0);
    }
    or_equal
}

pub open spec fn tail(a: Seq<char>, k: int) -> Seq<char> {
    if k >= a.len() {
        Seq::empty()
    } else {
        a.skip(k)
    }
}

proof fn lemma_tail_step(a: Seq<char>, k: int)
    requires
        0 <= k,
    ensures
        tail(a, k).len() > 0 ==> tail(a, k)[0] == a[k] && tail(a, k).drop_first() =~= tail(a, k + 1),
        tail(a, k).len() == 0 ==> tail(a, k + 1).len() == 0 && k >= a.len(),
        tail(a, k).len() > 0 <==> k < a.len(),
{
}

fn exponent_from(r: &[char], xs: usize) -> (res: Option<i64>)
    requires
        xs <= r@.len(),
    ensures
        res matches Some(e) ==> parse_exponent(r@.skip(xs as int)) == Some(e as int),
        res is None ==> parse_exponent(r@.skip(xs as int)) is None,
        res matches Some(e) ==> -0xa0000 < e < 0xa0000,
{
    let (eneg, ds) = if xs < r.len() && (r[xs] == '+' || r[xs] == '-') {
        (r[xs] == '-', xs + 1)
    } else {
        (false, xs)
    };
    let ghost x = r@.skip(xs as int);
    proof {
        assert(split_sign(x).1 =~= r@.skip(ds as int));
        assert(split_sign(x).0 == eneg);
    }
    if ds >= r.len() {
        assert(r@.skip(ds as int).len() == 0);
        return None;
    }
    let mut e: i64 = 0;
    let mut k = ds;
    while k < r.len()
        invariant
            ds <= k <= r@.len(),
            ds < r@.len(),
            split_sign(r@.skip(xs as int)).1 =~= r@.skip(ds as int),
            forall|j: int| ds <= j < k ==> is_digit(#[trigger] r@[j]),
            e == exponent_value(r@.subrange(ds as int, k as int)),
            0 <= e < 0x10000 * 10,
        decreases r.len() - k,
    {
        let c = r[k];
        if !('0' <= c && c <= '9') {
            proof {
                assert(r@.skip(ds as int)[k - ds] == c);
                assert(!all_digits(r@.skip(ds as int)));
            }
            return None;
        }
        proof {
            assert(r@.subrange(ds as int, k + 1).drop_last() =~= r@.subrange(ds as int, k as int));
        }
        if e < 0x10000 {
            e = 10 * e + (c as u32 - '0' as u32) as i64;
        }
        k += 1;
    }
    proof {
        assert(r@.subrange(ds as int, r@.len() as int) =~= r@.skip(ds as int));
        assert forall|j: int| 0 <= j < r@.skip(ds as int).len() implies is_digit(
            #[trigger] r@.skip(ds as int)[j],
        ) by {
            assert(r@.skip(ds as int)[j] == r@[j + ds]);
        }
    }
    Some(
        if eneg {
            -e
        } else {
            e
        },
    )
}

#[verifier::rlimit(60)]
fn decimal_literal(r: &[char]) -> (res: Option<(Vec<char>, i128)>)
    ensures
        res matches Some((d, sh)) ==> parse_decimal_literal(r@) == Some((d@, sh as int)),
        res is None ==> parse_decimal_literal(r@) is None,
        res matches Some((d, sh)) ==> -0xa0000 < sh < 0x1_0000_0000_0000_0000 + 0xa0000,
{
    let i = count_lead(r, 0, true);
    proof {
        assert(r@.skip(0) =~= r@);
    }
    let has_dot = i < r.len() && r[i] == '.';
    let after = if has_dot {
        i + 1
    } else {
        i
    };
    let f = if has_dot {
        count_lead(r, after, true)
    } else {
        0
    };
    let ghost int_part = r@.take(i as int);
    let ghost rest1 = r@.skip(i as int);
    let ghost after_dot = if has_dot {
        rest1.drop_first()
    } else {
        rest1
    };
    proof {
        assert(after_dot =~= r@.skip(after as int));
        assert(after_dot.take(f as int) =~= r@.subrange(after as int, (after + f) as int));
        assert(after_dot.skip(f as int) =~= r@.skip((after + f) as int));
    }
    if i + f == 0 {
        return None;
    }
    let mut digits = crate::text::slice_range(r, 0, i);
    let frac = crate::text::slice_range(r, after, after + f);
    crate::text::push_chars(&mut digits, frac.as_slice());
    proof {
        assert(int_part + after_dot.take(f as int) =~= digits@);
    }
    let pos = after + f;
    if pos >= r.len() {
        return Some((digits, i as i128));
    }
    if r[pos] != 'e' && r[pos] != 'E' {
        return None;
    }
    proof {
        assert(r@.skip((after + f) as int).drop_first() =~= r@.skip(pos + 1));
    }
    match exponent_from(r, pos + 1) {
        Some(e) => Some((digits, i as i128 + e as i128)),
        None => None,
    }
}

/// Classifies float text; see `float_text_class`.
pub fn classify_decimal_text(s: &[char]) -> (r: Option<bool>)
    ensures
        r == float_text_class(s@),
{
    let start: usize = if s.len() > 0 && (s[0] == '+' || s[0] == '-') {
        1
    } else {
        0
    };
    let negative = start == 1 && s[0] == '-';
    let rest = crate::text::slice_range(s, start, s.len());
    proof {
        assert(split_sign(s@).1 =~= rest@);
        assert(split_sign(s@).0 == negative);
    }
    if crate::text::eq_ignore_ascii_case(rest.as_slice(), crate::text::chars_of("nan").as_slice())
        || crate::text::eq_ignore_ascii_case(rest.as_slice(), crate::text::chars_of("inf").as_slice())
        || crate::text::eq_ignore_ascii_case(
        rest.as_slice(),
        crate::text::chars_of("infinity").as_slice(),
    ) {
        return Some(false);
    }
    match decimal_literal(rest.as_slice()) {
        Some((digits, shift)) => Some(decimal_value_ok(negative, digits.as_slice(), shift)),
        None => None,
    }
}

fn decimal_value_ok(negative: bool, digits: &[char], shift: i128) -> (r: bool)
    requires
        -0xa0000 < shift < 0x1_0000_0000_0000_0000 + 0xa0000,
    ensures
        r == decimal_ok(negative, digits@, shift as int),
{
    let z = count_lead(digits, 0, false);
    proof {
        assert(digits@.skip(0) =~= digits@);
    }
    if z == digits.len() {
        return true;
    }
    let sig = crate::text::slice_range(digits, z, digits.len());
    proof {
        assert(sig@ =~= digits@.skip(z as int));
    }
    let d: i128 = shift - z as i128;
    let over = crate::text::chars_of(OVERFLOW_DIGITS);
    let under = crate::text::chars_of(UNDERFLOW_DIGITS);
    let finite = d <= 308 || (d == 309 && frac_less(sig.as_slice(), over.as_slice(), false));
    let to_zero = d <= -324 || (d == -323 && frac_less(sig.as_slice(), under.as_slice(), true));
    finite && (!negative || to_zero)
}

/// Whether `str::parse::<f64>` accepts `s` and yields a finite, non-negative value.
pub fn parses_finite_non_negative(s: &str) -> (r: bool)
    ensures
        r == (float_text_class(s@) == Some(true)),
{
    let cs = crate::text::chars_of(s);
    match classify_decimal_text(cs.as_slice()) {
        Some(b) => b,
        None => false,
    }
}


/// Whether the decimal value `0.digits x 10^shift` is at most 1.
pub open spec fn decimal_at_most_one(digits: Seq<char>, shift: int) -> bool {
    let z = lead_count(digits, zero_pred());
    if z == digits.len() {
        true
    } else {
        let sig = digits.skip(z as int);
        let d = shift - z;
        d <= 0 || (d == 1 && sig[0] == '1' && lead_count(sig.drop_first(), zero_pred()) == sig.len() - 1)
    }
}

/// Whether `s` reads as a finite number in `[0, 1]`.
pub open spec fn float_text_in_unit_interval(s: Seq<char>) -> bool {
    &&& float_text_class(s) == Some(true)
    &&& match parse_decimal_literal(split_sign(s).1) {
        Some((digits, shift)) => decimal_at_most_one(digits, shift),
        None => false,
    }
}

/// Whether `s` reads as a finite number between 0 and 1 inclusive.
pub fn parses_unit_interval(s: &str) -> (r: bool)
    ensures
        r == float_text_in_unit_interval(s@),
{
    let cs = crate::text::chars_of(s);
    match classify_decimal_text(cs.as_slice()) {
        Some(b) => {
            if !b {
                return false;
            }
        },
        None => {
            return false;
        },
    }
    let start: usize = if cs.len() > 0 && (cs[0] == '+' || cs[0] == '-') {
        1
    } else {
        0
    };
    let rest = crate::text::slice_range(cs.as_slice(), start, cs.len());
    proof {
        assert(split_sign(s@).1 =~= rest@);
    }
    match decimal_literal(rest.as_slice()) {
        None => false,
        Some((digits, shift)) => {
            let z = count_lead(digits.as_slice(), 0, false);
            proof {
                assert(digits@.skip(0) =~= digits@);
            }
            if z == digits.len() {
                return true;
            }
            let d: i128 = shift - z as i128;
            if d <= 0 {
                true
            } else if d == 1 && digits[z] == '1' {
                let z2 = count_lead(digits.as_slice(), z + 1, false);
                proof {
                    assert(digits@.skip(z as int).drop_first() =~= digits@.skip(z + 1));
                }
                z + 1 + z2 == digits.len()
            } else {
                false
            }
        },
    }
}

} // verus!
