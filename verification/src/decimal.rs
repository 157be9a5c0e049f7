//! Decimal numerals: what a numeral is, the number it stands for, and its
//! normal form, which is how a number literal is written out whatever zeros
//! it was padded with in the source.

use crate::text::{
    append_chars, is_digit, lemma_run_len_bound, lemma_run_len_exact, lemma_run_len_maximal,
    push_char, run_len, skip_run, CharClass,
};
use vstd::prelude::*;

verus! {

/// Whether `digits` is a numeral: one or more digits, and then, if anything,
/// a decimal point and one or more digits.
pub open spec fn is_numeral(digits: Seq<char>) -> bool {
    let whole = run_len(digits, 0, CharClass::Digit) as int;
    &&& whole >= 1
    &&& whole == digits.len() || {
        let fraction = run_len(digits, whole + 1, CharClass::Digit);
        &&& digits[whole] == '.'
        &&& fraction >= 1
        &&& whole + 1 + fraction == digits.len()
    }
}

/// The position in `s` at which its padding of fraction zeros begins: the
/// least `e` with `lo <= e <= hi` such that `s[e..hi]` is all zeros.
pub open spec fn trimmed_end(s: Seq<char>, lo: int, hi: int) -> int
    decreases hi - lo,
{
    if lo < hi && 0 < hi <= s.len() && s[hi - 1] == '0' {
        trimmed_end(s, lo, hi - 1)
    } else {
        hi
    }
}

/// The whole part of the numeral `s` without its leading zeros: the digits
/// before the decimal point from the first that is not zero, or a single `0`
/// when there is none.
pub open spec fn whole_digits(s: Seq<char>) -> Seq<char> {
    let point = run_len(s, 0, CharClass::NotPoint) as int;
    let zeros = run_len(s, 0, CharClass::Zero) as int;
    if zeros >= point {
        seq!['0']
    } else {
        s.subrange(zeros, point)
    }
}

/// The fraction of the numeral `s` without its trailing zeros: the digits
/// after the first decimal point up to the last that is not zero. It is empty
/// when `s` has no decimal point.
pub open spec fn fraction_digits(s: Seq<char>) -> Seq<char> {
    let point = run_len(s, 0, CharClass::NotPoint) as int;
    if point < s.len() {
        s.subrange(point + 1, trimmed_end(s, point + 1, s.len() as int))
    } else {
        Seq::empty()
    }
}

/// The normal form of the decimal numeral `s`: its whole part without leading
/// zeros, then, if any fraction digit is left once the trailing zeros are
/// gone, a decimal point and those digits. So `007`, `7.0` and `7.000` are all
/// written `7`, and `0.50` is written `0.5`.
pub open spec fn normal_form(s: Seq<char>) -> Seq<char> {
    let fraction = fraction_digits(s);
    if fraction.len() > 0 {
        whole_digits(s) + seq!['.'] + fraction
    } else {
        whole_digits(s)
    }
}

/// Ten to the power `n`.
pub open spec fn pow10(n: nat) -> nat
    decreases n,
{
    if n == 0 {
        1
    } else {
        10 * pow10((n - 1) as nat)
    }
}

/// The number that the digit `c` stands for.
pub open spec fn digit_value(c: char) -> nat {
    (c as int - '0' as int) as nat
}

/// The number that the digits `s` spell in base ten. No digits spell zero.
pub open spec fn natural(s: Seq<char>) -> nat
    decreases s.len(),
{
    if s.len() == 0 {
        0
    } else {
        10 * natural(s.drop_last()) + digit_value(s.last())
    }
}

/// The number of digits that the numeral `s` has after its decimal point.
pub open spec fn scale(s: Seq<char>) -> nat {
    let point = run_len(s, 0, CharClass::NotPoint) as int;
    if point < s.len() {
        (s.len() - point - 1) as nat
    } else {
        0
    }
}

/// The number that the digits of the numeral `s` spell when its decimal
/// point is left out. The numeral stands for this number divided by ten to
/// the power `scale(s)`.
pub open spec fn numerator(s: Seq<char>) -> nat {
    let point = run_len(s, 0, CharClass::NotPoint) as int;
    if point < s.len() {
        natural(s.subrange(0, point)) * pow10(scale(s)) + natural(
            s.subrange(point + 1, s.len() as int),
        )
    } else {
        natural(s)
    }
}

/// Whether the numerals `a` and `b` stand for the same number.
pub open spec fn same_number(a: Seq<char>, b: Seq<char>) -> bool {
    numerator(a) * pow10(scale(b)) == numerator(b) * pow10(scale(a))
}

/// Ten to a sum is the product of the powers.
pub proof fn lemma_pow10_adds(a: nat, b: nat)
    ensures
        pow10(a + b) == pow10(a) * pow10(b),
    decreases a,
{
    if a > 0 {
        let less = (a - 1) as nat;
        lemma_pow10_adds(less, b);
        assert(pow10(a + b) == 10 * pow10(less + b));
        assert(10 * (pow10(less) * pow10(b)) == (10 * pow10(less)) * pow10(b))
            by (nonlinear_arith);
    } else {
        assert(1 * pow10(b) == pow10(b));
    }
}

/// The digits of two sequences joined spell the number of the first, shifted
/// by the length of the second, plus the number of the second.
pub proof fn lemma_natural_concat(a: Seq<char>, b: Seq<char>)
    ensures
        natural(a + b) == natural(a) * pow10(b.len()) + natural(b),
    decreases b.len(),
{
    let x = natural(a);
    if b.len() == 0 {
        assert(a + b =~= a);
        assert(x * pow10(0) == x) by (nonlinear_arith)
            requires
                pow10(0) == 1,
        ;
    } else {
        let shorter = b.drop_last();
        assert((a + b).drop_last() =~= a + shorter);
        assert((a + b).last() == b.last());
        lemma_natural_concat(a, shorter);
        let p = pow10(shorter.len());
        let n = natural(shorter);
        let d = digit_value(b.last());
        assert(pow10(b.len()) == 10 * p);
        assert(natural(b) == 10 * n + d);
        assert(natural(a + b) == 10 * (x * p + n) + d);
        assert(10 * (x * p + n) + d == x * (10 * p) + (10 * n + d)) by (nonlinear_arith);
    }
}

/// Zeros alone spell zero.
pub proof fn lemma_natural_zeros(s: Seq<char>)
    requires
        forall|i: int| 0 <= i < s.len() ==> s[i] == '0',
    ensures
        natural(s) == 0,
    decreases s.len(),
{
    if s.len() > 0 {
        lemma_natural_zeros(s.drop_last());
    }
}

/// What is trimmed off is zeros, all of them: from `trimmed_end` up to `hi`
/// every character is a zero, and the character before it, if it lies at or
/// after `lo`, is none.
pub proof fn lemma_trimmed_end(s: Seq<char>, lo: int, hi: int)
    requires
        0 <= lo <= hi <= s.len(),
    ensures
        lo <= trimmed_end(s, lo, hi) <= hi,
        forall|i: int| trimmed_end(s, lo, hi) <= i < hi ==> s[i] == '0',
        lo < trimmed_end(s, lo, hi) ==> s[trimmed_end(s, lo, hi) - 1] != '0',
    decreases hi - lo,
{
    if lo < hi && s[hi - 1] == '0' {
        lemma_trimmed_end(s, lo, hi - 1);
    }
}

/// The parts of a numeral: its digits before the point are a run of digits
/// that is also the run of characters other than the point, its leading zeros
/// lie within them, and what follows the point, if there is one, is digits to
/// the end.
proof fn lemma_numeral_parts(s: Seq<char>)
    requires
        is_numeral(s),
    ensures
        run_len(s, 0, CharClass::NotPoint) == run_len(s, 0, CharClass::Digit),
        run_len(s, 0, CharClass::Zero) <= run_len(s, 0, CharClass::Digit),
        1 <= run_len(s, 0, CharClass::Digit) <= s.len(),
        forall|i: int| 0 <= i < run_len(s, 0, CharClass::Digit) ==> is_digit(#[trigger] s[i]),
        forall|i: int| run_len(s, 0, CharClass::Digit) < i < s.len() ==> is_digit(#[trigger] s[i]),
        run_len(s, 0, CharClass::Digit) < s.len() ==> s[run_len(s, 0, CharClass::Digit) as int]
            == '.' && run_len(s, 0, CharClass::Digit) + 1 < s.len(),
{
    let whole = run_len(s, 0, CharClass::Digit);
    lemma_run_len_bound(s, 0, CharClass::Digit);
    lemma_run_len_maximal(s, 0, CharClass::Digit);
    lemma_run_len_exact(s, 0, whole, CharClass::NotPoint);
    lemma_run_len_bound(s, 0, CharClass::Zero);
    lemma_run_len_maximal(s, 0, CharClass::Zero);
    if whole < s.len() {
        lemma_run_len_maximal(s, whole as int + 1, CharClass::Digit);
    }
}

/// The normal form of a numeral stands for the same number as the numeral:
/// leaving out leading zeros of the whole part and trailing zeros of the
/// fraction changes how the number is written and not what it is.
pub proof fn lemma_normal_form_same_number(s: Seq<char>)
    requires
        is_numeral(s),
    ensures
        same_number(normal_form(s), s),
{
    lemma_numeral_parts(s);
    let len = s.len() as int;
    let point = run_len(s, 0, CharClass::NotPoint) as int;
    let zeros = run_len(s, 0, CharClass::Zero) as int;
    lemma_run_len_maximal(s, 0, CharClass::Zero);
    let whole = s.subrange(0, point);
    let kept = whole_digits(s);
    // The whole part spells the same number with or without its leading zeros.
    assert(natural(kept) == natural(whole)) by {
        if zeros >= point {
            lemma_natural_zeros(whole);
            assert(natural(seq!['0']) == 0) by {
                lemma_natural_zeros(seq!['0']);
            }
        } else {
            lemma_natural_zeros(s.subrange(0, zeros));
            lemma_natural_concat(s.subrange(0, zeros), s.subrange(zeros, point));
            assert(whole =~= s.subrange(0, zeros) + s.subrange(zeros, point));
            assert(0 * pow10((point - zeros) as nat) == 0) by (nonlinear_arith);
        }
    }
    let fraction = fraction_digits(s);
    let form = normal_form(s);
    // The normal form has its point, if it has one, right after the digits kept.
    assert forall|i: int| 0 <= i < kept.len() implies CharClass::NotPoint.holds(
        #[trigger] form[i],
    ) by {
        assert(form[i] == kept[i]);
        if zeros < point {
            assert(kept[i] == s[zeros + i]);
        }
    }
    lemma_run_len_exact(form, 0, kept.len(), CharClass::NotPoint);
    if point < len {
        let end = trimmed_end(s, point + 1, len);
        lemma_trimmed_end(s, point + 1, len);
        let all = s.subrange(point + 1, len);
        let dropped = s.subrange(end, len);
        assert(all =~= fraction + dropped);
        lemma_natural_zeros(dropped);
        lemma_natural_concat(fraction, dropped);
        lemma_pow10_adds(fraction.len(), dropped.len());
        let w = natural(whole);
        let f = natural(fraction);
        let pf = pow10(fraction.len());
        let pd = pow10(dropped.len());
        assert(natural(all) == f * pd);
        assert(pow10(all.len()) == pf * pd);
        assert(numerator(s) == w * (pf * pd) + f * pd);
        if fraction.len() > 0 {
            assert(form.subrange(0, kept.len() as int) =~= kept);
            assert(form.subrange(kept.len() as int + 1, form.len() as int) =~= fraction);
            assert(numerator(form) == w * pf + f);
        } else {
            assert(natural(fraction) == 0);
            assert(pf == 1);
            assert(numerator(form) == w);
        }
        assert((w * pf + f) * (pf * pd) == (w * (pf * pd) + f * pd) * pf) by (nonlinear_arith);
    } else {
        assert(whole =~= s);
    }
}

/// The normal form is normal: the normal form of a numeral is a numeral, and
/// it is its own normal form.
pub proof fn lemma_normal_form_is_normal(s: Seq<char>)
    requires
        is_numeral(s),
    ensures
        is_numeral(normal_form(s)),
        normal_form(normal_form(s)) == normal_form(s),
{
    lemma_numeral_parts(s);
    let len = s.len() as int;
    let point = run_len(s, 0, CharClass::NotPoint) as int;
    let zeros = run_len(s, 0, CharClass::Zero) as int;
    lemma_run_len_maximal(s, 0, CharClass::Zero);
    let kept = whole_digits(s);
    let fraction = fraction_digits(s);
    let form = normal_form(s);
    let k = kept.len() as int;
    assert forall|i: int| 0 <= i < k implies is_digit(#[trigger] form[i]) by {
        assert(form[i] == kept[i]);
        if zeros < point {
            assert(kept[i] == s[zeros + i]);
        }
    }
    if point < len {
        lemma_trimmed_end(s, point + 1, len);
    }
    if fraction.len() > 0 {
        assert(form[k] == '.');
        assert forall|i: int| k + 1 <= i < form.len() implies is_digit(#[trigger] form[i]) by {
            assert(form[i] == fraction[i - k - 1]);
            assert(fraction[i - k - 1] == s[point + 1 + (i - k - 1)]);
        }
        lemma_run_len_exact(form, k + 1, fraction.len(), CharClass::Digit);
    }
    lemma_run_len_exact(form, 0, kept.len(), CharClass::Digit);
    lemma_run_len_exact(form, 0, kept.len(), CharClass::NotPoint);
    // The digits kept begin with no zero, unless they are the one digit zero.
    if zeros >= point {
        lemma_run_len_exact(form, 0, 1, CharClass::Zero);
    } else {
        assert(form[0] == s[zeros]);
        lemma_run_len_exact(form, 0, 0, CharClass::Zero);
    }
    assert(whole_digits(form) =~= kept);
    // The fraction kept ends with no zero.
    if fraction.len() > 0 {
        let last = form.len() as int;
        assert(form[last - 1] == fraction[fraction.len() - 1]);
        assert(fraction[fraction.len() - 1] == s[trimmed_end(s, point + 1, len) - 1]);
        assert(trimmed_end(form, k + 1, last) == last);
        assert(fraction_digits(form) =~= fraction);
    } else {
        assert(fraction_digits(form) =~= Seq::<char>::empty());
    }
}

/// The position at which the trailing zeros of `chars[lo..hi]` begin.
fn trim_end(chars: &Vec<char>, lo: usize, hi: usize) -> (e: usize)
    requires
        lo <= hi <= chars.len(),
    ensures
        e == trimmed_end(chars@, lo as int, hi as int),
        lo <= e <= hi,
{
    let mut e: usize = hi;
    while lo < e && chars[e - 1] == '0'
        invariant
            lo <= e <= hi <= chars.len(),
            trimmed_end(chars@, lo as int, hi as int) == trimmed_end(chars@, lo as int, e as int),
        decreases e - lo,
    {
        e -= 1;
    }
    e
}

/// Writes the decimal numeral `chars` in its normal form.
pub fn decimal_text(chars: &Vec<char>) -> (s: String)
    ensures
        s@ == normal_form(chars@),
{
    let point: usize = skip_run(chars, 0, CharClass::NotPoint);
    let zeros: usize = skip_run(chars, 0, CharClass::Zero);
    let mut s = String::new();
    if zeros >= point {
        push_char(&mut s, '0');
    } else {
        append_chars(&mut s, chars, zeros, point);
    }
    if point < chars.len() {
        let end: usize = trim_end(chars, point + 1, chars.len());
        if end > point + 1 {
            push_char(&mut s, '.');
            append_chars(&mut s, chars, point + 1, end);
        }
    }
    s
}

} // verus!
