//! Properties that relate the rules, the decoders and the dispatcher.

use vstd::prelude::*;
use crate::decode::{
    decimal_text, int_lexeme_value, lemma_grouped_run_chars, lemma_without_underscores_digits,
    without_underscores,
};
use crate::grammar::{
    decimal_len, grouped_run, int_len, is_dec_digit, is_nz_digit, is_radix_digit,
    is_radix_marker, radix_int_len, sign_len,
};
use crate::numeric::{decimal_in_range, decimal_scale, decimal_unscaled};
use crate::parser::{decimal_match, float_match, int_match, parse_model};
use crate::value::ValueModel;

verus! {

/// The value part of a rule's match.
pub open spec fn matched_value<T>(m: Option<(T, nat)>) -> T {
    let p = m->0;
    p.0
}

/// The length part of a rule's match.
pub open spec fn matched_len<T>(m: Option<(T, nat)>) -> nat {
    let p = m->0;
    p.1
}

/// The number an integer rule reads at the start of `s`, in the order the
/// rules are tried; `None` for `null.int` or no match.
pub open spec fn int_denotation(s: Seq<char>) -> Option<int> {
    match radix_int_len(s, 16) {
        Some(n) => Some(int_lexeme_value(s, n as int, 16)),
        None => match radix_int_len(s, 8) {
            Some(n) => Some(int_lexeme_value(s, n as int, 8)),
            None => match radix_int_len(s, 2) {
                Some(n) => Some(int_lexeme_value(s, n as int, 2)),
                None => match int_len(s) {
                    Some(n) => Some(int_lexeme_value(s, n as int, 10)),
                    None => None,
                },
            },
        },
    }
}

/// Integer literals that denote the same number decode to the same value,
/// whatever their radix, sign or underscores.
pub proof fn lemma_equal_integers_decode_equal(a: Seq<char>, b: Seq<char>)
    requires
        int_denotation(a) is Some,
        int_denotation(a) == int_denotation(b),
    ensures
        int_match(a) is Some,
        int_match(b) is Some,
        matched_value(int_match(a)) == matched_value(int_match(b)),
        matched_value(int_match(a)) is Integer,
{
}

/// Decimal literals whose texts give the same unscaled integer and scale
/// decode to the same value, whatever form the exponent takes.
pub proof fn lemma_equal_decimals_decode_equal(a: Seq<char>, b: Seq<char>)
    requires
        decimal_len(a) is Some,
        decimal_len(b) is Some,
        ({
            let ta = decimal_text(a, decimal_len(a)->0 as int);
            let tb = decimal_text(b, decimal_len(b)->0 as int);
            &&& decimal_in_range(ta)
            &&& decimal_in_range(tb)
            &&& decimal_unscaled(ta) == decimal_unscaled(tb)
            &&& decimal_scale(ta) == decimal_scale(tb)
        }),
    ensures
        matched_value(decimal_match(a)) is Ok,
        matched_value(decimal_match(a)) == matched_value(decimal_match(b)),
{
}

proof fn lemma_radix_lexeme_has_no_point(s: Seq<char>, radix: nat, j: int)
    requires
        radix == 16 || radix == 8 || radix == 2,
        radix_int_len(s, radix) is Some,
        0 <= j < radix_int_len(s, radix)->0,
    ensures
        s[j] != '.',
{
    let k = sign_len(s, 0) as int;
    lemma_grouped_run_chars(s, k + 3, radix);
    if j >= k + 3 {
        assert(is_radix_digit(s[j], radix) || s[j] == '_');
    } else if j == k + 1 {
        assert(is_radix_marker(s[j], radix));
    }
}

proof fn lemma_int_lexeme_has_no_point(s: Seq<char>, j: int)
    requires
        int_len(s) is Some,
        0 <= j < int_len(s)->0,
    ensures
        s[j] != '.',
{
    let k: int = if s.len() > 0 && s[0] == '-' { 1 } else { 0 };
    if k < s.len() && is_nz_digit(s[k]) {
        lemma_grouped_run_chars(s, k + 1, 10);
        if j > k {
            assert(is_radix_digit(s[j], 10) || s[j] == '_');
        }
    }
}

/// Float comes before integer: whatever the float rule matches is never read
/// as an integer.
pub proof fn lemma_float_before_integer(s: Seq<char>, whole: bool)
    requires
        float_match(s) is Some,
    ensures
        parse_model(s, whole) matches Some(v) ==> v is Float,
{
}

/// A text with a point in it never reads as a whole integer: a fractional
/// literal without an exponent is no float, and no integer rule takes it all.
pub proof fn lemma_point_never_whole_integer(s: Seq<char>, i: int)
    requires
        0 <= i < s.len(),
        s[i] == '.',
    ensures
        !(parse_model(s, true) matches Some(ValueModel::Integer(Some(_)))),
{
    if float_match(s) is None && int_match(s) is Some {
        let n = matched_len(int_match(s));
        if n == s.len() && matched_value(int_match(s)) is Integer && matched_value(int_match(s))->Integer_0 is Some {
            if radix_int_len(s, 16) is Some {
                lemma_radix_lexeme_has_no_point(s, 16, i);
            } else if radix_int_len(s, 8) is Some {
                lemma_radix_lexeme_has_no_point(s, 8, i);
            } else if radix_int_len(s, 2) is Some {
                lemma_radix_lexeme_has_no_point(s, 2, i);
            } else {
                lemma_int_lexeme_has_no_point(s, i);
            }
        }
    }
}

proof fn lemma_without_underscores_concat(a: Seq<char>, b: Seq<char>)
    ensures
        without_underscores(a + b) == without_underscores(a) + without_underscores(b),
    decreases b.len(),
{
    if b.len() == 0 {
        assert(a + b =~= a);
        assert(without_underscores(a) + Seq::<char>::empty() =~= without_underscores(a));
    } else {
        assert((a + b).drop_last() =~= a + b.drop_last());
        assert((a + b).last() == b.last());
        lemma_without_underscores_concat(a, b.drop_last());
        if b.last() != '_' {
            assert((without_underscores(a) + without_underscores(b.drop_last())).push(b.last())
                =~= without_underscores(a) + without_underscores(b.drop_last()).push(b.last()));
        }
    }
}

proof fn lemma_without_underscores_keeps(t: Seq<char>)
    requires
        forall|j: int| 0 <= j < t.len() ==> t[j] != '_',
    ensures
        without_underscores(t) == t,
    decreases t.len(),
{
    if t.len() > 0 {
        let p = t.drop_last();
        assert(forall|j: int| 0 <= j < p.len() ==> p[j] == t[j]);
        lemma_without_underscores_keeps(p);
        assert(p.push(t.last()) =~= t);
    }
}

/// A run of digits alone is all grouped digits.
proof fn lemma_grouped_run_all_digits(s: Seq<char>, i: int, radix: nat)
    requires
        0 <= i <= s.len(),
        forall|j: int| i <= j < s.len() ==> is_radix_digit(#[trigger] s[j], radix),
    ensures
        grouped_run(s, i, radix) == s.len() - i,
    decreases s.len() - i,
{
    if i < s.len() {
        lemma_grouped_run_all_digits(s, i + 1, radix);
    }
}

proof fn lemma_decimal_int_lossless(s: Seq<char>)
    requires
        int_len(s) == Some(s.len()),
    ensures
        int_len(without_underscores(s)) == Some(without_underscores(s).len()),
        int_denotation(without_underscores(s)) == int_denotation(s),
{
    let k: int = if s.len() > 0 && s[0] == '-' { 1 } else { 0 };
    let pre = s.subrange(0, k + 1);
    let rest = s.subrange(k + 1, s.len() as int);
    assert(s =~= pre + rest);
    assert(forall|j: int| 0 <= j < pre.len() ==> pre[j] != '_');
    lemma_without_underscores_keeps(pre);
    lemma_without_underscores_concat(pre, rest);
    let w = without_underscores(s);
    lemma_grouped_run_chars(s, k + 1, 10);
    assert(forall|j: int|
        0 <= j < rest.len() ==> is_radix_digit(#[trigger] rest[j], 10) || rest[j] == '_') by {
        assert forall|j: int| 0 <= j < rest.len() implies is_radix_digit(#[trigger] rest[j], 10)
            || rest[j] == '_' by {
            assert(rest[j] == s[k + 1 + j]);
        }
    }
    lemma_without_underscores_digits(rest, 10);
    let wr = without_underscores(rest);
    assert(w == pre + wr);
    assert(forall|j: int| k + 1 <= j < w.len() ==> w[j] == wr[j - k - 1]);
    lemma_grouped_run_all_digits(w, k + 1, 10);
    // Neither text starts with a radix prefix.
    assert(radix_int_len(s, 16) is None);
    assert(radix_int_len(s, 8) is None);
    assert(radix_int_len(s, 2) is None);
    assert(radix_int_len(w, 16) is None);
    assert(radix_int_len(w, 8) is None);
    assert(radix_int_len(w, 2) is None);
    // Both read the same digits, with the same sign.
    let sd = s.subrange(k, s.len() as int);
    let wd = w.subrange(k, w.len() as int);
    assert(sd =~= seq![s[k]] + rest);
    assert(wd =~= seq![s[k]] + wr);
    lemma_without_underscores_concat(seq![s[k]], rest);
    assert(forall|j: int| 0 <= j < 1 ==> seq![s[k]][j] != '_');
    lemma_without_underscores_keeps(seq![s[k]]);
    assert(forall|j: int| 0 <= j < wd.len() ==> wd[j] != '_');
    lemma_without_underscores_keeps(wd);
    assert(sign_len(w, 0) == sign_len(s, 0));
}

proof fn lemma_grouped_run_shift(c: char, x: Seq<char>, i: int, radix: nat)
    requires
        0 <= i,
    ensures
        grouped_run(seq![c] + x, i + 1, radix) == grouped_run(x, i, radix),
    decreases x.len() - i,
{
    let y = seq![c] + x;
    assert(forall|j: int| 0 <= j < x.len() ==> y[j + 1] == x[j]);
    if i < x.len() && is_radix_digit(x[i], radix) {
        lemma_grouped_run_shift(c, x, i + 1, radix);
    } else if i + 1 < x.len() && x[i] == '_' && is_radix_digit(x[i + 1], radix) {
        lemma_grouped_run_shift(c, x, i + 2, radix);
    }
}

proof fn lemma_radix_int_len_minus(x: Seq<char>, radix: nat)
    requires
        x.len() == 0 || (x[0] != '-' && x[0] != '+'),
    ensures
        radix_int_len(seq!['-'] + x, radix) == (match radix_int_len(x, radix) {
            Some(n) => Some(n + 1),
            None => None,
        }),
        radix_int_len(x, radix) matches Some(n) ==> ({
            let y = seq!['-'] + x;
            &&& y.subrange(3, n + 1int) =~= x.subrange(2, n as int)
            &&& int_lexeme_value(y, n + 1int, radix) == -int_lexeme_value(x, n as int, radix)
        }),
{
    let y = seq!['-'] + x;
    assert(forall|j: int| 0 <= j < x.len() ==> y[j + 1] == x[j]);
    lemma_grouped_run_shift('-', x, 3, radix);
    if let Some(n) = radix_int_len(x, radix) {
        lemma_grouped_run_chars(x, 3, radix);
        assert(y.subrange(3, n + 1int) =~= x.subrange(2, n as int));
    }
}

/// A minus sign in front of an unsigned integer literal, in any radix,
/// negates the number it denotes.
pub proof fn lemma_sign_distributes(x: Seq<char>)
    requires
        x.len() == 0 || (x[0] != '-' && x[0] != '+'),
    ensures
        int_denotation(seq!['-'] + x) == (match int_denotation(x) {
            Some(v) => Some(-v),
            None => None,
        }),
{
    let y = seq!['-'] + x;
    assert(forall|j: int| 0 <= j < x.len() ==> y[j + 1] == x[j]);
    lemma_radix_int_len_minus(x, 16);
    lemma_radix_int_len_minus(x, 8);
    lemma_radix_int_len_minus(x, 2);
    lemma_grouped_run_shift('-', x, 1, 10);
    if let Some(n) = int_len(x) {
        if n > 1 {
            lemma_grouped_run_chars(x, 1, 10);
        }
        assert(y.subrange(1, n + 1int) =~= x.subrange(0, n as int));
    }
}

/// A whole decimal integer literal that starts with a zero is that zero
/// alone: `00` is no integer literal.
pub proof fn lemma_leading_zero_alone(s: Seq<char>)
    requires
        int_len(s) == Some(s.len()),
    ensures
        ({
            let k: int = if s[0] == '-' { 1 } else { 0 };
            s[k] == '0' ==> s.len() == k + 1
        }),
{
}

proof fn lemma_radix_int_lossless(s: Seq<char>, radix: nat)
    requires
        radix == 16 || radix == 8 || radix == 2,
        radix_int_len(s, radix) == Some(s.len()),
    ensures
        ({
            let w = without_underscores(s);
            let k = sign_len(s, 0) as int;
            &&& radix_int_len(w, radix) == Some(w.len())
            &&& int_lexeme_value(w, w.len() as int, radix) == int_lexeme_value(
                s,
                s.len() as int,
                radix,
            )
            &&& sign_len(w, 0) == k
            &&& w[k] == s[k]
            &&& w[k + 1] == s[k + 1]
        }),
{
    let k = sign_len(s, 0) as int;
    let pre = s.subrange(0, k + 3);
    let rest = s.subrange(k + 3, s.len() as int);
    assert(s =~= pre + rest);
    assert(forall|j: int| 0 <= j < pre.len() ==> pre[j] != '_');
    lemma_without_underscores_keeps(pre);
    lemma_without_underscores_concat(pre, rest);
    let w = without_underscores(s);
    lemma_grouped_run_chars(s, k + 3, radix);
    assert(forall|j: int|
        0 <= j < rest.len() ==> is_radix_digit(#[trigger] rest[j], radix) || rest[j] == '_') by {
        assert forall|j: int| 0 <= j < rest.len() implies is_radix_digit(
            #[trigger] rest[j],
            radix,
        ) || rest[j] == '_' by {
            assert(rest[j] == s[k + 3 + j]);
        }
    }
    lemma_without_underscores_digits(rest, radix);
    let wr = without_underscores(rest);
    assert(w == pre + wr);
    assert(forall|j: int| k + 3 <= j < w.len() ==> w[j] == wr[j - k - 3]);
    lemma_grouped_run_all_digits(w, k + 3, radix);
    assert(sign_len(w, 0) == k);
    // Both read the same digits after the prefix.
    let sd = s.subrange(k + 2, s.len() as int);
    let wd = w.subrange(k + 2, w.len() as int);
    let head = seq![s[k + 2]];
    assert(sd =~= head + rest);
    assert(wd =~= head + wr);
    lemma_without_underscores_concat(head, rest);
    assert(forall|j: int| 0 <= j < 1 ==> #[trigger] head[j] != '_');
    lemma_without_underscores_keeps(head);
    assert(forall|j: int| 0 <= j < wd.len() ==> wd[j] != '_');
    lemma_without_underscores_keeps(wd);
}

/// Dropping the underscores of an integer literal, in any radix, leaves an
/// integer literal of that radix that denotes the same number.
pub proof fn lemma_underscores_lossless(s: Seq<char>)
    requires
        int_denotation(s) is Some,
        matched_len(int_match(s)) == s.len(),
    ensures
        matched_len(int_match(without_underscores(s))) == without_underscores(s).len(),
        int_denotation(without_underscores(s)) == int_denotation(s),
{
    let w = without_underscores(s);
    let k = sign_len(s, 0) as int;
    if radix_int_len(s, 16) is Some {
        lemma_radix_int_lossless(s, 16);
    } else if radix_int_len(s, 8) is Some {
        lemma_radix_int_lossless(s, 8);
        assert(radix_int_len(w, 16) is None);
    } else if radix_int_len(s, 2) is Some {
        lemma_radix_int_lossless(s, 2);
        assert(radix_int_len(w, 16) is None);
        assert(radix_int_len(w, 8) is None);
    } else {
        lemma_decimal_int_lossless(s);
    }
}

} // verus!
