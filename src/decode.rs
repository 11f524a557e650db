//! Decoders from a matched lexeme (the first `n` characters of the input) to
//! a value.

use vstd::prelude::*;
use crate::grammar::{
    body_end, boolean_len, decimal_len, digit_run, escape_len, escape_len_exec, exponent_end, grouped_run,
    float_len, has_prefix, has_prefix_exec, hex_digits_at, int_len, is_dec_digit, is_radix_digit,
    is_simple_escape, mantissa_len, radix_int_len, real_len, sign_len, sign_len_exec, string_len,
};
use crate::numeric::{
    big_decimal_from_text, big_decimal_of, big_int_from_text, big_int_of, decimal_in_range,
    decimal_scale, decimal_unscaled, digit_val, digits_value, exp_digits_start, frac_digits,
    has_point, int_digits_end, is_decimal_text, mantissa_end,
};
use crate::value::{AnionValue, DecodeError, ValueModel};

verus! {

/// Relies on `String::push`: the character is appended.
pub assume_specification[ std::string::String::push ](s: &mut std::string::String, ch: char)
    ensures
        final(s)@ == old(s)@.push(ch),
;

/// The characters of `t` with every underscore left out.
pub open spec fn without_underscores(t: Seq<char>) -> Seq<char>
    decreases t.len(),
{
    if t.len() == 0 {
        Seq::empty()
    } else if t.last() == '_' {
        without_underscores(t.drop_last())
    } else {
        without_underscores(t.drop_last()).push(t.last())
    }
}

pub(crate) proof fn lemma_without_underscores_digits(t: Seq<char>, radix: nat)
    requires
        forall|j: int| 0 <= j < t.len() ==> is_radix_digit(#[trigger] t[j], radix) || t[j] == '_',
    ensures
        forall|j: int|
            0 <= j < without_underscores(t).len() ==> is_radix_digit(
                #[trigger] without_underscores(t)[j],
                radix,
            ),
    decreases t.len(),
{
    if t.len() > 0 {
        let p = t.drop_last();
        assert(forall|j: int| 0 <= j < p.len() ==> p[j] == t[j]);
        lemma_without_underscores_digits(p, radix);
        let w = without_underscores(p);
        if t.last() != '_' {
            assert(without_underscores(t) == w.push(t.last()));
            assert(forall|j: int| 0 <= j < w.len() ==> w.push(t.last())[j] == w[j]);
        }
    }
}

proof fn lemma_without_underscores_nonempty(t: Seq<char>)
    requires
        t.len() > 0,
        t[0] != '_',
    ensures
        without_underscores(t).len() > 0,
    decreases t.len(),
{
    if t.len() > 1 && t.last() == '_' {
        lemma_without_underscores_nonempty(t.drop_last());
    }
}

pub(crate) proof fn lemma_grouped_run_chars(s: Seq<char>, i: int, radix: nat)
    requires
        0 <= i <= s.len(),
    ensures
        i + grouped_run(s, i, radix) <= s.len(),
        forall|j: int|
            i <= j < i + grouped_run(s, i, radix) ==> is_radix_digit(#[trigger] s[j], radix)
                || s[j] == '_',
    decreases s.len() - i,
{
    if i < s.len() && is_radix_digit(s[i], radix) {
        lemma_grouped_run_chars(s, i + 1, radix);
    } else if i + 1 < s.len() && s[i] == '_' && is_radix_digit(s[i + 1], radix) {
        lemma_grouped_run_chars(s, i + 2, radix);
    }
}

/// Appends the characters of `s[from..to]` but its underscores.
fn push_without_underscores(out: &mut String, s: &Vec<char>, from: usize, to: usize)
    requires
        from <= to <= s@.len(),
    ensures
        final(out)@ == old(out)@ + without_underscores(s@.subrange(from as int, to as int)),
{
    let mut j = from;
    while j < to
        invariant
            from <= j <= to <= s@.len(),
            out@ == old(out)@ + without_underscores(s@.subrange(from as int, j as int)),
        decreases to - j,
    {
        let ghost before = out@;
        proof {
            assert(s@.subrange(from as int, j + 1).drop_last() =~= s@.subrange(
                from as int,
                j as int,
            ));
        }
        if s[j] != '_' {
            out.push(s[j]);
            proof {
                assert((old(out)@ + without_underscores(s@.subrange(from as int, j as int))).push(
                    s@[j as int],
                ) =~= old(out)@ + without_underscores(s@.subrange(from as int, j as int)).push(
                    s@[j as int],
                ));
            }
        }
        j = j + 1;
    }
}

/// Which integer rule: `int` for radix ten, else `hex_int`, `oct_int` or `bin_int`.
pub open spec fn int_rule_len(s: Seq<char>, radix: nat) -> Option<nat> {
    if radix == 10 {
        int_len(s)
    } else {
        radix_int_len(s, radix)
    }
}

/// The integer an integer lexeme of length `n` denotes: its sign applied to
/// the digits after the radix prefix, underscores left out.
pub open spec fn int_lexeme_value(s: Seq<char>, n: int, radix: nat) -> int {
    let k = sign_len(s, 0) as int;
    let start = if radix == 10 {
        k
    } else {
        k + 2
    };
    let mag = digits_value(without_underscores(s.subrange(start, n)), radix) as int;
    if k > 0 && s[0] == '-' {
        -mag
    } else {
        mag
    }
}

/// Decodes an integer lexeme of the given radix.
pub fn decode_int(s: &Vec<char>, n: usize, radix: u32) -> (r: AnionValue)
    requires
        radix == 2 || radix == 8 || radix == 10 || radix == 16,
        int_rule_len(s@, radix as nat) == Some(n as nat),
    ensures
        r == AnionValue::Integer(Some(big_int_of(int_lexeme_value(s@, n as int, radix as nat)))),
{
    let k = sign_len_exec(s, 0);
    let start = if radix == 10 {
        k
    } else {
        k + 2
    };
    let ghost digits = s@.subrange(start as int, n as int);
    proof {
        lemma_grouped_run_chars(s@, start + 1, radix as nat);
        assert(forall|j: int| 0 <= j < digits.len() ==> digits[j] == s@[start + j]);
        assert(forall|j: int|
            0 <= j < digits.len() ==> is_radix_digit(#[trigger] digits[j], radix as nat)
                || digits[j] == '_');
        lemma_without_underscores_digits(digits, radix as nat);
        lemma_without_underscores_nonempty(digits);
    }
    let mut text = String::new();
    if k > 0 && s[0] == '-' {
        text.push('-');
    }
    push_without_underscores(&mut text, s, start, n);
    proof {
        let d = without_underscores(digits);
        if k > 0 && s@[0] == '-' {
            assert(text@ =~= seq!['-'] + d);
            assert(text@.subrange(1, text@.len() as int) =~= d);
        } else {
            assert(text@ =~= d);
        }
    }
    let b = big_int_from_text(text.as_str(), radix);
    AnionValue::Integer(Some(b.unwrap()))
}

/// Decodes a float lexeme: its text, underscores left out.
pub fn decode_float(s: &Vec<char>, n: usize) -> (r: AnionValue)
    requires
        float_len(s@) == Some(n as nat),
        n <= s@.len(),
    ensures
        r@ == crate::value::ValueModel::Float(Some(without_underscores(s@.subrange(0, n as int)))),
{
    let mut text = String::new();
    push_without_underscores(&mut text, s, 0, n);
    proof {
        assert(text@ =~= without_underscores(s@.subrange(0, n as int)));
    }
    AnionValue::Float(Some(text))
}

/// The boolean that a `boolean` lexeme stands for; `None` for `null.bool`.
pub open spec fn boolean_of(s: Seq<char>) -> Option<bool> {
    if has_prefix(s, "true"@) {
        Some(true)
    } else if has_prefix(s, "false"@) {
        Some(false)
    } else {
        None
    }
}

pub fn decode_boolean(s: &Vec<char>) -> (r: AnionValue)
    requires
        boolean_len(s@) is Some,
    ensures
        r == AnionValue::Boolean(boolean_of(s@)),
{
    if has_prefix_exec(s, "true") {
        AnionValue::Boolean(Some(true))
    } else if has_prefix_exec(s, "false") {
        AnionValue::Boolean(Some(false))
    } else {
        AnionValue::Boolean(None)
    }
}

pub open spec fn is_scalar_value(v: int) -> bool {
    (0 <= v <= 0xD7FF) || (0xE000 <= v <= 0x10FFFF)
}

/// Relies on `char::from_u32`: a Unicode scalar value gives its character,
/// any other number `None`.
pub assume_specification[ core::char::from_u32 ](i: u32) -> (r: Option<char>)
    ensures
        is_scalar_value(i as int) ==> r == Some(i as char),
        !is_scalar_value(i as int) ==> r is None,
;

/// The character that a one-character escape stands for.
pub open spec fn simple_escape_char(c: char) -> char {
    if c == 'a' {
        '\x07'
    } else if c == 'b' {
        '\x08'
    } else if c == 't' {
        '\t'
    } else if c == 'n' {
        '\n'
    } else if c == 'f' {
        '\x0C'
    } else if c == 'r' {
        '\r'
    } else if c == 'v' {
        '\x0B'
    } else if c == '0' {
        '\0'
    } else {
        c
    }
}

pub open spec fn hex_width(c: char) -> int {
    if c == 'x' {
        2
    } else if c == 'u' {
        4
    } else {
        8
    }
}

/// What the escape at `i` stands for: one character, none for `\NL`, or
/// `None` when a code-point escape names no Unicode scalar value.
pub open spec fn escape_chars(s: Seq<char>, i: int) -> Option<Seq<char>> {
    let c = s[i + 1];
    if is_simple_escape(c) {
        Some(seq![simple_escape_char(c)])
    } else if c == 'N' {
        Some(Seq::empty())
    } else {
        let v = digits_value(s.subrange(i + 2, i + 2 + hex_width(c)), 16) as int;
        if is_scalar_value(v) {
            Some(seq![v as char])
        } else {
            None
        }
    }
}

/// The text of the string items from `i` up to `e`, escapes applied.
pub open spec fn unescape(s: Seq<char>, i: int, e: int) -> Option<Seq<char>>
    decreases s.len() - i,
{
    if i >= e || i < 0 || i >= s.len() {
        Some(Seq::empty())
    } else {
        match escape_len(s, i) {
            Some(n) => match escape_chars(s, i) {
                Some(a) => match unescape(s, i + n, e) {
                    Some(b) => Some(a + b),
                    None => None,
                },
                None => None,
            },
            None => match unescape(s, i + 1, e) {
                Some(b) => Some(seq![s[i]] + b),
                None => None,
            },
        }
    }
}

/// A string lexeme of length `n` decodes to its body, unescaped.
pub open spec fn string_result(s: Seq<char>, n: int) -> Result<ValueModel, DecodeError> {
    match unescape(s, 1, n - 1) {
        Some(t) => Ok(ValueModel::String(Some(t))),
        None => Err(DecodeError::InvalidCodePoint),
    }
}

pub open spec fn result_model(r: Result<AnionValue, DecodeError>) -> Result<ValueModel, DecodeError> {
    match r {
        Ok(v) => Ok(v@),
        Err(e) => Err(e),
    }
}

pub open spec fn pow16(t: nat) -> nat
    decreases t,
{
    if t == 0 {
        1
    } else {
        16 * pow16((t - 1) as nat)
    }
}

proof fn lemma_pow16_mono(a: nat, b: nat)
    requires
        a <= b,
    ensures
        pow16(a) <= pow16(b),
    decreases b,
{
    if a < b {
        lemma_pow16_mono(a, (b - 1) as nat);
    }
}

proof fn lemma_pow16_eight()
    ensures
        pow16(8) == 0x1_0000_0000,
{
    reveal_with_fuel(pow16, 9);
}

fn digit_val_exec(c: char) -> (r: u64)
    requires
        is_radix_digit(c, 16),
    ensures
        r == digit_val(c),
        r < 16,
{
    if '0' <= c && c <= '9' {
        (c as u64) - ('0' as u64)
    } else if 'a' <= c && c <= 'f' {
        (c as u64) - ('a' as u64) + 10
    } else {
        (c as u64) - ('A' as u64) + 10
    }
}

/// The number that the `w` hex digits at `i` denote.
fn hex_value_exec(s: &Vec<char>, i: usize, w: usize) -> (r: u64)
    requires
        w <= 8,
        hex_digits_at(s@, i as int, w as int),
    ensures
        r == digits_value(s@.subrange(i as int, i + w), 16),
        r < 0x1_0000_0000,
{
    let mut v: u64 = 0;
    let mut t: usize = 0;
    let limit = s.len();
    while t < w
        invariant
            t <= w <= 8,
            limit == s@.len(),
            i + w <= limit,
            hex_digits_at(s@, i as int, w as int),
            v == digits_value(s@.subrange(i as int, i + t), 16),
            v < pow16(t as nat),
        decreases w - t,
    {
        let d = digit_val_exec(s[i + t]);
        proof {
            assert(s@.subrange(i as int, i + t + 1).drop_last() =~= s@.subrange(i as int, i + t));
            lemma_pow16_mono((t + 1) as nat, 8);
            lemma_pow16_eight();
            assert(v * 16 + d < pow16((t + 1) as nat)) by (nonlinear_arith)
                requires
                    v < pow16(t as nat),
                    d < 16,
                    pow16((t + 1) as nat) == 16 * pow16(t as nat),
            ;
        }
        v = v * 16 + d;
        t = t + 1;
    }
    proof {
        lemma_pow16_mono(w as nat, 8);
        lemma_pow16_eight();
    }
    v
}

proof fn lemma_body_end_ge(s: Seq<char>, i: int)
    requires
        0 <= i,
    ensures
        body_end(s, i) >= i,
    decreases s.len() - i,
{
    if 0 <= i < s.len() {
        match escape_len(s, i) {
            Some(n) => lemma_body_end_ge(s, i + n),
            None => if s[i] != '"' && s[i] != '\\' {
                lemma_body_end_ge(s, i + 1);
            },
        }
    }
}

/// Decodes a string lexeme: the quotes stripped, every escape applied.
pub fn decode_string(s: &Vec<char>, n: usize) -> (r: Result<AnionValue, DecodeError>)
    requires
        string_len(s@) == Some(n as nat),
    ensures
        result_model(r) == string_result(s@, n as int),
{
    proof {
        lemma_body_end_ge(s@, 1);
    }
    let e = n - 1;
    let mut out = String::new();
    let mut j: usize = 1;
    while j < e
        invariant
            1 <= j <= e,
            e + 1 == n <= s@.len(),
            body_end(s@, j as int) == e,
            unescape(s@, 1, e as int) == (match unescape(s@, j as int, e as int) {
                Some(x) => Some(out@ + x),
                None => None,
            }),
        decreases e - j,
    {
        match escape_len_exec(s, j) {
            Some(m) => {
                proof {
                    lemma_body_end_ge(s@, j + m);
                }
                let c = s[j + 1];
                let ghost before = out@;
                if c == 'N' {
                } else if c == 'x' || c == 'u' || c == 'U' {
                    let w: usize = if c == 'x' {
                        2
                    } else if c == 'u' {
                        4
                    } else {
                        8
                    };
                    let v = hex_value_exec(s, j + 2, w);
                    if v > 0x10FFFF {
                        return Err(DecodeError::InvalidCodePoint);
                    }
                    match core::char::from_u32(v as u32) {
                        Some(ch) => out.push(ch),
                        None => {
                            return Err(DecodeError::InvalidCodePoint);
                        },
                    }
                } else {
                    let ch = if c == 'a' {
                        '\x07'
                    } else if c == 'b' {
                        '\x08'
                    } else if c == 't' {
                        '\t'
                    } else if c == 'n' {
                        '\n'
                    } else if c == 'f' {
                        '\x0C'
                    } else if c == 'r' {
                        '\r'
                    } else if c == 'v' {
                        '\x0B'
                    } else if c == '0' {
                        '\0'
                    } else {
                        c
                    };
                    out.push(ch);
                }
                proof {
                    let a = escape_chars(s@, j as int);
                    if a is Some {
                        assert(out@ =~= before + a->0);
                        match unescape(s@, j + m, e as int) {
                            Some(x) => {
                                assert(before + (a->0 + x) =~= out@ + x);
                            },
                            None => {},
                        }
                    }
                }
                j = j + m;
            },
            None => {
                let ghost before = out@;
                out.push(s[j]);
                proof {
                    match unescape(s@, j + 1, e as int) {
                        Some(x) => {
                            assert(before + (seq![s@[j as int]] + x) =~= out@ + x);
                        },
                        None => {},
                    }
                }
                j = j + 1;
            },
        }
    }
    proof {
        assert(out@ + Seq::<char>::empty() =~= out@);
    }
    Ok(AnionValue::String(Some(out)))
}

/// The text that the exact-decimal parser reads: the lexeme with its `d` or
/// `D` exponent marker written `e` (the decimal rule admits no underscore).
pub open spec fn decimal_text(s: Seq<char>, n: int) -> Seq<char> {
    Seq::new(n as nat, |j: int| if s[j] == 'd' || s[j] == 'D' { 'e' } else { s[j] })
}

/// A decimal lexeme of length `n` decodes to the exact decimal its text
/// denotes, or fails when the exponent or the scale is out of range.
pub open spec fn decimal_result(s: Seq<char>, n: int) -> Result<ValueModel, DecodeError> {
    let t = decimal_text(s, n);
    if decimal_in_range(t) {
        Ok(ValueModel::Decimal(Some(big_decimal_of(decimal_unscaled(t), decimal_scale(t)))))
    } else {
        Err(DecodeError::DecimalOutOfRange)
    }
}

proof fn lemma_digit_run_text(s: Seq<char>, n: int, i: int)
    requires
        0 <= i <= n <= s.len(),
        i + digit_run(s, i) <= n,
    ensures
        digit_run(decimal_text(s, n), i) == digit_run(s, i),
    decreases n - i,
{
    let t = decimal_text(s, n);
    if i < n && is_dec_digit(s[i]) {
        assert(t[i] == s[i]);
        lemma_digit_run_text(s, n, i + 1);
    } else if i < n {
        assert(!is_dec_digit(t[i]));
    }
}

proof fn lemma_digit_run_bound(s: Seq<char>, i: int)
    requires
        0 <= i <= s.len(),
    ensures
        i + digit_run(s, i) <= s.len(),
    decreases s.len() - i,
{
    if i < s.len() && is_dec_digit(s[i]) {
        lemma_digit_run_bound(s, i + 1);
    }
}

/// A `real_num` is its sign, integer digits, a point and fraction digits.
proof fn lemma_real_shape(s: Seq<char>)
    requires
        real_len(s) is Some,
    ensures
        ({
            let k = sign_len(s, 0) as int;
            let d = k + digit_run(s, k);
            &&& d < s.len() && s[d] == '.'
            &&& real_len(s) == Some((d + 1 + digit_run(s, d + 1)) as nat)
            &&& digit_run(s, k) + digit_run(s, d + 1) > 0
        }),
{
    let k = sign_len(s, 0) as int;
    if k < s.len() && s[k] == '0' && k + 1 < s.len() && s[k + 1] == '.' {
        assert(digit_run(s, k + 1) == 0);
    }
}

proof fn lemma_decimal_text_shape(s: Seq<char>, n: int)
    requires
        0 <= n,
        decimal_len(s) == Some(n as nat),
    ensures
        n <= s.len(),
        is_decimal_text(decimal_text(s, n)),
{
    let t = decimal_text(s, n);
    let k = sign_len(s, 0) as int;
    let m = mantissa_len(s)->0 as int;
    let exp = exponent_end(s, m, true) is Some;
    // The lexeme is not empty, and lies within the input.
    if exp {
        let q = m + 1 + sign_len(s, m + 1);
        assert(exponent_end(s, m, true) == Some(n as nat));
        assert(0 <= m < s.len());
        assert(digit_run(s, q) > 0);
        assert(n == q + digit_run(s, q));
        assert(q <= s.len());
        lemma_digit_run_bound(s, q);
        assert(q < n <= s.len());
    } else {
        assert(real_len(s) == Some(n as nat));
        lemma_real_shape(s);
        let d = k + digit_run(s, k);
        lemma_digit_run_bound(s, d + 1);
    }
    assert(0 < n <= s.len());
    assert(sign_len(t, 0) == k);
    if real_len(s) is Some {
        lemma_real_shape(s);
        let d = k + digit_run(s, k);
        lemma_digit_run_text(s, n, k);
        lemma_digit_run_text(s, n, d + 1);
        assert(int_digits_end(t) == d);
        assert(t[d] == '.');
        assert(has_point(t));
        assert(frac_digits(t) == digit_run(s, d + 1));
        assert(mantissa_end(t) == m);
    } else {
        assert(k == 0);
        lemma_digit_run_text(s, n, 0);
        assert(int_digits_end(t) == m);
        assert(t[m] == 'e');
        assert(!has_point(t));
        assert(mantissa_end(t) == m);
    }
    if exp {
        let q = m + 1 + sign_len(s, m + 1);
        assert(t[m] == 'e');
        assert(sign_len(t, m + 1) == sign_len(s, m + 1));
        assert(exp_digits_start(t) == q);
        lemma_digit_run_text(s, n, q);
    }
}

/// Decodes a decimal lexeme through the exact-decimal parser.
pub fn decode_decimal(s: &Vec<char>, n: usize) -> (r: Result<AnionValue, DecodeError>)
    requires
        decimal_len(s@) == Some(n as nat),
    ensures
        result_model(r) == decimal_result(s@, n as int),
{
    proof {
        lemma_decimal_text_shape(s@, n as int);
    }
    let mut text = String::new();
    let mut j: usize = 0;
    while j < n
        invariant
            j <= n <= s@.len(),
            text@ =~= decimal_text(s@, j as int),
        decreases n - j,
    {
        let c = s[j];
        if c == 'd' || c == 'D' {
            text.push('e');
        } else {
            text.push(c);
        }
        j = j + 1;
    }
    proof {
        assert(decimal_text(s@, n as int) =~= text@);
    }
    match big_decimal_from_text(text.as_str()) {
        Ok(d) => Ok(AnionValue::Decimal(Some(d))),
        Err(_) => Err(DecodeError::DecimalOutOfRange),
    }
}

} // verus!
