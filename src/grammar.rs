//! The lexical rules, as spec functions that give the length of the prefix a
//! rule matches (ordered choice, greedy repetition, no backtracking), and
//! executable matchers proved to agree with them: `x_exec` computes `x` over
//! the characters of the input.

use vstd::prelude::*;
use vstd::std_specs::iter::IteratorSpec;

verus! {

pub open spec fn is_dec_digit(c: char) -> bool {
    '0' <= c && c <= '9'
}

pub open spec fn is_nz_digit(c: char) -> bool {
    '1' <= c && c <= '9'
}

pub open spec fn is_radix_digit(c: char, radix: nat) -> bool {
    if radix == 16 {
        is_dec_digit(c) || ('a' <= c && c <= 'f') || ('A' <= c && c <= 'F')
    } else if radix == 8 {
        '0' <= c && c <= '7'
    } else if radix == 2 {
        c == '0' || c == '1'
    } else {
        is_dec_digit(c)
    }
}

/// Number of decimal digits in the run that starts at `i`.
pub open spec fn digit_run(s: Seq<char>, i: int) -> nat
    decreases s.len() - i,
{
    if 0 <= i < s.len() && is_dec_digit(s[i]) {
        1 + digit_run(s, i + 1)
    } else {
        0
    }
}

/// Length of the run that starts at `i` of digits of `radix`, where a single
/// underscore may stand before a digit.
pub open spec fn grouped_run(s: Seq<char>, i: int, radix: nat) -> nat
    decreases s.len() - i,
{
    if 0 <= i < s.len() && is_radix_digit(s[i], radix) {
        1 + grouped_run(s, i + 1, radix)
    } else if 0 <= i && i + 1 < s.len() && s[i] == '_' && is_radix_digit(s[i + 1], radix) {
        2 + grouped_run(s, i + 2, radix)
    } else {
        0
    }
}

pub open spec fn sign_len(s: Seq<char>, i: int) -> nat {
    if 0 <= i < s.len() && (s[i] == '+' || s[i] == '-') {
        1
    } else {
        0
    }
}

/// `int`: an optional minus, then a nonzero digit and grouped decimal digits,
/// or a single zero.
pub open spec fn int_len(s: Seq<char>) -> Option<nat> {
    let k: int = if s.len() > 0 && s[0] == '-' { 1 } else { 0 };
    if k < s.len() && is_nz_digit(s[k]) {
        Some((k + 1 + grouped_run(s, k + 1, 10)) as nat)
    } else if k < s.len() && s[k] == '0' {
        Some((k + 1) as nat)
    } else {
        None
    }
}

pub open spec fn is_radix_marker(c: char, radix: nat) -> bool {
    (radix == 16 && (c == 'x' || c == 'X')) || (radix == 8 && (c == 'o' || c == 'O')) || (
    radix == 2 && (c == 'b' || c == 'B'))
}

/// `hex_int`, `oct_int` and `bin_int`: an optional sign, `0`, the radix
/// marker, then at least one digit of the radix and grouped digits.
pub open spec fn radix_int_len(s: Seq<char>, radix: nat) -> Option<nat> {
    let k = sign_len(s, 0) as int;
    if k + 2 < s.len() && s[k] == '0' && is_radix_marker(s[k + 1], radix) && is_radix_digit(
        s[k + 2],
        radix,
    ) {
        Some((k + 3 + grouped_run(s, k + 3, radix)) as nat)
    } else {
        None
    }
}

/// `real_num`: an optional sign, then a nonzero digit, digits, a point and
/// digits; or a point and at least one digit; or `0.` and digits.
pub open spec fn real_len(s: Seq<char>) -> Option<nat> {
    let k = sign_len(s, 0) as int;
    if k < s.len() && is_nz_digit(s[k]) {
        let d = k + 1 + digit_run(s, k + 1);
        if d < s.len() && s[d] == '.' {
            Some((d + 1 + digit_run(s, d + 1)) as nat)
        } else {
            None
        }
    } else if k < s.len() && s[k] == '.' {
        let d = digit_run(s, k + 1);
        if d > 0 {
            Some((k + 1 + d) as nat)
        } else {
            None
        }
    } else if k + 1 < s.len() && s[k] == '0' && s[k + 1] == '.' {
        Some((k + 2 + digit_run(s, k + 2)) as nat)
    } else {
        None
    }
}

/// What precedes an exponent: `real_num`, or else bare digits (no sign).
pub open spec fn mantissa_len(s: Seq<char>) -> Option<nat> {
    match real_len(s) {
        Some(n) => Some(n),
        None => if digit_run(s, 0) > 0 {
            Some(digit_run(s, 0))
        } else {
            None
        },
    }
}

/// `e`/`E` for floats, `d`/`D` for decimals.
pub open spec fn is_exp_marker(c: char, decimal: bool) -> bool {
    if decimal {
        c == 'd' || c == 'D'
    } else {
        c == 'e' || c == 'E'
    }
}

/// The end of an exponent (marker, optional sign, digits) that starts at `m`.
pub open spec fn exponent_end(s: Seq<char>, m: int, decimal: bool) -> Option<nat> {
    if 0 <= m < s.len() && is_exp_marker(s[m], decimal) {
        let k = m + 1 + sign_len(s, m + 1);
        let d = digit_run(s, k);
        if d > 0 {
            Some((k + d) as nat)
        } else {
            None
        }
    } else {
        None
    }
}

/// `float`: a mantissa and an exponent, which is not optional.
pub open spec fn float_len(s: Seq<char>) -> Option<nat> {
    match mantissa_len(s) {
        Some(m) => exponent_end(s, m as int, false),
        None => None,
    }
}

/// `decimal`: a mantissa and a `d` exponent, or else a bare `real_num`.
pub open spec fn decimal_len(s: Seq<char>) -> Option<nat> {
    match mantissa_len(s) {
        Some(m) => match exponent_end(s, m as int, true) {
            Some(n) => Some(n),
            None => real_len(s),
        },
        None => None,
    }
}

pub open spec fn has_prefix(s: Seq<char>, lit: Seq<char>) -> bool {
    lit.len() <= s.len() && s.subrange(0, lit.len() as int) == lit
}

/// `boolean`: `true`, `false` or `null.bool`.
pub open spec fn boolean_len(s: Seq<char>) -> Option<nat> {
    if has_prefix(s, "true"@) {
        Some("true"@.len())
    } else if has_prefix(s, "false"@) {
        Some("false"@.len())
    } else if has_prefix(s, "null.bool"@) {
        Some("null.bool"@.len())
    } else {
        None
    }
}

/// A keyword such as `null.int`, matched as a whole.
pub open spec fn keyword_len(s: Seq<char>, lit: Seq<char>) -> Option<nat> {
    if has_prefix(s, lit) {
        Some(lit.len())
    } else {
        None
    }
}

/// The characters that stand alone after a backslash.
pub open spec fn is_simple_escape(c: char) -> bool {
    c == '"' || c == '\\' || c == '/' || c == '?' || c == '0' || c == 'a' || c == 'b' || c == 't'
        || c == 'n' || c == 'f' || c == 'r' || c == 'v'
}

pub open spec fn hex_digits_at(s: Seq<char>, i: int, n: int) -> bool {
    0 <= i && i + n <= s.len() && forall|j: int| i <= j < i + n ==> is_radix_digit(#[trigger] s[j], 16)
}

/// `escape` at `i`: a backslash, then a simple escape character, `NL`, or
/// `x`, `u` or `U` with two, four or eight hex digits.
pub open spec fn escape_len(s: Seq<char>, i: int) -> Option<nat> {
    if 0 <= i && i + 1 < s.len() && s[i] == '\\' {
        let c = s[i + 1];
        if is_simple_escape(c) {
            Some(2)
        } else if c == 'N' && i + 2 < s.len() && s[i + 2] == 'L' {
            Some(3)
        } else if c == 'x' && hex_digits_at(s, i + 2, 2) {
            Some(4)
        } else if c == 'u' && hex_digits_at(s, i + 2, 4) {
            Some(6)
        } else if c == 'U' && hex_digits_at(s, i + 2, 8) {
            Some(10)
        } else {
            None
        }
    } else {
        None
    }
}

/// Where the run of string items (escapes, or characters that are neither a
/// quote nor a backslash) that starts at `i` stops.
pub open spec fn body_end(s: Seq<char>, i: int) -> int
    decreases s.len() - i,
{
    if 0 <= i < s.len() {
        match escape_len(s, i) {
            Some(n) => body_end(s, i + n),
            None => if s[i] != '"' && s[i] != '\\' {
                body_end(s, i + 1)
            } else {
                i
            },
        }
    } else {
        i
    }
}

/// `string`: a quote, string items, a quote.
pub open spec fn string_len(s: Seq<char>) -> Option<nat> {
    if s.len() > 0 && s[0] == '"' {
        let e = body_end(s, 1);
        if 0 <= e < s.len() && s[e] == '"' {
            Some((e + 1) as nat)
        } else {
            None
        }
    } else {
        None
    }
}

pub open spec fn opt_nat(r: Option<usize>) -> Option<nat> {
    match r {
        Some(n) => Some(n as nat),
        None => None,
    }
}

/// The characters of `text`, in order.
pub fn chars_of(text: &str) -> (r: Vec<char>)
    ensures
        r@ == text@,
{
    broadcast use vstd::string::group_string_axioms;

    let mut it = text.chars();
    let mut out: Vec<char> = Vec::new();
    loop
        invariant
            out@ + it.remaining() == text@,
            it.decrease() is Some,
        decreases it.decrease()->0,
    {
        match it.next() {
            Some(c) => {
                out.push(c);
            },
            None => {
                return out;
            },
        }
    }
}

pub fn is_dec_digit_exec(c: char) -> (r: bool)
    ensures
        r == is_dec_digit(c),
{
    '0' <= c && c <= '9'
}

pub fn is_radix_digit_exec(c: char, radix: u32) -> (r: bool)
    ensures
        r == is_radix_digit(c, radix as nat),
{
    if radix == 16 {
        is_dec_digit_exec(c) || ('a' <= c && c <= 'f') || ('A' <= c && c <= 'F')
    } else if radix == 8 {
        '0' <= c && c <= '7'
    } else if radix == 2 {
        c == '0' || c == '1'
    } else {
        is_dec_digit_exec(c)
    }
}

pub fn digit_run_exec(s: &Vec<char>, i: usize) -> (r: usize)
    requires
        i <= s@.len(),
    ensures
        r == digit_run(s@, i as int),
        i + r <= s@.len(),
{
    let mut j = i;
    while j < s.len() && is_dec_digit_exec(s[j])
        invariant
            i <= j <= s@.len(),
            digit_run(s@, i as int) == (j - i) + digit_run(s@, j as int),
        decreases s@.len() - j,
    {
        j = j + 1;
    }
    j - i
}

pub fn grouped_run_exec(s: &Vec<char>, i: usize, radix: u32) -> (r: usize)
    requires
        i <= s@.len(),
    ensures
        r == grouped_run(s@, i as int, radix as nat),
        i + r <= s@.len(),
{
    let mut j = i;
    loop
        invariant
            i <= j <= s@.len(),
            grouped_run(s@, i as int, radix as nat) == (j - i) + grouped_run(
                s@,
                j as int,
                radix as nat,
            ),
        decreases s@.len() - j,
    {
        if j < s.len() && is_radix_digit_exec(s[j], radix) {
            j = j + 1;
        } else if s.len() - j >= 2 && s[j] == '_' && is_radix_digit_exec(s[j + 1], radix) {
            j = j + 2;
        } else {
            return j - i;
        }
    }
}

pub fn int_len_exec(s: &Vec<char>) -> (r: Option<usize>)
    ensures
        opt_nat(r) == int_len(s@),
        r matches Some(n) ==> n <= s@.len(),
{
    let k: usize = if s.len() > 0 && s[0] == '-' { 1 } else { 0 };
    if k < s.len() && '1' <= s[k] && s[k] <= '9' {
        Some(k + 1 + grouped_run_exec(s, k + 1, 10))
    } else if k < s.len() && s[k] == '0' {
        Some(k + 1)
    } else {
        None
    }
}

pub fn is_radix_marker_exec(c: char, radix: u32) -> (r: bool)
    ensures
        r == is_radix_marker(c, radix as nat),
{
    (radix == 16 && (c == 'x' || c == 'X')) || (radix == 8 && (c == 'o' || c == 'O')) || (radix
        == 2 && (c == 'b' || c == 'B'))
}

pub fn sign_len_exec(s: &Vec<char>, i: usize) -> (r: usize)
    ensures
        r == sign_len(s@, i as int),
{
    if i < s.len() && (s[i] == '+' || s[i] == '-') {
        1
    } else {
        0
    }
}

pub fn radix_int_len_exec(s: &Vec<char>, radix: u32) -> (r: Option<usize>)
    ensures
        opt_nat(r) == radix_int_len(s@, radix as nat),
        r matches Some(n) ==> n <= s@.len(),
{
    let k = sign_len_exec(s, 0);
    if s.len() >= 3 && k < s.len() - 2 && s[k] == '0' && is_radix_marker_exec(s[k + 1], radix)
        && is_radix_digit_exec(s[k + 2], radix) {
        Some(k + 3 + grouped_run_exec(s, k + 3, radix))
    } else {
        None
    }
}

pub fn real_len_exec(s: &Vec<char>) -> (r: Option<usize>)
    ensures
        opt_nat(r) == real_len(s@),
        r matches Some(n) ==> n <= s@.len(),
{
    let k = sign_len_exec(s, 0);
    if k < s.len() && '1' <= s[k] && s[k] <= '9' {
        let d = k + 1 + digit_run_exec(s, k + 1);
        if d < s.len() && s[d] == '.' {
            Some(d + 1 + digit_run_exec(s, d + 1))
        } else {
            None
        }
    } else if k < s.len() && s[k] == '.' {
        let d = digit_run_exec(s, k + 1);
        if d > 0 {
            Some(k + 1 + d)
        } else {
            None
        }
    } else if s.len() >= 2 && k < s.len() - 1 && s[k] == '0' && s[k + 1] == '.' {
        Some(k + 2 + digit_run_exec(s, k + 2))
    } else {
        None
    }
}

pub fn mantissa_len_exec(s: &Vec<char>) -> (r: Option<usize>)
    ensures
        opt_nat(r) == mantissa_len(s@),
        r matches Some(n) ==> n <= s@.len(),
{
    match real_len_exec(s) {
        Some(n) => Some(n),
        None => {
            let d = digit_run_exec(s, 0);
            if d > 0 {
                Some(d)
            } else {
                None
            }
        },
    }
}

pub fn exponent_end_exec(s: &Vec<char>, m: usize, decimal: bool) -> (r: Option<usize>)
    requires
        m <= s@.len(),
    ensures
        opt_nat(r) == exponent_end(s@, m as int, decimal),
        r matches Some(n) ==> n <= s@.len(),
{
    if m < s.len() && (if decimal {
        s[m] == 'd' || s[m] == 'D'
    } else {
        s[m] == 'e' || s[m] == 'E'
    }) {
        let k = m + 1 + sign_len_exec(s, m + 1);
        let d = digit_run_exec(s, k);
        if d > 0 {
            Some(k + d)
        } else {
            None
        }
    } else {
        None
    }
}

pub fn float_len_exec(s: &Vec<char>) -> (r: Option<usize>)
    ensures
        opt_nat(r) == float_len(s@),
        r matches Some(n) ==> n <= s@.len(),
{
    match mantissa_len_exec(s) {
        Some(m) => exponent_end_exec(s, m, false),
        None => None,
    }
}

pub fn decimal_len_exec(s: &Vec<char>) -> (r: Option<usize>)
    ensures
        opt_nat(r) == decimal_len(s@),
        r matches Some(n) ==> n <= s@.len(),
{
    match mantissa_len_exec(s) {
        Some(m) => match exponent_end_exec(s, m, true) {
            Some(n) => Some(n),
            None => real_len_exec(s),
        },
        None => None,
    }
}

/// Whether `s` starts with the characters of `lit`.
pub fn has_prefix_exec(s: &Vec<char>, lit: &str) -> (r: bool)
    ensures
        r == has_prefix(s@, lit@),
{
    let n = lit.unicode_len();
    if n > s.len() {
        return false;
    }
    let mut j: usize = 0;
    while j < n
        invariant
            n == lit@.len(),
            n <= s@.len(),
            j <= n,
            forall|t: int| 0 <= t < j ==> s@[t] == lit@[t],
        decreases n - j,
    {
        if s[j] != lit.get_char(j) {
            assert(s@.subrange(0, n as int)[j as int] != lit@[j as int]);
            return false;
        }
        j = j + 1;
    }
    assert(s@.subrange(0, n as int) =~= lit@);
    true
}

pub fn keyword_len_exec(s: &Vec<char>, lit: &str) -> (r: Option<usize>)
    ensures
        opt_nat(r) == keyword_len(s@, lit@),
        r matches Some(n) ==> n <= s@.len(),
{
    if has_prefix_exec(s, lit) {
        Some(lit.unicode_len())
    } else {
        None
    }
}

pub fn boolean_len_exec(s: &Vec<char>) -> (r: Option<usize>)
    ensures
        opt_nat(r) == boolean_len(s@),
        r matches Some(n) ==> n <= s@.len(),
{
    if has_prefix_exec(s, "true") {
        Some("true".unicode_len())
    } else if has_prefix_exec(s, "false") {
        Some("false".unicode_len())
    } else if has_prefix_exec(s, "null.bool") {
        Some("null.bool".unicode_len())
    } else {
        None
    }
}

pub fn hex_digits_at_exec(s: &Vec<char>, i: usize, n: usize) -> (r: bool)
    requires
        n <= 8,
    ensures
        r == hex_digits_at(s@, i as int, n as int),
{
    if i > s.len() || n > s.len() - i {
        return false;
    }
    let end = i + n;
    let mut j: usize = i;
    while j < end
        invariant
            end == i + n,
            i <= j <= i + n,
            i + n <= s@.len(),
            forall|t: int| i <= t < j ==> is_radix_digit(#[trigger] s@[t], 16),
        decreases end - j,
    {
        if !is_radix_digit_exec(s[j], 16) {
            return false;
        }
        j = j + 1;
    }
    true
}

pub fn escape_len_exec(s: &Vec<char>, i: usize) -> (r: Option<usize>)
    ensures
        opt_nat(r) == escape_len(s@, i as int),
        r matches Some(n) ==> i + n <= s@.len() && 2 <= n,
{
    if s.len() >= 2 && i < s.len() - 1 && s[i] == '\\' {
        let c = s[i + 1];
        if c == '"' || c == '\\' || c == '/' || c == '?' || c == '0' || c == 'a' || c == 'b' || c
            == 't' || c == 'n' || c == 'f' || c == 'r' || c == 'v' {
            Some(2)
        } else if c == 'N' && i + 2 < s.len() && s[i + 2] == 'L' {
            Some(3)
        } else if c == 'x' && hex_digits_at_exec(s, i + 2, 2) {
            Some(4)
        } else if c == 'u' && hex_digits_at_exec(s, i + 2, 4) {
            Some(6)
        } else if c == 'U' && hex_digits_at_exec(s, i + 2, 8) {
            Some(10)
        } else {
            None
        }
    } else {
        None
    }
}

pub fn string_len_exec(s: &Vec<char>) -> (r: Option<usize>)
    ensures
        opt_nat(r) == string_len(s@),
        r matches Some(n) ==> n <= s@.len(),
{
    if s.len() == 0 || s[0] != '"' {
        return None;
    }
    let mut j: usize = 1;
    loop
        invariant
            1 <= j <= s@.len(),
            s@[0] == '"',
            body_end(s@, 1) == body_end(s@, j as int),
        decreases s@.len() - j,
    {
        if j >= s.len() {
            return None;
        }
        match escape_len_exec(s, j) {
            Some(n) => {
                j = j + n;
            },
            None => {
                if s[j] != '"' && s[j] != '\\' {
                    j = j + 1;
                } else if s[j] == '"' {
                    assert(body_end(s@, j as int) == j as int);
                    return Some(j + 1);
                } else {
                    return None;
                }
            },
        }
    }
}

} // verus!
