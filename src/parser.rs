//! The per-kind entry points and the dispatcher that tries them in a fixed
//! order.

use vstd::prelude::*;
use crate::decode::{
    boolean_of, decimal_result, decode_boolean, decode_decimal, decode_float, decode_int,
    decode_string, int_lexeme_value, string_result, without_underscores,
};
use crate::grammar::{
    boolean_len, boolean_len_exec, chars_of, decimal_len, decimal_len_exec, float_len,
    float_len_exec, int_len, int_len_exec, keyword_len, keyword_len_exec, radix_int_len,
    radix_int_len_exec, string_len, string_len_exec,
};
use crate::numeric::big_int_of;
use crate::value::{AnionValue, DecodeError, ValueModel};

verus! {

/// A value decoded from a prefix of the input, and the number of characters
/// that prefix holds.
pub struct Lexed {
    pub value: AnionValue,
    pub len: usize,
}

impl Lexed {
    /// Whether the lexeme took all of `text`, for callers that want the whole
    /// input to be one literal.
    pub fn consumes_all(&self, text: &str) -> (r: bool)
        ensures
            r == (self.len as nat == text@.len()),
    {
        self.len == text.unicode_len()
    }
}

pub open spec fn lexed_model(r: Option<Lexed>) -> Option<(ValueModel, nat)> {
    match r {
        Some(l) => Some((l.value@, l.len as nat)),
        None => None,
    }
}

pub open spec fn value_model(r: Option<AnionValue>) -> Option<ValueModel> {
    match r {
        Some(v) => Some(v@),
        None => None,
    }
}

/// `float`, else `null.float`.
pub open spec fn float_match(s: Seq<char>) -> Option<(ValueModel, nat)> {
    match float_len(s) {
        Some(n) => Some((ValueModel::Float(Some(without_underscores(s.subrange(0, n as int)))), n)),
        None => match keyword_len(s, "null.float"@) {
            Some(n) => Some((ValueModel::Float(None), n)),
            None => None,
        },
    }
}

pub open spec fn int_model(s: Seq<char>, n: nat, radix: nat) -> ValueModel {
    ValueModel::Integer(Some(big_int_of(int_lexeme_value(s, n as int, radix))))
}

/// `hex_int`, `oct_int`, `bin_int`, `int`, then `null.int`: the radix forms
/// first, so that their leading `0` is not taken for a whole integer.
pub open spec fn int_match(s: Seq<char>) -> Option<(ValueModel, nat)> {
    match radix_int_len(s, 16) {
        Some(n) => Some((int_model(s, n, 16), n)),
        None => match radix_int_len(s, 8) {
            Some(n) => Some((int_model(s, n, 8), n)),
            None => match radix_int_len(s, 2) {
                Some(n) => Some((int_model(s, n, 2), n)),
                None => match int_len(s) {
                    Some(n) => Some((int_model(s, n, 10), n)),
                    None => match keyword_len(s, "null.int"@) {
                        Some(n) => Some((ValueModel::Integer(None), n)),
                        None => None,
                    },
                },
            },
        },
    }
}

pub open spec fn boolean_match(s: Seq<char>) -> Option<(ValueModel, nat)> {
    match boolean_len(s) {
        Some(n) => Some((ValueModel::Boolean(boolean_of(s)), n)),
        None => None,
    }
}

/// The first of float, integer and boolean whose rule matches a prefix.
pub open spec fn dispatch(s: Seq<char>) -> Option<(ValueModel, nat)> {
    if float_match(s) is Some {
        float_match(s)
    } else if int_match(s) is Some {
        int_match(s)
    } else {
        boolean_match(s)
    }
}

/// What `parse_value` gives: the dispatched value, and when `whole` holds,
/// only if its lexeme is the whole input.
pub open spec fn parse_model(s: Seq<char>, whole: bool) -> Option<ValueModel> {
    match dispatch(s) {
        Some((v, n)) => if !whole || n == s.len() {
            Some(v)
        } else {
            None
        },
        None => None,
    }
}

fn float_rule(s: &Vec<char>) -> (r: Option<Lexed>)
    ensures
        lexed_model(r) == float_match(s@),
{
    match float_len_exec(s) {
        Some(n) => Some(Lexed { value: decode_float(s, n), len: n }),
        None => match keyword_len_exec(s, "null.float") {
            Some(n) => Some(Lexed { value: AnionValue::Float(None), len: n }),
            None => None,
        },
    }
}

fn int_rule(s: &Vec<char>) -> (r: Option<Lexed>)
    ensures
        lexed_model(r) == int_match(s@),
{
    if let Some(n) = radix_int_len_exec(s, 16) {
        return Some(Lexed { value: decode_int(s, n, 16), len: n });
    }
    if let Some(n) = radix_int_len_exec(s, 8) {
        return Some(Lexed { value: decode_int(s, n, 8), len: n });
    }
    if let Some(n) = radix_int_len_exec(s, 2) {
        return Some(Lexed { value: decode_int(s, n, 2), len: n });
    }
    if let Some(n) = int_len_exec(s) {
        return Some(Lexed { value: decode_int(s, n, 10), len: n });
    }
    match keyword_len_exec(s, "null.int") {
        Some(n) => Some(Lexed { value: AnionValue::Integer(None), len: n }),
        None => None,
    }
}

fn boolean_rule(s: &Vec<char>) -> (r: Option<Lexed>)
    ensures
        lexed_model(r) == boolean_match(s@),
{
    match boolean_len_exec(s) {
        Some(n) => Some(Lexed { value: decode_boolean(s), len: n }),
        None => None,
    }
}

/// Matches `float` or `null.float` at the start of `text` and decodes it.
pub fn match_and_decode_float(text: &str) -> (r: Option<Lexed>)
    ensures
        lexed_model(r) == float_match(text@),
{
    float_rule(&chars_of(text))
}

/// Matches an integer in any radix, or `null.int`, at the start of `text` and
/// decodes it.
pub fn match_and_decode_int(text: &str) -> (r: Option<Lexed>)
    ensures
        lexed_model(r) == int_match(text@),
{
    int_rule(&chars_of(text))
}

/// Matches `true`, `false` or `null.bool` at the start of `text`.
pub fn match_and_decode_boolean(text: &str) -> (r: Option<Lexed>)
    ensures
        lexed_model(r) == boolean_match(text@),
{
    boolean_rule(&chars_of(text))
}

/// `decimal`, else `null.decimal`. The decoded value may be an error.
pub open spec fn decimal_match(s: Seq<char>) -> Option<(Result<ValueModel, DecodeError>, nat)> {
    match decimal_len(s) {
        Some(n) => Some((decimal_result(s, n as int), n)),
        None => match keyword_len(s, "null.decimal"@) {
            Some(n) => Some((Ok(ValueModel::Decimal(None)), n)),
            None => None,
        },
    }
}

pub open spec fn string_match(s: Seq<char>) -> Option<(Result<ValueModel, DecodeError>, nat)> {
    match string_len(s) {
        Some(n) => Some((string_result(s, n as int), n)),
        None => None,
    }
}

/// A fallible entry point agrees with its rule: no match, a decoded lexeme,
/// or the error its decoder gave.
pub open spec fn fallible_agrees(
    r: Result<Option<Lexed>, DecodeError>,
    m: Option<(Result<ValueModel, DecodeError>, nat)>,
) -> bool {
    match r {
        Ok(Some(l)) => m == Some((Ok::<ValueModel, DecodeError>(l.value@), l.len as nat)),
        Ok(None) => m is None,
        Err(e) => m matches Some((Err(e2), _)) && e == e2,
    }
}

/// Matches `decimal` or `null.decimal` at the start of `text` and decodes it.
/// A bare decimal such as `1.5` is reachable only here: the dispatcher never
/// tries the decimal rule.
pub fn match_and_decode_decimal(text: &str) -> (r: Result<Option<Lexed>, DecodeError>)
    ensures
        fallible_agrees(r, decimal_match(text@)),
{
    let s = chars_of(text);
    match decimal_len_exec(&s) {
        Some(n) => match decode_decimal(&s, n) {
            Ok(v) => Ok(Some(Lexed { value: v, len: n })),
            Err(e) => Err(e),
        },
        None => match keyword_len_exec(&s, "null.decimal") {
            Some(n) => Ok(Some(Lexed { value: AnionValue::Decimal(None), len: n })),
            None => Ok(None),
        },
    }
}

/// Matches a quoted string at the start of `text` and unescapes it.
pub fn match_and_decode_string(text: &str) -> (r: Result<Option<Lexed>, DecodeError>)
    ensures
        fallible_agrees(r, string_match(text@)),
{
    let s = chars_of(text);
    match string_len_exec(&s) {
        Some(n) => match decode_string(&s, n) {
            Ok(v) => Ok(Some(Lexed { value: v, len: n })),
            Err(e) => Err(e),
        },
        None => Ok(None),
    }
}

/// Tries float, then integer, then boolean at the start of `text`; when
/// `whole` holds, the chosen lexeme must also be all of `text`.
pub fn parse_value(text: &str, whole: bool) -> (r: Option<AnionValue>)
    ensures
        value_model(r) == parse_model(text@, whole),
{
    let s = chars_of(text);
    let found = match float_rule(&s) {
        Some(l) => Some(l),
        None => match int_rule(&s) {
            Some(l) => Some(l),
            None => boolean_rule(&s),
        },
    };
    match found {
        Some(l) => if !whole || l.len == s.len() {
            Some(l.value)
        } else {
            None
        },
        None => None,
    }
}

/// Decodes the literal at the start of `a_string`, trailing text allowed.
pub fn parse_string(a_string: &str) -> (r: Option<AnionValue>)
    ensures
        value_model(r) == parse_model(a_string@, false),
{
    parse_value(a_string, false)
}

} // verus!
