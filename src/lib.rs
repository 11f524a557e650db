//! Decoding of the scalar literals of a typed data-interchange text format:
//! booleans, integers in four radixes, floats, exact decimals and strings,
//! each with its own typed null.

pub mod grammar;
pub mod numeric;
pub mod value;
pub mod decode;
pub mod parser;
pub mod laws;

pub use parser::{
    match_and_decode_boolean, match_and_decode_decimal, match_and_decode_float,
    match_and_decode_int, match_and_decode_string, parse_string, parse_value, Lexed,
};
pub use value::{AnionValue, DecodeError};
