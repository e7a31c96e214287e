//! Scalars and their text: how a scalar is written, and how text is read
//! back as a typed scalar.

use crate::error::TransformError;
use crate::text::{
    decimal_text, format_i64, is_digit, lemma_decimal_digits_value, lemma_parse_decimal_text,
    parse_i64, parse_i64_text, same_text, trim, trimmed,
};
use crate::value::{Node, Value};
use vstd::prelude::*;

verus! {

/// The text of a scalar: `null`, `true` or `false`, an integer in base ten,
/// or a string without the white space around it. Anything else has no text.
pub open spec fn scalar_text(v: Node) -> Option<Seq<char>> {
    match v {
        Node::Null => Some("null"@),
        Node::Bool(b) => Some(
            if b {
                "true"@
            } else {
                "false"@
            },
        ),
        Node::Integer(n) => Some(decimal_text(n as int)),
        Node::String(s) => Some(trimmed(s)),
        _ => None,
    }
}

/// The scalar that a text is read as: `null`, a boolean, an integer where the
/// text writes one that fits in 64 bits, and otherwise the text itself.
pub open spec fn typed_scalar(t: Seq<char>) -> Node {
    if t == "null"@ {
        Node::Null
    } else if t == "true"@ {
        Node::Bool(true)
    } else if t == "false"@ {
        Node::Bool(false)
    } else {
        match parse_i64(t) {
            Some(n) => Node::Integer(n),
            None => Node::String(t),
        }
    }
}

/// Whether reading the text of `v` gives `v` back.
pub open spec fn reads_back(v: Node) -> bool {
    match scalar_text(v) {
        Some(t) => typed_scalar(t) == v,
        None => false,
    }
}

/// Writes a scalar as text.
///
/// Fails with [`TransformError::UnsupportedValue`] exactly on the values
/// that are not null, a boolean, an integer or a string.
pub fn yaml_value_to_string(value: &Value) -> (r: Result<String, TransformError>)
    ensures
        match r {
            Ok(s) => scalar_text(value@) == Some(s@),
            Err(e) => e == TransformError::UnsupportedValue && scalar_text(value@) is None,
        },
{
    match value {
        Value::Integer(n) => Ok(format_i64(*n)),
        Value::String(s) => Ok(trim(s.as_str()).to_owned()),
        Value::Bool(b) => Ok(
            if *b {
                "true".to_owned()
            } else {
                "false".to_owned()
            },
        ),
        Value::Null => Ok("null".to_owned()),
        _ => Err(TransformError::UnsupportedValue),
    }
}

/// Reads text as a typed scalar.
pub fn string_to_yaml_value(string: &str) -> (r: Value)
    ensures
        r@ == typed_scalar(string@),
{
    if same_text(string, "null") {
        Value::Null
    } else if same_text(string, "true") {
        Value::Bool(true)
    } else if same_text(string, "false") {
        Value::Bool(false)
    } else {
        match parse_i64_text(string) {
            Some(number) => Value::Integer(number),
            None => Value::String(string.to_owned()),
        }
    }
}

/// Null, booleans and integers are read back from their text as they were.
pub proof fn lemma_plain_scalars_read_back(v: Node)
    requires
        v is Null || v is Bool || v is Integer,
    ensures
        reads_back(v),
{
    reveal_strlit("null");
    reveal_strlit("true");
    reveal_strlit("false");
    match v {
        Node::Integer(n) => {
            let t = decimal_text(n as int);
            lemma_parse_decimal_text(n as int);
            if n < 0 {
                assert(t[0] == '-');
            } else {
                lemma_decimal_digits_value(n as nat);
                assert(is_digit(t[0]));
            }
            assert("null"@[0] == 'n');
            assert("true"@[0] == 't');
            assert("false"@[0] == 'f');
        },
        Node::Bool(b) => {
            assert("true"@[0] == 't');
            assert("false"@[0] == 'f');
            assert("null"@[0] == 'n');
        },
        _ => {},
    }
}

/// A string is read back as it was exactly when nothing surrounds it, it is
/// not one of the three keywords and it writes no 64-bit integer.
pub proof fn lemma_string_reads_back(s: Seq<char>)
    ensures
        reads_back(Node::String(s)) <==> {
            &&& trimmed(s) == s
            &&& s != "null"@
            &&& s != "true"@
            &&& s != "false"@
            &&& parse_i64(s) is None
        },
{
}

} // verus!
