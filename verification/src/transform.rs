//! The code that transforms a document.

use crate::codec::{base64_decode, base64_decoded, base64_encode, carried, string_from_utf8};
use crate::error::TransformError;
use crate::laws::lemma_decode_inverts_encode;
use crate::model::{
    converted, converted_child, converted_fields, converted_key_map, converted_mapping,
    decoded_bytes, document_carried, encoded, fails_first_at, fields_carried, fields_result,
    node_result, read_decoded, readable, transformed, Form,
};
use crate::scalar::{scalar_text, string_to_yaml_value, yaml_value_to_string};
use crate::text::same_text;
use crate::value::{fields_of, keys_of, lemma_mapping_view, Entry, Fields, Node, Value};
use vstd::prelude::*;
use vstd::utf8::*;

verus! {

/// Turns the outcome of the base64 decoder into a typed scalar.
///
/// An error of the decoder becomes [`TransformError::Encoding`]; bytes that
/// are not UTF-8 give [`TransformError::TextEncoding`]; any other bytes are
/// read as text.
pub fn value_from_decoded(decoded: Result<Vec<u8>, base64::DecodeError>) -> (r: Result<
    Value,
    TransformError,
>)
    ensures
        node_result(r) == read_decoded(decoded_bytes(decoded)),
{
    match decoded {
        Err(_) => Err(TransformError::Encoding),
        Ok(bytes) => match string_from_utf8(bytes) {
            None => Err(TransformError::TextEncoding),
            Some(text) => Ok(string_to_yaml_value(text.as_str())),
        },
    }
}

/// Decodes base64 text and reads the result as a typed scalar.
pub fn decode_text(text: &str) -> (r: Result<Value, TransformError>)
    ensures
        node_result(r) == read_decoded(base64_decoded(encode_utf8(text@))),
{
    value_from_decoded(base64_decode(text.as_bytes()))
}

/// Encodes text as base64, in a string value.
pub fn encode_text(text: &str) -> (r: Result<Value, TransformError>)
    ensures
        node_result(r) == encoded(text@),
        r is Ok ==> carried(encode_utf8(text@)),
{
    let bytes = text.as_bytes();
    let n: usize = bytes.len();
    let padding: usize = if n % 3 == 0 {
        0
    } else {
        4
    };
    if n / 3 > (usize::MAX - padding) / 4 {
        return Err(TransformError::TooLong);
    }
    Ok(Value::String(base64_encode(bytes)))
}

/// Converts one value other than null.
pub fn convert_value(value: &Value, form: Form, decode: bool) -> (r: Result<Value, TransformError>)
    ensures
        node_result(r) == converted(value@, form, decode),
        r is Ok && form == Form::Base64 && !decode ==> carried(
            encode_utf8(scalar_text(value@)->0),
        ),
{
    let string = match yaml_value_to_string(value) {
        Ok(s) => s,
        Err(e) => {
            return Err(e);
        },
    };
    match form {
        Form::Base64 => if decode {
            decode_text(string.as_str())
        } else {
            encode_text(string.as_str())
        },
        Form::Plain => if decode {
            Ok(string_to_yaml_value(string.as_str()))
        } else {
            Ok(Value::String(string))
        },
    }
}

/// Converts every value of `entries` that is not null, each in its place.
///
/// Stops at the first value that cannot be converted, with its error.
pub fn process_entries(entries: Vec<Entry>, form: Form, decode: bool) -> (r: Result<
    Vec<Entry>,
    TransformError,
>)
    ensures
        fields_result(r) == converted_fields(fields_of(entries@), form, decode),
        r is Ok && form == Form::Base64 && !decode ==> fields_carried(fields_of(entries@)),
{
    let ghost before: Fields = fields_of(entries@);
    let mut work = entries;
    let n: usize = work.len();
    let mut i: usize = 0;
    while i < n
        invariant
            before == fields_of(entries@),
            n == work@.len(),
            n == before.len(),
            i <= n,
            forall|j: int|
                0 <= j < i ==> converted_child(#[trigger] before[j].1, form, decode) == Ok::<
                    Node,
                    TransformError,
                >(work@[j].value@),
            forall|j: int| 0 <= j < n ==> (#[trigger] work@[j]).key@ == before[j].0,
            forall|j: int| i <= j < n ==> (#[trigger] work@[j]).value@ == before[j].1,
            form == Form::Base64 && !decode ==> forall|j: int|
                0 <= j < i && !(#[trigger] before[j].1 is Null) ==> carried(
                    encode_utf8(scalar_text(before[j].1)->0),
                ),
        decreases n - i,
    {
        let is_null = match &work[i].value {
            Value::Null => true,
            _ => false,
        };
        if !is_null {
            match convert_value(&work[i].value, form, decode) {
                Ok(value) => {
                    work[i].value = value;
                },
                Err(e) => {
                    assert(work@[i as int].value@ == before[i as int].1);
                    assert(converted_child(before[i as int].1, form, decode) == Err::<
                        Node,
                        TransformError,
                    >(e));
                    assert(fails_first_at(before, form, decode, i as int));
                    let ghost k = choose|k: int| fails_first_at(before, form, decode, k);
                    assert(k == i) by {
                        if k < i {
                            assert(converted_child(before[k].1, form, decode) is Ok);
                        } else if k > i {
                            assert(converted_child(before[i as int].1, form, decode) is Ok);
                        }
                    }
                    return Err(e);
                },
            }
        }
        i += 1;
    }
    assert forall|k: int| !fails_first_at(before, form, decode, k) by {
        if 0 <= k < n {
            assert(converted_child(before[k].1, form, decode) is Ok);
        }
    }
    assert(fields_of(work@) =~= converted_fields(before, form, decode)->Ok_0);
    Ok(work)
}

/// Converts the values of the mapping held under `key`, where the first
/// entry that bears the key holds a mapping.
pub fn process_key_map(entries: Vec<Entry>, key: &str, form: Form, decode: bool) -> (r: Result<
    Vec<Entry>,
    TransformError,
>)
    ensures
        fields_result(r) == converted_key_map(fields_of(entries@), key@, form, decode),
        r is Ok && form == Form::Base64 && !decode ==> (keys_of(
            fields_of(entries@),
        ).index_of_first(key@) matches Some(i) ==> (fields_of(entries@)[i].1 matches Node::Mapping(
            children,
        ) ==> fields_carried(children))),
{
    let ghost before: Fields = fields_of(entries@);
    let mut work = entries;
    let n: usize = work.len();
    let mut i: usize = 0;
    while i < n
        invariant_except_break
            forall|j: int| 0 <= j < i ==> keys_of(before)[j] != key@,
        invariant
            n == work@.len(),
            i <= n,
            fields_of(work@) == before,
        ensures
            i < n ==> keys_of(before)[i as int] == key@,
            forall|j: int| 0 <= j < i ==> keys_of(before)[j] != key@,
        decreases n - i,
    {
        if same_text(work[i].key.as_str(), key) {
            break ;
        }
        i += 1;
    }
    proof {
        keys_of(before).index_of_first_ensures(key@);
    }
    if i == n {
        return Ok(work);
    }
    assert(keys_of(before).index_of_first(key@) == Some(i as int)) by {
        let found = keys_of(before).index_of_first(key@);
        assert(keys_of(before)[i as int] == key@);
        assert(keys_of(before).contains(key@));
        let k = found->0;
        if k < i {
            assert(keys_of(before)[k] != key@);
        }
    }
    let mut held = Value::Null;
    core::mem::swap(&mut work[i].value, &mut held);
    match held {
        Value::Mapping(children) => {
            proof {
                lemma_mapping_view(children);
            }
            match process_entries(children, form, decode) {
                Ok(done) => {
                    proof {
                        lemma_mapping_view(done);
                    }
                    work[i].value = Value::Mapping(done);
                    assert(fields_of(work@) =~= before.update(
                        i as int,
                        (before[i as int].0, Node::Mapping(fields_of(done@))),
                    ));
                    Ok(work)
                },
                Err(e) => Err(e),
            }
        },
        other => {
            work[i].value = other;
            assert(fields_of(work@) =~= before);
            Ok(work)
        },
    }
}

/// Processes the two tracked keys of a document's top level: `data`, whose
/// values are carried as base64, then `dataString`, whose values are plain.
pub fn process_mapping(entries: Vec<Entry>, decode: bool) -> (r: Result<Vec<Entry>, TransformError>)
    ensures
        fields_result(r) == converted_mapping(fields_of(entries@), decode),
        r is Ok && !decode ==> document_carried(Node::Mapping(fields_of(entries@))),
{
    match process_key_map(entries, "data", Form::Base64, decode) {
        Ok(done) => process_key_map(done, "dataString", Form::Plain, decode),
        Err(e) => Err(e),
    }
}

/// Transforms a document: encodes the values under `data` and `dataString`,
/// or decodes them where `decode` is set.
///
/// A document that is not a mapping comes back as it is.
pub fn process_yaml(yaml: Value, decode: bool) -> (r: Result<Value, TransformError>)
    ensures
        node_result(r) == transformed(yaml@, decode),
        !decode && readable(yaml@) ==> match r {
            Ok(sent) => transformed(sent@, true) == Ok::<Node, TransformError>(yaml@),
            Err(e) => e == TransformError::TooLong,
        },
{
    match yaml {
        Value::Mapping(entries) => {
            proof {
                lemma_mapping_view(entries);
            }
            proof {
                if !decode && readable(yaml@) {
                    lemma_decode_inverts_encode(yaml@);
                }
            }
            match process_mapping(entries, decode) {
                Ok(done) => {
                    proof {
                        lemma_mapping_view(done);
                    }
                    Ok(Value::Mapping(done))
                },
                Err(e) => Err(e),
            }
        },
        other => Ok(other),
    }
}

} // verus!
