//! What the transformation is, stated over the models of documents.

use crate::codec::{base64_decoded, base64_encoded, base64_len, carried};
use crate::error::TransformError;
use crate::scalar::{reads_back, scalar_text, typed_scalar};
use crate::value::{fields_of, keys_of, Entry, Fields, Node, Value};
use vstd::prelude::*;
use vstd::utf8::*;

verus! {

/// How the values under a key are carried.
#[derive(Debug, Clone, Copy, PartialEq, Eq, Structural)]
pub enum Form {
    /// As the base64 text of their UTF-8 bytes: the key `data`.
    Base64,
    /// As plain strings: the key `dataString`.
    Plain,
}

/// The scalar that decoded bytes are read as, where there are any.
pub open spec fn read_decoded(decoded: Option<Seq<u8>>) -> Result<Node, TransformError> {
    match decoded {
        None => Err(TransformError::Encoding),
        Some(bytes) => if valid_utf8(bytes) {
            Ok(typed_scalar(decode_utf8(bytes)))
        } else {
            Err(TransformError::TextEncoding)
        },
    }
}

/// The string node that holds the base64 text of `text`, where that text
/// has a length the machine can address.
pub open spec fn encoded(text: Seq<char>) -> Result<Node, TransformError> {
    if base64_len(encode_utf8(text).len()) <= usize::MAX {
        Ok(Node::String(base64_encoded(encode_utf8(text))))
    } else {
        Err(TransformError::TooLong)
    }
}

/// What a value other than null becomes.
pub open spec fn converted(v: Node, form: Form, decode: bool) -> Result<Node, TransformError> {
    match scalar_text(v) {
        None => Err(TransformError::UnsupportedValue),
        Some(text) => match form {
            Form::Base64 => if decode {
                read_decoded(base64_decoded(encode_utf8(text)))
            } else {
                encoded(text)
            },
            Form::Plain => Ok(
                if decode {
                    typed_scalar(text)
                } else {
                    Node::String(text)
                },
            ),
        },
    }
}

/// What a value under a tracked key becomes: null stays, anything else is
/// converted.
pub open spec fn converted_child(v: Node, form: Form, decode: bool) -> Result<
    Node,
    TransformError,
> {
    if v is Null {
        Ok(Node::Null)
    } else {
        converted(v, form, decode)
    }
}

/// Whether `i` is the first position of `fields` whose value cannot be
/// converted.
pub open spec fn fails_first_at(fields: Fields, form: Form, decode: bool, i: int) -> bool {
    &&& 0 <= i < fields.len()
    &&& converted_child(fields[i].1, form, decode) is Err
    &&& forall|j: int| 0 <= j < i ==> converted_child(#[trigger] fields[j].1, form, decode) is Ok
}

/// What the fields under a tracked key become: each value converted in its
/// place under its key, or the error of the first value that fails.
pub open spec fn converted_fields(fields: Fields, form: Form, decode: bool) -> Result<
    Fields,
    TransformError,
> {
    if exists|i: int| fails_first_at(fields, form, decode, i) {
        let i = choose|i: int| fails_first_at(fields, form, decode, i);
        Err(converted_child(fields[i].1, form, decode)->Err_0)
    } else {
        Ok(
            Seq::new(
                fields.len(),
                |i: int| (fields[i].0, converted_child(fields[i].1, form, decode)->Ok_0),
            ),
        )
    }
}

/// What the fields of a document become when the key `key` is processed:
/// where the first field that bears the key holds a mapping, that mapping is
/// converted; otherwise nothing changes.
pub open spec fn converted_key_map(fields: Fields, key: Seq<char>, form: Form, decode: bool)
    -> Result<Fields, TransformError> {
    match keys_of(fields).index_of_first(key) {
        None => Ok(fields),
        Some(i) => match fields[i].1 {
            Node::Mapping(children) => match converted_fields(children, form, decode) {
                Ok(done) => Ok(fields.update(i, (fields[i].0, Node::Mapping(done)))),
                Err(e) => Err(e),
            },
            _ => Ok(fields),
        },
    }
}

/// What the fields of a document become: `data` is processed first, then
/// `dataString`.
pub open spec fn converted_mapping(fields: Fields, decode: bool) -> Result<
    Fields,
    TransformError,
> {
    match converted_key_map(fields, "data"@, Form::Base64, decode) {
        Ok(done) => converted_key_map(done, "dataString"@, Form::Plain, decode),
        Err(e) => Err(e),
    }
}

/// What a document becomes. One that is not a mapping stays as it is.
pub open spec fn transformed(doc: Node, decode: bool) -> Result<Node, TransformError> {
    match doc {
        Node::Mapping(fields) => match converted_mapping(fields, decode) {
            Ok(done) => Ok(Node::Mapping(done)),
            Err(e) => Err(e),
        },
        _ => Ok(doc),
    }
}

/// The model of an outcome that holds a value.
pub open spec fn node_result(r: Result<Value, TransformError>) -> Result<Node, TransformError> {
    match r {
        Ok(v) => Ok(v@),
        Err(e) => Err(e),
    }
}

/// The model of an outcome that holds entries.
pub open spec fn fields_result(r: Result<Vec<Entry>, TransformError>) -> Result<
    Fields,
    TransformError,
> {
    match r {
        Ok(entries) => Ok(fields_of(entries@)),
        Err(e) => Err(e),
    }
}

/// The bytes in an outcome of the base64 decoder, if it holds any.
pub open spec fn decoded_bytes(decoded: Result<Vec<u8>, base64::DecodeError>) -> Option<Seq<u8>> {
    match decoded {
        Ok(bytes) => Some(bytes@),
        Err(_) => None,
    }
}

/// The rule under which the field at `i` is processed, if it is: the first
/// field that bears `data` is carried as base64, the first that bears
/// `dataString` as plain text.
pub open spec fn tracked_form(fields: Fields, i: int) -> Option<Form> {
    if keys_of(fields).index_of_first("data"@) == Some(i) {
        Some(Form::Base64)
    } else if keys_of(fields).index_of_first("dataString"@) == Some(i) {
        Some(Form::Plain)
    } else {
        None
    }
}

/// What the field at `i` of a document becomes: the mapping under a tracked
/// key is converted, every other field stays as it is.
pub open spec fn field_after(fields: Fields, i: int, decode: bool) -> Result<
    (Seq<char>, Node),
    TransformError,
> {
    match (tracked_form(fields, i), fields[i].1) {
        (Some(form), Node::Mapping(children)) => match converted_fields(children, form, decode) {
            Ok(done) => Ok((fields[i].0, Node::Mapping(done))),
            Err(e) => Err(e),
        },
        _ => Ok(fields[i]),
    }
}

/// Whether every value under the tracked keys of `doc` is null or a scalar
/// that is read back from its text as it was.
pub open spec fn readable(doc: Node) -> bool {
    doc matches Node::Mapping(fields) ==> forall|i: int|
        0 <= i < fields.len() && tracked_form(fields, i) is Some ==> (
        #[trigger] fields[i].1 matches Node::Mapping(children) ==> fields_readable(children))
}

/// Whether every value of `children` is null or is read back from its text
/// as it was.
pub open spec fn fields_readable(children: Fields) -> bool {
    forall|j: int|
        0 <= j < children.len() ==> (#[trigger] children[j].1 is Null || reads_back(
            children[j].1,
        ))
}

/// Whether base64 carries faithfully the text of every scalar of `children`
/// that is not null.
pub open spec fn fields_carried(children: Fields) -> bool {
    forall|j: int|
        0 <= j < children.len() && !(#[trigger] children[j].1 is Null) ==> (scalar_text(
            children[j].1,
        ) matches Some(text) ==> carried(encode_utf8(text)))
}

/// Whether base64 carries faithfully the text of every scalar under `data`
/// that is not null.
pub open spec fn document_carried(doc: Node) -> bool {
    doc matches Node::Mapping(fields) ==> forall|i: int|
        0 <= i < fields.len() && tracked_form(fields, i) == Some(Form::Base64) ==> (
        #[trigger] fields[i].1 matches Node::Mapping(children) ==> fields_carried(children))
}

} // verus!
