//! What holds of every transformation.

use crate::codec::{base64_encoded, carried};
use crate::error::TransformError;
use crate::model::{
    converted, converted_child, converted_fields, converted_key_map, converted_mapping,
    document_carried, fails_first_at, field_after, fields_carried, fields_readable, readable,
    tracked_form, transformed, Form,
};
use crate::scalar::{reads_back, scalar_text, typed_scalar};
use crate::text::{
    decimal_text, is_digit, lemma_decimal_digits_value, lemma_trimmed_unchanged, trimmed,
};
use crate::value::{keys_of, Fields, Node};
use vstd::prelude::*;
use vstd::utf8::*;

verus! {

/// Where some value fails, there is a first one that does.
pub proof fn lemma_first_failure_exists(fields: Fields, form: Form, decode: bool, i: int)
    requires
        0 <= i < fields.len(),
        converted_child(fields[i].1, form, decode) is Err,
    ensures
        exists|k: int| fails_first_at(fields, form, decode, k),
    decreases i,
{
    if forall|j: int| 0 <= j < i ==> converted_child(#[trigger] fields[j].1, form, decode) is Ok {
        assert(fails_first_at(fields, form, decode, i));
    } else {
        let j = choose|j: int|
            0 <= j < i && !(converted_child(#[trigger] fields[j].1, form, decode) is Ok);
        lemma_first_failure_exists(fields, form, decode, j);
    }
}

/// The fields under a tracked key are converted one by one: the conversion
/// succeeds exactly when each value can be converted, and then keeps every
/// key in its place.
pub proof fn lemma_converted_fields_pointwise(fields: Fields, form: Form, decode: bool)
    ensures
        converted_fields(fields, form, decode) is Ok <==> forall|j: int|
            0 <= j < fields.len() ==> converted_child(#[trigger] fields[j].1, form, decode) is Ok,
        converted_fields(fields, form, decode) matches Ok(done) ==> {
            &&& done.len() == fields.len()
            &&& forall|j: int|
                0 <= j < fields.len() ==> #[trigger] done[j] == (
                    fields[j].0,
                    converted_child(fields[j].1, form, decode)->Ok_0,
                )
        },
        converted_fields(fields, form, decode) matches Err(e) ==> exists|j: int|
            0 <= j < fields.len() && converted_child(#[trigger] fields[j].1, form, decode) == Err::<
                Node,
                TransformError,
            >(e),
{
    if converted_fields(fields, form, decode) is Ok {
        assert forall|j: int| 0 <= j < fields.len() implies converted_child(
            #[trigger] fields[j].1,
            form,
            decode,
        ) is Ok by {
            if converted_child(fields[j].1, form, decode) is Err {
                lemma_first_failure_exists(fields, form, decode, j);
            }
        }
    } else {
        let k = choose|k: int| fails_first_at(fields, form, decode, k);
        assert(fails_first_at(fields, form, decode, k));
    }
}

/// Null passthrough: a null value under a tracked key is never converted,
/// whichever the direction.
pub proof fn lemma_null_stays(fields: Fields, form: Form, decode: bool, j: int)
    requires
        0 <= j < fields.len(),
        fields[j].1 is Null,
        converted_fields(fields, form, decode) is Ok,
    ensures
        converted_fields(fields, form, decode)->Ok_0[j] == fields[j],
{
    lemma_converted_fields_pointwise(fields, form, decode);
}

/// The two tracked keys differ.
proof fn lemma_tracked_keys_differ()
    ensures
        "data"@ != "dataString"@,
{
    reveal_strlit("data");
    reveal_strlit("dataString");
    assert("data"@.len() != "dataString"@.len());
}

/// Processing one key keeps every key in its place and changes at most the
/// first field that bears the key.
pub proof fn lemma_key_map_pointwise(fields: Fields, key: Seq<char>, form: Form, decode: bool)
    ensures
        converted_key_map(fields, key, form, decode) matches Ok(done) ==> {
            &&& done.len() == fields.len()
            &&& keys_of(done) == keys_of(fields)
            &&& forall|i: int|
                0 <= i < fields.len() && keys_of(fields).index_of_first(key) != Some(i)
                    ==> #[trigger] done[i] == fields[i]
        },
        keys_of(fields).index_of_first(key) matches Some(i) ==> {
            &&& 0 <= i < fields.len()
            &&& fields[i].0 == key
            &&& match fields[i].1 {
                Node::Mapping(children) => match converted_fields(children, form, decode) {
                    Ok(after) => converted_key_map(fields, key, form, decode) is Ok
                        && converted_key_map(fields, key, form, decode)->Ok_0[i] == (
                        key,
                        Node::Mapping(after),
                    ),
                    Err(e) => converted_key_map(fields, key, form, decode) == Err::<
                        Fields,
                        TransformError,
                    >(e),
                },
                _ => converted_key_map(fields, key, form, decode) == Ok::<Fields, TransformError>(
                    fields,
                ),
            }
        },
        keys_of(fields).index_of_first(key) is None ==> converted_key_map(
            fields,
            key,
            form,
            decode,
        ) == Ok::<Fields, TransformError>(fields),
{
    keys_of(fields).index_of_first_ensures(key);
    if converted_key_map(fields, key, form, decode) is Ok {
        let done = converted_key_map(fields, key, form, decode)->Ok_0;
        assert(keys_of(done) =~= keys_of(fields));
    }
}

/// A document is transformed field by field: the transformation succeeds
/// exactly when each field can be, and then holds, in the same order and
/// under the same keys, what each field becomes.
pub proof fn lemma_mapping_pointwise(fields: Fields, decode: bool)
    ensures
        converted_mapping(fields, decode) is Ok <==> forall|i: int|
            0 <= i < fields.len() ==> #[trigger] field_after(fields, i, decode) is Ok,
        converted_mapping(fields, decode) matches Ok(done) ==> {
            &&& done.len() == fields.len()
            &&& keys_of(done) == keys_of(fields)
            &&& forall|i: int|
                0 <= i < fields.len() ==> #[trigger] done[i] == field_after(fields, i, decode)->Ok_0
        },
{
    lemma_tracked_keys_differ();
    let keys = keys_of(fields);
    keys.index_of_first_ensures("data"@);
    keys.index_of_first_ensures("dataString"@);
    lemma_key_map_pointwise(fields, "data"@, Form::Base64, decode);
    match converted_key_map(fields, "data"@, Form::Base64, decode) {
        Ok(mid) => {
            lemma_key_map_pointwise(mid, "dataString"@, Form::Plain, decode);
            assert(keys_of(mid) == keys);
            if let Some(p) = keys.index_of_first("dataString"@) {
                assert(keys[p] == "dataString"@);
                assert(keys.index_of_first("data"@) != Some(p));
                assert(mid[p] == fields[p]);
            }
            assert forall|i: int| 0 <= i < fields.len() && tracked_form(fields, i)
                != Some(Form::Plain) implies #[trigger] field_after(fields, i, decode) is Ok by {}
            if converted_mapping(fields, decode) is Ok {
                let done = converted_mapping(fields, decode)->Ok_0;
                assert forall|i: int| 0 <= i < fields.len() implies #[trigger] done[i]
                    == field_after(fields, i, decode)->Ok_0 && field_after(fields, i, decode) is Ok by {
                    if keys.index_of_first("dataString"@) == Some(i) {
                    } else {
                        assert(done[i] == mid[i]);
                    }
                }
            } else {
                let p = keys.index_of_first("dataString"@)->0;
                assert(field_after(fields, p, decode) is Err);
            }
        },
        Err(e) => {
            let p = keys.index_of_first("data"@)->0;
            assert(field_after(fields, p, decode) is Err);
        },
    }
}

/// The text of a scalar that is read back as it was has no white space
/// around it.
pub proof fn lemma_read_back_text_is_trimmed(v: Node)
    requires
        reads_back(v),
    ensures
        trimmed(scalar_text(v)->0) == scalar_text(v)->0,
{
    reveal_strlit("null");
    reveal_strlit("true");
    reveal_strlit("false");
    let text = scalar_text(v)->0;
    match v {
        Node::Null => {
            assert(text[0] == 'n' && text.last() == 'l');
            lemma_trimmed_unchanged(text);
        },
        Node::Bool(b) => {
            assert(text.last() == 'e');
            assert(text[0] == 't' || text[0] == 'f');
            lemma_trimmed_unchanged(text);
        },
        Node::Integer(n) => {
            if n < 0 {
                let digits = decimal_text(n as int).drop_first();
                lemma_decimal_digits_value((-n) as nat);
                assert(text[0] == '-');
                assert(text.last() == digits.last());
                assert(is_digit(digits.last()));
            } else {
                lemma_decimal_digits_value(n as nat);
                assert(is_digit(text[0]));
                assert(is_digit(text.last()));
            }
            lemma_trimmed_unchanged(text);
        },
        Node::String(s) => {
            assert(typed_scalar(text) == Node::String(text));
        },
        _ => {},
    }
}

/// Decoding inverts encoding for one value that is read back from its text
/// as it was: encoding it fails only on text too long to address, and what
/// it is encoded to decodes to it, under `data` where base64 carries its
/// text faithfully.
pub proof fn lemma_value_round_trip(v: Node, form: Form)
    requires
        reads_back(v),
    ensures
        match converted(v, form, false) {
            Ok(sent) => !(sent is Null) && ((form == Form::Base64 ==> carried(
                encode_utf8(scalar_text(v)->0),
            )) ==> converted(sent, form, true) == Ok::<Node, TransformError>(v)),
            Err(e) => e == TransformError::TooLong,
        },
{
    let text = scalar_text(v)->0;
    lemma_read_back_text_is_trimmed(v);
    match form {
        Form::Plain => {},
        Form::Base64 => {
            if converted(v, form, false) is Ok && carried(encode_utf8(text)) {
                let bytes = encode_utf8(text);
                let sent = base64_encoded(bytes);
                lemma_trimmed_unchanged(sent);
                encode_utf8_valid_utf8(text);
                encode_utf8_decode_utf8(text);
            }
        },
    }
}

/// Decoding inverts encoding for the fields under a tracked key, where each
/// value is null or is read back from its text as it was: encoding them
/// fails only on text too long to address, and what they are encoded to
/// decodes to them, under `data` where base64 carries the texts faithfully.
pub proof fn lemma_fields_round_trip(children: Fields, form: Form)
    requires
        fields_readable(children),
    ensures
        match converted_fields(children, form, false) {
            Ok(sent) => (form == Form::Base64 ==> fields_carried(children)) ==> converted_fields(
                sent,
                form,
                true,
            ) == Ok::<Fields, TransformError>(children),
            Err(e) => e == TransformError::TooLong,
        },
{
    lemma_converted_fields_pointwise(children, form, false);
    assert forall|j: int| 0 <= j < children.len() implies match converted_child(
        #[trigger] children[j].1,
        form,
        false,
    ) {
        Ok(sent) => (form == Form::Base64 ==> fields_carried(children)) ==> converted_child(
            sent,
            form,
            true,
        ) == Ok::<Node, TransformError>(children[j].1),
        Err(e) => e == TransformError::TooLong,
    } by {
        if !(children[j].1 is Null) {
            lemma_value_round_trip(children[j].1, form);
        }
    }
    match converted_fields(children, form, false) {
        Ok(sent) => if form == Form::Base64 ==> fields_carried(children) {
            lemma_converted_fields_pointwise(sent, form, true);
            assert forall|j: int| 0 <= j < sent.len() implies converted_child(
                #[trigger] sent[j].1,
                form,
                true,
            ) == Ok::<Node, TransformError>(children[j].1) by {
                assert(sent[j] == (children[j].0, converted_child(children[j].1, form, false)->Ok_0));
            }
            assert(converted_fields(sent, form, true)->Ok_0 =~= children);
        },
        Err(e) => {
            let j = choose|j: int|
                0 <= j < children.len() && converted_child(#[trigger] children[j].1, form, false)
                    == Err::<Node, TransformError>(e);
            assert(converted_child(children[j].1, form, false) is Err);
        },
    }
}

/// Round trip: take a document in which every value under `data` and
/// `dataString` is null or a scalar that is read back from its text as it
/// was. Encoding it fails only on text too long to address; and decoding
/// what it was encoded to gives the document back, provided that base64
/// carries the texts under `data` faithfully.
pub proof fn lemma_decode_inverts_encode(doc: Node)
    requires
        readable(doc),
    ensures
        match transformed(doc, false) {
            Ok(sent) => document_carried(doc) ==> transformed(sent, true) == Ok::<
                Node,
                TransformError,
            >(doc),
            Err(e) => e == TransformError::TooLong,
        },
{
    if let Node::Mapping(fields) = doc {
        lemma_mapping_pointwise(fields, false);
        assert forall|i: int| 0 <= i < fields.len() implies match #[trigger] field_after(
            fields,
            i,
            false,
        ) {
            Ok(sent) => document_carried(doc) ==> sent.0 == fields[i].0 && match (
                tracked_form(fields, i),
                sent.1,
            ) {
                (Some(form), Node::Mapping(children)) => converted_fields(children, form, true)
                    == Ok::<Fields, TransformError>(fields[i].1->Mapping_0) && fields[i].1 is Mapping,
                _ => sent == fields[i],
            },
            Err(e) => e == TransformError::TooLong,
        } by {
            if let (Some(form), Node::Mapping(children)) = (tracked_form(fields, i), fields[i].1) {
                assert(fields_readable(children));
                assert(document_carried(doc) && form == Form::Base64 ==> fields_carried(children));
                lemma_fields_round_trip(children, form);
            }
        }
        match converted_mapping(fields, false) {
            Ok(sent) => if document_carried(doc) {
                lemma_mapping_pointwise(sent, true);
                assert forall|i: int| 0 <= i < sent.len() implies #[trigger] field_after(
                    sent,
                    i,
                    true,
                ) == Ok::<(Seq<char>, Node), TransformError>(fields[i]) by {
                    assert(sent[i] == field_after(fields, i, false)->Ok_0);
                    assert(tracked_form(sent, i) == tracked_form(fields, i));
                }
                assert(converted_mapping(sent, true)->Ok_0 =~= fields);
            },
            Err(e) => {
                let i = choose|i: int|
                    0 <= i < fields.len() && !(#[trigger] field_after(fields, i, false) is Ok);
                assert(field_after(fields, i, false) is Err);
                lemma_mapping_error(fields, false);
            },
        }
    }
}

/// The error of a document is the error of one of its fields.
pub proof fn lemma_mapping_error(fields: Fields, decode: bool)
    ensures
        converted_mapping(fields, decode) matches Err(e) ==> exists|i: int|
            0 <= i < fields.len() && #[trigger] field_after(fields, i, decode) == Err::<
                (Seq<char>, Node),
                TransformError,
            >(e),
{
    lemma_tracked_keys_differ();
    let keys = keys_of(fields);
    keys.index_of_first_ensures("data"@);
    keys.index_of_first_ensures("dataString"@);
    lemma_key_map_pointwise(fields, "data"@, Form::Base64, decode);
    match converted_key_map(fields, "data"@, Form::Base64, decode) {
        Ok(mid) => {
            lemma_key_map_pointwise(mid, "dataString"@, Form::Plain, decode);
            assert(keys_of(mid) == keys);
            if converted_mapping(fields, decode) is Err {
                let p = keys.index_of_first("dataString"@)->0;
                assert(keys[p] == "dataString"@);
                assert(keys.index_of_first("data"@) != Some(p));
                assert(mid[p] == fields[p]);
                assert(field_after(fields, p, decode) == Err::<(Seq<char>, Node), TransformError>(
                    converted_mapping(fields, decode)->Err_0,
                ));
            }
        },
        Err(e) => {
            let p = keys.index_of_first("data"@)->0;
            assert(field_after(fields, p, decode) == Err::<(Seq<char>, Node), TransformError>(e));
        },
    }
}

/// No-op paths: a document without the keys `data` and `dataString` comes
/// back unchanged, and so does one that is not a mapping.
pub proof fn lemma_untracked_document_unchanged(doc: Node, decode: bool)
    requires
        doc matches Node::Mapping(fields) ==> !keys_of(fields).contains("data"@) && !keys_of(
            fields,
        ).contains("dataString"@),
    ensures
        transformed(doc, decode) == Ok::<Node, TransformError>(doc),
{
    if let Node::Mapping(fields) = doc {
        keys_of(fields).index_of_first_ensures("data"@);
        keys_of(fields).index_of_first_ensures("dataString"@);
    }
}

/// Isolation: a transformation keeps every key in its place, and leaves as
/// it was every field whose key is neither `data` nor `dataString`, as well
/// as every field that holds no mapping.
pub proof fn lemma_other_fields_untouched(doc: Node, decode: bool, i: int)
    requires
        doc is Mapping,
        transformed(doc, decode) is Ok,
        0 <= i < doc->Mapping_0.len(),
    ensures
        transformed(doc, decode)->Ok_0 is Mapping,
        keys_of(transformed(doc, decode)->Ok_0->Mapping_0) == keys_of(doc->Mapping_0),
        (doc->Mapping_0[i].0 != "data"@ && doc->Mapping_0[i].0 != "dataString"@)
            || !(doc->Mapping_0[i].1 is Mapping) ==> transformed(doc, decode)->Ok_0->Mapping_0[i]
            == doc->Mapping_0[i],
{
    let fields = doc->Mapping_0;
    lemma_mapping_pointwise(fields, decode);
    keys_of(fields).index_of_first_ensures("data"@);
    keys_of(fields).index_of_first_ensures("dataString"@);
}

/// Null passthrough in a document: wherever a mapping of the top level
/// holds a null value, the transformed document holds a mapping at that
/// place with null at that value's place, under the same key.
pub proof fn lemma_null_passthrough(doc: Node, decode: bool, i: int, j: int)
    requires
        doc is Mapping,
        transformed(doc, decode) is Ok,
        0 <= i < doc->Mapping_0.len(),
        doc->Mapping_0[i].1 is Mapping,
        0 <= j < doc->Mapping_0[i].1->Mapping_0.len(),
        doc->Mapping_0[i].1->Mapping_0[j].1 is Null,
    ensures
        transformed(doc, decode)->Ok_0 is Mapping,
        transformed(doc, decode)->Ok_0->Mapping_0[i].1 is Mapping,
        transformed(doc, decode)->Ok_0->Mapping_0[i].1->Mapping_0[j] == doc->Mapping_0[i].1->Mapping_0[j],
{
    let fields = doc->Mapping_0;
    lemma_mapping_pointwise(fields, decode);
    if let Some(form) = tracked_form(fields, i) {
        lemma_null_stays(fields[i].1->Mapping_0, form, decode, j);
    }
}

} // verus!
