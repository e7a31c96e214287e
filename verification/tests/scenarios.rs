//! Documents built by hand: the two tracked keys, what is left alone, and
//! what fails.

use secret_yaml::error::TransformError;
use secret_yaml::model::Form;
use secret_yaml::transform::{process_entries, process_key_map, process_mapping, process_yaml};
use secret_yaml::value::{Entry, Value};

fn string(text: &str) -> Value {
    Value::String(text.to_string())
}

fn entry(key: &str, value: Value) -> Entry {
    Entry { key: key.to_string(), value }
}

fn mapping(entries: Vec<Entry>) -> Value {
    Value::Mapping(entries)
}

fn plain_fields() -> Vec<Entry> {
    vec![
        entry("STRING", string("text")),
        entry("NUMBER", Value::Integer(123)),
        entry("BOOL", Value::Bool(true)),
    ]
}

fn base64_fields() -> Vec<Entry> {
    vec![
        entry("STRING", string("dGV4dA==")),
        entry("NUMBER", string("MTIz")),
        entry("BOOL", string("dHJ1ZQ==")),
    ]
}

fn string_fields() -> Vec<Entry> {
    vec![
        entry("STRING", string("text")),
        entry("NUMBER", string("123")),
        entry("BOOL", string("true")),
    ]
}

#[test]
fn encode_data_key() {
    let input = mapping(vec![entry("data", mapping(plain_fields()))]);
    let expected = mapping(vec![entry("data", mapping(base64_fields()))]);
    assert_eq!(process_yaml(input, false), Ok(expected));
}

#[test]
fn encode_data_string_key() {
    let input = mapping(vec![entry("dataString", mapping(plain_fields()))]);
    let expected = mapping(vec![entry("dataString", mapping(string_fields()))]);
    assert_eq!(process_yaml(input, false), Ok(expected));
}

#[test]
fn decode_data_key() {
    let input = mapping(vec![entry("data", mapping(base64_fields()))]);
    let expected = mapping(vec![entry("data", mapping(plain_fields()))]);
    assert_eq!(process_yaml(input, true), Ok(expected));
}

#[test]
fn decode_data_string_key() {
    let input = mapping(vec![entry("dataString", mapping(string_fields()))]);
    let expected = mapping(vec![entry("dataString", mapping(plain_fields()))]);
    assert_eq!(process_yaml(input, true), Ok(expected));
}

#[test]
fn mixed_document_transforms_each_key_by_its_own_rule() {
    let input = mapping(vec![
        entry("apiVersion", string("v1")),
        entry("data", mapping(plain_fields())),
        entry("dataString", mapping(plain_fields())),
    ]);
    let expected = mapping(vec![
        entry("apiVersion", string("v1")),
        entry("data", mapping(base64_fields())),
        entry("dataString", mapping(string_fields())),
    ]);
    assert_eq!(process_yaml(input, false), Ok(expected.clone()));
    let back = mapping(vec![
        entry("apiVersion", string("v1")),
        entry("data", mapping(plain_fields())),
        entry("dataString", mapping(plain_fields())),
    ]);
    assert_eq!(process_yaml(expected, true), Ok(back));
}

#[test]
fn nested_mapping_under_data_is_unsupported() {
    let input = mapping(vec![entry(
        "data",
        mapping(vec![entry("NESTED", mapping(vec![entry("inner", string("x"))]))]),
    )]);
    assert_eq!(process_yaml(input.clone(), false), Err(TransformError::UnsupportedValue));
    assert_eq!(process_yaml(input, true), Err(TransformError::UnsupportedValue));
}

#[test]
fn sequence_under_a_tracked_key_is_unsupported() {
    for key in ["data", "dataString"] {
        for decode in [false, true] {
            let input = mapping(vec![entry(
                key,
                mapping(vec![
                    entry("OK", string("dGV4dA==")),
                    entry("LIST", Value::Sequence(vec![Value::Integer(1)])),
                ]),
            )]);
            assert_eq!(process_yaml(input, decode), Err(TransformError::UnsupportedValue));
        }
    }
}

#[test]
fn float_under_a_tracked_key_is_unsupported() {
    let input = mapping(vec![entry(
        "data",
        mapping(vec![entry("RATIO", Value::Float(0.5f64.to_bits()))]),
    )]);
    assert_eq!(process_yaml(input, false), Err(TransformError::UnsupportedValue));
}

#[test]
fn invalid_base64_under_data_fails_on_decode() {
    let input = mapping(vec![entry("data", mapping(vec![entry("A", string("not base64!"))]))]);
    assert_eq!(process_yaml(input, true), Err(TransformError::Encoding));
}

#[test]
fn invalid_utf8_under_data_fails_on_decode() {
    let input = mapping(vec![entry("data", mapping(vec![entry("A", string("//4="))]))]);
    assert_eq!(process_yaml(input, true), Err(TransformError::TextEncoding));
}

#[test]
fn invalid_base64_under_data_string_is_no_error() {
    let input = mapping(vec![entry("dataString", mapping(vec![entry("A", string("not base64!"))]))]);
    assert_eq!(process_yaml(input.clone(), true), Ok(input));
}

#[test]
fn the_first_failing_value_gives_the_error() {
    let input = mapping(vec![entry(
        "data",
        mapping(vec![
            entry("A", string("dGV4dA==")),
            entry("B", string("//4=")),
            entry("C", string("!!!")),
            entry("D", Value::Sequence(Vec::new())),
        ]),
    )]);
    assert_eq!(process_yaml(input, true), Err(TransformError::TextEncoding));
    let input = mapping(vec![entry(
        "data",
        mapping(vec![
            entry("A", string("!!!")),
            entry("B", string("//4=")),
            entry("C", Value::Sequence(Vec::new())),
        ]),
    )]);
    assert_eq!(process_yaml(input, true), Err(TransformError::Encoding));
}

#[test]
fn data_is_processed_before_data_string() {
    let input = mapping(vec![
        entry("dataString", mapping(vec![entry("A", Value::Sequence(Vec::new()))])),
        entry("data", mapping(vec![entry("B", string("!!!"))])),
    ]);
    assert_eq!(process_yaml(input, true), Err(TransformError::Encoding));
}

#[test]
fn document_without_tracked_keys_is_unchanged() {
    let input = mapping(vec![
        entry("apiVersion", string("v1")),
        entry("kind", string("Secret")),
        entry(
            "metadata",
            mapping(vec![entry("name", string("  padded  ")), entry("labels", Value::Null)]),
        ),
        entry("Data", mapping(vec![entry("A", string("text"))])),
        entry("stringData", mapping(vec![entry("A", Value::Integer(1))])),
        entry("weights", Value::Sequence(vec![Value::Float(1.5f64.to_bits())])),
    ]);
    assert_eq!(process_yaml(input.clone(), false), Ok(input.clone()));
    assert_eq!(process_yaml(input.clone(), true), Ok(input));
}

#[test]
fn empty_mapping_is_unchanged() {
    assert_eq!(process_yaml(mapping(Vec::new()), false), Ok(mapping(Vec::new())));
    assert_eq!(process_yaml(mapping(Vec::new()), true), Ok(mapping(Vec::new())));
}

#[test]
fn root_that_is_no_mapping_is_unchanged() {
    let roots = [
        Value::Null,
        Value::Bool(true),
        Value::Integer(5),
        Value::Float(2.5f64.to_bits()),
        string("data"),
        Value::Sequence(vec![mapping(vec![entry("data", mapping(plain_fields()))])]),
        Value::Tagged("!t".to_string(), Box::new(mapping(vec![entry("data", mapping(plain_fields()))]))),
    ];
    for root in roots {
        assert_eq!(process_yaml(root.clone(), false), Ok(root.clone()));
        assert_eq!(process_yaml(root.clone(), true), Ok(root));
    }
}

#[test]
fn tracked_key_that_holds_no_mapping_is_unchanged() {
    let input = mapping(vec![
        entry("data", string("text")),
        entry("dataString", Value::Sequence(vec![string("text"), Value::Integer(1)])),
    ]);
    assert_eq!(process_yaml(input.clone(), false), Ok(input.clone()));
    assert_eq!(process_yaml(input.clone(), true), Ok(input));
    let input = mapping(vec![entry("data", Value::Null), entry("dataString", Value::Integer(3))]);
    assert_eq!(process_yaml(input.clone(), false), Ok(input));
}

#[test]
fn null_values_pass_through_in_both_directions() {
    let input = mapping(vec![
        entry("data", mapping(vec![entry("EMPTY", Value::Null), entry("A", string("text"))])),
        entry("dataString", mapping(vec![entry("EMPTY", Value::Null), entry("B", Value::Integer(1))])),
    ]);
    let encoded = mapping(vec![
        entry("data", mapping(vec![entry("EMPTY", Value::Null), entry("A", string("dGV4dA=="))])),
        entry("dataString", mapping(vec![entry("EMPTY", Value::Null), entry("B", string("1"))])),
    ]);
    assert_eq!(process_yaml(input.clone(), false), Ok(encoded.clone()));
    assert_eq!(process_yaml(encoded, true), Ok(input));
}

#[test]
fn other_keys_are_never_touched() {
    let others = vec![
        entry("apiVersion", string("  v1  ")),
        entry("count", string("123")),
        entry("flag", string("true")),
        entry("nothing", string("null")),
        entry("nested", mapping(vec![entry("data", mapping(plain_fields()))])),
        entry("list", Value::Sequence(vec![string("dGV4dA==")])),
    ];
    let mut input = others.clone();
    input.insert(2, entry("data", mapping(plain_fields())));
    input.push(entry("dataString", mapping(plain_fields())));
    for decode in [false, true] {
        let source = if decode {
            let mut encoded = others.clone();
            encoded.insert(2, entry("data", mapping(base64_fields())));
            encoded.push(entry("dataString", mapping(string_fields())));
            encoded
        } else {
            input.clone()
        };
        let result = match process_yaml(mapping(source.clone()), decode) {
            Ok(Value::Mapping(entries)) => entries,
            other => panic!("unexpected {:?}", other),
        };
        assert_eq!(result.len(), source.len());
        for (before, after) in source.iter().zip(result.iter()) {
            assert_eq!(before.key, after.key);
            if before.key != "data" && before.key != "dataString" {
                assert_eq!(before, after);
            }
        }
    }
}

#[test]
fn keys_under_a_tracked_key_keep_their_order_and_names() {
    let input = mapping(vec![entry(
        "data",
        mapping(vec![
            entry("z", string("1")),
            entry("a", string("2")),
            entry(" spaced key ", string("3")),
            entry("data", string("4")),
        ]),
    )]);
    let expected = mapping(vec![entry(
        "data",
        mapping(vec![
            entry("z", string("MQ==")),
            entry("a", string("Mg==")),
            entry(" spaced key ", string("Mw==")),
            entry("data", string("NA==")),
        ]),
    )]);
    assert_eq!(process_yaml(input, false), Ok(expected));
}

#[test]
fn only_the_first_entry_of_a_key_is_processed() {
    let input = mapping(vec![
        entry("data", mapping(vec![entry("A", string("text"))])),
        entry("data", mapping(vec![entry("B", string("text"))])),
    ]);
    let expected = mapping(vec![
        entry("data", mapping(vec![entry("A", string("dGV4dA=="))])),
        entry("data", mapping(vec![entry("B", string("text"))])),
    ]);
    assert_eq!(process_yaml(input, false), Ok(expected));
}

#[test]
fn round_trip_of_scalars_that_read_back() {
    let fields = vec![
        entry("S", string("plain text")),
        entry("E", string("")),
        entry("U", string("héllo wörld")),
        entry("N", Value::Integer(-42)),
        entry("MAX", Value::Integer(i64::MAX)),
        entry("MIN", Value::Integer(i64::MIN)),
        entry("T", Value::Bool(true)),
        entry("F", Value::Bool(false)),
        entry("NULL", Value::Null),
    ];
    let document = mapping(vec![
        entry("kind", string("Secret")),
        entry("data", mapping(fields.clone())),
        entry("dataString", mapping(fields)),
    ]);
    let encoded = process_yaml(document.clone(), false).unwrap();
    assert_ne!(encoded, document);
    assert_eq!(process_yaml(encoded, true), Ok(document));
}

#[test]
fn round_trip_loses_the_type_of_ambiguous_strings() {
    for key in ["data", "dataString"] {
        let document = mapping(vec![entry(
            key,
            mapping(vec![
                entry("T", string("true")),
                entry("N", string("123")),
                entry("Z", string("null")),
                entry("P", string("  padded  ")),
            ]),
        )]);
        let expected = mapping(vec![entry(
            key,
            mapping(vec![
                entry("T", Value::Bool(true)),
                entry("N", Value::Integer(123)),
                entry("Z", Value::Null),
                entry("P", string("padded")),
            ]),
        )]);
        let encoded = process_yaml(document, false).unwrap();
        assert_eq!(process_yaml(encoded, true), Ok(expected));
    }
}

#[test]
fn encoding_twice_encodes_twice() {
    let input = mapping(vec![entry("data", mapping(vec![entry("A", string("text"))]))]);
    let once = process_yaml(input, false).unwrap();
    let twice = process_yaml(once, false).unwrap();
    let expected = mapping(vec![entry("data", mapping(vec![entry("A", string("ZEdWNGRBPT0="))]))]);
    assert_eq!(twice, expected);
}

#[test]
fn process_entries_converts_each_value_in_place() {
    assert_eq!(process_entries(plain_fields(), Form::Base64, false), Ok(base64_fields()));
    assert_eq!(process_entries(base64_fields(), Form::Base64, true), Ok(plain_fields()));
    assert_eq!(process_entries(plain_fields(), Form::Plain, false), Ok(string_fields()));
    assert_eq!(process_entries(string_fields(), Form::Plain, true), Ok(plain_fields()));
    assert_eq!(process_entries(Vec::new(), Form::Base64, true), Ok(Vec::new()));
    assert_eq!(
        process_entries(vec![entry("A", mapping(Vec::new()))], Form::Plain, false),
        Err(TransformError::UnsupportedValue)
    );
}

#[test]
fn process_key_map_looks_at_one_key_only() {
    let entries = vec![
        entry("data", mapping(plain_fields())),
        entry("dataString", mapping(plain_fields())),
        entry("other", mapping(plain_fields())),
    ];
    let expected = vec![
        entry("data", mapping(plain_fields())),
        entry("dataString", mapping(plain_fields())),
        entry("other", mapping(base64_fields())),
    ];
    assert_eq!(process_key_map(entries.clone(), "other", Form::Base64, false), Ok(expected));
    assert_eq!(process_key_map(entries.clone(), "absent", Form::Base64, false), Ok(entries.clone()));
    let expected = vec![
        entry("data", mapping(plain_fields())),
        entry("dataString", mapping(string_fields())),
        entry("other", mapping(plain_fields())),
    ];
    assert_eq!(process_key_map(entries, "dataString", Form::Plain, false), Ok(expected));
}

#[test]
fn process_mapping_handles_both_keys() {
    let entries =
        vec![entry("dataString", mapping(plain_fields())), entry("data", mapping(plain_fields()))];
    let expected =
        vec![entry("dataString", mapping(string_fields())), entry("data", mapping(base64_fields()))];
    assert_eq!(process_mapping(entries, false), Ok(expected));
}
