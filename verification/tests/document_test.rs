use bson::{Bson, Document};
use tnuctipun::document::{doc_array, raw_array, Doc, Value};

fn entry(key: &str, value: Value) -> (String, Value) {
    (key.to_string(), value)
}

#[test]
fn entries_keep_their_order_and_count() {
    let d = Doc {
        entries: vec![entry("b", Value::Int32(2)), entry("a", Value::Int32(1))],
    };

    assert_eq!(d.len(), 2);

    let built = d.to_bson();
    let keys: Vec<&String> = built.keys().collect();

    assert_eq!(keys, vec!["b", "a"]);
}

#[test]
fn new_document_is_empty() {
    let d = Doc::new();

    assert!(d.is_empty());
    assert_eq!(d.len(), 0);
    assert_eq!(d.to_bson(), Document::new());
}

#[test]
fn single_document_has_one_entry() {
    let d = Doc::single("k".to_string(), Value::Bool(false));

    assert!(!d.is_empty());
    assert_eq!(d.len(), 1);

    let mut expected = Document::new();

    expected.insert("k", false);

    assert_eq!(d.to_bson(), expected);
}

#[test]
fn every_value_kind_encodes_as_bson() {
    let inner = Doc::single("x".to_string(), Value::Str("y".to_string()));
    let d = Doc {
        entries: vec![
            entry("null", Value::Null),
            entry("bool", Value::Bool(true)),
            entry("int", Value::Int32(-7)),
            entry("text", Value::Str("hello".to_string())),
            entry("array", Value::Array(vec![Value::Int32(1), Value::Str("two".to_string())])),
            entry("doc", Value::Doc(inner)),
            entry("raw", Value::Raw(Bson::Double(2.5))),
        ],
    };

    let mut nested = Document::new();

    nested.insert("x", "y");

    let mut expected = Document::new();

    expected.insert("null", Bson::Null);
    expected.insert("bool", Bson::Boolean(true));
    expected.insert("int", Bson::Int32(-7));
    expected.insert("text", Bson::String("hello".to_string()));
    expected.insert("array", Bson::Array(vec![Bson::Int32(1), Bson::String("two".to_string())]));
    expected.insert("doc", Bson::Document(nested));
    expected.insert("raw", Bson::Double(2.5));

    let built = d.to_bson();
    let keys: Vec<&String> = built.keys().collect();

    assert_eq!(keys, vec!["null", "bool", "int", "text", "array", "doc", "raw"]);
    assert_eq!(built, expected);
}

#[test]
fn encoding_a_document_with_repeated_key_keeps_first_place_and_last_value() {
    let d = Doc {
        entries: vec![
            entry("a", Value::Int32(1)),
            entry("b", Value::Int32(2)),
            entry("a", Value::Int32(3)),
        ],
    };
    let built = d.to_bson();
    let keys: Vec<&String> = built.keys().collect();

    assert_eq!(keys, vec!["a", "b"]);
    assert_eq!(built.get("a"), Some(&Bson::Int32(3)));
}

#[test]
fn value_to_bson_of_scalars() {
    assert_eq!(Value::Null.to_bson(), Bson::Null);
    assert_eq!(Value::Bool(false).to_bson(), Bson::Boolean(false));
    assert_eq!(Value::Int32(42).to_bson(), Bson::Int32(42));
    assert_eq!(Value::Str("s".to_string()).to_bson(), Bson::String("s".to_string()));
    assert_eq!(Value::Raw(Bson::Int64(9)).to_bson(), Bson::Int64(9));
}

#[test]
fn deep_clone_has_same_encoding() {
    let d = Doc {
        entries: vec![
            entry("list", Value::Array(vec![Value::Doc(Doc::single("k".to_string(), Value::Int32(1)))])),
            entry("raw", Value::Raw(Bson::String("r".to_string()))),
        ],
    };
    let copy = d.deep_clone();
    let cloned = d.clone();

    assert_eq!(copy.to_bson(), d.to_bson());
    assert_eq!(cloned.to_bson(), d.to_bson());
    assert_eq!(Value::Doc(d.clone()).deep_clone().to_bson(), Value::Doc(d).to_bson());
}

#[test]
fn raw_array_converts_each_value_in_order() {
    let v = raw_array(vec![3_i32, 1, 2]);

    assert_eq!(v.to_bson(), Bson::Array(vec![Bson::Int32(3), Bson::Int32(1), Bson::Int32(2)]));
    assert_eq!(raw_array(Vec::<String>::new()).to_bson(), Bson::Array(vec![]));
}

#[test]
fn doc_array_keeps_documents_in_order() {
    let v = doc_array(vec![
        Doc::single("a".to_string(), Value::Int32(1)),
        Doc::single("b".to_string(), Value::Int32(2)),
    ]);

    let mut first = Document::new();

    first.insert("a", 1);

    let mut second = Document::new();

    second.insert("b", 2);

    assert_eq!(v.to_bson(), Bson::Array(vec![Bson::Document(first), Bson::Document(second)]));
}
