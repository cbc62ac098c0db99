use concord_protocol::canonical::canonicalize;
use concord_protocol::number::{is_well_formed, json_number};
use concord_protocol::digest::{hash_data, hash_text, to_hex};
use concord_protocol::text::canonical_stringify;
use concord_protocol::value::{copy_value, Value};

fn s(t: &str) -> String {
    t.to_string()
}

fn num(t: &str) -> Value {
    Value::Number(s(t))
}

fn nested() -> Value {
    Value::Object(vec![
        (s("b"), num("1")),
        (
            s("a"),
            Value::Array(vec![Value::Object(vec![
                (s("d"), Value::Null),
                (s("c"), Value::Bool(true)),
            ])]),
        ),
    ])
}

#[test]
fn stringify_sorts_keys_recursively() {
    assert_eq!(canonical_stringify(&nested()), r#"{"a":[{"c":true,"d":null}],"b":1}"#);
}

#[test]
fn stringify_scalars() {
    assert_eq!(canonical_stringify(&Value::Null), "null");
    assert_eq!(canonical_stringify(&Value::Bool(false)), "false");
    assert_eq!(canonical_stringify(&num("-1.5e3")), "-1.5e3");
    assert_eq!(canonical_stringify(&Value::Array(vec![])), "[]");
    assert_eq!(canonical_stringify(&Value::Object(vec![])), "{}");
}

#[test]
fn stringify_escapes_strings() {
    let v = Value::String(s("a\"b\\c\n\u{1}é"));
    assert_eq!(canonical_stringify(&v), "\"a\\\"b\\\\c\\n\\u0001é\"");
}

#[test]
fn stringify_keeps_array_order() {
    let v = Value::Array(vec![num("3"), num("1"), num("2")]);
    assert_eq!(canonical_stringify(&v), "[3,1,2]");
}

#[test]
fn keys_sort_bytewise() {
    let v = Value::Object(vec![
        (s("é"), num("1")),
        (s("z"), num("2")),
        (s("Z"), num("3")),
        (s("aa"), num("4")),
        (s("a"), num("5")),
    ]);
    assert_eq!(canonical_stringify(&v), r#"{"Z":3,"a":5,"aa":4,"z":2,"é":1}"#);
}

#[test]
fn later_duplicate_key_wins() {
    let v = Value::Object(vec![(s("k"), num("1")), (s("k"), num("2"))]);
    assert_eq!(canonical_stringify(&v), r#"{"k":2}"#);
}

#[test]
fn canonicalize_is_idempotent_on_example() {
    let once = canonicalize(&nested());
    let twice = canonicalize(&once);
    assert_eq!(once, twice);
    assert_eq!(
        once,
        Value::Object(vec![
            (
                s("a"),
                Value::Array(vec![Value::Object(vec![
                    (s("c"), Value::Bool(true)),
                    (s("d"), Value::Null),
                ])])
            ),
            (s("b"), num("1")),
        ])
    );
}

#[test]
fn key_order_does_not_change_text() {
    let a = Value::Object(vec![(s("x"), num("1")), (s("y"), Value::String(s("two")))]);
    let b = Value::Object(vec![(s("y"), Value::String(s("two"))), (s("x"), num("1"))]);
    assert_eq!(canonical_stringify(&a), canonical_stringify(&b));
    assert_eq!(hash_data(&a), hash_data(&b));
}

#[test]
fn sha256_of_known_texts() {
    assert_eq!(hash_text(""), "e3b0c44298fc1c149afbf4c8996fb92427ae41e4649b934ca495991b7852b855");
    assert_eq!(hash_text("abc"), "ba7816bf8f01cfea414140de5dae2223b00361a396177a9cb410ff61f20015ad");
}

#[test]
fn hash_is_deterministic_and_hex() {
    let h1 = hash_data(&nested());
    let h2 = hash_data(&copy_value(&nested()));
    assert_eq!(h1, h2);
    assert_eq!(h1.len(), 64);
    assert!(h1.chars().all(|c| c.is_ascii_digit() || ('a'..='f').contains(&c)));
    assert_eq!(hash_data(&Value::Null), "74234e98afe7498fb5daf1f36ac2d78acc339464f950703b8c019892f982b90b");
}

#[test]
fn hex_of_bytes() {
    assert_eq!(to_hex(&[0x00, 0x0f, 0xa0, 0xff]), "000fa0ff");
    assert_eq!(to_hex(&[]), "");
}

#[test]
fn clone_keeps_value() {
    let v = nested();
    assert_eq!(v.clone(), v);
}

#[test]
fn json_number_syntax() {
    for good in ["0", "-0", "42", "-1.5e3", "1E+2", "3.25", "10e-7"] {
        assert!(json_number(good), "{}", good);
    }
    for bad in ["", "-", "01", "1.", ".5", "1e", "1e+", "1 ", "+1", "0x10", "NaN"] {
        assert!(!json_number(bad), "{}", bad);
    }
}

#[test]
fn well_formed_values() {
    assert!(is_well_formed(&nested()));
    let bad = Value::Object(vec![(s("k"), Value::Array(vec![num("1"), num("1 ")]))]);
    assert!(!is_well_formed(&bad));
}

#[test]
fn nested_key_order_does_not_change_text() {
    let a = Value::Array(vec![Value::Object(vec![
        (s("p"), Value::Object(vec![(s("x"), num("1")), (s("y"), num("2"))])),
        (s("q"), Value::Null),
    ])]);
    let b = Value::Array(vec![Value::Object(vec![
        (s("q"), Value::Null),
        (s("p"), Value::Object(vec![(s("y"), num("2")), (s("x"), num("1"))])),
    ])]);
    assert_eq!(canonical_stringify(&a), canonical_stringify(&b));
    assert_eq!(canonical_stringify(&a), r#"[{"p":{"x":1,"y":2},"q":null}]"#);
}
