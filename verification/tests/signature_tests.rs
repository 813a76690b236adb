use xsolla_callback::json::{JsonObject, JsonValue};
use xsolla_callback::signature::{calculate_body_signature, calculate_signature, FondyError};

fn text(s: &str) -> String {
    s.to_string()
}

fn sample_object() -> JsonObject {
    let mut obj = JsonObject::new();
    obj.insert(text("order_id"), JsonValue::String(text("123")));
    obj.insert(text("amount"), JsonValue::Number(text("100")));
    obj.insert(text("signature"), JsonValue::String(text("ignored")));
    obj.insert(text("empty"), JsonValue::String(text("")));
    obj.insert(text("flag"), JsonValue::Bool(true));
    obj.insert(text("nothing"), JsonValue::Null);
    obj.insert(text("list"), JsonValue::Array(vec![JsonValue::Bool(false)]));
    obj
}

#[test]
fn body_signature_is_sha1_of_body_and_secret() {
    assert_eq!(
        calculate_body_signature(b"ab", b"c"),
        "a9993e364706816aba3e25717850c26c9cd0d89d"
    );
    assert_eq!(
        calculate_body_signature(b"", b"secret"),
        "e5e9fa1ba31ecd1ae84f75caaa474f3a663f05f4"
    );
    assert_eq!(
        calculate_body_signature(b"{\"notification_type\":\"other\"}", b"mysecret"),
        "3e572ca7376bbdc5817327117b5ccdb6c281127e"
    );
}

#[test]
fn request_signature_joins_sorted_fields() {
    let obj = sample_object();
    let sig = calculate_signature("test", &JsonValue::Object(obj), &["signature"]).ok().unwrap();
    // "test|100|true|123"
    assert_eq!(sig, "4faa3dd466ab14e714db88993f1d236d1c926535");
}

#[test]
fn request_signature_orders_keys_by_bytes() {
    let mut obj = JsonObject::new();
    obj.insert(text("b"), JsonValue::Number(text("2")));
    obj.insert(text("\u{e9}"), JsonValue::Number(text("4")));
    obj.insert(text("a"), JsonValue::Number(text("1")));
    obj.insert(text("Z"), JsonValue::Number(text("3")));
    let sig = calculate_signature("pw", &JsonValue::Object(obj), &[]).ok().unwrap();
    // "pw|3|1|2|4"
    assert_eq!(sig, "8026a08ace0ead24a46671c3dc689248ad47e283");
}

#[test]
fn request_signature_of_empty_object_hashes_password() {
    let sig = calculate_signature("pw", &JsonValue::Object(JsonObject::new()), &[]).ok().unwrap();
    assert_eq!(sig, calculate_body_signature(b"pw", b""));
    assert_eq!(sig, "1a91d62f7ca67399625a4368a6ab5d4a3baa6073");
}

#[test]
fn request_signature_escapes_strings_and_trims_quotes() {
    let mut obj = JsonObject::new();
    obj.insert(text("a"), JsonValue::Number(text("1")));
    obj.insert(text("b"), JsonValue::String(text("a\"b")));
    let sig = calculate_signature("pw", &JsonValue::Object(obj), &[]).ok().unwrap();
    // the string is written as JSON, "a\"b", and its quotes trimmed: a\"b
    assert_eq!(sig, "dc587a574641ef26fc2e8fea48b887bfab5a262f");
}

#[test]
fn request_signature_trims_escaped_trailing_quote() {
    let mut obj = sample_object();
    obj.insert(text("x"), JsonValue::String(text("x\"")));
    let sig = calculate_signature("test", &JsonValue::Object(obj), &["signature"]).ok().unwrap();
    // "test|100|true|123|x\"
    assert_eq!(sig, "49e0fe16dd9e16e42f2abffd3cae4591f59514f1");
}

#[test]
fn request_signature_ignores_skipped_keys() {
    let obj = sample_object();
    let mut with_other = sample_object();
    with_other.insert(text("signature"), JsonValue::Number(text("99")));
    let a = calculate_signature("test", &JsonValue::Object(obj), &["signature"]).ok().unwrap();
    let b = calculate_signature("test", &JsonValue::Object(with_other), &["signature"]).ok().unwrap();
    assert_eq!(a, b);
}

#[test]
fn request_signature_ignores_insertion_order() {
    let mut one = JsonObject::new();
    one.insert(text("x"), JsonValue::Number(text("1")));
    one.insert(text("y"), JsonValue::String(text("two")));
    let mut two = JsonObject::new();
    two.insert(text("y"), JsonValue::String(text("two")));
    two.insert(text("x"), JsonValue::Number(text("1")));
    let a = calculate_signature("k", &JsonValue::Object(one), &[]).ok().unwrap();
    let b = calculate_signature("k", &JsonValue::Object(two), &[]).ok().unwrap();
    assert_eq!(a, b);
}

#[test]
fn request_signature_needs_an_object() {
    for value in [
        JsonValue::Null,
        JsonValue::Bool(true),
        JsonValue::Number(text("1")),
        JsonValue::String(text("x")),
        JsonValue::Array(Vec::new()),
    ] {
        match calculate_signature("pw", &value, &[]) {
            Err(FondyError::SignatureCalculateError(msg)) => {
                assert_eq!(msg, "Json data must be dictionary")
            }
            Ok(_) => panic!("a non-object was signed"),
        }
    }
}

#[test]
fn object_insert_replaces_in_place() {
    let mut obj = JsonObject::new();
    assert!(obj.insert(text("a"), JsonValue::Bool(true)).is_none());
    assert!(obj.insert(text("b"), JsonValue::Bool(false)).is_none());
    let old = obj.insert(text("a"), JsonValue::Null);
    assert!(matches!(old, Some(JsonValue::Bool(true))));
    assert_eq!(obj.len(), 2);
    let (k0, v0) = obj.entry(0);
    assert_eq!(k0, "a");
    assert!(matches!(v0, JsonValue::Null));
    let (k1, _) = obj.entry(1);
    assert_eq!(k1, "b");
}
