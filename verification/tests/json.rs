use glm_evoke::digest::sha256_hex;
use glm_evoke::json::Json;
use serde_json::Value;

fn convert(value: &Value) -> Json {
    match value {
        Value::Null => Json::Null,
        Value::Bool(b) => Json::Bool(*b),
        Value::Number(n) => Json::Number(n.to_string()),
        Value::String(s) => Json::Text(s.clone()),
        Value::Array(items) => Json::Array(items.iter().map(convert).collect()),
        Value::Object(entries) => {
            Json::Object(entries.iter().map(|(k, v)| (k.clone(), convert(v))).collect())
        }
    }
}

#[test]
fn compact_text_is_that_of_serde_json() {
    let texts = [
        "null",
        "true",
        "[]",
        "{}",
        "[1,-2.5,1e300,0.1]",
        "{\"a\":[{\"b\":null},[],{}],\"z\":\"\"}",
        "\"quote \\\" backslash \\\\ slash / tab \\t nul \\u0000 unit \\u001f del \\u007f é 漢 😀\"",
        "{\"k\\n\":\"\\b\\f\\r\"}",
    ];
    for text in texts {
        let value: Value = serde_json::from_str(text).unwrap();
        assert_eq!(convert(&value).encode(), serde_json::to_string(&value).unwrap());
    }
}

#[test]
fn every_control_character_is_escaped() {
    for c in 0..0x100u32 {
        let text = char::from_u32(c).unwrap().to_string();
        assert_eq!(Json::Text(text.clone()).encode(), serde_json::to_string(&text).unwrap());
    }
}

#[test]
fn different_texts_have_different_strings() {
    let a = Json::Text("a\",\"b".to_string()).encode();
    let b = Json::Array(vec![Json::Text("a".to_string()), Json::Text("b".to_string())]).encode();
    assert_eq!(a, "\"a\\\",\\\"b\"");
    assert_eq!(b, "[\"a\",\"b\"]");
    assert_ne!(Json::Text("\n".to_string()).encode(), Json::Text("\\n".to_string()).encode());
}

#[test]
fn entries_are_found_by_key() {
    let value: Value = serde_json::from_str("{\"a\":1,\"b\":{\"c\":true}}").unwrap();
    let json = convert(&value);
    assert!(matches!(json.get("a"), Some(Json::Number(n)) if n == "1"));
    assert!(matches!(json.get("b").unwrap().get("c"), Some(Json::Bool(true))));
    assert!(json.get("c").is_none());
    assert!(Json::Null.get("a").is_none());
    assert!(Json::Array(vec![]).get("a").is_none());
}

#[test]
fn copies_are_the_same() {
    let value: Value = serde_json::from_str("{\"a\":[1,\"x\",null,{\"b\":false}]}").unwrap();
    let json = convert(&value);
    assert_eq!(json.clone().encode(), json.encode());
}

#[test]
fn known_digests() {
    assert_eq!(
        sha256_hex(b"abc"),
        "ba7816bf8f01cfea414140de5dae2223b00361a396177a9cb410ff61f20015ad"
    );
    assert_eq!(
        sha256_hex(b""),
        "e3b0c44298fc1c149afbf4c8996fb92427ae41e4649b934ca495991b7852b855"
    );
}
