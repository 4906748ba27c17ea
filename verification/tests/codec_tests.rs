use guild_config_cache::codec;

fn pairs(list: &[(&str, u64)]) -> Vec<(String, u64)> {
    list.iter().map(|(k, v)| (k.to_string(), *v)).collect()
}

#[test]
fn encode_empty_record() {
    assert_eq!(codec::encode(&Vec::new()), "{\"c\":{}}");
}

#[test]
fn encode_one_entry() {
    assert_eq!(codec::encode(&pairs(&[("MD", 100)])), "{\"c\":{\"MD\":100}}");
}

#[test]
fn encode_many_entries_in_order() {
    let text = codec::encode(&pairs(&[("MD", 1), ("MU", 2), ("UJ", 0)]));
    assert_eq!(text, "{\"c\":{\"MD\":1,\"MU\":2,\"UJ\":0}}");
}

#[test]
fn decode_accepts_canonical_form() {
    let input = pairs(&[("MD", 100), ("UL", 18446744073709551615)]);
    let text = codec::encode(&input);
    assert_eq!(codec::decode(&text), Some(input));
}

#[test]
fn decode_accepts_whitespace() {
    let got = codec::decode(" {\n\t\"c\" : { \"MD\" : 5 ,\r\n \"MU\" : 6 } } ");
    assert_eq!(got, Some(pairs(&[("MD", 5), ("MU", 6)])));
}

#[test]
fn decode_accepts_empty_inner_object() {
    assert_eq!(codec::decode("{\"c\":{}}"), Some(Vec::new()));
    assert_eq!(codec::decode("{ \"c\" : {  } }"), Some(Vec::new()));
}

#[test]
fn decode_rejects_malformed_text() {
    assert_eq!(codec::decode(""), None);
    assert_eq!(codec::decode("not json"), None);
    assert_eq!(codec::decode("{"), None);
    assert_eq!(codec::decode("{\"c\":{}"), None);
    assert_eq!(codec::decode("{\"c\":{}}extra"), None);
    assert_eq!(codec::decode("{\"d\":{}}"), None);
    assert_eq!(codec::decode("{\"c\":[]}"), None);
    assert_eq!(codec::decode("{\"c\":{\"MD\":}}"), None);
    assert_eq!(codec::decode("{\"c\":{\"MD\":-1}}"), None);
    assert_eq!(codec::decode("{\"c\":{\"MD\":1,}}"), None);
}

#[test]
fn decode_rejects_duplicate_keys() {
    assert_eq!(codec::decode("{\"c\":{\"MD\":1,\"MD\":2}}"), None);
}

#[test]
fn decode_rejects_leading_zero() {
    assert_eq!(codec::decode("{\"c\":{\"MD\":01}}"), None);
    assert_eq!(codec::decode("{\"c\":{\"MD\":0}}"), Some(pairs(&[("MD", 0)])));
}

#[test]
fn decode_rejects_number_out_of_range() {
    assert_eq!(codec::decode("{\"c\":{\"MD\":18446744073709551616}}"), None);
    assert_eq!(
        codec::decode("{\"c\":{\"MD\":18446744073709551615}}"),
        Some(pairs(&[("MD", 18446744073709551615)]))
    );
}

#[test]
fn decode_rejects_escapes_in_keys() {
    assert_eq!(codec::decode("{\"c\":{\"M\\\"D\":1}}"), None);
}

#[test]
fn encoded_record_is_valid_json_for_serde() {
    let text = codec::encode(&pairs(&[("MD", 1), ("MU", 2)]));
    let value: serde_json::Value = serde_json::from_str(&text).expect("canonical form is JSON");
    assert_eq!(value["c"]["MD"].as_u64(), Some(1));
    assert_eq!(value["c"]["MU"].as_u64(), Some(2));
}

#[test]
fn serde_minified_json_decodes() {
    let mut map = serde_json::Map::new();
    map.insert("UJ".to_string(), serde_json::Value::from(42u64));
    let mut outer = serde_json::Map::new();
    outer.insert("c".to_string(), serde_json::Value::Object(map));
    let text = serde_json::to_string(&serde_json::Value::Object(outer)).unwrap();
    assert_eq!(codec::decode(&text), Some(pairs(&[("UJ", 42)])));
}

#[test]
fn u64_to_string_writes_decimal() {
    assert_eq!(codec::u64_to_string(0), "0");
    assert_eq!(codec::u64_to_string(9), "9");
    assert_eq!(codec::u64_to_string(10), "10");
    assert_eq!(codec::u64_to_string(18446744073709551615), "18446744073709551615");
}
