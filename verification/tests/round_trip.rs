use apollo_client::{decode_configurations, encode_configurations};

#[test]
fn encoding_then_decoding_gives_the_mapping_back() {
    let pairs = vec![
        ("test_key".to_string(), "test_value".to_string()),
        ("tmp".to_string(), "tmp_value".to_string()),
    ];
    let text = encode_configurations(&pairs);
    assert_eq!(text, r#"{"test_key":"test_value","tmp":"tmp_value"}"#);
    assert_eq!(decode_configurations(&text).unwrap(), pairs);
}

#[test]
fn empty_mapping_round_trips() {
    let pairs: Vec<(String, String)> = vec![];
    let text = encode_configurations(&pairs);
    assert_eq!(text, "{}");
    assert_eq!(decode_configurations(&text).unwrap(), pairs);
}

#[test]
fn awkward_characters_round_trip() {
    let pairs = vec![
        ("quotes \"and\" back\\slashes".to_string(), "line\nbreak".to_string()),
        ("tabs\tand\rreturns".to_string(), "controls \u{1}\u{8}\u{c}\u{1f}".to_string()),
        ("unicode 配置".to_string(), "naïve café".to_string()),
        ("".to_string(), "".to_string()),
    ];
    let text = encode_configurations(&pairs);
    assert_eq!(decode_configurations(&text).unwrap(), pairs);
}

#[test]
fn repeated_keys_round_trip_in_order() {
    let pairs = vec![
        ("k".to_string(), "first".to_string()),
        ("k".to_string(), "second".to_string()),
    ];
    let text = encode_configurations(&pairs);
    assert_eq!(text, r#"{"k":"first","k":"second"}"#);
    assert_eq!(decode_configurations(&text).unwrap(), pairs);
}

#[test]
fn control_characters_are_escaped_on_the_wire() {
    let pairs = vec![("k".to_string(), "\u{1}".to_string())];
    let text = encode_configurations(&pairs);
    assert_eq!(text, r#"{"k":"\u0001"}"#);
}
