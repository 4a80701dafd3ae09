use rusty_hue_controller::credentials::load_bridge_info;
use rusty_hue_controller::credentials::parse_bridge_info;
use rusty_hue_controller::credentials::render_bridge_info;
use rusty_hue_controller::errors::PersistenceError;
use rusty_hue_controller::BridgeInfo;

fn cred(ip: &str, tok: &str) -> BridgeInfo {
    BridgeInfo { ip_addr: String::from(ip), client_token: String::from(tok) }
}

#[test]
fn render_has_expected_shape() {
    let text = render_bridge_info(&cred("192.168.1.7", "secret-token"));
    assert_eq!(text, "{\"ip_addr\":\"192.168.1.7\",\"client_token\":\"secret-token\"}");
}

#[test]
fn round_trip_plain() {
    let original = cred("192.168.1.7", "abcdef0123456789");
    let text = render_bridge_info(&original);
    let back = parse_bridge_info(&text).unwrap();
    assert_eq!(back.ip_addr, original.ip_addr);
    assert_eq!(back.client_token, original.client_token);
}

#[test]
fn round_trip_with_escaped_characters() {
    let original = cred("10.0.0.1", "to\"ken\\with\"specials");
    let text = render_bridge_info(&original);
    let back = parse_bridge_info(&text).unwrap();
    assert_eq!(back.ip_addr, original.ip_addr);
    assert_eq!(back.client_token, original.client_token);
}

#[test]
fn load_of_absent_file_is_not_found() {
    let r = load_bridge_info(None);
    assert!(matches!(r, Err(PersistenceError::NotFound)));
}

#[test]
fn load_of_invalid_json_is_malformed() {
    assert!(matches!(load_bridge_info(Some("not json at all")), Err(PersistenceError::MalformedData)));
    assert!(matches!(load_bridge_info(Some("")), Err(PersistenceError::MalformedData)));
    assert!(matches!(
        load_bridge_info(Some("{\"ip_addr\":\"x\"")),
        Err(PersistenceError::MalformedData)
    ));
    assert!(matches!(
        load_bridge_info(Some("[\"ip_addr\"]")),
        Err(PersistenceError::MalformedData)
    ));
}

#[test]
fn load_with_missing_field_is_malformed() {
    assert!(matches!(
        load_bridge_info(Some("{\"ip_addr\":\"10.0.0.2\"}")),
        Err(PersistenceError::MalformedData)
    ));
    assert!(matches!(
        load_bridge_info(Some("{\"client_token\":\"t\"}")),
        Err(PersistenceError::MalformedData)
    ));
    assert!(matches!(load_bridge_info(Some("{}")), Err(PersistenceError::MalformedData)));
}

#[test]
fn unknown_fields_are_ignored() {
    let text = "{\"ip_addr\":\"10.1.1.1\",\"vendor\":\"philips\",\"client_token\":\"tk\"}";
    let info = load_bridge_info(Some(text)).unwrap();
    assert_eq!(info.ip_addr, "10.1.1.1");
    assert_eq!(info.client_token, "tk");
}

#[test]
fn field_order_does_not_matter() {
    let text = "{\"client_token\":\"tk2\",\"ip_addr\":\"10.1.1.2\"}";
    let info = parse_bridge_info(text).unwrap();
    assert_eq!(info.ip_addr, "10.1.1.2");
    assert_eq!(info.client_token, "tk2");
}

#[test]
fn whitespace_between_tokens_is_accepted() {
    let text = " \t{ \"ip_addr\" : \"10.2.2.2\" ,\n \"client_token\" : \"tk\" }\r\n";
    let info = parse_bridge_info(text).unwrap();
    assert_eq!(info.ip_addr, "10.2.2.2");
    assert_eq!(info.client_token, "tk");
}

#[test]
fn standard_escapes_are_decoded() {
    let text = "{\"ip_addr\":\"a\\/b\",\"client_token\":\"l\\nn\\tt\\bb\\ff\\rr\\u0041\\\"q\"}";
    let info = parse_bridge_info(text).unwrap();
    assert_eq!(info.ip_addr, "a/b");
    assert_eq!(info.client_token, "l\nn\tt\u{8}b\u{c}f\rrA\"q");
}

#[test]
fn surrogate_pair_escape_is_decoded() {
    let text = "{\"ip_addr\":\"x\",\"client_token\":\"\\uD83D\\uDE00\"}";
    let info = parse_bridge_info(text).unwrap();
    assert_eq!(info.client_token, "\u{1F600}");
}

#[test]
fn escaped_key_matches_field_name() {
    let text = "{\"ip\\u005Faddr\":\"10.3.3.3\",\"client_token\":\"tk\"}";
    let info = parse_bridge_info(text).unwrap();
    assert_eq!(info.ip_addr, "10.3.3.3");
}

#[test]
fn raw_control_character_is_malformed() {
    let text = "{\"ip_addr\":\"a\u{1}b\",\"client_token\":\"t\"}";
    assert!(matches!(parse_bridge_info(text), Err(PersistenceError::MalformedData)));
    let tab_inside = "{\"ip_addr\":\"a\tb\",\"client_token\":\"t\"}";
    assert!(matches!(parse_bridge_info(tab_inside), Err(PersistenceError::MalformedData)));
    assert!(serde_json::from_str::<serde_json::Value>(tab_inside).is_err());
}

#[test]
fn lone_surrogate_in_required_field_is_malformed() {
    let text = "{\"ip_addr\":\"\\uD800\",\"client_token\":\"t\"}";
    assert!(matches!(parse_bridge_info(text), Err(PersistenceError::MalformedData)));
    let trailing = "{\"ip_addr\":\"\\uDC00\",\"client_token\":\"t\"}";
    assert!(matches!(parse_bridge_info(trailing), Err(PersistenceError::MalformedData)));
}

#[test]
fn lone_surrogate_in_skipped_field_is_ignored() {
    let text = "{\"z\":\"\\uD800\",\"ip_addr\":\"a\",\"client_token\":\"t\"}";
    let info = parse_bridge_info(text).unwrap();
    assert_eq!(info.ip_addr, "a");
}

#[test]
fn unknown_fields_of_any_json_type_are_skipped() {
    let text = "{\"n\":-1.5e3,\"a\":[true,null,{\"x\":\"y\"},[]],\"ip_addr\":\"i\",\"o\":{\"k\":2},\"b\":false,\"client_token\":\"t\"}";
    let info = parse_bridge_info(text).unwrap();
    assert_eq!(info.ip_addr, "i");
    assert_eq!(info.client_token, "t");
}

#[test]
fn duplicate_required_key_is_malformed() {
    let text = "{\"ip_addr\":\"a\",\"ip_addr\":\"b\",\"client_token\":\"t\"}";
    assert!(matches!(parse_bridge_info(text), Err(PersistenceError::MalformedData)));
    let dup_tok = "{\"ip_addr\":\"a\",\"client_token\":\"t\",\"client_token\":\"u\"}";
    assert!(matches!(parse_bridge_info(dup_tok), Err(PersistenceError::MalformedData)));
}

#[test]
fn duplicate_unknown_key_is_accepted() {
    let text = "{\"z\":1,\"z\":2,\"ip_addr\":\"a\",\"client_token\":\"t\"}";
    let info = parse_bridge_info(text).unwrap();
    assert_eq!(info.ip_addr, "a");
}

#[test]
fn required_key_with_non_string_value_is_malformed() {
    let text = "{\"ip_addr\":7,\"client_token\":\"t\"}";
    assert!(matches!(parse_bridge_info(text), Err(PersistenceError::MalformedData)));
}

#[test]
fn invalid_number_in_skipped_field_is_malformed() {
    for bad in ["01", "1.", "1e", "-", "+1", ".5", "1.2.3"] {
        let text = format!("{{\"z\":{},\"ip_addr\":\"a\",\"client_token\":\"t\"}}", bad);
        assert!(
            matches!(parse_bridge_info(&text), Err(PersistenceError::MalformedData)),
            "accepted bad number {}",
            bad
        );
        assert!(serde_json::from_str::<serde_json::Value>(&text).is_err());
    }
}

#[test]
fn trailing_content_after_object_is_malformed() {
    let ok = "{\"ip_addr\":\"a\",\"client_token\":\"t\"} \n\t ";
    assert!(parse_bridge_info(ok).is_ok());
    let bad = "{\"ip_addr\":\"a\",\"client_token\":\"t\"}x";
    assert!(matches!(parse_bridge_info(bad), Err(PersistenceError::MalformedData)));
}

#[test]
fn round_trip_with_control_characters() {
    let original = cred("10.0.0.3", "a\u{1}b\tc\nd\u{8}e\u{c}f\rg\u{1f}h");
    let text = render_bridge_info(&original);
    let back = parse_bridge_info(&text).unwrap();
    assert_eq!(back.ip_addr, original.ip_addr);
    assert_eq!(back.client_token, original.client_token);
}

#[test]
fn control_characters_render_as_serde_json_renders_them() {
    let text = render_bridge_info(&cred("x", "a\u{1}b\tc\u{1f}"));
    assert!(text.contains("\\u0001"));
    assert!(text.contains("\\t"));
    assert!(text.contains("\\u001f"));
    let value: serde_json::Value = serde_json::from_str(&text).unwrap();
    assert_eq!(value["client_token"].as_str().unwrap(), "a\u{1}b\tc\u{1f}");
    let expected = serde_json::to_string(&serde_json::Value::String(String::from("a\u{1}b\tc\u{1f}"))).unwrap();
    assert!(text.contains(expected.trim_matches('"')));
}

#[test]
fn nul_and_non_ascii_content_round_trips() {
    let original = cred("fe80::1", "\u{3c0}\u{1f600}\u{0}end");
    let text = render_bridge_info(&original);
    let value: serde_json::Value = serde_json::from_str(&text).unwrap();
    assert_eq!(value["client_token"].as_str().unwrap(), "\u{3c0}\u{1f600}\u{0}end");
    let back = parse_bridge_info(&text).unwrap();
    assert_eq!(back.client_token, original.client_token);
}

#[test]
fn rendered_text_parses_with_serde_json() {
    let text = render_bridge_info(&cred("192.168.0.9", "a\\b\"c"));
    let value: serde_json::Value = serde_json::from_str(&text).unwrap();
    assert_eq!(value["ip_addr"].as_str().unwrap(), "192.168.0.9");
    assert_eq!(value["client_token"].as_str().unwrap(), "a\\b\"c");
}

#[test]
fn serde_json_output_parses_here() {
    let mut map = serde_json::Map::new();
    map.insert(String::from("ip_addr"), serde_json::Value::String(String::from("172.16.0.4")));
    map.insert(String::from("client_token"), serde_json::Value::String(String::from("qu\"ote")));
    let text = serde_json::to_string(&serde_json::Value::Object(map)).unwrap();
    let info = parse_bridge_info(&text).unwrap();
    assert_eq!(info.ip_addr, "172.16.0.4");
    assert_eq!(info.client_token, "qu\"ote");
}
