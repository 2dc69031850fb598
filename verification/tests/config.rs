use base64::engine::general_purpose::STANDARD;
use base64::Engine;
use sentry_mirror::config::{config_text, decode_b64_config, ConfigData, KeyRing};

#[test]
fn base64_configuration_is_decoded_to_text() {
    let text = "port: 3000\nkeys:\n  - inbound: https://abc@in.example/1\n    outbound: []\n";
    let encoded = STANDARD.encode(text);
    assert_ne!(encoded, text);
    assert_eq!(decode_b64_config(&encoded).unwrap(), text);
    assert_eq!(decode_b64_config("").unwrap(), "");
    assert_eq!(decode_b64_config("aMOp").unwrap(), "h\u{e9}");
}

#[test]
fn bad_base64_configuration_is_refused() {
    assert!(decode_b64_config("not base64!").is_err());
    assert!(decode_b64_config("abc").is_err());
    assert!(decode_b64_config(&STANDARD.encode([0xffu8, 0xfe])).is_err());
}

#[test]
fn config_text_reads_utf8_only() {
    assert_eq!(config_text(Some(b"ip: 0.0.0.0".to_vec())).unwrap(), "ip: 0.0.0.0");
    assert!(config_text(Some(vec![0xc3])).is_err());
    assert!(config_text(None).is_err());
}

#[test]
fn configuration_values_compare_by_content() {
    let make = || ConfigData {
        ip: None,
        port: Some(3000),
        keys: vec![KeyRing { inbound: Some("a".to_string()), outbound: vec![None] }],
    };
    assert_eq!(make(), make());
    assert_eq!(make().keys[0].outbound.len(), 1);
}
