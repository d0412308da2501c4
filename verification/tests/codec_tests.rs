use tlq_client::Message;
use tlq_client::MessageState;
use tlq_client::codec::decode_message;
use tlq_client::codec::decode_json_string;
use tlq_client::codec::encode_message;

#[test]
fn test_round_trip_plain_record() {
    let message = Message {
        id: 0x0198fbd8344e7b70841f3fbd4b371e4c,
        body: "a plain body".to_string(),
        state: MessageState::Processing,
        lock_until: None,
        retry_count: 7,
    };
    let decoded = decode_message(&encode_message(&message)).unwrap();
    assert_eq!(decoded.id, message.id);
    assert_eq!(decoded.body, message.body);
    assert_eq!(decoded.state, message.state);
    assert_eq!(decoded.lock_until, message.lock_until);
    assert_eq!(decoded.retry_count, message.retry_count);
}

#[test]
fn test_round_trip_with_lock_and_escapes() {
    let message = Message {
        id: u128::MAX,
        body: "quotes \" and \\ back\u{1}slashes\nand a \u{0} control".to_string(),
        state: MessageState::Failed,
        lock_until: Some("2025-01-01T00:00:00Z".to_string()),
        retry_count: u32::MAX,
    };
    let decoded = decode_message(&encode_message(&message)).unwrap();
    assert_eq!(decoded.id, message.id);
    assert_eq!(decoded.body, message.body);
    assert_eq!(decoded.state, message.state);
    assert_eq!(decoded.lock_until, message.lock_until);
    assert_eq!(decoded.retry_count, message.retry_count);
}

#[test]
fn test_encoder_output_is_json() {
    // The wire text must be plain JSON: the reference parser reads it and
    // sees the same fields.
    let message = Message {
        id: 0x0198fbd8344e7b70841f3fbd4b371e4c,
        body: "nested \"text\"\twith\nescapes".to_string(),
        state: MessageState::Ready,
        lock_until: Some("later".to_string()),
        retry_count: 3,
    };
    let json = encode_message(&message);
    let value: serde_json::Value = serde_json::from_str(&json).unwrap();
    assert_eq!(value["body"].as_str().unwrap(), message.body);
    assert_eq!(value["state"].as_str().unwrap(), "Ready");
    assert_eq!(value["lock_until"].as_str().unwrap(), "later");
    assert_eq!(value["retry_count"].as_u64().unwrap(), 3);

    // The identifier text matches the reference rendering of the same
    // 128-bit value.
    let expected_id = uuid::Uuid::from_u128(message.id).hyphenated().to_string();
    assert_eq!(value["id"].as_str().unwrap(), expected_id);
}

#[test]
fn test_uuid_text_matches_reference() {
    for id in [0u128, 1, 0xdead_beef, u128::MAX, 0x0198fbd8344e7b70841f3fbd4b371e4c] {
        let message = Message {
            id,
            body: String::new(),
            state: MessageState::Ready,
            lock_until: None,
            retry_count: 0,
        };
        let json = encode_message(&message);
        let value: serde_json::Value = serde_json::from_str(&json).unwrap();
        let expected = uuid::Uuid::from_u128(id).hyphenated().to_string();
        assert_eq!(value["id"].as_str().unwrap(), expected);
    }
}

#[test]
fn test_decode_rejects_trailing_text() {
    let message = Message::new("t".to_string());
    let mut json = encode_message(&message);
    assert!(decode_message(&json).is_some());
    json.push(' ');
    assert!(decode_message(&json).is_none());
}

#[test]
fn test_decode_accepts_reference_escapes() {
    // The reference encoder writes short escapes for common control
    // characters; the decoder reads them back.
    let json = r#"{"id":"0198fbd8-344e-7b70-841f-3fbd4b371e4c","body":"a\nb\tc\u0007d","state":"Ready","lock_until":null,"retry_count":0}"#;
    let message = decode_message(json).unwrap();
    assert_eq!(message.body, "a\nb\tc\u{7}d");
}

#[test]
fn test_decode_rejects_bare_control_character() {
    let json = "{\"id\":\"0198fbd8-344e-7b70-841f-3fbd4b371e4c\",\"body\":\"a\nb\",\"state\":\"Ready\",\"lock_until\":null,\"retry_count\":0}";
    assert!(decode_message(json).is_none());
}

#[test]
fn test_decode_json_string_rejects_malformed() {
    assert!(decode_json_string("Success").is_none());
    assert!(decode_json_string("\"unterminated").is_none());
    assert!(decode_json_string("\"done\" ").is_none());
    assert_eq!(decode_json_string("\"with \\\"inner\\\"\"").unwrap(), "with \"inner\"");
}

#[test]
fn test_message_without_lock_field() {
    // A record written without the optional lock field is read back with
    // no lock, exactly as one written with `null`.
    let json = r#"{"id":"0198fbd8-344e-7b70-841f-3fbd4b371e4c","body":"x","state":"Failed","retry_count":2}"#;
    let message = decode_message(json).unwrap();
    assert_eq!(message.lock_until, None);
    assert_eq!(message.state, MessageState::Failed);
    assert_eq!(message.retry_count, 2);
}
