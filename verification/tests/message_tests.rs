use tlq_client::Message;
use tlq_client::MessageState;
use tlq_client::codec::decode_message;
use tlq_client::codec::decode_messages;
use tlq_client::codec::decode_json_string;
use tlq_client::codec::encode_add_request;
use tlq_client::codec::encode_delete_request;
use tlq_client::codec::encode_get_request;
use tlq_client::codec::encode_retry_request;
use tlq_client::message::AddMessageRequest;
use tlq_client::message::DeleteMessagesRequest;
use tlq_client::message::GetMessagesRequest;
use tlq_client::message::RetryMessagesRequest;
use tlq_client::codec::encode_message;

#[test]
fn message_test_message_creation() {
    let message = Message::new("Test message".to_string());

    assert_eq!(message.body, "Test message");
    assert_eq!(message.state, MessageState::Ready);
    assert_eq!(message.retry_count, 0);

    // The identifier text is never empty.
    assert!(!message.id.to_string().is_empty());
}

#[test]
fn test_message_state_serialization() {
    // Each state appears on the wire in Pascal case.
    let mut m = Message::new("s".to_string());
    m.state = MessageState::Ready;
    assert!(encode_message(&m).contains("\"state\":\"Ready\""));
    m.state = MessageState::Processing;
    assert!(encode_message(&m).contains("\"state\":\"Processing\""));
    m.state = MessageState::Failed;
    assert!(encode_message(&m).contains("\"state\":\"Failed\""));
}

#[test]
fn test_message_state_deserialization() {
    // Each Pascal-case state is read back as itself.
    for (text, state) in [
        ("Ready", MessageState::Ready),
        ("Processing", MessageState::Processing),
        ("Failed", MessageState::Failed),
    ] {
        let json = format!(
            "{{\"id\":\"0198fbd8-344e-7b70-841f-3fbd4b371e4c\",\"body\":\"t\",\"state\":\"{}\",\"lock_until\":null,\"retry_count\":0}}",
            text
        );
        let message = decode_message(&json).unwrap();
        assert_eq!(message.state, state);
    }
}

#[test]
fn test_message_state_invalid_deserialization() {
    // Unknown or wrongly cased states are rejected.
    for text in ["Invalid", "ready", "READY"] {
        let json = format!(
            "{{\"id\":\"0198fbd8-344e-7b70-841f-3fbd4b371e4c\",\"body\":\"t\",\"state\":\"{}\",\"lock_until\":null,\"retry_count\":0}}",
            text
        );
        assert!(decode_message(&json).is_none());
    }
}

#[test]
fn test_message_serialization() {
    let message = Message::new("test body".to_string());

    let json = encode_message(&message);

    assert!(json.contains("\"id\":"));
    assert!(json.contains("\"body\":\"test body\""));
    assert!(json.contains("\"state\":\"Ready\""));
    assert!(json.contains("\"retry_count\":0"));

    let deserialized = decode_message(&json).unwrap();
    assert_eq!(deserialized.body, message.body);
    assert_eq!(deserialized.state, message.state);
    assert_eq!(deserialized.retry_count, message.retry_count);
    assert_eq!(deserialized.id, message.id);
}

#[test]
fn test_message_with_special_characters() {
    let special_body = "Test with \u{1F980} emojis and \"quotes\" and \n newlines \t tabs";
    let message = Message::new(special_body.to_string());

    assert_eq!(message.body, special_body);

    let json = encode_message(&message);
    let deserialized = decode_message(&json).unwrap();
    assert_eq!(deserialized.body, special_body);
}

#[test]
fn test_message_with_very_long_body() {
    let long_body = "a".repeat(100_000);
    let message = Message::new(long_body.clone());

    assert_eq!(message.body, long_body);
    assert_eq!(message.body.len(), 100_000);
}

#[test]
fn test_message_with_empty_body() {
    let message = Message::new("".to_string());

    assert_eq!(message.body, "");
    assert_eq!(message.state, MessageState::Ready);
    assert_eq!(message.retry_count, 0);
}

#[test]
fn test_request_response_structures() {
    let add_req = AddMessageRequest {
        body: "test message".to_string(),
    };
    let json = encode_add_request(&add_req);
    assert!(json.contains("\"body\":\"test message\""));

    let get_req = GetMessagesRequest { count: 5 };
    let json = encode_get_request(&get_req);
    assert!(json.contains("\"count\":5"));

    let id1 = uuid::Uuid::now_v7().as_u128();
    let id2 = uuid::Uuid::now_v7().as_u128();
    let delete_req = DeleteMessagesRequest {
        ids: vec![id1, id2],
    };
    let json = encode_delete_request(&delete_req);
    assert!(json.contains("\"ids\":"));

    let retry_req = RetryMessagesRequest { ids: vec![id1] };
    let json = encode_retry_request(&retry_req);
    assert!(json.contains("\"ids\":"));
}

#[test]
fn test_response_deserialization() {
    // One message record, as an add response carries it.
    let message_json = r#"{"id":"0198fbd8-344e-7b70-841f-3fbd4b371e4c","body":"test","state":"Ready","lock_until":null,"retry_count":0}"#;
    let message = decode_message(message_json).unwrap();
    assert_eq!(message.body, "test");
    assert_eq!(message.state, MessageState::Ready);
    assert_eq!(message.retry_count, 0);
    assert_eq!(message.lock_until, None);

    // A list of records, as a get response carries it.
    let messages_json = r#"[{"id":"0198fbd8-344e-7b70-841f-3fbd4b371e4c","body":"test1","state":"Processing","lock_until":null,"retry_count":1}]"#;
    let messages = decode_messages(messages_json).unwrap();
    assert_eq!(messages.len(), 1);
    assert_eq!(messages[0].body, "test1");
    assert_eq!(messages[0].state, MessageState::Processing);

    // Status strings, as delete, retry and purge responses carry them.
    let success_response = decode_json_string(r#""Success""#).unwrap();
    assert_eq!(success_response, "Success");

    let health_response = decode_json_string(r#""Hello World""#).unwrap();
    assert_eq!(health_response, "Hello World");
}

#[test]
fn test_malformed_response_deserialization() {
    // Malformed text is rejected.
    let malformed_json = r#"{"id": invalid}"#;
    assert!(decode_message(malformed_json).is_none());

    // Missing fields are rejected.
    let incomplete_json = r#"{"id":"0198fbd8-344e-7b70-841f-3fbd4b371e4c","body":"test"}"#;
    assert!(decode_message(incomplete_json).is_none());

    // Wrongly typed fields are rejected.
    let wrong_type_json = r#"{"id":"0198fbd8-344e-7b70-841f-3fbd4b371e4c","body":"test","state":"Ready","retry_count":"not_a_number"}"#;
    assert!(decode_message(wrong_type_json).is_none());

    // A malformed identifier is rejected.
    let bad_uuid_json =
        r#"{"id":"invalid-uuid","body":"test","state":"Ready","lock_until":null,"retry_count":0}"#;
    assert!(decode_message(bad_uuid_json).is_none());

    // A malformed list is rejected.
    let bad_array_json = r#"[{"id":"invalid"}]"#;
    assert!(decode_messages(bad_array_json).is_none());
}
