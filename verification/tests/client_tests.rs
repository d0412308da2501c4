use tlq_client::client::MAX_MESSAGE_SIZE;
use tlq_client::ConfigBuilder;
use tlq_client::TlqClient;
use tlq_client::Config;
use tlq_client::TlqError;

#[test]
fn test_parse_http_response_success() {
    let response =
        "HTTP/1.1 200 OK\r\nContent-Type: application/json\r\n\r\n{\"message\":\"success\"}";

    let result = TlqClient::parse_http_response(response);
    assert!(result.is_ok());
    assert_eq!(result.unwrap(), "{\"message\":\"success\"}");
}

#[test]
fn test_parse_http_response_server_error() {
    let response = "HTTP/1.1 500 Internal Server Error\r\nContent-Type: text/plain\r\n\r\nInternal server error occurred";

    let result = TlqClient::parse_http_response(response);
    match result {
        Err(TlqError::Server { status, message }) => {
            assert_eq!(status, 500);
            assert_eq!(message, "Internal server error occurred");
        }
        _ => panic!("Expected server error"),
    }
}

#[test]
fn test_parse_http_response_client_error() {
    let response = "HTTP/1.1 400 Bad Request\r\nContent-Type: text/plain\r\n\r\nBad request";

    let result = TlqClient::parse_http_response(response);
    match result {
        Err(TlqError::Server { status, message }) => {
            assert_eq!(status, 400);
            assert_eq!(message, "Bad request");
        }
        _ => panic!("Expected client error"),
    }
}

#[test]
fn test_parse_http_response_no_headers_separator() {
    let response =
        "HTTP/1.1 200 OK\nContent-Type: application/json\n{\"incomplete\":\"response\"}";

    let result = TlqClient::parse_http_response(response);
    match result {
        Err(TlqError::Connection(msg)) => {
            assert_eq!(msg, "Invalid HTTP response");
        }
        _ => panic!("Expected connection error"),
    }
}

#[test]
fn test_parse_http_response_malformed_status_line() {
    let response = "INVALID_STATUS_LINE\r\n\r\n{\"data\":\"test\"}";

    let result = TlqClient::parse_http_response(response);
    // A malformed status line is tolerated and the body is handed on.
    assert!(result.is_ok());
    assert_eq!(result.unwrap(), "{\"data\":\"test\"}");
}

#[test]
fn test_parse_http_response_empty_body() {
    let response = "HTTP/1.1 200 OK\r\nContent-Length: 0\r\n\r\n";

    let result = TlqClient::parse_http_response(response);
    assert!(result.is_ok());
    assert_eq!(result.unwrap(), "");
}

#[test]
fn test_parse_http_response_with_extra_headers() {
    let response = "HTTP/1.1 201 Created\r\nContent-Type: application/json\r\nServer: TLQ/1.0\r\nConnection: close\r\n\r\n{\"id\":\"123\",\"status\":\"created\"}";

    let result = TlqClient::parse_http_response(response);
    assert!(result.is_ok());
    assert_eq!(result.unwrap(), "{\"id\":\"123\",\"status\":\"created\"}");
}

#[test]
fn test_parse_http_response_status_code_edge_cases() {
    // Status codes around the 400 boundary.

    // 399 is still a success.
    let response_399 = "HTTP/1.1 399 Custom Success\r\n\r\n{\"ok\":true}";
    let result = TlqClient::parse_http_response(response_399);
    assert!(result.is_ok());

    // 400 is a failure.
    let response_400 = "HTTP/1.1 400 Bad Request\r\n\r\nBad request";
    let result = TlqClient::parse_http_response(response_400);
    assert!(matches!(result, Err(TlqError::Server { status: 400, .. })));

    // 599 is a failure.
    let response_599 = "HTTP/1.1 599 Custom Error\r\n\r\nCustom error";
    let result = TlqClient::parse_http_response(response_599);
    assert!(matches!(result, Err(TlqError::Server { status: 599, .. })));
}

#[test]
fn test_max_message_size_constant() {
    assert_eq!(MAX_MESSAGE_SIZE, 65536);
}

#[test]
fn client_test_client_creation() {
    let client = TlqClient::new("test-host", 9999);
    assert!(client.is_ok());

    let client = client.unwrap();
    assert_eq!(client.base_url, "test-host:9999");
}

#[test]
fn test_client_with_config() {
    let config = Config {
        host: "custom-host".to_string(),
        port: 8080,
        timeout_ms: 10_000,
        max_retries: 5,
        retry_delay_ms: 200,
    };

    let client = TlqClient::with_config(config);
    assert_eq!(client.base_url, "custom-host:8080");
    assert_eq!(client.config.max_retries, 5);
    assert_eq!(client.config.timeout_ms, 10_000);
}

#[test]
fn test_add_message_size_validation() {
    let client = TlqClient::new("localhost", 1337).unwrap();

    // One byte over the limit is rejected.
    let large_message = "x".repeat(MAX_MESSAGE_SIZE + 1);
    let result = client.add_message_request(&large_message);

    match result {
        Err(TlqError::MessageTooLarge { size }) => {
            assert_eq!(size, MAX_MESSAGE_SIZE + 1);
        }
        _ => panic!("Expected MessageTooLarge error"),
    }

    // An empty message passes validation.
    let empty_message = "";
    assert!(empty_message.len() <= MAX_MESSAGE_SIZE);
    assert!(client.add_message_request(empty_message).is_ok());

    // A message of exactly the limit passes validation.
    let max_message = "x".repeat(MAX_MESSAGE_SIZE);
    assert_eq!(max_message.len(), MAX_MESSAGE_SIZE);
    assert!(client.add_message_request(&max_message).is_ok());
}

#[test]
fn test_get_messages_validation() {
    let client = TlqClient::new("localhost", 1337).unwrap();

    // A zero count is rejected before any network activity.
    let result = client.get_messages_request(0);
    match result {
        Err(TlqError::Validation(msg)) => {
            assert_eq!(msg, "Count must be greater than 0");
        }
        _ => panic!("Expected validation error for zero count"),
    }

    // Any positive count passes validation.
    assert!(client.get_messages_request(1).is_ok());
    assert!(client.get_messages_request(100).is_ok());
    assert!(client.get_messages_request(u32::MAX).is_ok());
}

#[test]
fn test_delete_messages_validation() {
    let client = TlqClient::new("localhost", 1337).unwrap();

    // An empty identifier list is rejected.
    let result = client.delete_messages_request(&vec![]);
    match result {
        Err(TlqError::Validation(msg)) => {
            assert_eq!(msg, "No message IDs provided");
        }
        _ => panic!("Expected validation error for empty IDs"),
    }

    // A single identifier is never an empty list.
    let test_id = uuid::Uuid::now_v7().as_u128();
    assert!(!vec![test_id].is_empty());
    assert!(client.delete_messages_request(&vec![test_id]).is_ok());
}

#[test]
fn test_retry_messages_validation() {
    let client = TlqClient::new("localhost", 1337).unwrap();

    // An empty identifier list is rejected.
    let result = client.retry_messages_request(&vec![]);
    match result {
        Err(TlqError::Validation(msg)) => {
            assert_eq!(msg, "No message IDs provided");
        }
        _ => panic!("Expected validation error for empty IDs"),
    }

    // A single identifier is never an empty list.
    let test_id = uuid::Uuid::now_v7().as_u128();
    assert!(!vec![test_id].is_empty());
    assert!(client.retry_messages_request(&vec![test_id]).is_ok());
}

#[test]
fn test_client_builder_edge_cases() {
    // Minimum values.
    let config = TlqClient::builder()
        .host("")
        .port(0)
        .timeout_ms(0)
        .max_retries(0)
        .retry_delay_ms(0)
        .build();

    let client = TlqClient::with_config(config);
    assert_eq!(client.base_url, ":0");
    assert_eq!(client.config.max_retries, 0);
    assert_eq!(client.config.timeout_ms, 0);

    // Large values.
    let config = TlqClient::builder()
        .host("very-long-hostname-that-might-be-used-in-some-environments")
        .port(65535)
        .timeout_ms(600000)
        .max_retries(100)
        .retry_delay_ms(10000)
        .build();

    let client = TlqClient::with_config(config);
    assert!(client.base_url.contains("very-long-hostname"));
    assert_eq!(client.config.max_retries, 100);
    assert_eq!(client.config.timeout_ms, 600_000);
}

#[test]
fn test_config_validation() {
    // A one-hour base delay is carried through unchanged.
    let config2 = ConfigBuilder::new().retry_delay(3_600_000).build();
    assert_eq!(config2.retry_delay_ms, 3_600_000);

    // Edge-case ports.
    let config3 = ConfigBuilder::new().port(1).build();
    assert_eq!(config3.port, 1);

    let config4 = ConfigBuilder::new().port(65535).build();
    assert_eq!(config4.port, 65535);

    // Very high retry counts.
    let config5 = ConfigBuilder::new().max_retries(1000).build();
    assert_eq!(config5.max_retries, 1000);
}

#[test]
fn test_request_frames() {
    let client = TlqClient::new("localhost", 1337).unwrap();

    let wire = client.add_message_request("hello").unwrap();
    assert!(wire.starts_with("POST /add HTTP/1.1\r\nHost: localhost:1337\r\n"));
    assert!(wire.contains("Content-Type: application/json\r\n"));
    assert!(wire.contains("Content-Length: 16\r\n"));
    assert!(wire.ends_with("\r\n\r\n{\"body\":\"hello\"}"));

    let wire = client.get_messages_request(5).unwrap();
    assert!(wire.starts_with("POST /get HTTP/1.1\r\n"));
    assert!(wire.ends_with("\r\n\r\n{\"count\":5}"));

    let wire = client.purge_queue_request();
    assert!(wire.starts_with("POST /purge HTTP/1.1\r\n"));
    assert!(wire.ends_with("\r\n\r\n{}"));

    let wire = client.health_check_request();
    assert_eq!(
        wire,
        "GET /hello HTTP/1.1\r\nHost: localhost:1337\r\nConnection: close\r\n\r\n"
    );
}

#[test]
fn test_health_from_response() {
    assert!(TlqClient::health_from_response(
        "HTTP/1.1 200 OK\r\n\r\n\"Hello World\""
    ));
    assert!(!TlqClient::health_from_response(
        "HTTP/1.1 500 Internal Server Error\r\n\r\n"
    ));

    // Only the status line decides: the probe text in the body of a
    // failing response does not count.
    assert!(!TlqClient::health_from_response("A\r\n\r\n200 OK"));
    assert!(!TlqClient::health_from_response(
        "HTTP/1.1 500 Oops\r\n\r\n200 OK"
    ));

    // A response that is one bare line is its own status line.
    assert!(TlqClient::health_from_response("HTTP/1.1 200 OK"));
}

#[test]
fn test_message_from_response() {
    let response = "HTTP/1.1 200 OK\r\n\r\n{\"id\":\"0198fbd8-344e-7b70-841f-3fbd4b371e4c\",\"body\":\"hi\",\"state\":\"Ready\",\"lock_until\":null,\"retry_count\":0}";
    let message = TlqClient::message_from_response(response).unwrap();
    assert_eq!(message.body, "hi");

    // A passing status with a body that is no record is a decode failure.
    let bad = "HTTP/1.1 200 OK\r\n\r\nnot a record";
    match TlqClient::message_from_response(bad) {
        Err(TlqError::Serialization(_)) => {}
        _ => panic!("Expected serialization error"),
    }
}

#[test]
fn test_messages_from_response() {
    let response = "HTTP/1.1 200 OK\r\n\r\n[]";
    let messages = TlqClient::messages_from_response(response).unwrap();
    assert!(messages.is_empty());

    let failing = "HTTP/1.1 503 Service Unavailable\r\n\r\nbusy";
    match TlqClient::messages_from_response(failing) {
        Err(TlqError::Server { status, message }) => {
            assert_eq!(status, 503);
            assert_eq!(message, "busy");
        }
        _ => panic!("Expected server error"),
    }
}

#[test]
fn test_status_from_response() {
    let response = "HTTP/1.1 200 OK\r\n\r\n\"Success\"";
    assert_eq!(TlqClient::status_from_response(response).unwrap(), "Success");

    let bad = "HTTP/1.1 200 OK\r\n\r\nSuccess";
    match TlqClient::status_from_response(bad) {
        Err(TlqError::Serialization(_)) => {}
        _ => panic!("Expected serialization error"),
    }
}

#[test]
fn test_first_message() {
    let messages: Vec<tlq_client::Message> = Vec::new();
    assert!(TlqClient::first_message(messages).is_none());

    let m = tlq_client::Message::new("one".to_string());
    let id = m.id;
    let first = TlqClient::first_message(vec![m]).unwrap();
    assert_eq!(first.id, id);
    assert_eq!(first.body, "one");
}
