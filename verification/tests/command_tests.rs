use ipc_poc_backend::commands::{
    get_metadata, process_command, process_image, process_message, session_step, Message,
    MessageType, ReadOutcome, SessionAction,
};
use ipc_poc_backend::json::{JsonNumber, JsonValue};

fn command(text: &str) -> Message {
    Message { msg_type: MessageType::Command, payload: text.as_bytes().to_vec() }
}

fn payload_text(message: &Message) -> String {
    String::from_utf8(message.payload.clone()).unwrap()
}

#[test]
fn heartbeat_is_answered_with_an_empty_heartbeat() {
    let reply = process_message(Message { msg_type: MessageType::Heartbeat, payload: vec![1, 2] }).unwrap();
    assert_eq!(reply.msg_type, MessageType::Heartbeat);
    assert!(reply.payload.is_empty());
}

#[test]
fn responses_and_errors_are_not_accepted_as_requests() {
    let err = process_message(Message { msg_type: MessageType::Response, payload: vec![] }).unwrap_err();
    assert_eq!(err, "Unsupported message type: Response");
    let err = process_message(Message { msg_type: MessageType::Error, payload: vec![] }).unwrap_err();
    assert_eq!(err, "Unsupported message type: Error");
}

#[test]
fn list_images_answers_with_the_listing() {
    let reply = process_message(command(r#"{"command":"listImages","params":{"directory":"/photos"}}"#)).unwrap();
    assert_eq!(reply.msg_type, MessageType::Response);
    assert_eq!(
        payload_text(&reply),
        r#"{"images":[{"filename":"img1.jpg","size":1024000},{"filename":"img2.jpg","size":2048000}]}"#
    );
}

#[test]
fn get_image_metadata_reports_the_file() {
    let reply = process_message(command(r#"{"command":"getImageMetadata","params":{"filename":"a \"b\".jpg"}}"#)).unwrap();
    assert_eq!(
        payload_text(&reply),
        r#"{"created":"2023-03-15T10:30:00Z","filename":"a \"b\".jpg","format":"JPEG","height":1080,"width":1920}"#
    );
}

#[test]
fn prepare_image_processing_is_ready() {
    let reply = process_message(command(r#"{"command":"prepareImageProcessing","params":{"filename":"a.jpg","type":"jpeg"}}"#)).unwrap();
    assert_eq!(payload_text(&reply), r#"{"message":"Ready to receive image data for a.jpg","status":"ready"}"#);
}

#[test]
fn missing_fields_are_reported() {
    assert_eq!(process_message(command(r#"{"params":{}}"#)).unwrap_err(), "Missing 'command' field in command message");
    assert_eq!(process_message(command(r#"{"command":7}"#)).unwrap_err(), "Missing 'command' field in command message");
    assert_eq!(process_message(command(r#"{"command":"listImages"}"#)).unwrap_err(), "Missing directory parameter");
    assert_eq!(
        process_message(command(r#"{"command":"getImageMetadata","params":{"filename":3}}"#)).unwrap_err(),
        "Missing filename parameter"
    );
    assert_eq!(
        process_message(command(r#"{"command":"prepareImageProcessing","params":{"type":"jpeg"}}"#)).unwrap_err(),
        "Missing filename parameter"
    );
    assert_eq!(
        process_message(command(r#"{"command":"prepareImageProcessing","params":{"filename":"a.jpg"}}"#)).unwrap_err(),
        "Missing type parameter"
    );
}

#[test]
fn unknown_commands_are_named() {
    assert_eq!(process_message(command(r#"{"command":"deleteAll"}"#)).unwrap_err(), "Unknown command: deleteAll");
}

#[test]
fn malformed_commands_are_reported() {
    let err = process_message(Message { msg_type: MessageType::Command, payload: vec![0xC3, 0x28] }).unwrap_err();
    assert!(err.starts_with("Invalid UTF-8 in command: "));
    assert_eq!(err, format!("Invalid UTF-8 in command: {}", String::from_utf8(vec![0xC3, 0x28]).unwrap_err()));
    let err = process_message(command("{not json")).unwrap_err();
    let expected = serde_json::from_str::<serde_json::Value>("{not json").unwrap_err().to_string();
    assert_eq!(err, format!("Invalid JSON in command: {}", expected));
}

#[test]
fn image_data_is_described() {
    let reply = process_message(Message { msg_type: MessageType::ImageData, payload: vec![1, 2, 3] }).unwrap();
    assert_eq!(reply.msg_type, MessageType::Response);
    assert_eq!(
        payload_text(&reply),
        r#"{"metadata":{"format":"JPEG","height":1080,"size_bytes":3,"width":1920},"previewAvailable":true,"processingTime":"10ms","status":"success"}"#
    );
}

#[test]
fn metadata_and_processing_of_image_data() {
    let metadata = get_metadata(&[0; 10]).unwrap();
    assert_eq!(
        String::from_utf8(metadata.to_vec().unwrap()).unwrap(),
        r#"{"format":"JPEG","height":1080,"size_bytes":10,"width":1920}"#
    );
    assert_eq!(process_image(&[4, 5, 6]).unwrap(), vec![4, 5, 6]);
}

#[test]
fn process_command_reads_parsed_documents() {
    let doc = JsonValue::parse(r#"{"command":"listImages","params":{"directory":"x"}}"#).unwrap();
    assert!(process_command(doc).is_ok());
}

#[test]
fn json_members_and_numbers() {
    let doc = JsonValue::parse(r#"{"a":{"b":"c"},"n":-5,"f":1.5,"u":18446744073709551615}"#).unwrap();
    let inner = doc.get("a").unwrap();
    assert_eq!(inner.get("b").unwrap().as_str().unwrap(), "c");
    assert!(doc.get("missing").is_none());
    assert!(inner.as_str().is_none());
    assert!(matches!(doc.get("n"), Some(JsonValue::Number(JsonNumber::NegInt(-5)))));
    assert!(matches!(doc.get("u"), Some(JsonValue::Number(JsonNumber::PosInt(u64::MAX)))));
    assert!(matches!(doc.get("f"), Some(JsonValue::Number(JsonNumber::Float(_)))));
    assert_eq!(
        String::from_utf8(doc.to_vec().unwrap()).unwrap(),
        r#"{"a":{"b":"c"},"f":1.5,"n":-5,"u":18446744073709551615}"#
    );
}

#[test]
fn session_answers_errors_with_error_messages() {
    match session_step(ReadOutcome::Received(command(r#"{"command":"nope"}"#))) {
        SessionAction::Send(reply) => {
            assert_eq!(reply.msg_type, MessageType::Error);
            assert_eq!(payload_text(&reply), "Unknown command: nope");
        }
        other => panic!("unexpected action {:?}", other),
    }
    match session_step(ReadOutcome::Received(Message { msg_type: MessageType::Heartbeat, payload: vec![] })) {
        SessionAction::Send(reply) => assert_eq!(reply.msg_type, MessageType::Heartbeat),
        other => panic!("unexpected action {:?}", other),
    }
}

#[test]
fn session_ends_after_a_protocol_error_and_waits_after_a_timeout() {
    match session_step(ReadOutcome::ProtocolError("bad header".to_string())) {
        SessionAction::SendAndClose(reply) => {
            assert_eq!(reply.msg_type, MessageType::Error);
            assert_eq!(payload_text(&reply), "Protocol error: bad header");
        }
        other => panic!("unexpected action {:?}", other),
    }
    assert!(matches!(session_step(ReadOutcome::TimedOut), SessionAction::Continue));
}

#[test]
fn a_later_member_of_the_same_name_wins_as_when_printed() {
    let doc = JsonValue::Object(vec![
        ("a".to_string(), JsonValue::Str("first".to_string())),
        ("b".to_string(), JsonValue::Null),
        ("a".to_string(), JsonValue::Str("second".to_string())),
    ]);
    assert_eq!(doc.get("a").unwrap().as_str().unwrap(), "second");
    assert_eq!(String::from_utf8(doc.to_vec().unwrap()).unwrap(), r#"{"a":"second","b":null}"#);
}
