use apt_transport_blob::framing::send_capabilities;
use apt_transport_blob::message::{decimal_string, Error, Message, MessageType};

fn check_parse(input: &[u8], expected: MessageType) {
    let (message, used) = MessageType::from_bytes(input).expect("Failed to parse message type");
    assert_eq!(message, expected);
    assert_eq!(used, input.len());
}

#[test]
fn test_send_capabilities() {
    let m = send_capabilities("1.2.3");
    assert_eq!(
        m.to_wire(),
        "100 Capabilities\nVersion: 1.2.3\nSend-Config: true\nSingle-Instance: true\n\n"
    );
}

#[test]
fn test_coverage() {
    let message = Message::new(MessageType::Log, vec![]);
    let _ = format!("{:?}", message);

    let error = Error::HeaderNotFound("text".to_string());
    let _ = format!("{:?}", error);
    assert_eq!(error.text(), "Header not found: text");
}

#[test]
fn test_message_codes() {
    assert_eq!(MessageType::Capabilities.code(), 100);
    assert_eq!(MessageType::Log.code(), 101);
    assert_eq!(MessageType::Status.code(), 102);
    assert_eq!(MessageType::URIStart.code(), 200);
    assert_eq!(MessageType::URIDone.code(), 201);
    assert_eq!(MessageType::URIFailure.code(), 400);
    assert_eq!(MessageType::GeneralFailure.code(), 401);
    assert_eq!(MessageType::URIAcquire.code(), 600);
    assert_eq!(MessageType::Configuration.code(), 601);
}

#[test]
fn test_message_descriptions() {
    assert_eq!(MessageType::Capabilities.description(), "Capabilities");
    assert_eq!(MessageType::Log.description(), "Log");
    assert_eq!(MessageType::Status.description(), "Status");
    assert_eq!(MessageType::URIStart.description(), "URI Start");
    assert_eq!(MessageType::URIDone.description(), "URI Done");
    assert_eq!(MessageType::URIFailure.description(), "URI Failure");
    assert_eq!(MessageType::GeneralFailure.description(), "General Failure");
    assert_eq!(MessageType::URIAcquire.description(), "URI Acquire");
    assert_eq!(MessageType::Configuration.description(), "Configuration");
}

#[test]
fn test_message_type_from_bytes() {
    check_parse(b"100 Capabilities\n", MessageType::Capabilities);
    check_parse(b"101 Log\n", MessageType::Log);
    check_parse(b"102 Status\n", MessageType::Status);
    check_parse(b"200 URI Start\n", MessageType::URIStart);
    check_parse(b"201 URI Done\n", MessageType::URIDone);
    check_parse(b"400 URI Failure\n", MessageType::URIFailure);
    check_parse(b"401 General Failure\n", MessageType::GeneralFailure);
    check_parse(b"600 URI Acquire\n", MessageType::URIAcquire);
    check_parse(b"601 Configuration\n", MessageType::Configuration);
}

#[test]
fn unknown_message_type_is_an_error() {
    match MessageType::from_bytes(b"999 Unknown\n") {
        Err(Error::UnknownMessageType(code)) => assert_eq!(code, "999"),
        _ => panic!("Unexpected result"),
    }
    match Message::from_bytes(b"999 Unknown\nKey: Value\n\n") {
        Err(Error::UnknownMessageType(code)) => assert_eq!(code, "999"),
        _ => panic!("Unexpected result"),
    }
    match Message::from_bytes(b"0100 Capabilities\n\n") {
        Err(Error::UnknownMessageType(code)) => assert_eq!(code, "0100"),
        _ => panic!("Unexpected result"),
    }
}

#[test]
fn test_message_from_bytes() {
    let input = b"100 Capabilities\n\
                  Key: Value\n\
                  \n";
    let message = Message::from_bytes(input).unwrap();
    assert_eq!(message.message_type, MessageType::Capabilities);

    let (key, value) = message.headers.first().unwrap();
    assert_eq!(key, "Key");
    assert_eq!(value, "Value");
}

#[test]
fn test_too_much_data() {
    let input = b"100 Capabilities\n\
                  Key: Value\n\
                  \ntoo much data";
    let message = Message::from_bytes(input);
    match message {
        Err(Error::MessageTooMuchData) => (),
        _ => panic!("Unexpected error"),
    }
}

#[test]
fn test_buggy_message() {
    let input = b"100 Capabilities\n\
                  No header line\n\
                  \n";
    let message = Message::from_bytes(input);
    match message {
        Err(Error::MessageParse(_)) => (),
        _ => panic!("Unexpected error"),
    }
}

#[test]
fn grammar_errors() {
    let cases: Vec<&[u8]> = vec![
        b"",
        b"Capabilities\n\n",
        b"100 Capabilities",
        b"100 Capabilities\nKey: Value\n",
        b"100 Capabilities\nKey: Value",
        b"100 Capabilities\n\xff\xfe: x\n\n",
    ];
    for input in cases {
        match Message::from_bytes(input) {
            Err(Error::MessageParse(_)) => (),
            other => panic!("Unexpected result {:?}", other),
        }
    }
}

#[test]
fn test_message_write() {
    let message = Message {
        message_type: MessageType::Capabilities,
        headers: vec![("Key".to_string(), "Value".to_string())],
    };

    let output = message.to_wire();
    assert_eq!(
        output,
        "100 Capabilities\n\
          Key: Value\n\
          \n"
    );
}

#[test]
fn test_round_trip() {
    let message = Message {
        message_type: MessageType::Capabilities,
        headers: vec![("Key".to_string(), "Value".to_string())],
    };

    let output = message.to_wire();
    let parsed_message = Message::from_bytes(output.as_bytes()).unwrap();
    assert_eq!(parsed_message, message);
}

#[test]
fn round_trip_of_every_kind_with_repeated_keys() {
    let kinds = [
        MessageType::Capabilities,
        MessageType::Log,
        MessageType::Status,
        MessageType::URIStart,
        MessageType::URIDone,
        MessageType::URIFailure,
        MessageType::GeneralFailure,
        MessageType::URIAcquire,
        MessageType::Configuration,
    ];
    for kind in kinds {
        let message = Message::new(
            kind,
            vec![("A", "1"), ("", "empty key"), ("A", "x: y"), ("B", ""), ("C", "ünïcode")],
        );
        let parsed = Message::from_bytes(message.to_wire().as_bytes()).unwrap();
        assert_eq!(parsed, message);
    }
}

#[test]
fn spaces_after_the_colon_are_skipped() {
    let message = Message::from_bytes(b"102 Status\nMessage:    hello  \n\n").unwrap();
    assert_eq!(message.header("Message").unwrap(), "hello  ");
}

#[test]
fn test_send_messages() {
    let status = Message::send_status("Hello, world");
    assert_eq!(status.to_wire(), "102 Status\nMessage: Hello, world\n\n");
    let failure = Message::send_general_failure("Goodbye, world");
    assert_eq!(failure.to_wire(), "401 General Failure\nMessage: Goodbye, world\n\n");
    let start = Message::send_uri_start("http://example.com", 123, "2021-01-01T00:00:00Z");
    assert_eq!(
        start.to_wire(),
        "200 URI Start\nURI: http://example.com\nSize: 123\nLast-Modified: 2021-01-01T00:00:00Z\n\n"
    );
    let uri_failure = Message::build_uri_failure("http://example.com", "Failed");
    assert_eq!(
        uri_failure.to_wire(),
        "400 URI Failure\nURI: http://example.com\nMessage: Failed\n\n"
    );
}

#[test]
fn test_description() {
    let message = Message {
        message_type: MessageType::Capabilities,
        headers: vec![],
    };
    assert_eq!(message.description(), "100 Capabilities");
}

#[test]
fn header_lookup_first_occurrence_wins() {
    let message = Message::new(
        MessageType::URIAcquire,
        vec![("URI", "first"), ("Filename", "/tmp/a"), ("URI", "second")],
    );
    assert_eq!(message.uri().unwrap(), "first");
    assert_eq!(message.filename().unwrap(), "/tmp/a");
    assert_eq!(message.header("URI").unwrap(), "first");
    match message.header("Missing") {
        Err(Error::HeaderNotFound(key)) => assert_eq!(key, "Missing"),
        _ => panic!("Unexpected result"),
    }
    let empty = Message::new(MessageType::URIAcquire, vec![]);
    assert_eq!(empty.uri(), Err(Error::HeaderNotFound("URI".to_string())));
    assert_eq!(empty.filename(), Err(Error::HeaderNotFound("Filename".to_string())));
}

#[test]
fn decimal_forms() {
    assert_eq!(decimal_string(0), "0");
    assert_eq!(decimal_string(7), "7");
    assert_eq!(decimal_string(1234), "1234");
    assert_eq!(decimal_string(u64::MAX), "18446744073709551615");
}

#[test]
fn error_texts() {
    assert_eq!(Error::MessageParse("x".to_string()).text(), "Failed to parse message: x");
    assert_eq!(Error::MessageTooMuchData.text(), "Too much message data");
    assert_eq!(Error::UnknownMessageType("9".to_string()).text(), "Unknown message type: 9");
}

#[test]
fn trailing_bytes_of_any_kind_are_too_much_data() {
    let mut input = b"102 Status\nMessage: hi\n\n".to_vec();
    input.push(0xFF);
    assert_eq!(Message::from_bytes(&input), Err(Error::MessageTooMuchData));
    let mut input = b"102 Status\n\n".to_vec();
    input.extend_from_slice(b"K: v\n\n");
    assert_eq!(Message::from_bytes(&input), Err(Error::MessageTooMuchData));
}

#[test]
fn description_is_not_checked() {
    let message = Message::from_bytes(b"102 St\xffatus\nMessage: hi\n\n").unwrap();
    assert_eq!(message.message_type, MessageType::Status);
    assert_eq!(message.header("Message").unwrap(), "hi");
}

#[test]
fn colonless_line_after_good_headers_is_refused() {
    match Message::from_bytes(b"600 URI Acquire\nURI: x\nFilename: y\nbroken\n\n") {
        Err(Error::MessageParse(_)) => (),
        other => panic!("Unexpected result {:?}", other),
    }
}
