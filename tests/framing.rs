use apt_transport_blob::framing::Framer;
use apt_transport_blob::message::{Error, MessageType};

#[test]
fn malformed_block_does_not_stop_the_loop() {
    let mut framer = Framer::new();
    assert!(framer.feed(b"100 Capabilities\n").is_none());
    assert!(framer.feed(b"No header line\n").is_none());
    match framer.feed(b"\n") {
        Some(Err(Error::MessageParse(_))) => (),
        other => panic!("Unexpected result {:?}", other),
    }
    assert!(framer.feed(b"601 Configuration\n").is_none());
    assert!(framer.feed(b"Key: Value\n").is_none());
    match framer.feed(b"\n") {
        Some(Ok(m)) => {
            assert_eq!(m.message_type, MessageType::Configuration);
            assert_eq!(m.header("Key").unwrap(), "Value");
        }
        other => panic!("Unexpected result {:?}", other),
    }
}

#[test]
fn trailing_data_in_a_block() {
    let mut framer = Framer::new();
    assert!(framer.feed(b"102 Status\n").is_none());
    assert!(framer.feed(b"\n").is_some());
    assert!(framer.feed(b"102 Status\n\nextra").is_none());
    match framer.feed(b"\n") {
        Some(Err(Error::MessageTooMuchData)) => (),
        other => panic!("Unexpected result {:?}", other),
    }
}
