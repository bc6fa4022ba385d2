use apt_transport_blob::acquire::{
    fatal_report, locate, process, uri_acquire, Acquisition, Command, Event, Next, Stage,
};
use apt_transport_blob::location::{account_of, blob_location, join_with_slash};
use apt_transport_blob::message::{Error, Message, MessageType};

const URI: &str = "https://account.blob.core.windows.net/container/path/to/object";

fn acquire(headers: Vec<(&str, &str)>) -> Message {
    Message::new(MessageType::URIAcquire, headers)
}

fn wire(emit: &[Message]) -> Vec<String> {
    emit.iter().map(|m| m.to_wire()).collect()
}

fn waiting() -> String {
    "102 Status\nMessage: Waiting for headers\n\n".to_string()
}

#[test]
fn test_configuration() {
    let step = process(&Message::new(MessageType::Configuration, vec![]));
    assert!(step.emit.is_empty());
    assert!(matches!(step.next, Next::Finished));
}

#[test]
fn test_unknown() {
    let step = process(&Message::new(MessageType::Log, vec![]));
    assert!(step.emit.is_empty());
    assert!(matches!(step.next, Next::Finished));
}

#[test]
fn agent_only_kinds_are_ignored() {
    let step = process(&Message::new(MessageType::URIDone, vec![("URI", URI)]));
    assert!(step.emit.is_empty());
    assert!(matches!(step.next, Next::Finished));
}

#[test]
fn acquire_without_filename_fails_the_uri() {
    let step = process(&acquire(vec![("URI", URI)]));
    assert_eq!(
        wire(&step.emit),
        vec![
            waiting(),
            format!("400 URI Failure\nURI: {}\nMessage: Error: Header not found: Filename\n\n", URI),
        ]
    );
    assert!(matches!(step.next, Next::Finished));
}

#[test]
fn acquire_without_uri_is_fatal() {
    let step = process(&acquire(vec![("Filename", "/tmp/object")]));
    assert_eq!(wire(&step.emit), vec![waiting()]);
    match step.next {
        Next::Fatal(e) => {
            assert_eq!(e, Error::HeaderNotFound("URI".to_string()));
            assert_eq!(
                fatal_report(&e).to_wire(),
                "401 General Failure\nMessage: Error: Header not found: URI\n\n"
            );
        }
        _ => panic!("expected a fatal error"),
    }
}

#[test]
fn acquire_with_unparsable_uri_fails_the_uri() {
    let step = process(&acquire(vec![("URI", "not a url"), ("Filename", "/tmp/object")]));
    assert_eq!(step.emit.len(), 2);
    let failure = &step.emit[1];
    assert_eq!(failure.message_type, MessageType::URIFailure);
    assert_eq!(failure.header("URI").unwrap(), "not a url");
    assert!(failure.header("Message").unwrap().starts_with("Error: "));
    assert!(failure.header("Message").unwrap().len() > "Error: ".len());
    assert!(matches!(step.next, Next::Finished));
}

#[test]
fn acquire_with_uri_that_cannot_be_a_base_fails_the_uri() {
    let step = process(&acquire(vec![("URI", "data:text/plain,x"), ("Filename", "/tmp/o")]));
    assert_eq!(
        wire(&step.emit),
        vec![
            waiting(),
            "400 URI Failure\nURI: data:text/plain,x\nMessage: Error: No host\n\n".to_string(),
        ]
    );
}

fn start() -> Acquisition {
    let step = process(&acquire(vec![("URI", URI), ("Filename", "/tmp/object")]));
    assert_eq!(wire(&step.emit), vec![waiting()]);
    match step.next {
        Next::Continue(a, Command::Resolve(loc)) => {
            assert_eq!(loc.account, "account");
            assert_eq!(loc.container, "container");
            assert_eq!(loc.blob, "path/to/object");
            assert_eq!(a.stage, Stage::Resolving);
            assert_eq!(a.uri, URI);
            assert_eq!(a.filename, "/tmp/object");
            a
        }
        _ => panic!("expected the blob to be resolved"),
    }
}

fn next(a: Acquisition, event: Event) -> (Vec<String>, Next) {
    assert!(a.accepts(&event));
    let step = a.resume(event);
    (wire(&step.emit), step.next)
}

#[test]
fn acquire_blob_absent() {
    let (out, n) = next(start(), Event::Completed);
    assert!(out.is_empty());
    let a = match n {
        Next::Continue(a, Command::CheckExists) => a,
        _ => panic!("expected an existence check"),
    };
    let (out, n) = next(a, Event::Exists(false));
    assert_eq!(
        out,
        vec![format!("400 URI Failure\nURI: {}\nMessage: Blob does not exist\n\n", URI)]
    );
    assert!(matches!(n, Next::Finished));
}

#[test]
fn acquire_full_success() {
    let mut sent = vec![waiting()];
    let (out, n) = next(start(), Event::Completed);
    sent.extend(out);
    let a = match n {
        Next::Continue(a, Command::CheckExists) => a,
        _ => panic!("expected an existence check"),
    };
    let (out, n) = next(a, Event::Exists(true));
    sent.extend(out);
    let a = match n {
        Next::Continue(a, Command::FetchProperties) => a,
        _ => panic!("expected a properties request"),
    };
    let (out, n) = next(a, Event::Properties(1234, "2021-01-01T00:00:00Z".to_string()));
    sent.extend(out);
    let a = match n {
        Next::Continue(a, Command::Download) => a,
        _ => panic!("expected a download"),
    };
    let (out, n) = next(a, Event::Completed);
    sent.extend(out);
    let a = match n {
        Next::Continue(a, Command::WriteFile(f)) => {
            assert_eq!(f, "/tmp/object");
            a
        }
        _ => panic!("expected a file write"),
    };
    let (out, n) = next(a, Event::Completed);
    sent.extend(out);
    assert!(matches!(n, Next::Finished));
    assert_eq!(
        sent,
        vec![
            waiting(),
            format!("200 URI Start\nURI: {}\nSize: 1234\nLast-Modified: 2021-01-01T00:00:00Z\n\n", URI),
            format!("201 URI Done\nURI: {}\nFilename: /tmp/object\n\n", URI),
        ]
    );
}

#[test]
fn collaborator_failure_fails_the_uri() {
    let (out, n) = next(start(), Event::Failed("network down".to_string()));
    assert_eq!(
        out,
        vec![format!("400 URI Failure\nURI: {}\nMessage: Error: network down\n\n", URI)]
    );
    assert!(matches!(n, Next::Finished));
}

#[test]
fn events_out_of_stage_are_refused() {
    let a = start();
    assert!(!a.accepts(&Event::Exists(true)));
    assert!(!a.accepts(&Event::Properties(1, String::new())));
    assert!(a.accepts(&Event::Completed));
    assert!(a.accepts(&Event::Failed(String::new())));
}

#[test]
fn begin_reports_location_errors() {
    let step = Acquisition::begin("u", "f", Err("No container".to_string()));
    assert_eq!(wire(&step.emit), vec!["400 URI Failure\nURI: u\nMessage: Error: No container\n\n".to_string()]);
}

#[test]
fn blob_locations() {
    let segs = |v: &[&str]| Some(v.iter().map(|s| s.to_string()).collect::<Vec<_>>());
    let loc = blob_location(Some("acct.blob.core.windows.net".to_string()), segs(&["c", "a", "b"])).unwrap();
    assert_eq!((loc.account.as_str(), loc.container.as_str(), loc.blob.as_str()), ("acct", "c", "a/b"));
    let loc = blob_location(Some("example.com".to_string()), segs(&["c"])).unwrap();
    assert_eq!((loc.account.as_str(), loc.container.as_str(), loc.blob.as_str()), ("example.com", "c", ""));
    assert_eq!(blob_location(None, segs(&["c"])), Err("No host".to_string()));
    assert_eq!(blob_location(Some("h".to_string()), None), Err("No path segments".to_string()));
    assert_eq!(blob_location(Some("h".to_string()), segs(&[])), Err("No container".to_string()));
    assert_eq!(account_of("a.blob.core.windows.net.blob.core.windows.net"), "a");
    assert_eq!(account_of(".blob.core.windows.net"), "");
    let parts = vec!["x".to_string(), "y".to_string(), "z".to_string()];
    assert_eq!(join_with_slash(&parts, 0), "x/y/z");
    assert_eq!(join_with_slash(&parts, 3), "");
}

#[test]
fn uri_acquire_without_uri_is_fatal_for_any_kind() {
    for kind in [MessageType::Configuration, MessageType::Log, MessageType::URIAcquire] {
        let step = uri_acquire(&Message::new(kind, vec![("Filename", "/tmp/x")]));
        assert!(step.emit.is_empty());
        match step.next {
            Next::Fatal(e) => assert_eq!(e, Error::HeaderNotFound("URI".to_string())),
            _ => panic!("expected a fatal error"),
        }
    }
}

#[test]
fn locate_reads_the_url() {
    let loc = locate(URI).unwrap();
    assert_eq!((loc.account.as_str(), loc.container.as_str(), loc.blob.as_str()), ("account", "container", "path/to/object"));
    assert_eq!(locate("data:text/plain,x"), Err("No host".to_string()));
    let err = locate("not a url").unwrap_err();
    assert!(!err.is_empty());
    assert_ne!(err, "not a url");
}
