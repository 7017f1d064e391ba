use tinyhttp::LineStep;
use tinyhttp::ParseError;
use tinyhttp::Session;

#[test]
fn test_session_serves_request() {
    let mut session = Session::new();
    assert!(!session.answered);
    assert!(!session.last_empty);

    let line = b"GET /foo.json HTTP/1.1\r\n";
    let path = match session.on_line(line) {
        LineStep::Answer(req) => {
            assert_eq!(req.path, "/foo.json");
            assert_eq!(req.version, "1.1");
            req.path.to_string()
        }
        _ => panic!("expected the request line to parse"),
    };
    assert_eq!(path, "/foo.json");

    let response = session.respond(Some(b"{}\n"));
    assert!(session.answered);
    assert_eq!(
        response,
        b"HTTP/1.1 200 OK\r\nContent-Type: text/plain\r\nContent-Length: 3\r\n\r\n{}\n\r\n".to_vec()
    );
}

#[test]
fn test_session_skips_empty_lines() {
    let mut session = Session::new();

    assert!(matches!(session.on_line(b"\r\n"), LineStep::KeepReading));
    assert!(session.last_empty);
    assert!(matches!(session.on_line(b""), LineStep::KeepReading));

    match session.on_line(b"GET / HTTP/1.0\r\n") {
        LineStep::Answer(req) => {
            assert_eq!(req.path, "/");
            assert_eq!(req.version, "1.0");
        }
        _ => panic!("expected the request line to parse"),
    }
    assert!(!session.last_empty);
}

#[test]
fn test_session_line_without_terminator() {
    let mut session = Session::new();

    match session.on_line(b"GET /bare HTTP/1.1") {
        LineStep::Answer(req) => assert_eq!(req.path, "/bare"),
        _ => panic!("expected the request line to parse"),
    }
}

#[test]
fn test_session_not_found() {
    let mut session = Session::new();

    match session.on_line(b"GET /missing HTTP/1.1\r\n") {
        LineStep::Answer(req) => assert_eq!(req.path, "/missing"),
        _ => panic!("expected the request line to parse"),
    }

    let response = session.respond(None);
    assert_eq!(response, b"HTTP/1.1 404 NOT FOUND\r\n\r\n".to_vec());
    assert!(session.answered);
}

#[test]
fn test_session_aborts_on_bad_method() {
    let mut session = Session::new();

    match session.on_line(b"POST /thing HTTP/1.1\r\n") {
        LineStep::Abort(e) => assert_eq!(e, ParseError::UnsupportedMethod),
        _ => panic!("expected the connection to be aborted"),
    }
    assert!(!session.answered);
}

#[test]
fn test_session_single_response() {
    let mut session = Session::new();

    match session.on_line(b"GET /one HTTP/1.1\r\n") {
        LineStep::Answer(_) => {}
        _ => panic!("expected the request line to parse"),
    }
    let _ = session.respond(Some(b"one"));
    assert!(session.answered);

    // Once answered, further lines of the connection are passed over.
    assert!(matches!(
        session.on_line(b"GET /two HTTP/1.1\r\n"),
        LineStep::KeepReading
    ));
}
