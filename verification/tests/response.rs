use tinyhttp::not_found_response;
use tinyhttp::ok_response;

#[test]
fn test_ok_response_exact() {
    let r = ok_response(b"hello");
    let expect = b"HTTP/1.1 200 OK\r\nContent-Type: text/plain\r\nContent-Length: 5\r\n\r\nhello\r\n";
    assert_eq!(r, expect.to_vec());
}

#[test]
fn test_ok_response_empty_body() {
    let r = ok_response(b"");
    let expect = b"HTTP/1.1 200 OK\r\nContent-Type: text/plain\r\nContent-Length: 0\r\n\r\n\r\n";
    assert_eq!(r, expect.to_vec());
}

#[test]
fn test_ok_response_multi_digit_length() {
    let body = vec![b'x'; 123];
    let r = ok_response(&body);
    let mut expect =
        b"HTTP/1.1 200 OK\r\nContent-Type: text/plain\r\nContent-Length: 123\r\n\r\n".to_vec();
    expect.extend_from_slice(&body);
    expect.extend_from_slice(b"\r\n");
    assert_eq!(r, expect);
}

#[test]
fn test_ok_response_body_verbatim() {
    let body = b"line one\nline two\r\nend";
    let r = ok_response(body);
    let text = String::from_utf8(r).unwrap();
    assert_eq!(
        text,
        "HTTP/1.1 200 OK\r\nContent-Type: text/plain\r\nContent-Length: 22\r\n\r\nline one\nline two\r\nend\r\n"
    );
}

#[test]
fn test_not_found_exact() {
    let r = not_found_response();
    assert_eq!(r, b"HTTP/1.1 404 NOT FOUND\r\n\r\n".to_vec());
}
