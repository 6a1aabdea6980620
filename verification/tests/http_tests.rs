use hugo::{
    closing_response, http_response, request_body, whole_seconds, RequestError, BAD_REQUEST, OK,
};
use std::time::Duration;

#[test]
fn body_follows_the_blank_line() {
    let request = b"POST / HTTP/1.1\r\nHost: hugo\r\n\r\nprogramme = \"life\"";
    assert_eq!(request_body(request).unwrap(), b"programme = \"life\"".to_vec());
}

#[test]
fn body_follows_the_first_blank_line() {
    let request = b"a\r\n\r\nb\r\n\r\nc";
    assert_eq!(request_body(request).unwrap(), b"b\r\n\r\nc".to_vec());
}

#[test]
fn empty_body() {
    assert_eq!(request_body(b"\r\n\r\n").unwrap(), Vec::<u8>::new());
}

#[test]
fn request_without_blank_line() {
    assert!(matches!(request_body(b"GET / HTTP/1.1\r\nHost: hugo\r\n"), Err(RequestError::NoBlankLine)));
    assert!(matches!(request_body(b""), Err(RequestError::NoBlankLine)));
    assert!(matches!(request_body(b"\r\n\r"), Err(RequestError::NoBlankLine)));
}

#[test]
fn request_that_is_not_utf8() {
    match request_body(b"\xff\r\n\r\nbody") {
        Err(RequestError::InvalidUtf8(error)) => assert_eq!(error.valid_up_to(), 0),
        _ => panic!("expected a UTF-8 error"),
    }
}

#[test]
fn responses() {
    assert_eq!(http_response(OK, ""), "HTTP/1.1 200 OK\r\n\r\n");
    assert_eq!(closing_response(None), "HTTP/1.1 200 OK\r\n\r\n");
    assert_eq!(
        closing_response(Some("no blank line in http request")),
        "HTTP/1.1 400 Bad Request\r\n\r\nno blank line in http request"
    );
    assert_eq!(BAD_REQUEST, "400 Bad Request");
}

#[test]
fn whole_seconds_count_negatives_as_none() {
    assert_eq!(whole_seconds(7), Duration::from_secs(7));
    assert_eq!(whole_seconds(0), Duration::ZERO);
    assert_eq!(whole_seconds(-5), Duration::ZERO);
    assert_eq!(whole_seconds(i64::MAX), Duration::from_secs(i64::MAX as u64));
}
