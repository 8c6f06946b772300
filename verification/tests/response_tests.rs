use mws::response::{format_response, format_response_with_body};
use mws::server::{WebServer, CONNECTION_TIMEOUT_SECS};
use mws::status::Status;

#[test]
fn response_without_body() {
    let bytes = format_response(Status::OK);
    assert_eq!(bytes, b"HTTP/1.1 200 OK\r\nContent-Length: 0\r\n\r\n".to_vec());
}

#[test]
fn response_error_without_body() {
    let bytes = format_response(Status::InternalServerError);
    assert_eq!(
        bytes,
        b"HTTP/1.1 500 Internal Server Error\r\nContent-Length: 0\r\n\r\n".to_vec()
    );
}

#[test]
fn response_with_body_declares_exact_length() {
    let bytes = format_response_with_body(Status::OK, b"hello".to_vec());
    assert_eq!(
        bytes,
        b"HTTP/1.1 200 OK\r\nContent-Length: 5\r\n\r\nhello".to_vec()
    );
}

#[test]
fn response_with_empty_body_matches_bodyless_form() {
    let with_empty = format_response_with_body(Status::NotFound, Vec::new());
    let without = format_response(Status::NotFound);
    assert_eq!(with_empty, without);
    assert_eq!(
        without,
        b"HTTP/1.1 404 Not Found\r\nContent-Length: 0\r\n\r\n".to_vec()
    );
}

#[test]
fn response_length_with_many_digits() {
    let body = vec![b'x'; 1234];
    let bytes = format_response_with_body(Status::BadRequest, body.clone());
    let mut expect = b"HTTP/1.1 400 Bad Request\r\nContent-Length: 1234\r\n\r\n".to_vec();
    expect.extend(body);
    assert_eq!(bytes, expect);
}

#[test]
fn status_texts() {
    assert_eq!(Status::OK.text(), "200 OK");
    assert_eq!(Status::BadRequest.text(), "400 Bad Request");
    assert_eq!(Status::NotFound.text(), "404 Not Found");
    assert_eq!(Status::InternalServerError.text(), "500 Internal Server Error");
}

#[test]
fn server_configuration_is_kept() {
    let server = WebServer::new("0.0.0.0".to_string(), 8080, true);
    assert_eq!(server.host(), "0.0.0.0");
    assert_eq!(server.port(), 8080);
    assert!(server.verbose());
    assert_eq!(CONNECTION_TIMEOUT_SECS, 60);
}
