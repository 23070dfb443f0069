use tiny_web::request::HttpVersion;
use tiny_web::response::{Redirect, Response};
use tiny_web::worker::Worker;

#[test]
fn reason_phrases() {
    assert_eq!(Worker::http_code_get(200), "OK");
    assert_eq!(Worker::http_code_get(404), "Not Found");
    assert_eq!(Worker::http_code_get(418), "(Unused)");
    assert_eq!(Worker::http_code_get(500), "Internal Server Error");
    assert_eq!(Worker::http_code_get(510), "Not Extended (OBSOLETED)");
    assert_eq!(Worker::http_code_get(299), "Unassigned");
    assert_eq!(Worker::http_code_get(0), "Unassigned");
}

#[test]
fn internal_error_answer() {
    assert_eq!(Worker::get_500("HTTP/1.1"), b"HTTP/1.1 500 Internal Server Error\r\n\r\n".to_vec());
    assert_eq!(Worker::get_500("Status:"), b"Status: 500 Internal Server Error\r\n\r\n".to_vec());
}

#[test]
fn default_head() {
    let r = Response::new();
    let h = Worker::get_header(&HttpVersion::HTTP1_1, &r, Some(5));
    assert_eq!(
        String::from_utf8(h).unwrap(),
        "HTTP/1.1 200 OK\r\nContent-Type: text/html; charset=utf-8\r\nConnection: Keep-Alive\r\nContent-Length: 5\r\n\r\n"
    );
}

#[test]
fn head_with_code_type_and_headers() {
    let mut r = Response::new();
    r.http_code = Some(404);
    r.content_type = Some("text/plain".to_string());
    r.headers.push(("X-A".to_string(), "1".to_string()));
    r.headers.push(("X-B".to_string(), "2".to_string()));
    let h = Worker::get_header(&HttpVersion::Nothing, &r, None);
    assert_eq!(
        String::from_utf8(h).unwrap(),
        "Status: 404 Not Found\r\nContent-Type: text/plain\r\nConnection: Keep-Alive\r\nX-A: 1\r\nX-B: 2\r\n\r\n"
    );
}

#[test]
fn head_of_redirects() {
    let mut r = Response::new();
    r.http_code = Some(500);
    r.redirect = Some(Redirect { url: "/to".to_string(), permanently: true });
    let h = Worker::get_header(&HttpVersion::HTTP1_0, &r, None);
    assert_eq!(
        String::from_utf8(h).unwrap(),
        "HTTP/1.0 301 Moved Permanently\r\nLocation: /to\r\nContent-Type: text/html; charset=utf-8\r\nConnection: Keep-Alive\r\n\r\n"
    );
    r.redirect = Some(Redirect { url: "/tmp".to_string(), permanently: false });
    let h = Worker::get_header(&HttpVersion::HTTP2, &r, Some(0));
    assert_eq!(
        String::from_utf8(h).unwrap(),
        "HTTP/2 302 Found\r\nLocation: /tmp\r\nContent-Type: text/html; charset=utf-8\r\nConnection: Keep-Alive\r\nContent-Length: 0\r\n\r\n"
    );
}

#[test]
fn new_response_is_empty() {
    let r = Response::new();
    assert!(r.redirect.is_none() && r.content_type.is_none() && r.http_code.is_none());
    assert!(r.headers.is_empty() && r.css.is_empty() && r.js.is_empty() && r.meta.is_empty());
}

#[test]
fn redirect_answers() {
    let r = Redirect { url: "/a/b".to_string(), permanently: true };
    assert_eq!(Worker::get_redirect("HTTP/1.1", &r), b"HTTP/1.1 301 Moved Permanently\r\nLocation: /a/b\r\n\r\n".to_vec());
    let r = Redirect { url: "/x".to_string(), permanently: false };
    assert_eq!(Worker::get_redirect("Status:", &r), b"Status: 302 Found\r\nLocation: /x\r\n\r\n".to_vec());
}

#[test]
fn status_line_starts() {
    assert_eq!(Worker::status_start(&HttpVersion::Nothing), "Status:");
    assert_eq!(Worker::status_start(&HttpVersion::HTTP1_0), "HTTP/1.0");
    assert_eq!(Worker::status_start(&HttpVersion::HTTP1_1), "HTTP/1.1");
    assert_eq!(Worker::status_start(&HttpVersion::HTTP2), "HTTP/2");
}
