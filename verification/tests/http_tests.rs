use tiny_web::http::{find_head_end, read_head, HttpHeadError};
use tiny_web::request::{HeadInfo, HttpMethod, HttpVersion};

fn s(a: &str, b: &str) -> (String, String) {
    (a.to_string(), b.to_string())
}

#[test]
fn head_end_is_first_blank_line() {
    assert_eq!(find_head_end(b"GET / HTTP/1.1\r\nHost: a\r\n\r\nbody"), Some(23));
    assert_eq!(find_head_end(b"GET / HTTP/1.1\r\n"), None);
    assert_eq!(find_head_end(b""), None);
}

#[test]
fn read_head_reads_request_line_and_headers() {
    let h = read_head(b"POST /a?b=1 HTTP/1.1\r\nHost: example.com\r\ncontent-length: 12\r\nX-Custom: v").unwrap();
    assert!(matches!(h.version, HttpVersion::HTTP1_1));
    assert!(matches!(h.method, HttpMethod::Post));
    assert_eq!(h.size, Some(12));
    assert_eq!(h.header, vec![s("ORIGIN_URL", "/a?b=1"), s("HOST", "example.com"), s("X-CUSTOM", "v")]);
}

#[test]
fn read_head_versions_and_methods() {
    let h = read_head(b"GET / HTTP/1.0").unwrap();
    assert!(matches!(h.version, HttpVersion::HTTP1_0));
    assert!(matches!(h.method, HttpMethod::Get));
    let h = read_head(b"BREW /pot HTTP/2").unwrap();
    assert!(matches!(h.version, HttpVersion::Nothing));
    assert!(matches!(h.method, HttpMethod::Other(ref m) if m == "BREW"));
    assert_eq!(h.size, None);
}

#[test]
fn read_head_later_header_replaces_earlier() {
    let h = read_head(b"GET / HTTP/1.1\r\nHost: a\r\nHOST: b").unwrap();
    assert_eq!(h.header, vec![s("ORIGIN_URL", "/"), s("HOST", "b")]);
}

#[test]
fn read_head_zero_length_keeps_no_size() {
    let h = read_head(b"GET / HTTP/1.1\r\nContent-Length: 0").unwrap();
    assert_eq!(h.size, None);
}

#[test]
fn read_head_errors() {
    assert!(matches!(read_head(b"GET /"), Err(HttpHeadError::HttpProtocol)));
    assert!(matches!(read_head(b"GET / HTTP/1.1\r\nContent-Length: x"), Err(HttpHeadError::ContentLength)));
    assert!(matches!(read_head(b"GET / HTTP/1.1\r\nbroken line"), Err(HttpHeadError::Header)));
    assert!(matches!(read_head(b"GET / HTTP/1.1\r\nKey:"), Err(HttpHeadError::Header)));
    assert!(matches!(read_head(&[0xff, b' ', b'/', b' ', b'H']), Err(HttpHeadError::Utf8)));
}

#[test]
fn read_http_fills_parameters() {
    let header = vec![
        s("ORIGIN_URL", "/p%20q?x=1&y=2"),
        s("HOST", "example.com"),
        s("USER-AGENT", "ua"),
        s("COOKIE", "a=1; b=2"),
        s("X-REQUESTED-WITH", "xmlhttprequest"),
        s("ACCEPT", "*/*"),
    ];
    let h = HeadInfo::read_http(header, Some("1.2.3.4".to_string()));
    assert_eq!(h.url, "/p q");
    assert_eq!(h.host, "example.com");
    assert_eq!(h.agent, "ua");
    assert_eq!(h.scheme, "http");
    assert!(h.ajax);
    assert_eq!(h.ip.as_deref(), Some("1.2.3.4"));
    assert_eq!(h.get, vec![s("x", "1"), s("y", "2")]);
    assert_eq!(h.cookie, vec![s("a", "1"), s("b", "2")]);
    assert_eq!(h.params, vec![s("ACCEPT", "*/*")]);
}

#[test]
fn read_http_proxy_headers_win() {
    let header = vec![
        s("ORIGIN_URL", "/ignored?z=9"),
        s("X-REAL-IP", "9.9.9.9"),
        s("X-FORWARDED-PROTO", "https"),
        s("X-REQUEST-URI", "/real?q=1"),
    ];
    let h = HeadInfo::read_http(header, Some("1.2.3.4".to_string()));
    assert_eq!(h.ip.as_deref(), Some("9.9.9.9"));
    assert_eq!(h.scheme, "https");
    assert_eq!(h.url, "/real");
    assert_eq!(h.get, vec![s("q", "1")]);
}

#[test]
fn read_http_site() {
    let header = vec![("ORIGIN_URL".to_string(), "/a%20b?x=1&y".to_string()), ("HOST".to_string(), "h".to_string())];
    let h = HeadInfo::read_http(header, Some("10.0.0.1".to_string()));
    assert_eq!(h.site, "http://h");
    assert_eq!(h.host, "h");
    assert_eq!(h.ip.as_deref(), Some("10.0.0.1"));
}
