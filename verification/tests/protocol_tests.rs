use tiny_web::fastcgi::{FastCGI, RecordStep};
use tiny_web::request::HeadInfo;
use tiny_web::scgi::Scgi;

fn scgi_block(pairs: &[(&str, &str)]) -> Vec<u8> {
    let mut b = Vec::new();
    for (k, v) in pairs {
        b.extend_from_slice(k.as_bytes());
        b.push(0);
        b.extend_from_slice(v.as_bytes());
        b.push(0);
    }
    b
}

fn fcgi_pair(k: &str, v: &str) -> Vec<u8> {
    let mut b = Vec::new();
    for s in [k, v] {
        let l = s.len();
        if l < 128 {
            b.push(l as u8);
        } else {
            b.extend_from_slice(&((l as u32) | 0x8000_0000).to_be_bytes());
        }
    }
    b.extend_from_slice(k.as_bytes());
    b.extend_from_slice(v.as_bytes());
    b
}

#[test]
fn scgi_read_next_finds_nul() {
    assert_eq!(Scgi::read_next(b"ab\0cd"), Some(2));
    assert_eq!(Scgi::read_next(b"abcd"), None);
    assert_eq!(Scgi::read_next(b""), None);
}

#[test]
fn scgi_separator_needs_digits() {
    assert_eq!(Scgi::read_separator(b"70:CONTENT"), Some(2));
    assert_eq!(Scgi::read_separator(b"7a:"), None);
    assert_eq!(Scgi::read_separator(b"123"), None);
    assert_eq!(Scgi::read_separator(b":x"), Some(0));
    assert_eq!(Scgi::read_colon(b"ab:c"), Some(2));
}

#[test]
fn scgi_header_len() {
    assert_eq!(Scgi::header_len(b"70:CONTENT_LENGTH"), Some((70, 2)));
    assert_eq!(Scgi::header_len(b"1234567:"), Some((1234567, 7)));
    assert_eq!(Scgi::header_len(b"12345678:"), None);
    assert_eq!(Scgi::header_len(b":"), None);
    assert_eq!(Scgi::header_len(b"12"), None);
}

#[test]
fn scgi_read_header_applies_pairs() {
    let mut b = scgi_block(&[
        ("CONTENT_LENGTH", "27"),
        ("REQUEST_METHOD", "POST"),
        ("HTTP_HOST", "example.com"),
        ("REDIRECT_URL", "/a%20b?x=1"),
        ("QUERY_STRING", "x=1&y=%D0%B0"),
        ("HTTP_COOKIE", "a=1; b=2"),
        ("HTTP_X_REQUESTED_WITH", "XMLHttpRequest"),
        ("SERVER_NAME", "srv"),
    ]);
    b.push(b',');
    let h = Scgi::read_header(&b).unwrap();
    assert_eq!(h.content_len, 27);
    assert_eq!(h.method, "POST");
    assert_eq!(h.host, "example.com");
    assert_eq!(h.url, "/a b");
    assert_eq!(h.scheme, "https");
    assert!(h.ajax);
    assert_eq!(h.get, vec![("x".to_string(), "1".to_string()), ("y".to_string(), "а".to_string())]);
    assert_eq!(h.cookie, vec![("a".to_string(), "1".to_string()), ("b".to_string(), "2".to_string())]);
    assert_eq!(h.params, vec![("SERVER_NAME".to_string(), "srv".to_string())]);
}

#[test]
fn scgi_last_pair_needs_a_following_byte() {
    let b = scgi_block(&[("HTTP_HOST", "h"), ("REQUEST_METHOD", "GET")]);
    let h = Scgi::read_header(&b).unwrap();
    assert_eq!(h.host, "h");
    assert_eq!(h.method, "");
}

#[test]
fn scgi_refuses_invalid_utf8() {
    let mut b = Vec::new();
    b.extend_from_slice(b"HTTP_HOST\0");
    b.push(0xff);
    b.extend_from_slice(b"\0,");
    assert!(Scgi::read_header(&b).is_none());
}

#[test]
fn fastcgi_record_header() {
    let h = FastCGI::read_header(&[1, 4, 0, 1, 1, 2, 3, 0]);
    assert_eq!(h.header_type, 4);
    assert_eq!(h.content_length, 258);
    assert_eq!(h.padding_length, 3);
}

#[test]
fn fastcgi_read_param() {
    let long = "x".repeat(200);
    let mut d = fcgi_pair("REQUEST_METHOD", "GET");
    d.extend(fcgi_pair("HTTP_USER_AGENT", &long));
    d.extend(fcgi_pair("CONTENT_LENGTH", "5"));
    d.extend(fcgi_pair("REMOTE_ADDR", "10.0.0.1"));
    let h = FastCGI::read_param(&d);
    assert_eq!(h.method, "GET");
    assert_eq!(h.agent, long);
    assert_eq!(h.ip.as_deref(), Some("10.0.0.1"));
    assert_eq!(h.content_len, 0);
    assert_eq!(h.params, vec![("CONTENT_LENGTH".to_string(), "5".to_string())]);
}

#[test]
fn fastcgi_read_param_stops_at_short_data() {
    let mut d = fcgi_pair("HTTP_HOST", "a");
    d.extend_from_slice(&[9, 5, b'H']);
    let h = FastCGI::read_param(&d);
    assert_eq!(h.host, "a");
    assert!(h.params.is_empty());
}

#[test]
fn fastcgi_write_frames_answer() {
    let out = FastCGI::write(b"hello".to_vec(), false);
    assert_eq!(out, vec![1, 6, 0, 1, 0, 5, 0, 0, b'h', b'e', b'l', b'l', b'o']);
    let end = FastCGI::write(Vec::new(), true);
    assert_eq!(end, vec![1, 6, 0, 1, 0, 0, 0, 0, 1, 3, 0, 1, 0, 8, 0, 0, 0, 0, 0, 0, 0, 0, 0, 0]);
}

#[test]
fn fastcgi_write_splits_long_answers() {
    let answer = vec![7u8; 70000];
    let out = FastCGI::write(answer, false);
    assert_eq!(out.len(), 70000 + 16);
    assert_eq!(&out[0..8], &[1, 6, 0, 1, 255, 255, 0, 0]);
    assert_eq!(&out[8 + 65535..8 + 65535 + 8], &[1, 6, 0, 1, 0x11, 0x71, 0, 0]);
}

#[test]
fn head_info_starts_empty() {
    let h = HeadInfo::new("http");
    assert_eq!(h.scheme, "http");
    assert!(h.get.is_empty());
    assert_eq!(h.content_len, 0);
    assert!(h.ip.is_none());
    assert_eq!(h.site, "");
}

#[test]
fn length_prefix_reads_back() {
    for n in [0usize, 7, 123, 9_999_999] {
        let mut b = n.to_string().into_bytes();
        b.push(b':');
        b.extend_from_slice(b"CONTENT_LENGTH");
        assert_eq!(Scgi::header_len(&b), Some((n, n.to_string().len())));
    }
}

#[test]
fn fastcgi_records_build_a_request() {
    let mut b = FastCGI::new_build();
    assert!(matches!(FastCGI::take_record(&mut b, 4, b"ab"), RecordStep::More));
    assert!(matches!(FastCGI::take_record(&mut b, 5, b"body"), RecordStep::More));
    assert!(matches!(FastCGI::take_record(&mut b, 4, b"c"), RecordStep::More));
    assert!(matches!(FastCGI::take_record(&mut b, 4, b""), RecordStep::More));
    assert!(b.params_done && !b.stdin_done);
    assert!(matches!(FastCGI::take_record(&mut b, 5, b""), RecordStep::Complete));
    assert_eq!(b.params, b"abc".to_vec());
    assert_eq!(b.stdin, b"body".to_vec());
}

#[test]
fn fastcgi_other_record_aborts() {
    let mut b = FastCGI::new_build();
    assert!(matches!(FastCGI::take_record(&mut b, 4, b"x"), RecordStep::More));
    assert!(matches!(FastCGI::take_record(&mut b, 9, b"y"), RecordStep::Abort));
    assert_eq!(b.params, b"x".to_vec());
    assert!(b.stdin.is_empty());
}

#[test]
fn fastcgi_site_from_scheme_and_host() {
    let mut data = fcgi_pair("HTTP_HOST", "example.com");
    data.extend(fcgi_pair("ABCD", "z"));
    let h = FastCGI::read_param(&data);
    assert_eq!(h.host, "example.com");
    assert_eq!(h.scheme, "https");
    assert_eq!(h.site, "https://example.com");
}

#[test]
fn scgi_site_from_scheme_and_host() {
    let h = Scgi::read_header(&scgi_block(&[("HTTP_HOST", "h.org"), ("REQUEST_SCHEME", "http")])).unwrap();
    assert_eq!(h.site, format!("{}://{}", h.scheme, h.host));
}
