use tiny_web::multipart::read_parts;
use tiny_web::request::RawData;
use tiny_web::worker::Worker;

fn p(a: &str, b: &str) -> (String, String) {
    (a.to_string(), b.to_string())
}

fn body() -> Vec<u8> {
    let mut b = Vec::new();
    b.extend_from_slice(b"--XYZ\r\nContent-Disposition: form-data; name=\"a\"\r\n\r\nhello\r\n");
    b.extend_from_slice(b"--XYZ\r\nContent-Disposition: form-data; name=\"f\"; filename=\"t.txt\"\r\nContent-Type: text/plain\r\n\r\nDATA\r\n");
    b.extend_from_slice(b"--XYZ\r\nContent-Disposition: form-data; name=\"a\"\r\n\r\nagain\r\n");
    b.extend_from_slice(b"--XYZ--\r\n");
    b
}

#[test]
fn form_body_fields() {
    let r = Worker::read_input(b"a=1&b=2&a=3&c".to_vec(), Some("application/x-www-form-urlencoded"));
    assert_eq!(r.post, vec![p("a", "3"), p("b", "2"), p("c", "")]);
    assert!(r.files.is_empty());
    assert!(matches!(r.raw, RawData::Nothing));
}

#[test]
fn form_body_not_utf8_gives_nothing() {
    let r = Worker::read_input(vec![0xff, b'='], Some("application/x-www-form-urlencoded"));
    assert!(r.post.is_empty());
    let r = Worker::read_input(Vec::new(), Some("application/x-www-form-urlencoded"));
    assert!(r.post.is_empty());
}

#[test]
fn multipart_fields_and_files() {
    let r = Worker::read_input(body(), Some("multipart/form-data; boundary=XYZ"));
    assert_eq!(r.post, vec![p("a", "again")]);
    assert_eq!(r.files.len(), 1);
    assert_eq!(r.files[0].field, "f");
    assert_eq!(r.files[0].name, "t.txt");
    assert_eq!(r.files[0].data, b"DATA".to_vec());
    assert!(matches!(r.raw, RawData::Nothing));
}

#[test]
fn multipart_parts_in_order() {
    let parts = read_parts(&body(), b"--XYZ");
    assert_eq!(parts.len(), 3);
}

#[test]
fn multipart_without_closing_boundary_loses_last_part() {
    let mut b = Vec::new();
    b.extend_from_slice(b"--XYZ\r\nContent-Disposition: form-data; name=\"a\"\r\n\r\nhello\r\n");
    b.extend_from_slice(b"--XYZ\r\nContent-Disposition: form-data; name=\"b\"\r\n\r\nlost");
    let r = Worker::read_input(b, Some("multipart/form-data; boundary=XYZ"));
    assert_eq!(r.post, vec![p("a", "hello")]);
}

#[test]
fn other_bodies_are_raw() {
    let r = Worker::read_input(b"{}".to_vec(), Some("application/json"));
    assert!(matches!(r.raw, RawData::Raw(ref d) if d == b"{}"));
    let r = Worker::read_input(b"x".to_vec(), Some("multipart/form-data; boundary="));
    assert!(matches!(r.raw, RawData::Raw(_)));
    let r = Worker::read_input(b"x".to_vec(), None);
    assert!(matches!(r.raw, RawData::Raw(_)));
    let r = Worker::read_input(Vec::new(), None);
    assert!(matches!(r.raw, RawData::Nothing));
}
