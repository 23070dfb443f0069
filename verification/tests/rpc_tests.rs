use tiny_web::rpc::{read_reply, status_reply, stop_reply, Signal};

#[test]
fn signals_by_value() {
    assert_eq!(Signal::of(5, 5, 7), Signal::Stop);
    assert_eq!(Signal::of(7, 5, 7), Signal::Status);
    assert_eq!(Signal::of(9, 5, 7), Signal::Unknown);
    assert_eq!(Signal::of(5, 5, 5), Signal::Stop);
}

#[test]
fn stop_reply_is_pid_big_endian() {
    assert_eq!(stop_reply(0x0102030405060708), vec![1, 2, 3, 4, 5, 6, 7, 8]);
    assert_eq!(stop_reply(0), vec![0; 8]);
}

#[test]
fn status_reply_text() {
    let r = status_reply(258, 3, 0, 1, 42);
    assert_eq!(&r[..8], &[0, 0, 0, 0, 0, 0, 1, 2]);
    let text = String::from_utf8(r[8..].to_vec()).unwrap();
    assert_eq!(
        text,
        "\nThe system is working ...\nNumber of workers: 3.\nLast worker id: empty.\nNumber of online requests: 1.\nNumber of total requests: 42.\n"
    );
    let r = status_reply(1, 1, 17, 0, 17);
    assert!(String::from_utf8(r[8..].to_vec()).unwrap().contains("Last worker id: 17."));
}

#[test]
fn reply_reads_back() {
    let r = status_reply(u64::MAX, 2, 5, 0, 9);
    let (pid, text) = read_reply(&r).unwrap();
    assert_eq!(pid, u64::MAX);
    assert!(text.starts_with("\nThe system is working"));
    assert_eq!(read_reply(&stop_reply(77)), Some((77, String::new())));
    assert_eq!(read_reply(&[1, 2, 3]), None);
    assert_eq!(read_reply(&[0, 0, 0, 0, 0, 0, 0, 1, 0xff]), None);
}
