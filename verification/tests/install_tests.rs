use tiny_web::app::{trim, App, InstallQuestion, InstallReply};

fn ans(q: InstallQuestion, raw: &str) -> InstallReply {
    App::install_answer(q, raw, "/opt/app", "/opt/app/conf", "s4lt")
}

fn line(r: InstallReply) -> Option<String> {
    match r {
        InstallReply::Line(l) => Some(l),
        _ => None,
    }
}

#[test]
fn trim_removes_white_space() {
    assert_eq!(trim("  a b \n"), "a b");
    assert_eq!(trim("\u{3000}x\t"), "x");
    assert_eq!(trim(""), "");
}

#[test]
fn start_question() {
    assert!(matches!(ans(InstallQuestion::Start, ""), InstallReply::Line(ref l) if l.is_empty()));
    assert!(matches!(ans(InstallQuestion::Start, " Y "), InstallReply::Line(_)));
    assert!(matches!(ans(InstallQuestion::Start, "no"), InstallReply::Stop));
}

#[test]
fn config_path_question() {
    match ans(InstallQuestion::ConfigPath, "") {
        InstallReply::Path(f, d) => assert_eq!((f.as_str(), d.as_str()), ("/opt/app/tiny.conf", "/opt/app")),
        _ => panic!("expected a path"),
    }
    match ans(InstallQuestion::ConfigPath, "/etc/tiny/") {
        InstallReply::Path(f, d) => assert_eq!((f.as_str(), d.as_str()), ("/etc/tiny/tiny.conf", "/etc/tiny")),
        _ => panic!("expected a path"),
    }
    match ans(InstallQuestion::ConfigPath, "/etc/t") {
        InstallReply::Path(f, d) => assert_eq!((f.as_str(), d.as_str()), ("/etc/t/tiny.conf", "/etc/t")),
        _ => panic!("expected a path"),
    }
}

#[test]
fn language_question() {
    assert_eq!(line(ans(InstallQuestion::Lang, "")).as_deref(), Some("lang = en"));
    assert_eq!(line(ans(InstallQuestion::Lang, "RU")).as_deref(), Some("lang = ru"));
    assert!(matches!(ans(InstallQuestion::Lang, "rus"), InstallReply::Retry));
}

#[test]
fn number_questions() {
    assert_eq!(line(ans(InstallQuestion::Max, "")).as_deref(), Some("max = auto"));
    assert_eq!(line(ans(InstallQuestion::Max, "008")).as_deref(), Some("max = 8"));
    assert!(matches!(ans(InstallQuestion::Max, "70000"), InstallReply::Retry));
    assert_eq!(line(ans(InstallQuestion::DbPort, "")).as_deref(), Some("db_port = 5432"));
    assert_eq!(line(ans(InstallQuestion::DbPort, "6543")).as_deref(), Some("db_port = 6543"));
    assert!(matches!(ans(InstallQuestion::DbPort, "x"), InstallReply::Retry));
    assert_eq!(line(ans(InstallQuestion::DbMax, " 12 ")).as_deref(), Some("db_max = 12"));
}

#[test]
fn text_questions_fall_back_to_defaults() {
    assert_eq!(line(ans(InstallQuestion::Log, "")).as_deref(), Some("log = /opt/app/conf/tiny.log"));
    assert_eq!(line(ans(InstallQuestion::Log, "/var/t.log")).as_deref(), Some("log = /var/t.log"));
    assert_eq!(line(ans(InstallQuestion::BindFrom, "")).as_deref(), Some("bind_from = 127.0.0.1"));
    assert_eq!(line(ans(InstallQuestion::Bind, "")).as_deref(), Some("bind = 127.0.0.1:12500"));
    assert_eq!(line(ans(InstallQuestion::RpcFrom, "any")).as_deref(), Some("rpc_from = any"));
    assert_eq!(line(ans(InstallQuestion::Rpc, "")).as_deref(), Some("rpc = 127.0.0.1:12501"));
    assert_eq!(line(ans(InstallQuestion::Salt, "")).as_deref(), Some("salt = s4lt"));
    assert_eq!(line(ans(InstallQuestion::DbHost, "")).as_deref(), Some("db_host = 127.0.0.1"));
    assert_eq!(line(ans(InstallQuestion::DbName, "")).as_deref(), Some("db_name = tiny"));
    assert_eq!(line(ans(InstallQuestion::DbUser, "bob")).as_deref(), Some("db_user = bob"));
    assert_eq!(line(ans(InstallQuestion::DbPwd, "")).as_deref(), Some("db_pwd = "));
    assert_eq!(line(ans(InstallQuestion::Zone, "UTC")).as_deref(), Some("zone = UTC"));
}

#[test]
fn ssl_question() {
    assert_eq!(line(ans(InstallQuestion::SslMode, "")).as_deref(), Some("sslmode = no"));
    assert_eq!(line(ans(InstallQuestion::SslMode, "require")).as_deref(), Some("sslmode = require"));
    assert!(matches!(ans(InstallQuestion::SslMode, "yes"), InstallReply::Retry));
}

#[test]
fn salt_source_is_hex_then_symbols() {
    let s = App::salt_source_of(&[0xab, 0x01]);
    let mut expected = b"ab01".to_vec();
    expected.extend_from_slice(b"123467890-+_)(*&^%$#@!qazedcrfvtgbyhnujmik,ol.p;/[]:?><|");
    assert_eq!(s, expected);
    assert_eq!(App::salt_source_of(&[]).len(), 56);
}

#[test]
fn trim_edges() {
    assert_eq!(trim(" \t\r\n "), "");
    assert_eq!(trim("\u{85}a \u{2028} b\u{a0}"), "a \u{2028} b");
    assert_eq!(trim("x"), "x");
    assert_eq!(trim("é "), "é");
}
