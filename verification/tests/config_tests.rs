use tiny_web::fnv1a_64;
use tiny_web::init::{parse_toml, AcceptAddr, Addr, ConfError, ConfValue, Config};

fn e(k: &str, v: ConfValue) -> (String, ConfValue) {
    (k.to_string(), v)
}

fn s(v: &str) -> ConfValue {
    ConfValue::Str(v.to_string())
}

#[test]
fn toml_text_gives_sorted_entries() {
    let t = parse_toml("max = 4\nlang = \"ru\"\ndb_host = \"localhost\"\nsslmode = true\nratio = 1.5\n").unwrap();
    let keys: Vec<&str> = t.iter().map(|(k, _)| k.as_str()).collect();
    assert_eq!(keys, vec!["db_host", "lang", "max", "ratio", "sslmode"]);
    assert!(matches!(&t[0].1, ConfValue::Str(v) if v == "localhost"));
    assert!(matches!(t[2].1, ConfValue::Int(4)));
    assert!(matches!(t[3].1, ConfValue::Other));
    assert!(matches!(t[4].1, ConfValue::Bool(true)));
}

#[test]
fn toml_nested_values() {
    let t = parse_toml("list = [1, \"a\"]\n[web]\nport = 80\n").unwrap();
    assert!(matches!(&t[0].1, ConfValue::Array(a) if a.len() == 2));
    match &t[1].1 {
        ConfValue::Table(w) => {
            assert_eq!(w[0].0, "port");
            assert!(matches!(w[0].1, ConfValue::Int(80)));
        }
        _ => panic!("expected a table"),
    }
}

#[test]
fn toml_parse_errors() {
    assert!(parse_toml("= broken").is_none());
    assert!(parse_toml("a = ").is_none());
}

#[test]
fn load_reads_values() {
    let entries = vec![
        e("db_host", s("db.local")),
        e("db_port", ConfValue::Int(5432)),
        e("lang", s("ru")),
        e("max", ConfValue::Int(4)),
        e("salt", s("pepper")),
        e("sslmode", ConfValue::Bool(true)),
    ];
    let c = Config::load_conf(&entries, 8, true, None).unwrap();
    assert!(!c.is_default);
    assert_eq!(c.lang, "ru");
    assert_eq!(c.max, 4);
    assert_eq!(c.db.host, "db.local");
    assert_eq!(c.db.port, Some(5432));
    assert!(c.db.sslmode);
    assert_eq!(c.db.max, 24);
    assert_eq!(c.salt, "pepper");
    assert_eq!(c.stop_signal, fnv1a_64(b"stoppepper"));
    assert_eq!(c.status_signal, fnv1a_64(b"statuspepper"));
    assert!(c.warnings.is_empty());
    assert!(matches!(c.bind_accept, AcceptAddr::Any));
    assert!(matches!(&c.bind, Addr::SocketAddr(a) if a == "127.0.0.1:12500"));
}

#[test]
fn auto_connections_follow_max() {
    let entries = vec![e("db_host", s("h")), e("db_max", s("auto")), e("max", ConfValue::Int(2))];
    let c = Config::load_conf(&entries, 8, false, None).unwrap();
    assert_eq!(c.db.max, 24);
    let entries = vec![e("db_host", s("h")), e("max", ConfValue::Int(2)), e("zz", s("auto"))];
    let c = Config::load_conf(&entries, 8, false, None).unwrap();
    assert_eq!(c.db.max, 24);
    assert_eq!(c.max, 2);
}

#[test]
fn bad_values_are_warned_and_skipped() {
    let entries = vec![
        e("bind", s("nowhere")),
        e("db_host", s("h")),
        e("db_port", ConfValue::Int(70000)),
        e("lang", s("rus")),
        e("log", ConfValue::Int(1)),
        e("max", ConfValue::Int(0)),
        e("rpc_from", s("")),
    ];
    let c = Config::load_conf(&entries, 1, false, None).unwrap();
    assert_eq!(c.warnings, vec![61, 54, 57, 51, 52]);
    assert_eq!(c.lang, "en");
    assert_eq!(c.db.port, None);
    assert!(matches!(c.rpc_accept, AcceptAddr::Uds));
    assert!(c.log.is_none());
}

#[test]
fn addresses_and_log() {
    let entries = vec![
        e("bind", s("/run/tiny.sock")),
        e("bind_from", s("10.0.0.1")),
        e("db_host", s("h")),
        e("log", s("/var/log/tiny.log")),
        e("rpc", s("0.0.0.0:9")),
    ];
    let c = Config::load_conf(&entries, 1, false, Some("de".to_string())).unwrap();
    assert!(matches!(&c.bind, Addr::Uds(p) if p == "/run/tiny.sock"));
    assert!(matches!(&c.bind_accept, AcceptAddr::IpAddr(a) if a == "10.0.0.1"));
    assert!(matches!(&c.rpc, Addr::SocketAddr(a) if a == "0.0.0.0:9"));
    assert_eq!(c.log.as_deref(), Some("/var/log/tiny.log"));
    assert_eq!(c.lang, "de");
}

#[test]
fn load_errors() {
    let entries = vec![e("lang", s("ru"))];
    assert!(matches!(Config::load_conf(&entries, 1, false, None), Err(ConfError::NoDbHost)));
    let entries = vec![e("db_host", s(""))];
    assert!(matches!(Config::load_conf(&entries, 1, false, None), Err(ConfError::NoDbHost)));
    let entries = vec![e("db_host", s("h"))];
    assert!(matches!(Config::load_conf(&entries, 1, true, None), Err(ConfError::NoSalt)));
    assert!(Config::load_conf(&entries, 1, false, None).is_ok());
}

#[test]
fn default_configuration() {
    let c = Config::default(6, None);
    assert!(c.is_default);
    assert_eq!(c.lang, "en");
    assert_eq!(c.max, 6);
    assert_eq!(c.salt, "salt");
    assert_eq!(c.stop_signal, fnv1a_64(b"stopsalt"));
    assert_eq!(c.status_signal, fnv1a_64(b"statussalt"));
    assert_eq!(c.db.max, 0);
    assert_eq!(c.session, "tinysession");
    assert!(matches!(&c.rpc_accept, AcceptAddr::IpAddr(a) if a == "127.0.0.1"));
    assert!(matches!(&c.rpc, Addr::SocketAddr(a) if a == "127.0.0.1:12501"));
    assert_eq!(Config::default(1, Some("fr".to_string())).lang, "fr");
}
