use tiny_web::app_init::{AppInit, Async, AutoCount, Auth, Features, InitError, MailConfig, Net, Socket, Tls, Web};
use tiny_web::fnv1a_64;
use tiny_web::init::{parse_toml, ConfValue};

fn e(k: &str, v: ConfValue) -> (String, ConfValue) {
    (k.to_string(), v)
}

fn s(v: &str) -> ConfValue {
    ConfValue::Str(v.to_string())
}

fn arr(v: &[&str]) -> ConfValue {
    ConfValue::Array(v.iter().map(|x| s(x)).collect())
}

fn web() -> Vec<(String, ConfValue)> {
    vec![
        e("index", arr(&["index", "index", "index"])),
        e("lang", s("en")),
        e("salt", s("pepper")),
        e("session", s("sid")),
        e("session_path", s("/tmp/sess")),
    ]
}

fn net() -> Vec<(String, ConfValue)> {
    vec![e("bind", s("127.0.0.1:8080")), e("bind_from", s("any")), e("rpc", s("/run/rpc.sock")), e("rpc_from", s(""))]
}

fn proc_section() -> Vec<(String, ConfValue)> {
    vec![
        e("event_interval", ConfValue::Int(61)),
        e("global_queue_interval", s("auto")),
        e("max_blocking_threads", ConfValue::Int(512)),
        e("max_io_events_per_tick", s("auto")),
        e("thread_keep_alive", ConfValue::Int(10)),
        e("thread_stack_size", s("auto")),
        e("worker_threads", s("auto")),
    ]
}

fn db() -> Vec<(String, ConfValue)> {
    vec![e("host", s("localhost")), e("max", s("auto")), e("name", s("tiny")), e("port", ConfValue::Int(5432)), e("ssl", ConfValue::Bool(false))]
}

fn mail() -> Vec<(String, ConfValue)> {
    vec![e("auth", s("LOGIN")), e("port", ConfValue::Int(587)), e("server", s("smtp.local")), e("tls", s("STARTTLS")), e("user", s("me"))]
}

fn full() -> Features {
    Features { lang: true, session: true, session_path: true, db: true, mail_sendmail: false, mail_file: false, mail_smtp: true }
}

fn bare() -> Features {
    Features { lang: false, session: false, session_path: false, db: false, mail_sendmail: false, mail_file: false, mail_smtp: false }
}

fn parse_full(v: &Vec<(String, ConfValue)>) -> Result<AppInit, InitError> {
    AppInit::parse("app".to_string(), "1.0".to_string(), "test".to_string(), v, full())
}

fn all() -> Vec<(String, ConfValue)> {
    vec![
        e("async", ConfValue::Table(proc_section())),
        e("db", ConfValue::Table(db())),
        e("mail", ConfValue::Table(mail())),
        e("net", ConfValue::Table(net())),
        e("web", ConfValue::Table(web())),
    ]
}

#[test]
fn auto_count_values() {
    assert_eq!(AutoCount::<usize>::Auto.value(), 0);
    assert_eq!(AutoCount::Count(7usize).value(), 7);
    assert_eq!(AutoCount::<u32>::Auto.value_u32(), 0);
    assert_eq!(AutoCount::Count(9u32).value_u32(), 9);
}

#[test]
fn sections_read() {
    let w = Web::from_table(&web(), full()).unwrap();
    assert_eq!(w.lang.as_deref(), Some("en"));
    assert_eq!(w.session_key.as_deref(), Some("sid"));
    assert_eq!(w.session_path.as_deref(), Some("/tmp/sess"));
    assert_eq!(w.index, [fnv1a_64(b"index"), fnv1a_64(b"index"), fnv1a_64(b"index")]);
    assert!(w.not_found.is_none());
    let n = Net::from_table(&net()).unwrap();
    assert!(matches!(&n.bind, Socket::Inet(a) if a == "127.0.0.1:8080"));
    assert!(matches!(&n.rpc, Socket::Unix(a) if a == "/run/rpc.sock"));
    assert_eq!(n.rpc_from, "");
    let a = Async::from_table(&proc_section()).unwrap();
    assert!(matches!(a.worker_threads, AutoCount::Auto));
    assert!(matches!(a.event_interval, AutoCount::Count(61)));
    assert!(matches!(a.max_blocking_threads, AutoCount::Count(512)));
}

#[test]
fn whole_configuration() {
    let a = parse_full(&all()).unwrap();
    assert_eq!(a.web.salt, "pepper");
    assert_eq!(a.db.as_ref().unwrap().host, "localhost");
    assert_eq!(a.db.as_ref().unwrap().port, Some(5432));
    assert!(matches!(a.db.as_ref().unwrap().max, AutoCount::Auto));
    assert!(!a.db.as_ref().unwrap().ssl);
    assert_eq!(a.mail.as_ref().unwrap().smtp.as_ref().unwrap().server, "smtp.local");
    assert_eq!(a.mail.as_ref().unwrap().smtp.as_ref().unwrap().port, 587);
    assert!(matches!(a.mail.as_ref().unwrap().smtp.as_ref().unwrap().tls, Tls::Start));
    assert!(matches!(a.mail.as_ref().unwrap().smtp.as_ref().unwrap().auth, Auth::Login));
    assert_eq!(a.mail.as_ref().unwrap().smtp.as_ref().unwrap().user.as_deref(), Some("me"));
    assert!(a.mail.as_ref().unwrap().smtp.as_ref().unwrap().pwd.is_none());
}

#[test]
fn configuration_from_toml_text() {
    let text = "[web]\nlang = \"en\"\nsalt = \"x\"\nsession = \"s\"\nsession_path = \"/p\"\nindex = [\"a\", \"b\", \"c\"]\nnot_found = [\"a\", \"b\", \"nf\"]\n\
                [net]\nbind = \"/run/a\"\nbind_from = \"\"\nrpc = \"127.0.0.1:1\"\nrpc_from = \"127.0.0.1\"\n\
                [async]\nworker_threads = 2\nevent_interval = \"auto\"\nglobal_queue_interval = \"auto\"\nmax_blocking_threads = \"auto\"\nmax_io_events_per_tick = \"auto\"\nthread_keep_alive = \"auto\"\nthread_stack_size = \"auto\"\n\
                [db]\nhost = \"h\"\nname = \"n\"\nssl = true\nmax = 3\n\
                [mail]\nserver = \"m\"\nport = 25\ntls = \"NONE\"\nauth = \"NONE\"\n";
    let entries = parse_toml(text).unwrap();
    let a = parse_full(&entries).unwrap();
    assert_eq!(a.web.not_found, Some([fnv1a_64(b"a"), fnv1a_64(b"b"), fnv1a_64(b"nf")]));
    assert!(matches!(a.proc.worker_threads, AutoCount::Count(2)));
    assert!(matches!(a.db.as_ref().unwrap().max, AutoCount::Count(3)));
    assert!(a.db.as_ref().unwrap().ssl);
    assert_eq!(a.db.as_ref().unwrap().port, None);
    assert!(matches!(a.mail.as_ref().unwrap().smtp.as_ref().unwrap().tls, Tls::Plain));
    assert!(matches!(a.mail.as_ref().unwrap().smtp.as_ref().unwrap().auth, Auth::Plain));
}

#[test]
fn missing_sections_are_errors() {
    let mut v = all();
    v.retain(|(k, _)| k != "mail");
    assert!(matches!(parse_full(&v), Err(InitError::NoMail)));
    let mut v = all();
    v.retain(|(k, _)| k != "web");
    assert!(matches!(parse_full(&v), Err(InitError::NoWeb)));
    assert!(matches!(parse_full(&Vec::new()), Err(InitError::NoWeb)));
}

#[test]
fn field_errors() {
    let mut w = web();
    w.retain(|(k, _)| k != "salt");
    assert!(matches!(Web::from_table(&w, full()), Err(InitError::WebSalt)));
    let mut w = web();
    w[0] = e("index", arr(&["a", "", "c"]));
    assert!(matches!(Web::from_table(&w, full()), Err(InitError::WebIndex)));
    let mut n = net();
    n.retain(|(k, _)| k != "rpc");
    assert!(matches!(Net::from_table(&n), Err(InitError::NetRpc)));
    let mut p = proc_section();
    p[0] = e("event_interval", ConfValue::Int(-1));
    assert!(matches!(Async::from_table(&p), Err(InitError::EventInterval)));
    let mut v = all();
    let mut m = mail();
    m[3] = e("tls", s("maybe"));
    v[2] = e("mail", ConfValue::Table(m));
    assert!(matches!(parse_full(&v), Err(InitError::MailTls)));
    let mut v = all();
    let mut d = db();
    d[3] = e("port", ConfValue::Int(70000));
    v[1] = e("db", ConfValue::Table(d));
    assert!(matches!(parse_full(&v), Err(InitError::DbPort)));
}

#[test]
fn later_value_of_a_key_wins() {
    let mut w = web();
    w.push(e("lang", s("ru")));
    assert_eq!(Web::from_table(&w, full()).unwrap().lang.as_deref(), Some("ru"));
}

#[test]
fn name_version_and_description_are_kept() {
    let a = parse_full(&all()).unwrap();
    assert_eq!(a.name, "app");
    assert_eq!(a.version, "1.0");
    assert_eq!(a.desc, "test");
}

#[test]
fn without_features_net_is_still_needed() {
    let w = vec![e("salt", s("s")), e("index", arr(&["m", "c", "a"]))];
    let p = vec![
        e("worker_threads", s("auto")),
        e("event_interval", s("auto")),
        e("global_queue_interval", s("auto")),
        e("max_blocking_threads", s("auto")),
        e("max_io_events_per_tick", s("auto")),
        e("thread_keep_alive", s("auto")),
        e("thread_stack_size", s("auto")),
    ];
    let v = vec![e("web", ConfValue::Table(w)), e("async", ConfValue::Table(p))];
    let r = AppInit::parse("n".to_string(), "v".to_string(), "d".to_string(), &v, bare());
    assert!(matches!(r, Err(InitError::NoNet)));
}

#[test]
fn without_features_web_net_and_async_suffice() {
    let w = vec![e("salt", s("s")), e("index", arr(&["m", "c", "a"]))];
    let n = vec![e("bind", s("127.0.0.1:8080")), e("bind_from", s("")), e("rpc", s("127.0.0.1:8081")), e("rpc_from", s("127.0.0.1"))];
    let mut p = proc_section();
    p.push(e("worker_threads", s("auto")));
    let v = vec![e("web", ConfValue::Table(w)), e("net", ConfValue::Table(n)), e("async", ConfValue::Table(p))];
    let i = AppInit::parse("n".to_string(), "v".to_string(), "d".to_string(), &v, bare()).unwrap();
    assert_eq!(i.name, "n");
    assert_eq!(i.version, "v");
    assert_eq!(i.desc, "d");
    assert_eq!(i.web.salt, "s");
    assert_eq!(i.web.index, [fnv1a_64(b"m"), fnv1a_64(b"c"), fnv1a_64(b"a")]);
    assert!(i.web.not_found.is_none());
    assert!(i.web.lang.is_none() && i.web.session_key.is_none() && i.web.session_path.is_none());
    assert!(matches!(&i.net.bind, Socket::Inet(a) if a == "127.0.0.1:8080"));
    assert!(matches!(i.proc.worker_threads, AutoCount::Auto));
    assert!(matches!(i.proc.event_interval, AutoCount::Count(61)));
    assert!(i.db.is_none() && i.mail.is_none());
}

#[test]
fn sections_of_features_left_out_are_passed_over() {
    let mut m = mail();
    m[3] = e("tls", s("maybe"));
    let mut v = all();
    v[2] = e("mail", ConfValue::Table(m));
    let f = Features { mail_smtp: false, ..full() };
    let a = AppInit::parse("n".to_string(), "v".to_string(), "d".to_string(), &v, f).unwrap();
    assert!(a.mail.is_none());
    assert!(a.db.is_some());
    let mut v = all();
    v.retain(|(k, _)| k != "db");
    let f = Features { db: false, ..full() };
    assert!(AppInit::parse("n".to_string(), "v".to_string(), "d".to_string(), &v, f).unwrap().db.is_none());
}

#[test]
fn web_settings_follow_features() {
    let w = vec![e("salt", s("s")), e("index", arr(&["m", "c", "a"])), e("lang", s("en"))];
    assert!(matches!(Web::from_table(&w, full()), Err(InitError::WebSession)));
    let f = Features { session: false, session_path: false, ..full() };
    let r = Web::from_table(&w, f).unwrap();
    assert_eq!(r.lang.as_deref(), Some("en"));
    assert!(r.session_key.is_none());
    let f = Features { lang: true, ..bare() };
    let w = vec![e("salt", s("s")), e("index", arr(&["m", "c", "a"]))];
    assert!(matches!(Web::from_table(&w, f), Err(InitError::WebLang)));
    assert!(Web::from_table(&w, bare()).unwrap().lang.is_none());
}

#[test]
fn mail_settings_follow_features() {
    let f = Features { mail_sendmail: true, mail_file: true, mail_smtp: false, ..bare() };
    let m = vec![e("sendmail", s("/usr/sbin/sendmail")), e("path", s("/var/mail"))];
    let c = MailConfig::from_table(&m, f).unwrap();
    assert_eq!(c.sendmail.as_deref(), Some("/usr/sbin/sendmail"));
    assert_eq!(c.path.as_deref(), Some("/var/mail"));
    assert!(c.smtp.is_none());
    let m = vec![e("path", s("/var/mail"))];
    assert!(matches!(MailConfig::from_table(&m, f), Err(InitError::MailSendmail)));
    let m = vec![e("sendmail", s("/usr/sbin/sendmail")), e("path", s(""))];
    assert!(matches!(MailConfig::from_table(&m, f), Err(InitError::MailPath)));
    let f = Features { mail_smtp: true, ..f };
    let m = vec![e("sendmail", s("/usr/sbin/sendmail")), e("path", s("/var/mail"))];
    assert!(matches!(MailConfig::from_table(&m, f), Err(InitError::MailServer)));
    let mut v = all();
    v.retain(|(k, _)| k != "mail");
    let f = Features { mail_sendmail: true, mail_smtp: false, ..full() };
    assert!(matches!(AppInit::parse("n".to_string(), "v".to_string(), "d".to_string(), &v, f), Err(InitError::NoMail)));
}
