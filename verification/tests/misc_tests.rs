use tiny_web::app::App;
use tiny_web::app_init::AutoCount;
use tiny_web::arg::{Arg, InitArgs, Mode, RunMode};
use tiny_web::db::{KeyOrQuery, ToSql, WithoutSql};
use tiny_web::file::{Log, LogView, TempFile};
use tiny_web::fnv1a_64;
use tiny_web::group::StrOrI64OrUSize;
use tiny_web::init::Config;
use tiny_web::request::HttpMethod;

#[test]
fn temp_file_names() {
    assert_eq!(TempFile::name_for(1700000000, 42), b"tiny_1700000000_42.tmp".to_vec());
    assert_eq!(TempFile::name_for(0, 0), b"tiny_0_0.tmp".to_vec());
}

#[test]
fn log_messages() {
    let w = Log::warning(3004, Some("bad".to_string()), 12, "mail.rs");
    assert!(matches!(w.view, LogView::Warning));
    assert_eq!((w.number, w.line, w.file.as_str()), (3004, 12, "mail.rs"));
    assert_eq!(w.text.as_deref(), Some("bad"));
    assert!(matches!(Log::info(1, None, 0, "a").view, LogView::Info));
    assert!(matches!(Log::stop(1, None, 0, "a").view, LogView::Stop));
    assert!(matches!(Log::error(1, None, 0, "a").view, LogView::Error));
}

#[test]
fn log_lines() {
    let w = Log::warning(3004, Some("bad".to_string()), 12, "mail.rs");
    let line = Log::line(&w, 77, "2024-01-02 03:04:05");
    assert_eq!(
        String::from_utf8(line).unwrap(),
        "ID: 77 Time: 2024-01-02 03:04:05 Type: Warning. Number: 3004 Line:12 File:mail.rs bad\n"
    );
    let i = Log::info(5, None, 1, "x.rs");
    assert_eq!(String::from_utf8(Log::line(&i, 1, "t")).unwrap(), "ID: 1 Time: t Type: Info. Number: 5 Line:1 File:x.rs \n");
}

#[test]
fn query_keys() {
    assert_eq!(KeyOrQuery::to_i64(&42i64), 42);
    assert_eq!(KeyOrQuery::to_str(&42i64), "key_statement");
    assert!(KeyOrQuery::is_key(&42i64));
    assert_eq!(KeyOrQuery::to_i64(&"select 1"), 0);
    assert_eq!(KeyOrQuery::to_str(&"select 1"), "select 1");
    assert!(!KeyOrQuery::is_key(&"select 1"));
}

#[test]
fn group_keys() {
    assert_eq!(StrOrI64OrUSize::to_i64(&5i64), 5);
    assert_eq!(StrOrI64OrUSize::to_usize(&5i64), 0);
    assert_eq!(StrOrI64OrUSize::to_i64(&"name"), fnv1a_64(b"name"));
    assert_eq!(StrOrI64OrUSize::to_usize(&"name"), 0);
    assert_eq!(StrOrI64OrUSize::to_i64(&3usize), 0);
    assert_eq!(StrOrI64OrUSize::to_usize(&3usize), 3);
}

#[test]
fn values_for_queries() {
    1i64.to_sql();
    "a".to_sql();
    String::from("b").to_sql();
    true.to_sql();
}

#[test]
fn no_database_adapter() {
    let c = Config::default(1, None);
    assert!(WithoutSql::new(&c.db).is_none());
}

#[test]
fn http_methods_by_name() {
    assert!(matches!(HttpMethod::from_name("GET"), HttpMethod::Get));
    assert!(matches!(HttpMethod::from_name("PATCH"), HttpMethod::Patch));
    assert!(matches!(HttpMethod::from_name("get"), HttpMethod::Other(ref m) if m == "get"));
}

#[test]
fn auto_count_zero_for_auto() {
    assert_eq!(AutoCount::<usize>::Auto.value(), 0);
}

#[test]
fn command_line_modes() {
    let w = |v: &[&str]| v.iter().map(|s| s.to_string()).collect::<Vec<String>>();
    let a = Arg::parse(&w(&["tiny", "start"]));
    assert!(matches!(a.mode, Mode::Start) && a.root.is_none());
    let a = Arg::parse(&w(&["tiny"]));
    assert!(matches!(a.mode, Mode::Help));
    let a = Arg::parse(&w(&["tiny", "run", "-r", "/srv", "stop"]));
    assert!(matches!(a.mode, Mode::Stop));
    assert_eq!(a.root.as_deref(), Some("/srv"));
    let a = Arg::parse(&w(&["tiny", "status", "-r"]));
    assert!(matches!(a.mode, Mode::Status) && a.root.is_none());
    let a = Arg::parse(&w(&["tiny", "-r", "run"]));
    assert!(matches!(a.mode, Mode::Help));
    assert_eq!(a.root.as_deref(), Some("run"));
}

#[test]
fn salts() {
    let s = App::salt_from(b"0123456789abcdefghijklmnopqrstuvwxyz");
    assert_eq!(s, "0123456789abcdefghijklmnopqrstuv");
    let g = App::generate_salt();
    assert_eq!(g.chars().count(), 32);
    let symbols = "123467890-+_)(*&^%$#@!qazedcrfvtgbyhnujmik,ol.p;/[]:?><|";
    assert!(g.chars().all(|c| c.is_ascii_digit() || ('a'..='f').contains(&c) || symbols.contains(c)));
    let h = App::generate_salt();
    assert_eq!(h.len(), 32);
}

#[test]
fn startup_options() {
    let w = |v: &[&str]| v.iter().map(|s| s.to_string()).collect::<Vec<String>>();
    let a = InitArgs::parse(&w(&["tiny", "start", "-r", "/srv", "-l", "uk"]));
    assert!(matches!(a.mode, RunMode::Start));
    assert_eq!(a.path.as_deref(), Some("/srv"));
    assert_eq!(a.lang.as_deref(), Some("uk"));
    assert!(a.refused.is_empty());
    let a = InitArgs::parse(&w(&["tiny", "go", "-l", "ukr", "x", "-r"]));
    assert!(matches!(a.mode, RunMode::Go));
    assert_eq!(a.refused, vec!["ukr".to_string()]);
    assert!(a.path.is_none() && a.lang.is_none());
    let a = InitArgs::parse(&w(&["tiny", "help", "-r", "/srv"]));
    assert!(matches!(a.mode, RunMode::Help) && a.path.is_none());
    let a = InitArgs::parse(&w(&["tiny"]));
    assert!(matches!(a.mode, RunMode::Help));
}
