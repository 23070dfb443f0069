use tiny_web::db::{pg_connect_string, WithoutSql};
use tiny_web::init::DBConfig;

fn config(port: Option<u16>, user: Option<&str>, pwd: Option<&str>, sslmode: bool) -> DBConfig {
    DBConfig {
        host: "db.local".to_string(),
        port,
        name: "shop".to_string(),
        user: user.map(|u| u.to_string()),
        pwd: pwd.map(|p| p.to_string()),
        sslmode,
        max: 4,
    }
}

#[test]
fn postgres_connection_text_full() {
    let c = config(Some(5432), Some("web"), Some("secret"), true);
    assert_eq!(
        pg_connect_string(&c, "tiny", "1.0"),
        "host='db.local' port='5432' dbname='shop' user='web' password='secret' sslmode=require connect_timeout=1 application_name='tiny 1.0' options='--client_encoding=UTF8'"
    );
}

#[test]
fn postgres_connection_text_minimal() {
    let c = config(None, None, None, false);
    assert_eq!(
        pg_connect_string(&c, "app", "0.1.2"),
        "host='db.local' dbname='shop' connect_timeout=1 application_name='app 0.1.2' options='--client_encoding=UTF8'"
    );
}

#[test]
fn without_sql_has_no_database() {
    let c = config(None, None, None, false);
    assert!(WithoutSql::new(&c).is_none());
}
