//! What the database adapters share: statement keys, group keys, values
//! handed to queries, and the adapter used without a database.

use vstd::prelude::*;

use vstd::string::StringExecFns;

use crate::init::DBConfig;
use crate::text::{decimal, push_char, push_decimal};

verus! {

/// A query given by the key of a prepared statement or by its text.
pub trait KeyOrQuery {
    /// The key (0 for a text).
    fn to_i64(&self) -> i64;
    /// The text (`key_statement` for a key).
    fn to_str(&self) -> &str;
    /// Whether it is a key.
    fn is_key(&self) -> bool;
}

impl KeyOrQuery for i64 {
    fn to_i64(&self) -> (res: i64)
        ensures
            res == *self,
    {
        *self
    }

    fn to_str(&self) -> (res: &str)
        ensures
            res == "key_statement",
    {
        "key_statement"
    }

    fn is_key(&self) -> (res: bool)
        ensures
            res,
    {
        true
    }
}

impl<'a> KeyOrQuery for &'a str {
    fn to_i64(&self) -> (res: i64)
        ensures
            res == 0,
    {
        0
    }

    fn to_str(&self) -> (res: &str)
        ensures
            res@ == (**self)@,
    {
        *self
    }

    fn is_key(&self) -> (res: bool)
        ensures
            !res,
    {
        false
    }
}

/// A value that can be handed to a query.
pub trait ToSql {
    /// Marks the value as handed over.
    fn to_sql(&self);
}

impl ToSql for bool {
    fn to_sql(&self) {
    }
}

impl ToSql for i16 {
    fn to_sql(&self) {
    }
}

impl ToSql for i32 {
    fn to_sql(&self) {
    }
}

impl ToSql for i64 {
    fn to_sql(&self) {
    }
}

impl ToSql for String {
    fn to_sql(&self) {
    }
}

impl ToSql for Vec<u8> {
    fn to_sql(&self) {
    }
}

impl<'a> ToSql for &'a str {
    fn to_sql(&self) {
    }
}

/// A statement prepared at a Microsoft SQL server.
#[derive(Debug)]
pub struct MsStatement {
    /// Key of the statement.
    pub statement: i64,
    /// Its SQL text.
    pub sql: String,
}

/// A TLS certificate check that accepts every certificate.
#[derive(Debug)]
pub struct NoCertificateVerification;

/// The database adapter used when no database is configured.
#[derive(Debug)]
pub struct WithoutSql;

impl WithoutSql {
    /// There is no database to use: always `None`.
    pub fn new(_config: &DBConfig) -> (res: Option<WithoutSql>)
        ensures
            res is None,
    {
        None
    }

    /// Connecting never succeeds.
    pub fn connect(&mut self) -> (res: bool)
        ensures
            !res,
    {
        false
    }
}


/// The decimal text of a number, as characters.
pub open spec fn decimal_text(n: nat) -> Seq<char> {
    decimal(n).map_values(|b: u8| b as char)
}

/// The connection text for PostgreSQL: host, port (if given), database,
/// user and password (if given), `sslmode=require` when asked, a one-second
/// connect timeout, the application's name and version, and UTF-8 as the
/// client encoding.
pub open spec fn pg_connect_text(c: DBConfig, name: Seq<char>, version: Seq<char>) -> Seq<char> {
    "host='"@ + c.host@ + "' "@ + match c.port {
        Some(p) => "port='"@ + decimal_text(p as nat) + "' "@,
        None => Seq::empty(),
    } + "dbname='"@ + c.name@ + "' "@ + match c.user {
        Some(u) => "user='"@ + u@ + "' "@,
        None => Seq::empty(),
    } + match c.pwd {
        Some(p) => "password='"@ + p@ + "' "@,
        None => Seq::empty(),
    } + (if c.sslmode {
        "sslmode=require "@
    } else {
        Seq::empty()
    }) + "connect_timeout=1 "@ + "application_name='"@ + name + seq![' '] + version + "' "@
        + "options='--client_encoding=UTF8'"@
}

/// Appends the decimal text of `n`.
fn append_decimal(out: &mut String, n: u64)
    ensures
        final(out)@ == old(out)@ + decimal_text(n as nat),
{
    let mut digits: Vec<u8> = Vec::new();
    push_decimal(&mut digits, n);
    let ghost head = out@;
    let mut i: usize = 0;
    while i < digits.len()
        invariant
            i <= digits@.len(),
            digits@ == decimal(n as nat),
            out@ == head + digits@.subrange(0, i as int).map_values(|b: u8| b as char),
        decreases digits@.len() - i,
    {
        let b = digits[i];
        push_char(out, b as char);
        assert(digits@.subrange(0, i + 1) =~= digits@.subrange(0, i as int).push(b));
        assert(out@ =~= head + digits@.subrange(0, i + 1).map_values(|b: u8| b as char));
        i = i + 1;
    }
    assert(digits@.subrange(0, digits@.len() as int) =~= digits@);
}

/// The connection text that PostgreSQL is given (see `pg_connect_text`);
/// `name` and `version` are the application's.
#[verifier::rlimit(30)]
pub fn pg_connect_string(config: &DBConfig, name: &str, version: &str) -> (res: String)
    ensures
        res@ == pg_connect_text(*config, name@, version@),
{
    let mut s = String::new();
    s.append("host='");
    s.append(config.host.as_str());
    s.append("' ");
    let ghost after_host = s@;
    if let Some(p) = &config.port {
        s.append("port='");
        append_decimal(&mut s, *p as u64);
        s.append("' ");
    }
    let ghost after_port = s@;
    s.append("dbname='");
    s.append(config.name.as_str());
    s.append("' ");
    let ghost after_name = s@;
    if let Some(u) = &config.user {
        s.append("user='");
        s.append(u.as_str());
        s.append("' ");
    }
    let ghost after_user = s@;
    if let Some(p) = &config.pwd {
        s.append("password='");
        s.append(p.as_str());
        s.append("' ");
    }
    let ghost after_pwd = s@;
    if config.sslmode {
        s.append("sslmode=require ");
    }
    let ghost after_ssl = s@;
    s.append("connect_timeout=1 ");
    s.append("application_name='");
    s.append(name);
    push_char(&mut s, ' ');
    s.append(version);
    s.append("' ");
    s.append("options='--client_encoding=UTF8'");
    assert(s@ =~= pg_connect_text(*config, name@, version@));
    s
}

} // verus!
