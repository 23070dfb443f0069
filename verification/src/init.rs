//! The server configuration file (`tiny.toml`): its values and how they
//! are checked.

use vstd::prelude::*;
use vstd::string::StringSliceAdditionalSpecFns;
use vstd::string::StringExecFns;
use vstd::utf8::encode_utf8;

use crate::params::find_char;
use crate::request::str_eq;
use crate::{fnv1a_64, spec_fnv1a_64};

verus! {

/// A value of a configuration file.
#[derive(Debug)]
pub enum ConfValue {
    /// A string.
    Str(String),
    /// An integer.
    Int(i64),
    /// A boolean.
    Bool(bool),
    /// An array.
    Array(Vec<ConfValue>),
    /// A table, by key in ascending order.
    Table(Vec<(String, ConfValue)>),
    /// A float or a date.
    Other,
}

#[verifier::external_type_specification]
#[verifier::external_body]
pub struct ExTomlValue(toml::Value);

/// Converts a TOML value (`toml::Value`) to the library's value, one
/// variant for another, arrays and tables element by element. Only the body
/// of `parse_toml` calls it; no contract is claimed of it on its own.
#[verifier::external_body]
fn toml_value(v: toml::Value) -> ConfValue {
    match v {
        toml::Value::String(s) => ConfValue::Str(s),
        toml::Value::Integer(i) => ConfValue::Int(i),
        toml::Value::Boolean(b) => ConfValue::Bool(b),
        toml::Value::Float(_) => ConfValue::Other,
        toml::Value::Datetime(_) => ConfValue::Other,
        toml::Value::Array(a) => ConfValue::Array(a.into_iter().map(toml_value).collect()),
        toml::Value::Table(t) => ConfValue::Table(t.into_iter().map(|(k, v)| (k, toml_value(v))).collect()),
    }
}

/// The table a TOML text describes, its keys in ascending order; `None`
/// when the text is not TOML.
pub uninterp spec fn toml_table(text: Seq<char>) -> Option<Seq<(String, ConfValue)>>;

/// Parses a TOML text into its top-level table (`toml::Table` by
/// `str::parse`).
///
/// Claims of the outside function: its result, as the library's values, is
/// `toml_table` of the text, `None` exactly when the text is not TOML. What
/// that table is, the TOML grammar says; it is not stated here.
#[verifier::external_body]
pub fn parse_toml(text: &str) -> (res: Option<Vec<(String, ConfValue)>>)
    ensures
        match res {
            Some(v) => toml_table(text@) == Some(v@),
            None => toml_table(text@) is None,
        },
{
    match text.parse::<toml::Table>() {
        Ok(t) => Some(t.into_iter().map(|(k, v)| (k, toml_value(v))).collect()),
        Err(_) => None,
    }
}

/// Where connections are accepted from.
#[derive(Debug, Clone)]
pub enum AcceptAddr {
    /// Any address.
    Any,
    /// One IP address, as written.
    IpAddr(String),
    /// Only the Unix domain socket.
    Uds,
}

/// An address to listen on.
#[derive(Debug)]
pub enum Addr {
    /// An IP socket address, as written.
    SocketAddr(String),
    /// A Unix domain socket path.
    Uds(String),
}

/// Responsible for database configuration data.
#[derive(Debug)]
pub struct DBConfig {
    /// Host of database.
    pub host: String,
    /// Port of database.
    pub port: Option<u16>,
    /// Name of database.
    pub name: String,
    /// Database user.
    pub user: Option<String>,
    /// Password of database user.
    pub pwd: Option<String>,
    /// Use for sslmode=require when connecting to the database.
    pub sslmode: bool,
    /// The number of connections that will be used in the pool.
    pub max: usize,
}

/// The server configuration.
#[derive(Debug)]
pub struct Config {
    /// Whether no configuration file was read.
    pub is_default: bool,
    /// Default language.
    pub lang: String,
    /// Number of work processes in async operations.
    pub max: usize,
    /// The address from which we accept working connections.
    pub bind_accept: AcceptAddr,
    /// The address of the server that binds clients.
    pub bind: Addr,
    /// The address from which we accept connections for managing the server.
    pub rpc_accept: AcceptAddr,
    /// The address for managing the server.
    pub rpc: Addr,
    /// Session key.
    pub session: String,
    /// Salt for the crypto functions.
    pub salt: String,
    /// Database configuration.
    pub db: DBConfig,
    /// Stop signal.
    pub stop_signal: i64,
    /// Status signal.
    pub status_signal: i64,
    /// Default route, as written.
    pub action_index: Option<String>,
    /// Route for "not found", as written.
    pub action_not_found: Option<String>,
    /// Route for errors, as written.
    pub action_err: Option<String>,
    /// Log file, as written.
    pub log: Option<String>,
    /// Codes of the warnings about values that were not taken, in order.
    pub warnings: Vec<u16>,
}

/// The byte length of a text (as `str::len` gives it).
pub open spec fn blen(s: Seq<char>) -> usize {
    encode_utf8(s).len() as usize
}

/// The hash of a word followed by the salt.
pub open spec fn signal(word: Seq<char>, salt: Seq<char>) -> i64 {
    spec_fnv1a_64(encode_utf8(word + salt))
}

/// An address to accept from, as a mathematical value.
pub enum AcceptView {
    Any,
    IpAddr(Seq<char>),
    Uds,
}

/// An address to listen on, as a mathematical value.
pub enum AddrView {
    SocketAddr(Seq<char>),
    Uds(Seq<char>),
}

/// The configuration while it is read, as a mathematical value.
pub struct ConfState {
    pub lang: Seq<char>,
    pub max: usize,
    pub num_connections: usize,
    pub bind_accept: AcceptView,
    pub bind: AddrView,
    pub rpc_accept: AcceptView,
    pub rpc: AddrView,
    pub session: Seq<char>,
    pub salt: Seq<char>,
    pub stop_signal: i64,
    pub status_signal: i64,
    pub db_host: Seq<char>,
    pub db_port: Option<u16>,
    pub db_name: Seq<char>,
    pub db_user: Option<Seq<char>>,
    pub db_pwd: Option<Seq<char>>,
    pub sslmode: bool,
    pub db_max: usize,
    pub action_index: Option<Seq<char>>,
    pub action_not_found: Option<Seq<char>>,
    pub action_err: Option<Seq<char>>,
    pub log: Option<Seq<char>>,
    pub warnings: Seq<u16>,
}

/// The state before the values are read.
pub open spec fn conf_start(num_cpus: usize, log: Option<Seq<char>>, warnings: Seq<u16>) -> ConfState {
    ConfState {
        lang: "en"@,
        max: num_cpus,
        num_connections: num_cpus.wrapping_mul(3),
        bind_accept: AcceptView::Any,
        bind: AddrView::SocketAddr("127.0.0.1:12500"@),
        rpc_accept: AcceptView::IpAddr("127.0.0.1"@),
        rpc: AddrView::SocketAddr("127.0.0.1:12501"@),
        session: "tinysession"@,
        salt: Seq::empty(),
        stop_signal: 0,
        status_signal: 0,
        db_host: Seq::empty(),
        db_port: None,
        db_name: Seq::empty(),
        db_user: None,
        db_pwd: None,
        sslmode: false,
        db_max: num_cpus.wrapping_mul(3),
        action_index: None,
        action_not_found: None,
        action_err: None,
        log: log,
        warnings: warnings,
    }
}

/// Where to accept from, by an address text: empty means the Unix domain
/// socket, `any` any address, else that address.
pub open spec fn accept_of(v: Seq<char>) -> AcceptView {
    if v.len() == 0 {
        AcceptView::Uds
    } else if v == "any"@ {
        AcceptView::Any
    } else {
        AcceptView::IpAddr(v)
    }
}

/// Where to listen, by an address text: with `:` an IP socket address,
/// starting with `/` a Unix domain socket; anything else is refused.
pub open spec fn addr_of(v: Seq<char>) -> Option<AddrView> {
    if find_char(v, 0, ':') is Some {
        Some(AddrView::SocketAddr(v))
    } else if v.len() == 0 || v[0] != '/' {
        None
    } else {
        Some(AddrView::Uds(v))
    }
}

/// What one value of the file does to the configuration; a value of the
/// wrong kind or out of range adds its warning code and changes nothing else.
#[verifier::opaque]
pub open spec fn conf_step(st: ConfState, key: Seq<char>, value: ConfValue) -> ConfState {
    let warn = |c: u16| ConfState { warnings: st.warnings.push(c), ..st };
    if key == "lang"@ {
        match value {
            ConfValue::Str(v) => if blen(v@) != 2 {
                warn(51)
            } else {
                ConfState { lang: v@, ..st }
            },
            _ => warn(51),
        }
    } else if key == "max"@ {
        match value {
            ConfValue::Str(s) => if s@ != "auto"@ {
                warn(52)
            } else {
                st
            },
            ConfValue::Int(i) => if 0 < i <= usize::MAX {
                ConfState { max: i as usize, num_connections: (i as usize).wrapping_mul(3), ..st }
            } else {
                warn(52)
            },
            _ => warn(52),
        }
    } else if key == "bind_from"@ {
        match value {
            ConfValue::Str(v) => ConfState { bind_accept: accept_of(v@), ..st },
            _ => warn(53),
        }
    } else if key == "bind"@ {
        match value {
            ConfValue::Str(v) => match addr_of(v@) {
                Some(a) => ConfState { bind: a, ..st },
                None => warn(54),
            },
            _ => warn(54),
        }
    } else if key == "rpc_from"@ {
        match value {
            ConfValue::Str(v) => ConfState { rpc_accept: accept_of(v@), ..st },
            _ => warn(55),
        }
    } else if key == "rpc"@ {
        match value {
            ConfValue::Str(v) => match addr_of(v@) {
                Some(a) => ConfState { rpc: a, ..st },
                None => warn(56),
            },
            _ => warn(56),
        }
    } else if key == "session"@ {
        match value {
            ConfValue::Str(v) => ConfState { session: v@, ..st },
            _ => warn(71),
        }
    } else if key == "salt"@ {
        match value {
            ConfValue::Str(v) => ConfState {
                salt: v@,
                stop_signal: signal("stop"@, v@),
                status_signal: signal("status"@, v@),
                ..st
            },
            _ => warn(62),
        }
    } else if key == "db_host"@ {
        match value {
            ConfValue::Str(v) => if v@.len() > 0 {
                ConfState { db_host: v@, ..st }
            } else {
                st
            },
            _ => warn(63),
        }
    } else if key == "db_port"@ {
        match value {
            ConfValue::Int(i) => if 0 < i <= 65535 {
                ConfState { db_port: Some(i as u16), ..st }
            } else {
                warn(57)
            },
            _ => warn(57),
        }
    } else if key == "db_name"@ {
        match value {
            ConfValue::Str(v) => ConfState { db_name: v@, ..st },
            _ => warn(64),
        }
    } else if key == "db_user"@ {
        match value {
            ConfValue::Str(v) => ConfState { db_user: Some(v@), ..st },
            _ => warn(65),
        }
    } else if key == "db_pwd"@ {
        match value {
            ConfValue::Str(v) => ConfState { db_pwd: Some(v@), ..st },
            _ => warn(66),
        }
    } else if key == "sslmode"@ {
        match value {
            ConfValue::Bool(b) => ConfState { sslmode: b, ..st },
            _ => warn(67),
        }
    } else if key == "db_max"@ {
        match value {
            ConfValue::Str(s) => if s@ == "auto"@ {
                ConfState { db_max: st.num_connections, ..st }
            } else {
                warn(58)
            },
            ConfValue::Int(i) => if 0 < i <= usize::MAX {
                ConfState { db_max: i as usize, ..st }
            } else {
                warn(58)
            },
            _ => warn(58),
        }
    } else if key == "action_index"@ {
        match value {
            ConfValue::Str(v) => ConfState { action_index: Some(v@), ..st },
            _ => warn(74),
        }
    } else if key == "action_not_found"@ {
        match value {
            ConfValue::Str(v) => ConfState { action_not_found: Some(v@), ..st },
            _ => warn(76),
        }
    } else if key == "action_err"@ {
        match value {
            ConfValue::Str(v) => ConfState { action_err: Some(v@), ..st },
            _ => warn(78),
        }
    } else {
        st
    }
}

/// The first value of the key `log`, if any.
pub open spec fn log_entry(entries: Seq<(String, ConfValue)>) -> Option<ConfValue>
    decreases entries.len(),
{
    if entries.len() == 0 {
        None
    } else if entries[0].0@ == "log"@ {
        Some(entries[0].1)
    } else {
        log_entry(entries.drop_first())
    }
}

/// The state before the values are read: the log file is read first.
pub open spec fn conf_begin(entries: Seq<(String, ConfValue)>, num_cpus: usize) -> ConfState {
    match log_entry(entries) {
        Some(ConfValue::Str(v)) => conf_start(num_cpus, Some(v@), Seq::empty()),
        Some(_) => conf_start(num_cpus, None, seq![61u16]),
        None => conf_start(num_cpus, None, Seq::empty()),
    }
}

/// Reads the values in order.
pub open spec fn conf_fold(st: ConfState, entries: Seq<(String, ConfValue)>) -> ConfState
    decreases entries.len(),
{
    if entries.len() == 0 {
        st
    } else {
        conf_fold(conf_step(st, entries[0].0@, entries[0].1), entries.drop_first())
    }
}

/// Why a configuration was refused.
#[derive(Debug)]
pub enum ConfError {
    /// The file is not TOML.
    Parse,
    /// No database host.
    NoDbHost,
    /// No salt, where one is needed.
    NoSalt,
}

} // verus!

verus! {

pub open spec fn accept_view(a: AcceptAddr) -> AcceptView {
    match a {
        AcceptAddr::Any => AcceptView::Any,
        AcceptAddr::IpAddr(s) => AcceptView::IpAddr(s@),
        AcceptAddr::Uds => AcceptView::Uds,
    }
}

pub open spec fn addr_view(a: Addr) -> AddrView {
    match a {
        Addr::SocketAddr(s) => AddrView::SocketAddr(s@),
        Addr::Uds(s) => AddrView::Uds(s@),
    }
}

/// The configuration as a mathematical value.
pub open spec fn conf_view(c: Config) -> ConfState {
    ConfState {
        lang: c.lang@,
        max: c.max,
        num_connections: c.db.max,
        bind_accept: accept_view(c.bind_accept),
        bind: addr_view(c.bind),
        rpc_accept: accept_view(c.rpc_accept),
        rpc: addr_view(c.rpc),
        session: c.session@,
        salt: c.salt@,
        stop_signal: c.stop_signal,
        status_signal: c.status_signal,
        db_host: c.db.host@,
        db_port: c.db.port,
        db_name: c.db.name@,
        db_user: crate::request::opt_view(c.db.user),
        db_pwd: crate::request::opt_view(c.db.pwd),
        sslmode: c.db.sslmode,
        db_max: c.db.max,
        action_index: crate::request::opt_view(c.action_index),
        action_not_found: crate::request::opt_view(c.action_not_found),
        action_err: crate::request::opt_view(c.action_err),
        log: crate::request::opt_view(c.log),
        warnings: c.warnings@,
    }
}

/// The configuration read from a file's values (`entries`, keys in
/// ascending order): `NoDbHost` without a database host, `NoSalt` without a
/// salt when one is needed; a language given at startup wins over the file's.
pub open spec fn load_result(
    entries: Seq<(String, ConfValue)>,
    num_cpus: usize,
    check_salt: bool,
    lang: Option<Seq<char>>,
) -> Result<ConfState, ConfError> {
    let st = conf_fold(conf_begin(entries, num_cpus), entries);
    if st.db_host.len() == 0 {
        Err(ConfError::NoDbHost)
    } else if check_salt && st.salt.len() == 0 {
        Err(ConfError::NoSalt)
    } else {
        Ok(
            match lang {
                Some(l) => ConfState { lang: l, ..st },
                None => st,
            },
        )
    }
}

/// Reading state: the configuration so far and the number of connections
/// that `auto` stands for.
struct ConfBuild {
    conf: Config,
    num_connections: usize,
}

spec fn build_view(b: ConfBuild) -> ConfState {
    ConfState { num_connections: b.num_connections, ..conf_view(b.conf) }
}

fn accept_from(v: &String) -> (res: AcceptAddr)
    ensures
        accept_view(res) == accept_of(v@),
{
    if v.as_str().unicode_len() == 0 {
        AcceptAddr::Uds
    } else if str_eq(v.as_str(), "any") {
        AcceptAddr::Any
    } else {
        AcceptAddr::IpAddr(v.clone())
    }
}

fn addr_from(v: &String) -> (res: Option<Addr>)
    ensures
        match addr_of(v@) {
            Some(a) => res matches Some(r) && addr_view(r) == a,
            None => res is None,
        },
{
    let n = v.as_str().unicode_len();
    if crate::params::find_char_from(v.as_str(), n, 0, ':').is_some() {
        Some(Addr::SocketAddr(v.clone()))
    } else if n == 0 || v.as_str().get_char(0) != '/' {
        None
    } else {
        Some(Addr::Uds(v.clone()))
    }
}

fn signal_of(word: &str, salt: &String) -> (res: i64)
    ensures
        res == signal(word@, salt@),
{
    let s = String::from_str(word).concat(salt.as_str());
    fnv1a_64(s.as_str().as_bytes())
}

impl ConfBuild {
    fn warn(&mut self, code: u16)
        ensures
            build_view(*final(self)) == (ConfState {
                warnings: build_view(*old(self)).warnings.push(code),
                ..build_view(*old(self))
            }),
    {
        self.conf.warnings.push(code);
        assert(build_view(*self) =~~= ConfState {
            warnings: build_view(*old(self)).warnings.push(code),
            ..build_view(*old(self))
        });
    }

    #[verifier::rlimit(50)]
    fn step(&mut self, key: &str, value: &ConfValue)
        ensures
            build_view(*final(self)) == conf_step(build_view(*old(self)), key@, *value),
    {
        reveal(conf_step);
        let ghost st = build_view(*self);
        if str_eq(key, "lang") {
            match value {
                ConfValue::Str(v) => {
                    if v.as_str().len() != 2 {
                        self.warn(51);
                    } else {
                        self.conf.lang = v.clone();
                    }
                },
                _ => self.warn(51),
            }
        } else if str_eq(key, "max") {
            match value {
                ConfValue::Str(s) => {
                    if !str_eq(s.as_str(), "auto") {
                        self.warn(52);
                    }
                },
                ConfValue::Int(i) => {
                    if 0 < *i && (*i as i128) <= (usize::MAX as i128) {
                        self.conf.max = *i as usize;
                        self.num_connections = (*i as usize).wrapping_mul(3);
                    } else {
                        self.warn(52);
                    }
                },
                _ => self.warn(52),
            }
        } else if str_eq(key, "bind_from") {
            match value {
                ConfValue::Str(v) => {
                    self.conf.bind_accept = accept_from(v);
                },
                _ => self.warn(53),
            }
        } else if str_eq(key, "bind") {
            match value {
                ConfValue::Str(v) => match addr_from(v) {
                    Some(a) => {
                        self.conf.bind = a;
                    },
                    None => self.warn(54),
                },
                _ => self.warn(54),
            }
        } else if str_eq(key, "rpc_from") {
            match value {
                ConfValue::Str(v) => {
                    self.conf.rpc_accept = accept_from(v);
                },
                _ => self.warn(55),
            }
        } else if str_eq(key, "rpc") {
            match value {
                ConfValue::Str(v) => match addr_from(v) {
                    Some(a) => {
                        self.conf.rpc = a;
                    },
                    None => self.warn(56),
                },
                _ => self.warn(56),
            }
        } else if str_eq(key, "session") {
            match value {
                ConfValue::Str(v) => {
                    self.conf.session = v.clone();
                },
                _ => self.warn(71),
            }
        } else if str_eq(key, "salt") {
            match value {
                ConfValue::Str(v) => {
                    self.conf.salt = v.clone();
                    self.conf.stop_signal = signal_of("stop", v);
                    self.conf.status_signal = signal_of("status", v);
                },
                _ => self.warn(62),
            }
        } else {
            self.step_db(key, value);
        }
        assert(build_view(*self) =~~= conf_step(st, key@, *value));
    }

    #[verifier::rlimit(50)]
    fn step_db(&mut self, key: &str, value: &ConfValue)
        requires
            key@ != "lang"@,
            key@ != "max"@,
            key@ != "bind_from"@,
            key@ != "bind"@,
            key@ != "rpc_from"@,
            key@ != "rpc"@,
            key@ != "session"@,
            key@ != "salt"@,
        ensures
            build_view(*final(self)) == conf_step(build_view(*old(self)), key@, *value),
    {
        reveal(conf_step);
        let ghost st = build_view(*self);
        if str_eq(key, "db_host") {
            match value {
                ConfValue::Str(v) => {
                    if v.as_str().unicode_len() > 0 {
                        self.conf.db.host = v.clone();
                    }
                },
                _ => self.warn(63),
            }
        } else if str_eq(key, "db_port") {
            match value {
                ConfValue::Int(i) => {
                    if 0 < *i && *i <= 65535 {
                        self.conf.db.port = Some(*i as u16);
                    } else {
                        self.warn(57);
                    }
                },
                _ => self.warn(57),
            }
        } else if str_eq(key, "db_name") {
            match value {
                ConfValue::Str(v) => {
                    self.conf.db.name = v.clone();
                },
                _ => self.warn(64),
            }
        } else if str_eq(key, "db_user") {
            match value {
                ConfValue::Str(v) => {
                    self.conf.db.user = Some(v.clone());
                },
                _ => self.warn(65),
            }
        } else if str_eq(key, "db_pwd") {
            match value {
                ConfValue::Str(v) => {
                    self.conf.db.pwd = Some(v.clone());
                },
                _ => self.warn(66),
            }
        } else if str_eq(key, "sslmode") {
            match value {
                ConfValue::Bool(b) => {
                    self.conf.db.sslmode = *b;
                },
                _ => self.warn(67),
            }
        } else if str_eq(key, "db_max") {
            match value {
                ConfValue::Str(s) => {
                    if str_eq(s.as_str(), "auto") {
                        self.conf.db.max = self.num_connections;
                    } else {
                        self.warn(58);
                    }
                },
                ConfValue::Int(i) => {
                    if 0 < *i && (*i as i128) <= (usize::MAX as i128) {
                        self.conf.db.max = *i as usize;
                    } else {
                        self.warn(58);
                    }
                },
                _ => self.warn(58),
            }
        } else if str_eq(key, "action_index") {
            match value {
                ConfValue::Str(v) => {
                    self.conf.action_index = Some(v.clone());
                },
                _ => self.warn(74),
            }
        } else if str_eq(key, "action_not_found") {
            match value {
                ConfValue::Str(v) => {
                    self.conf.action_not_found = Some(v.clone());
                },
                _ => self.warn(76),
            }
        } else if str_eq(key, "action_err") {
            match value {
                ConfValue::Str(v) => {
                    self.conf.action_err = Some(v.clone());
                },
                _ => self.warn(78),
            }
        }
        assert(build_view(*self) =~~= conf_step(st, key@, *value));
    }
}

} // verus!

verus! {

fn find_log(entries: &Vec<(String, ConfValue)>) -> (res: Option<&ConfValue>)
    ensures
        match log_entry(entries@) {
            Some(v) => res == Some(&v),
            None => res is None,
        },
{
    let mut i: usize = 0;
    assert(entries@.subrange(0, entries@.len() as int) =~= entries@);
    while i < entries.len()
        invariant
            i <= entries@.len(),
            log_entry(entries@.subrange(i as int, entries@.len() as int)) == log_entry(entries@),
        decreases entries@.len() - i,
    {
        assert(entries@.subrange(i as int, entries@.len() as int).drop_first() =~= entries@.subrange(
            i + 1,
            entries@.len() as int,
        ));
        if str_eq(entries[i].0.as_str(), "log") {
            return Some(&entries[i].1);
        }
        i = i + 1;
    }
    None
}

fn start_build(num_cpus: usize, log: Option<String>, warnings: Vec<u16>) -> (res: ConfBuild)
    ensures
        build_view(res) == conf_start(num_cpus, crate::request::opt_view(log), warnings@),
{
    let conn = num_cpus.wrapping_mul(3);
    let res = ConfBuild {
        conf: Config {
            is_default: false,
            lang: "en".to_owned(),
            max: num_cpus,
            bind_accept: AcceptAddr::Any,
            bind: Addr::SocketAddr("127.0.0.1:12500".to_owned()),
            rpc_accept: AcceptAddr::IpAddr("127.0.0.1".to_owned()),
            rpc: Addr::SocketAddr("127.0.0.1:12501".to_owned()),
            session: "tinysession".to_owned(),
            salt: String::new(),
            db: DBConfig {
                host: String::new(),
                port: None,
                name: String::new(),
                user: None,
                pwd: None,
                sslmode: false,
                max: conn,
            },
            stop_signal: 0,
            status_signal: 0,
            action_index: None,
            action_not_found: None,
            action_err: None,
            log: log,
            warnings: warnings,
        },
        num_connections: conn,
    };
    assert(build_view(res) =~~= conf_start(num_cpus, crate::request::opt_view(log), warnings@));
    res
}

/// The configuration used when no file is read: the built-in addresses,
/// the salt `salt`, no database, and the language given at startup or `en`.
pub open spec fn default_state(num_cpus: usize, lang: Option<Seq<char>>) -> ConfState {
    ConfState {
        lang: match lang {
            Some(l) => l,
            None => "en"@,
        },
        max: num_cpus,
        num_connections: 0,
        bind_accept: AcceptView::Any,
        bind: AddrView::SocketAddr("127.0.0.1:12500"@),
        rpc_accept: AcceptView::IpAddr("127.0.0.1"@),
        rpc: AddrView::SocketAddr("127.0.0.1:12501"@),
        session: "tinysession"@,
        salt: "salt"@,
        stop_signal: signal("stop"@, "salt"@),
        status_signal: signal("status"@, "salt"@),
        db_host: Seq::empty(),
        db_port: None,
        db_name: Seq::empty(),
        db_user: None,
        db_pwd: None,
        sslmode: false,
        db_max: 0,
        action_index: None,
        action_not_found: None,
        action_err: None,
        log: None,
        warnings: Seq::empty(),
    }
}

impl Config {
    /// The configuration used when no file is read (see `default_state`).
    pub fn default(num_cpus: usize, lang: Option<String>) -> (res: Config)
        ensures
            conf_view(res) == default_state(num_cpus, crate::request::opt_view(lang)),
            res.is_default,
    {
        let salt = "salt".to_owned();
        let stop_signal = signal_of("stop", &salt);
        let status_signal = signal_of("status", &salt);
        let ghost lv = crate::request::opt_view(lang);
        let l = match lang {
            Some(l) => l,
            None => "en".to_owned(),
        };
        let res = Config {
            is_default: true,
            lang: l,
            max: num_cpus,
            bind_accept: AcceptAddr::Any,
            bind: Addr::SocketAddr("127.0.0.1:12500".to_owned()),
            rpc_accept: AcceptAddr::IpAddr("127.0.0.1".to_owned()),
            rpc: Addr::SocketAddr("127.0.0.1:12501".to_owned()),
            session: "tinysession".to_owned(),
            salt,
            db: DBConfig {
                host: String::new(),
                port: None,
                name: String::new(),
                user: None,
                pwd: None,
                sslmode: false,
                max: 0,
            },
            stop_signal,
            status_signal,
            action_index: None,
            action_not_found: None,
            action_err: None,
            log: None,
            warnings: Vec::new(),
        };
        assert(conf_view(res) =~~= default_state(num_cpus, lv));
        res
    }

    /// Reads the configuration from a file's values, keys in ascending order
    /// (see `load_result`). `num_cpus` is the number of processors;
    /// `check_salt` whether a salt is needed; `lang` a language given at
    /// startup.
    pub fn load_conf(entries: &Vec<(String, ConfValue)>, num_cpus: usize, check_salt: bool, lang: Option<String>) -> (res: Result<Config, ConfError>)
        ensures
            match load_result(entries@, num_cpus, check_salt, crate::request::opt_view(lang)) {
                Ok(st) => res matches Ok(c) && conf_view(c) == ConfState { num_connections: c.db.max, ..st }
                    && !c.is_default,
                Err(e) => res matches Err(e2) && e2 == e,
            },
    {
        let mut b = match find_log(entries) {
            Some(ConfValue::Str(v)) => start_build(num_cpus, Some(v.clone()), Vec::new()),
            Some(_) => {
                let mut w: Vec<u16> = Vec::new();
                w.push(61);
                assert(w@ =~= seq![61u16]);
                start_build(num_cpus, None, w)
            },
            None => start_build(num_cpus, None, Vec::new()),
        };
        assert(build_view(b) == conf_begin(entries@, num_cpus));
        let mut i: usize = 0;
        assert(entries@.subrange(0, entries@.len() as int) =~= entries@);
        while i < entries.len()
            invariant
                i <= entries@.len(),
                conf_fold(build_view(b), entries@.subrange(i as int, entries@.len() as int)) == conf_fold(
                    conf_begin(entries@, num_cpus),
                    entries@,
                ),
            decreases entries@.len() - i,
        {
            assert(entries@.subrange(i as int, entries@.len() as int).drop_first()
                =~= entries@.subrange(i + 1, entries@.len() as int));
            b.step(entries[i].0.as_str(), &entries[i].1);
            i = i + 1;
        }
        assert(entries@.subrange(i as int, entries@.len() as int) =~= Seq::<(String, ConfValue)>::empty());
        let ghost fin = build_view(b);
        let mut conf = b.conf;
        conf.is_default = false;
        assert(conf_view(conf) =~~= ConfState { num_connections: conf.db.max, ..fin });
        if conf.db.host.as_str().unicode_len() == 0 {
            return Err(ConfError::NoDbHost);
        }
        if check_salt && conf.salt.as_str().unicode_len() == 0 {
            return Err(ConfError::NoSalt);
        }
        match lang {
            Some(l) => {
                conf.lang = l;
            },
            None => {},
        }
        assert(conf_view(conf) =~~= ConfState { num_connections: conf.db.max, ..load_result(entries@, num_cpus, check_salt, crate::request::opt_view(lang))->Ok_0 });
        Ok(conf)
    }
}

} // verus!
