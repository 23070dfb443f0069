//! The application configuration file (`init.toml`): its sections `[web]`,
//! `[net]`, `[async]`, `[db]` and `[mail]`, each checked for what it must hold.

use vstd::prelude::*;
use vstd::utf8::encode_utf8;

use crate::init::ConfValue;
use crate::request::str_eq;
use crate::{fnv1a_64, spec_fnv1a_64};

verus! {

/// A number that may be left to the runtime (`auto`).
#[derive(Debug, Clone, Copy)]
pub enum AutoCount<T> {
    /// Chosen by the runtime.
    Auto,
    /// This number.
    Count(T),
}

impl AutoCount<usize> {
    /// The number, or the default (zero) for `Auto`.
    pub fn value(&self) -> (res: usize)
        ensures
            res == match *self {
                AutoCount::Auto => 0usize,
                AutoCount::Count(v) => v,
            },
    {
        match self {
            AutoCount::Auto => 0,
            AutoCount::Count(v) => *v,
        }
    }
}

impl AutoCount<u32> {
    /// The number, or the default (zero) for `Auto`.
    pub fn value_u32(&self) -> (res: u32)
        ensures
            res == match *self {
                AutoCount::Auto => 0u32,
                AutoCount::Count(v) => v,
            },
    {
        match self {
            AutoCount::Auto => 0,
            AutoCount::Count(v) => *v,
        }
    }
}

/// An address to listen on: a Unix domain socket path, or an IP socket
/// address as written.
#[derive(Debug)]
pub enum Socket {
    Unix(String),
    Inet(String),
}

/// The optional parts that a build of the server has. Each asks the
/// configuration file for settings of its own; a part that is left out
/// neither asks for them nor reads them.
#[derive(Debug, Clone, Copy)]
pub struct Features {
    /// Translations: `[web] lang` is needed.
    pub lang: bool,
    /// Sessions: `[web] session` is needed.
    pub session: bool,
    /// Sessions kept in memory or in files: `[web] session_path` is needed.
    pub session_path: bool,
    /// A database: the `[db]` section is needed.
    pub db: bool,
    /// Mail handed to sendmail: `[mail] sendmail` is needed.
    pub mail_sendmail: bool,
    /// Mail saved to files: `[mail] path` is needed.
    pub mail_file: bool,
    /// Mail sent over SMTP: `[mail] server`, `port`, `tls` and `auth` are
    /// needed.
    pub mail_smtp: bool,
}

impl Features {
    /// Whether the build sends mail in any way: then `[mail]` is needed.
    pub open spec fn mail(self) -> bool {
        self.mail_sendmail || self.mail_file || self.mail_smtp
    }

    /// Whether the build sends mail in any way.
    pub fn has_mail(&self) -> (res: bool)
        ensures
            res == self.mail(),
    {
        self.mail_sendmail || self.mail_file || self.mail_smtp
    }
}

/// The `[web]` section.
#[derive(Debug)]
pub struct Web {
    /// Default language (with translations).
    pub lang: Option<String>,
    /// Salt for the crypto functions.
    pub salt: String,
    /// Name of the session cookie (with sessions).
    pub session_key: Option<String>,
    /// Where sessions are kept (with sessions in memory or files).
    pub session_path: Option<String>,
    /// Module, class and action of the index, hashed.
    pub index: [i64; 3],
    /// Module, class and action for "not found", hashed.
    pub not_found: Option<[i64; 3]>,
}

/// The `[net]` section.
#[derive(Debug)]
pub struct Net {
    pub bind: Socket,
    pub bind_from: String,
    pub rpc: Socket,
    pub rpc_from: String,
}

/// The `[async]` section.
#[derive(Debug)]
pub struct Async {
    pub worker_threads: AutoCount<usize>,
    pub event_interval: AutoCount<u32>,
    pub global_queue_interval: AutoCount<u32>,
    pub max_blocking_threads: AutoCount<usize>,
    pub max_io_events_per_tick: AutoCount<usize>,
    pub thread_keep_alive: AutoCount<u32>,
    pub thread_stack_size: AutoCount<usize>,
}

/// The `[db]` section.
#[derive(Debug)]
pub struct DBConfig {
    pub host: String,
    pub port: Option<u16>,
    pub name: String,
    pub user: Option<String>,
    pub pwd: Option<String>,
    pub ssl: bool,
    pub max: AutoCount<usize>,
}

/// Security of the connection to a mail server.
#[derive(Debug)]
pub enum Tls {
    /// Plain.
    Plain,
    /// STARTTLS.
    Start,
    /// SSL/TLS.
    Ssl,
}

/// Authentication at a mail server.
#[derive(Debug)]
pub enum Auth {
    /// None.
    Plain,
    /// PLAIN.
    PlainText,
    /// LOGIN.
    Login,
    /// XOAUTH2.
    XOAuth2,
}

/// The `[mail]` section: the settings of each way of sending that the
/// build has.
#[derive(Debug)]
pub struct MailConfig {
    /// The sendmail program.
    pub sendmail: Option<String>,
    /// The folder that mail is saved to.
    pub path: Option<String>,
    /// The SMTP server.
    pub smtp: Option<SmtpConfig>,
}

/// The SMTP settings of the `[mail]` section.
#[derive(Debug)]
pub struct SmtpConfig {
    pub server: String,
    pub port: u16,
    pub tls: Tls,
    pub auth: Auth,
    pub user: Option<String>,
    pub pwd: Option<String>,
}

/// The application configuration.
#[derive(Debug)]
pub struct AppInit {
    /// Name of the application.
    pub name: String,
    /// Its version.
    pub version: String,
    /// Its description.
    pub desc: String,
    pub web: Web,
    pub net: Net,
    pub proc: Async,
    /// The `[db]` section (with a database).
    pub db: Option<DBConfig>,
    /// The `[mail]` section (with mail).
    pub mail: Option<MailConfig>,
}

/// Why an application configuration was refused: the value or section named.
#[derive(Debug)]
pub enum InitError {
    WebLang,
    WebSalt,
    WebSession,
    WebSessionPath,
    WebIndex,
    NetBind,
    NetBindFrom,
    NetRpc,
    NetRpcFrom,
    WorkerThreads,
    EventInterval,
    GlobalQueueInterval,
    MaxBlockingThreads,
    MaxIoEventsPerTick,
    ThreadKeepAlive,
    ThreadStackSize,
    DbHost,
    DbPort,
    DbName,
    DbSsl,
    DbMax,
    MailSendmail,
    MailPath,
    MailServer,
    MailPort,
    MailTls,
    MailAuth,
    NoWeb,
    NoNet,
    NoAsync,
    NoDb,
    NoMail,
}

/// The text of a value, if it is a string.
pub open spec fn as_str(v: ConfValue) -> Option<Seq<char>> {
    match v {
        ConfValue::Str(s) => Some(s@),
        _ => None,
    }
}

/// A non-empty text of a value.
pub open spec fn non_empty_str(v: Option<Seq<char>>) -> Option<Seq<char>> {
    match v {
        Some(s) => if s.len() > 0 {
            Some(s)
        } else {
            None
        },
        None => None,
    }
}

/// The hashes of a `["module", "class", "action"]` array of non-empty strings.
pub open spec fn route_ids(v: ConfValue) -> Option<(i64, i64, i64)> {
    match v {
        ConfValue::Array(a) => if a@.len() < 3 {
            None
        } else {
            match (non_empty_str(as_str(a@[0])), non_empty_str(as_str(a@[1])), non_empty_str(
                as_str(a@[2]),
            )) {
                (Some(m), Some(c), Some(x)) => Some(
                    (
                        spec_fnv1a_64(encode_utf8(m)),
                        spec_fnv1a_64(encode_utf8(c)),
                        spec_fnv1a_64(encode_utf8(x)),
                    ),
                ),
                _ => None,
            }
        },
        _ => None,
    }
}

/// The values of a section by key: later occurrences of a key win.
pub open spec fn last_value(list: Seq<(String, ConfValue)>, key: Seq<char>) -> Option<ConfValue>
    decreases list.len(),
{
    if list.len() == 0 {
        None
    } else if list.last().0@ == key {
        Some(list.last().1)
    } else {
        last_value(list.drop_last(), key)
    }
}

/// The last value of a key that gives `Some` by `f`.
pub open spec fn last_valid<T>(list: Seq<(String, ConfValue)>, key: Seq<char>, f: spec_fn(ConfValue) -> Option<T>) -> Option<T>
    decreases list.len(),
{
    if list.len() == 0 {
        None
    } else if list.last().0@ == key && f(list.last().1) is Some {
        f(list.last().1)
    } else {
        last_valid(list.drop_last(), key, f)
    }
}

/// The text a key was last set to: by a string value, or nothing by any
/// other value.
pub open spec fn str_setting(list: Seq<(String, ConfValue)>, key: Seq<char>) -> Option<Seq<char>> {
    match last_value(list, key) {
        Some(v) => as_str(v),
        None => None,
    }
}

/// A setting that a feature asks for: nothing where the feature is left out.
pub open spec fn if_on(on: bool, v: Option<Seq<char>>) -> Option<Seq<char>> {
    if on {
        v
    } else {
        None
    }
}

/// The `[web]` section of a table, as a build with the features `f` reads it.
pub open spec fn web_of(list: Seq<(String, ConfValue)>, f: Features) -> Result<WebView, InitError> {
    let lang = non_empty_str(str_setting(list, "lang"@));
    let salt = non_empty_str(str_setting(list, "salt"@));
    let session = non_empty_str(str_setting(list, "session"@));
    let session_path = non_empty_str(str_setting(list, "session_path"@));
    let index = last_valid(list, "index"@, |v: ConfValue| route_ids(v));
    if f.lang && lang is None {
        Err(InitError::WebLang)
    } else if salt is None {
        Err(InitError::WebSalt)
    } else if f.session && session is None {
        Err(InitError::WebSession)
    } else if f.session_path && session_path is None {
        Err(InitError::WebSessionPath)
    } else if index is None {
        Err(InitError::WebIndex)
    } else {
        Ok(
            WebView {
                lang: if_on(f.lang, lang),
                salt: salt->0,
                session_key: if_on(f.session, session),
                session_path: if_on(f.session_path, session_path),
                index: index->0,
                not_found: last_valid(list, "not_found"@, |v: ConfValue| route_ids(v)),
            },
        )
    }
}

/// The `[web]` section as a mathematical value.
pub struct WebView {
    pub lang: Option<Seq<char>>,
    pub salt: Seq<char>,
    pub session_key: Option<Seq<char>>,
    pub session_path: Option<Seq<char>>,
    pub index: (i64, i64, i64),
    pub not_found: Option<(i64, i64, i64)>,
}

} // verus!

verus! {

/// The `[net]` section as a mathematical value.
pub struct NetView {
    pub bind: SocketView,
    pub bind_from: Seq<char>,
    pub rpc: SocketView,
    pub rpc_from: Seq<char>,
}

/// An address to listen on, as a mathematical value.
pub enum SocketView {
    Unix(Seq<char>),
    Inet(Seq<char>),
}

/// The address a text names: a path when it starts with `/`.
pub open spec fn socket_of(s: Seq<char>) -> SocketView {
    if s.len() > 0 && s[0] == '/' {
        SocketView::Unix(s)
    } else {
        SocketView::Inet(s)
    }
}

/// The `[net]` section of a table: the addresses as written (an IP address
/// or socket address is read by the caller).
pub open spec fn net_of(list: Seq<(String, ConfValue)>) -> Result<NetView, InitError> {
    let bind = last_valid(list, "bind"@, |v: ConfValue| as_str(v));
    let bind_from = last_valid(list, "bind_from"@, |v: ConfValue| as_str(v));
    let rpc = last_valid(list, "rpc"@, |v: ConfValue| as_str(v));
    let rpc_from = last_valid(list, "rpc_from"@, |v: ConfValue| as_str(v));
    if bind is None {
        Err(InitError::NetBind)
    } else if bind_from is None {
        Err(InitError::NetBindFrom)
    } else if rpc is None {
        Err(InitError::NetRpc)
    } else if rpc_from is None {
        Err(InitError::NetRpcFrom)
    } else {
        Ok(
            NetView {
                bind: socket_of(bind->0),
                bind_from: bind_from->0,
                rpc: socket_of(rpc->0),
                rpc_from: rpc_from->0,
            },
        )
    }
}

/// A count given as `auto` or as a number no greater than `max`.
pub open spec fn auto_count(v: ConfValue, max: int) -> Option<AutoCount<int>> {
    match v {
        ConfValue::Str(s) => if s@ == "auto"@ {
            Some(AutoCount::Auto)
        } else {
            None
        },
        ConfValue::Int(i) => if 0 <= i <= max {
            Some(AutoCount::Count(i as int))
        } else {
            None
        },
        _ => None,
    }
}

/// A count of the `[async]` section.
pub open spec fn count_of(list: Seq<(String, ConfValue)>, key: Seq<char>, max: int) -> Option<AutoCount<int>> {
    last_valid(list, key, |v: ConfValue| auto_count(v, max))
}

pub open spec fn usize_count(c: AutoCount<usize>) -> AutoCount<int> {
    match c {
        AutoCount::Auto => AutoCount::Auto,
        AutoCount::Count(v) => AutoCount::Count(v as int),
    }
}

pub open spec fn u32_count(c: AutoCount<u32>) -> AutoCount<int> {
    match c {
        AutoCount::Auto => AutoCount::Auto,
        AutoCount::Count(v) => AutoCount::Count(v as int),
    }
}

/// The `[async]` section of a table: every count is needed.
pub open spec fn async_of(list: Seq<(String, ConfValue)>) -> Result<Seq<AutoCount<int>>, InitError> {
    let u = usize::MAX as int;
    let w = u32::MAX as int;
    let c0 = count_of(list, "worker_threads"@, u);
    let c1 = count_of(list, "event_interval"@, w);
    let c2 = count_of(list, "global_queue_interval"@, w);
    let c3 = count_of(list, "max_blocking_threads"@, u);
    let c4 = count_of(list, "max_io_events_per_tick"@, u);
    let c5 = count_of(list, "thread_keep_alive"@, w);
    let c6 = count_of(list, "thread_stack_size"@, u);
    if c0 is None {
        Err(InitError::WorkerThreads)
    } else if c1 is None {
        Err(InitError::EventInterval)
    } else if c2 is None {
        Err(InitError::GlobalQueueInterval)
    } else if c3 is None {
        Err(InitError::MaxBlockingThreads)
    } else if c4 is None {
        Err(InitError::MaxIoEventsPerTick)
    } else if c5 is None {
        Err(InitError::ThreadKeepAlive)
    } else if c6 is None {
        Err(InitError::ThreadStackSize)
    } else {
        Ok(seq![c0->0, c1->0, c2->0, c3->0, c4->0, c5->0, c6->0])
    }
}

pub open spec fn async_view(a: Async) -> Seq<AutoCount<int>> {
    seq![
        usize_count(a.worker_threads),
        u32_count(a.event_interval),
        u32_count(a.global_queue_interval),
        usize_count(a.max_blocking_threads),
        usize_count(a.max_io_events_per_tick),
        u32_count(a.thread_keep_alive),
        usize_count(a.thread_stack_size),
    ]
}

fn last_value_exec<'a>(list: &'a Vec<(String, ConfValue)>, key: &str) -> (res: Option<&'a ConfValue>)
    ensures
        match last_value(list@, key@) {
            Some(v) => res == Some(&v),
            None => res is None,
        },
{
    let mut i = list.len();
    assert(list@.subrange(0, list@.len() as int) =~= list@);
    while i > 0
        invariant
            i <= list@.len(),
            last_value(list@.subrange(0, i as int), key@) == last_value(list@, key@),
        decreases i,
    {
        assert(list@.subrange(0, i as int).drop_last() =~= list@.subrange(0, i - 1));
        if str_eq(list[i - 1].0.as_str(), key) {
            return Some(&list[i - 1].1);
        }
        i = i - 1;
    }
    assert(list@.subrange(0, 0) =~= Seq::<(String, ConfValue)>::empty());
    None
}

fn str_setting_exec<'a>(list: &'a Vec<(String, ConfValue)>, key: &str) -> (res: Option<&'a String>)
    ensures
        match str_setting(list@, key@) {
            Some(s) => res matches Some(r) && r@ == s,
            None => res is None,
        },
{
    match last_value_exec(list, key) {
        Some(ConfValue::Str(s)) => Some(s),
        _ => None,
    }
}

fn non_empty_exec(s: Option<&String>) -> (res: Option<String>)
    ensures
        match non_empty_str(
            match s {
                Some(r) => Some(r@),
                None => None,
            },
        ) {
            Some(t) => res matches Some(r) && r@ == t,
            None => res is None,
        },
{
    match s {
        Some(s) => {
            if s.as_str().unicode_len() > 0 {
                Some(s.clone())
            } else {
                None
            }
        },
        None => None,
    }
}

fn non_empty_setting(list: &Vec<(String, ConfValue)>, key: &str) -> (res: Option<String>)
    ensures
        match non_empty_str(str_setting(list@, key@)) {
            Some(t) => res matches Some(r) && r@ == t,
            None => res is None,
        },
{
    non_empty_exec(str_setting_exec(list, key))
}

fn str_of(v: &ConfValue) -> (res: Option<&String>)
    ensures
        match as_str(*v) {
            Some(t) => res matches Some(r) && r@ == t,
            None => res is None,
        },
{
    match v {
        ConfValue::Str(s) => Some(s),
        _ => None,
    }
}

fn route_ids_exec(v: &ConfValue) -> (res: Option<[i64; 3]>)
    ensures
        match route_ids(*v) {
            Some(t) => res matches Some(r) && r@ == seq![t.0, t.1, t.2],
            None => res is None,
        },
{
    match v {
        ConfValue::Array(a) => {
            if a.len() < 3 {
                return None;
            }
            let m = match non_empty_exec(str_of(&a[0])) {
                Some(m) => m,
                None => return None,
            };
            let c = match non_empty_exec(str_of(&a[1])) {
                Some(c) => c,
                None => return None,
            };
            let x = match non_empty_exec(str_of(&a[2])) {
                Some(x) => x,
                None => return None,
            };
            let r = [fnv1a_64(m.as_str().as_bytes()), fnv1a_64(c.as_str().as_bytes()), fnv1a_64(x.as_str().as_bytes())];
            assert(r@ =~= seq![r[0], r[1], r[2]]);
            Some(r)
        },
        _ => None,
    }
}

fn last_route(list: &Vec<(String, ConfValue)>, key: &str) -> (res: Option<[i64; 3]>)
    ensures
        match last_valid(list@, key@, |v: ConfValue| route_ids(v)) {
            Some(t) => res matches Some(r) && r@ == seq![t.0, t.1, t.2],
            None => res is None,
        },
{
    let mut i = list.len();
    assert(list@.subrange(0, list@.len() as int) =~= list@);
    while i > 0
        invariant
            i <= list@.len(),
            last_valid(list@.subrange(0, i as int), key@, |v: ConfValue| route_ids(v)) == last_valid(
                list@,
                key@,
                |v: ConfValue| route_ids(v),
            ),
        decreases i,
    {
        assert(list@.subrange(0, i as int).drop_last() =~= list@.subrange(0, i - 1));
        if str_eq(list[i - 1].0.as_str(), key) {
            match route_ids_exec(&list[i - 1].1) {
                Some(r) => return Some(r),
                None => {},
            }
        }
        i = i - 1;
    }
    assert(list@.subrange(0, 0) =~= Seq::<(String, ConfValue)>::empty());
    None
}

fn last_str(list: &Vec<(String, ConfValue)>, key: &str) -> (res: Option<String>)
    ensures
        match last_valid(list@, key@, |v: ConfValue| as_str(v)) {
            Some(t) => res matches Some(r) && r@ == t,
            None => res is None,
        },
{
    let mut i = list.len();
    assert(list@.subrange(0, list@.len() as int) =~= list@);
    while i > 0
        invariant
            i <= list@.len(),
            last_valid(list@.subrange(0, i as int), key@, |v: ConfValue| as_str(v)) == last_valid(
                list@,
                key@,
                |v: ConfValue| as_str(v),
            ),
        decreases i,
    {
        assert(list@.subrange(0, i as int).drop_last() =~= list@.subrange(0, i - 1));
        if str_eq(list[i - 1].0.as_str(), key) {
            match str_of(&list[i - 1].1) {
                Some(r) => return Some(r.clone()),
                None => {},
            }
        }
        i = i - 1;
    }
    assert(list@.subrange(0, 0) =~= Seq::<(String, ConfValue)>::empty());
    None
}

fn auto_count_exec(v: &ConfValue, max: u64) -> (res: Option<AutoCount<u64>>)
    ensures
        match auto_count(*v, max as int) {
            Some(AutoCount::Auto) => res == Some(AutoCount::<u64>::Auto),
            Some(AutoCount::Count(n)) => res == Some(AutoCount::<u64>::Count(n as u64)),
            None => res is None,
        },
        res matches Some(AutoCount::Count(n)) ==> n <= max,
{
    match v {
        ConfValue::Str(s) => {
            if str_eq(s.as_str(), "auto") {
                Some(AutoCount::Auto)
            } else {
                None
            }
        },
        ConfValue::Int(i) => {
            if 0 <= *i && (*i as i128) <= (max as i128) {
                Some(AutoCount::Count(*i as u64))
            } else {
                None
            }
        },
        _ => None,
    }
}

fn count_exec(list: &Vec<(String, ConfValue)>, key: &str, max: u64) -> (res: Option<AutoCount<u64>>)
    ensures
        match count_of(list@, key@, max as int) {
            Some(AutoCount::Auto) => res == Some(AutoCount::<u64>::Auto),
            Some(AutoCount::Count(n)) => res == Some(AutoCount::<u64>::Count(n as u64)),
            None => res is None,
        },
        res matches Some(AutoCount::Count(n)) ==> n <= max,
        count_of(list@, key@, max as int) matches Some(AutoCount::Count(n)) ==> 0 <= n <= max,
{
    let mut i = list.len();
    assert(list@.subrange(0, list@.len() as int) =~= list@);
    while i > 0
        invariant
            i <= list@.len(),
            last_valid(list@.subrange(0, i as int), key@, |v: ConfValue| auto_count(v, max as int))
                == count_of(list@, key@, max as int),
        decreases i,
    {
        assert(list@.subrange(0, i as int).drop_last() =~= list@.subrange(0, i - 1));
        if str_eq(list[i - 1].0.as_str(), key) {
            match auto_count_exec(&list[i - 1].1, max) {
                Some(r) => return Some(r),
                None => {},
            }
        }
        i = i - 1;
    }
    assert(list@.subrange(0, 0) =~= Seq::<(String, ConfValue)>::empty());
    None
}

fn to_usize_count(c: AutoCount<u64>) -> (res: AutoCount<usize>)
    requires
        c matches AutoCount::Count(n) ==> n <= usize::MAX,
    ensures
        usize_count(res) == match c {
            AutoCount::Auto => AutoCount::<int>::Auto,
            AutoCount::Count(n) => AutoCount::<int>::Count(n as int),
        },
{
    match c {
        AutoCount::Auto => AutoCount::Auto,
        AutoCount::Count(n) => AutoCount::Count(n as usize),
    }
}

fn to_u32_count(c: AutoCount<u64>) -> (res: AutoCount<u32>)
    requires
        c matches AutoCount::Count(n) ==> n <= u32::MAX,
    ensures
        u32_count(res) == match c {
            AutoCount::Auto => AutoCount::<int>::Auto,
            AutoCount::Count(n) => AutoCount::<int>::Count(n as int),
        },
{
    match c {
        AutoCount::Auto => AutoCount::Auto,
        AutoCount::Count(n) => AutoCount::Count(n as u32),
    }
}

pub open spec fn web_view(w: Web) -> WebView {
    WebView {
        lang: crate::request::opt_view(w.lang),
        salt: w.salt@,
        session_key: crate::request::opt_view(w.session_key),
        session_path: crate::request::opt_view(w.session_path),
        index: (w.index@[0], w.index@[1], w.index@[2]),
        not_found: match w.not_found {
            Some(a) => Some((a@[0], a@[1], a@[2])),
            None => None,
        },
    }
}

pub open spec fn socket_view(s: Socket) -> SocketView {
    match s {
        Socket::Unix(p) => SocketView::Unix(p@),
        Socket::Inet(p) => SocketView::Inet(p@),
    }
}

pub open spec fn net_view(n: Net) -> NetView {
    NetView {
        bind: socket_view(n.bind),
        bind_from: n.bind_from@,
        rpc: socket_view(n.rpc),
        rpc_from: n.rpc_from@,
    }
}

fn socket_from(s: String) -> (res: Socket)
    ensures
        socket_view(res) == socket_of(s@),
{
    if s.as_str().unicode_len() > 0 && s.as_str().get_char(0) == '/' {
        Socket::Unix(s)
    } else {
        Socket::Inet(s)
    }
}

impl Web {
    /// Reads the `[web]` section as a build with the features `f` does (see
    /// `web_of`).
    pub fn from_table(list: &Vec<(String, ConfValue)>, f: Features) -> (res: Result<Web, InitError>)
        ensures
            match web_of(list@, f) {
                Ok(w) => res matches Ok(r) && web_view(r) == w,
                Err(e) => res matches Err(e2) && e2 == e,
            },
    {
        let lang = if f.lang {
            match non_empty_setting(list, "lang") {
                Some(l) => Some(l),
                None => return Err(InitError::WebLang),
            }
        } else {
            None
        };
        let salt = match non_empty_setting(list, "salt") {
            Some(s) => s,
            None => return Err(InitError::WebSalt),
        };
        let session_key = if f.session {
            match non_empty_setting(list, "session") {
                Some(s) => Some(s),
                None => return Err(InitError::WebSession),
            }
        } else {
            None
        };
        let session_path = if f.session_path {
            match non_empty_setting(list, "session_path") {
                Some(s) => Some(s),
                None => return Err(InitError::WebSessionPath),
            }
        } else {
            None
        };
        let index = match last_route(list, "index") {
            Some(i) => i,
            None => return Err(InitError::WebIndex),
        };
        let not_found = last_route(list, "not_found");
        Ok(Web { lang, salt, session_key, session_path, index, not_found })
    }
}

impl Net {
    /// Reads the `[net]` section (see `net_of`).
    pub fn from_table(list: &Vec<(String, ConfValue)>) -> (res: Result<Net, InitError>)
        ensures
            match net_of(list@) {
                Ok(n) => res matches Ok(r) && net_view(r) == n,
                Err(e) => res matches Err(e2) && e2 == e,
            },
    {
        let bind = match last_str(list, "bind") {
            Some(b) => b,
            None => return Err(InitError::NetBind),
        };
        let bind_from = match last_str(list, "bind_from") {
            Some(b) => b,
            None => return Err(InitError::NetBindFrom),
        };
        let rpc = match last_str(list, "rpc") {
            Some(b) => b,
            None => return Err(InitError::NetRpc),
        };
        let rpc_from = match last_str(list, "rpc_from") {
            Some(b) => b,
            None => return Err(InitError::NetRpcFrom),
        };
        Ok(Net { bind: socket_from(bind), bind_from, rpc: socket_from(rpc), rpc_from })
    }
}

impl Async {
    /// Reads the `[async]` section (see `async_of`).
    pub fn from_table(list: &Vec<(String, ConfValue)>) -> (res: Result<Async, InitError>)
        ensures
            match async_of(list@) {
                Ok(c) => res matches Ok(r) && async_view(r) == c,
                Err(e) => res matches Err(e2) && e2 == e,
            },
    {
        let u = usize::MAX as u64;
        let w = u32::MAX as u64;
        assert(u as int == usize::MAX as int);
        assert(w as int == u32::MAX as int);
        let worker_threads = match count_exec(list, "worker_threads", u) {
            Some(c) => to_usize_count(c),
            None => return Err(InitError::WorkerThreads),
        };
        let event_interval = match count_exec(list, "event_interval", w) {
            Some(c) => to_u32_count(c),
            None => return Err(InitError::EventInterval),
        };
        let global_queue_interval = match count_exec(list, "global_queue_interval", w) {
            Some(c) => to_u32_count(c),
            None => return Err(InitError::GlobalQueueInterval),
        };
        let max_blocking_threads = match count_exec(list, "max_blocking_threads", u) {
            Some(c) => to_usize_count(c),
            None => return Err(InitError::MaxBlockingThreads),
        };
        let max_io_events_per_tick = match count_exec(list, "max_io_events_per_tick", u) {
            Some(c) => to_usize_count(c),
            None => return Err(InitError::MaxIoEventsPerTick),
        };
        let thread_keep_alive = match count_exec(list, "thread_keep_alive", w) {
            Some(c) => to_u32_count(c),
            None => return Err(InitError::ThreadKeepAlive),
        };
        let thread_stack_size = match count_exec(list, "thread_stack_size", u) {
            Some(c) => to_usize_count(c),
            None => return Err(InitError::ThreadStackSize),
        };
        let res = Async {
            worker_threads,
            event_interval,
            global_queue_interval,
            max_blocking_threads,
            max_io_events_per_tick,
            thread_keep_alive,
            thread_stack_size,
        };
        assert(async_view(res) =~= async_of(list@)->Ok_0);
        Ok(res)
    }
}

} // verus!

verus! {

pub open spec fn as_int(v: ConfValue) -> Option<i64> {
    match v {
        ConfValue::Int(i) => Some(i),
        _ => None,
    }
}

pub open spec fn as_bool(v: ConfValue) -> Option<bool> {
    match v {
        ConfValue::Bool(b) => Some(b),
        _ => None,
    }
}

/// What a key was last set to, read by `f` (nothing when `f` gives nothing).
pub open spec fn setting<T>(list: Seq<(String, ConfValue)>, key: Seq<char>, f: spec_fn(ConfValue) -> Option<T>) -> Option<T> {
    match last_value(list, key) {
        Some(v) => f(v),
        None => None,
    }
}

/// The `[db]` section as a mathematical value.
pub struct DbView {
    pub host: Seq<char>,
    pub port: Option<u16>,
    pub name: Seq<char>,
    pub user: Option<Seq<char>>,
    pub pwd: Option<Seq<char>>,
    pub ssl: bool,
    pub max: AutoCount<int>,
}

/// The `[db]` section of a table: host, name, ssl and max are needed; a port
/// must fit in 16 bits; an empty user or password is none.
pub open spec fn db_of(list: Seq<(String, ConfValue)>) -> Result<DbView, InitError> {
    let host = non_empty_str(str_setting(list, "host"@));
    let port = setting(list, "port"@, |v: ConfValue| as_int(v));
    let name = non_empty_str(str_setting(list, "name"@));
    let ssl = setting(list, "ssl"@, |v: ConfValue| as_bool(v));
    let max = count_of(list, "max"@, usize::MAX as int);
    if host is None {
        Err(InitError::DbHost)
    } else if port matches Some(p) && !(0 <= p <= 65535) {
        Err(InitError::DbPort)
    } else if name is None {
        Err(InitError::DbName)
    } else if ssl is None {
        Err(InitError::DbSsl)
    } else if max is None {
        Err(InitError::DbMax)
    } else {
        Ok(
            DbView {
                host: host->0,
                port: match port {
                    Some(p) => Some(p as u16),
                    None => None,
                },
                name: name->0,
                user: non_empty_str(str_setting(list, "user"@)),
                pwd: non_empty_str(str_setting(list, "pwd"@)),
                ssl: ssl->0,
                max: max->0,
            },
        )
    }
}

pub open spec fn db_view(d: DBConfig) -> DbView {
    DbView {
        host: d.host@,
        port: d.port,
        name: d.name@,
        user: crate::request::opt_view(d.user),
        pwd: crate::request::opt_view(d.pwd),
        ssl: d.ssl,
        max: usize_count(d.max),
    }
}

/// The `[mail]` section as a mathematical value.
pub struct MailView {
    pub sendmail: Option<Seq<char>>,
    pub path: Option<Seq<char>>,
    pub smtp: Option<SmtpView>,
}

/// The SMTP settings as a mathematical value.
pub struct SmtpView {
    pub server: Seq<char>,
    pub port: u16,
    pub tls: Tls,
    pub auth: Auth,
    pub user: Option<Seq<char>>,
    pub pwd: Option<Seq<char>>,
}

pub open spec fn tls_of(s: Seq<char>) -> Option<Tls> {
    if s == "NONE"@ {
        Some(Tls::Plain)
    } else if s == "STARTTLS"@ {
        Some(Tls::Start)
    } else if s == "SSL/TLS"@ {
        Some(Tls::Ssl)
    } else {
        None
    }
}

pub open spec fn auth_of(s: Seq<char>) -> Option<Auth> {
    if s == "NONE"@ {
        Some(Auth::Plain)
    } else if s == "PLAIN"@ {
        Some(Auth::PlainText)
    } else if s == "LOGIN"@ {
        Some(Auth::Login)
    } else if s == "XOAUTH2"@ {
        Some(Auth::XOAuth2)
    } else {
        None
    }
}

/// The SMTP settings of a `[mail]` table: server, a 16-bit port, the TLS mode
/// (`NONE`, `STARTTLS`, `SSL/TLS`) and the authentication (`NONE`, `PLAIN`,
/// `LOGIN`, `XOAUTH2`) are needed.
pub open spec fn smtp_of(list: Seq<(String, ConfValue)>) -> Result<SmtpView, InitError> {
    let server = non_empty_str(str_setting(list, "server"@));
    let port = setting(list, "port"@, |v: ConfValue| as_int(v));
    let tls = match str_setting(list, "tls"@) {
        Some(t) => tls_of(t),
        None => None,
    };
    let auth = match str_setting(list, "auth"@) {
        Some(a) => auth_of(a),
        None => None,
    };
    if server is None {
        Err(InitError::MailServer)
    } else if !(port matches Some(p) && 0 <= p <= 65535) {
        Err(InitError::MailPort)
    } else if tls is None {
        Err(InitError::MailTls)
    } else if auth is None {
        Err(InitError::MailAuth)
    } else {
        Ok(
            SmtpView {
                server: server->0,
                port: port->0 as u16,
                tls: tls->0,
                auth: auth->0,
                user: non_empty_str(str_setting(list, "user"@)),
                pwd: non_empty_str(str_setting(list, "pwd"@)),
            },
        )
    }
}

/// The `[mail]` section of a table, as a build with the features `f` reads
/// it: the sendmail program, then the folder, then the SMTP settings, each
/// where its feature is on.
pub open spec fn mail_of(list: Seq<(String, ConfValue)>, f: Features) -> Result<MailView, InitError> {
    let sendmail = non_empty_str(str_setting(list, "sendmail"@));
    let path = non_empty_str(str_setting(list, "path"@));
    if f.mail_sendmail && sendmail is None {
        Err(InitError::MailSendmail)
    } else if f.mail_file && path is None {
        Err(InitError::MailPath)
    } else if !f.mail_smtp {
        Ok(MailView { sendmail: if_on(f.mail_sendmail, sendmail), path: if_on(f.mail_file, path), smtp: None })
    } else {
        match smtp_of(list) {
            Ok(s) => Ok(
                MailView {
                    sendmail: if_on(f.mail_sendmail, sendmail),
                    path: if_on(f.mail_file, path),
                    smtp: Some(s),
                },
            ),
            Err(e) => Err(e),
        }
    }
}

pub open spec fn mail_view(m: MailConfig) -> MailView {
    MailView {
        sendmail: crate::request::opt_view(m.sendmail),
        path: crate::request::opt_view(m.path),
        smtp: match m.smtp {
            Some(s) => Some(smtp_view(s)),
            None => None,
        },
    }
}

pub open spec fn smtp_view(m: SmtpConfig) -> SmtpView {
    SmtpView {
        server: m.server@,
        port: m.port,
        tls: m.tls,
        auth: m.auth,
        user: crate::request::opt_view(m.user),
        pwd: crate::request::opt_view(m.pwd),
    }
}

fn int_setting(list: &Vec<(String, ConfValue)>, key: &str) -> (res: Option<i64>)
    ensures
        res == setting(list@, key@, |v: ConfValue| as_int(v)),
{
    match last_value_exec(list, key) {
        Some(ConfValue::Int(i)) => Some(*i),
        _ => None,
    }
}

fn bool_setting(list: &Vec<(String, ConfValue)>, key: &str) -> (res: Option<bool>)
    ensures
        res == setting(list@, key@, |v: ConfValue| as_bool(v)),
{
    match last_value_exec(list, key) {
        Some(ConfValue::Bool(b)) => Some(*b),
        _ => None,
    }
}

impl DBConfig {
    /// Reads the `[db]` section (see `db_of`).
    pub fn from_table(list: &Vec<(String, ConfValue)>) -> (res: Result<DBConfig, InitError>)
        ensures
            match db_of(list@) {
                Ok(d) => res matches Ok(r) && db_view(r) == d,
                Err(e) => res matches Err(e2) && e2 == e,
            },
    {
        let host = match non_empty_setting(list, "host") {
            Some(h) => h,
            None => return Err(InitError::DbHost),
        };
        let port = match int_setting(list, "port") {
            Some(p) => {
                if 0 <= p && p <= 65535 {
                    Some(p as u16)
                } else {
                    return Err(InitError::DbPort);
                }
            },
            None => None,
        };
        let name = match non_empty_setting(list, "name") {
            Some(n) => n,
            None => return Err(InitError::DbName),
        };
        let user = non_empty_setting(list, "user");
        let pwd = non_empty_setting(list, "pwd");
        let ssl = match bool_setting(list, "ssl") {
            Some(s) => s,
            None => return Err(InitError::DbSsl),
        };
        let u = usize::MAX as u64;
        assert(u as int == usize::MAX as int);
        let max = match count_exec(list, "max", u) {
            Some(c) => to_usize_count(c),
            None => return Err(InitError::DbMax),
        };
        Ok(DBConfig { host, port, name, user, pwd, ssl, max })
    }
}

impl MailConfig {
    /// Reads the `[mail]` section as a build with the features `f` does (see
    /// `mail_of`).
    pub fn from_table(list: &Vec<(String, ConfValue)>, f: Features) -> (res: Result<MailConfig, InitError>)
        ensures
            match mail_of(list@, f) {
                Ok(m) => res matches Ok(r) && mail_view(r) == m,
                Err(e) => res matches Err(e2) && e2 == e,
            },
    {
        let sendmail = if f.mail_sendmail {
            match non_empty_setting(list, "sendmail") {
                Some(s) => Some(s),
                None => return Err(InitError::MailSendmail),
            }
        } else {
            None
        };
        let path = if f.mail_file {
            match non_empty_setting(list, "path") {
                Some(s) => Some(s),
                None => return Err(InitError::MailPath),
            }
        } else {
            None
        };
        let smtp = if f.mail_smtp {
            match SmtpConfig::from_table(list) {
                Ok(s) => Some(s),
                Err(e) => return Err(e),
            }
        } else {
            None
        };
        Ok(MailConfig { sendmail, path, smtp })
    }
}

impl SmtpConfig {
    /// Reads the SMTP settings of a `[mail]` table (see `smtp_of`).
    pub fn from_table(list: &Vec<(String, ConfValue)>) -> (res: Result<SmtpConfig, InitError>)
        ensures
            match smtp_of(list@) {
                Ok(m) => res matches Ok(r) && smtp_view(r) == m,
                Err(e) => res matches Err(e2) && e2 == e,
            },
    {
        let server = match non_empty_setting(list, "server") {
            Some(s) => s,
            None => return Err(InitError::MailServer),
        };
        let port = match int_setting(list, "port") {
            Some(p) => {
                if 0 <= p && p <= 65535 {
                    p as u16
                } else {
                    return Err(InitError::MailPort);
                }
            },
            None => return Err(InitError::MailPort),
        };
        let tls = match str_setting_exec(list, "tls") {
            Some(t) => {
                if str_eq(t.as_str(), "NONE") {
                    Tls::Plain
                } else if str_eq(t.as_str(), "STARTTLS") {
                    Tls::Start
                } else if str_eq(t.as_str(), "SSL/TLS") {
                    Tls::Ssl
                } else {
                    return Err(InitError::MailTls);
                }
            },
            None => return Err(InitError::MailTls),
        };
        let auth = match str_setting_exec(list, "auth") {
            Some(a) => {
                if str_eq(a.as_str(), "NONE") {
                    Auth::Plain
                } else if str_eq(a.as_str(), "PLAIN") {
                    Auth::PlainText
                } else if str_eq(a.as_str(), "LOGIN") {
                    Auth::Login
                } else if str_eq(a.as_str(), "XOAUTH2") {
                    Auth::XOAuth2
                } else {
                    return Err(InitError::MailAuth);
                }
            },
            None => return Err(InitError::MailAuth),
        };
        let user = non_empty_setting(list, "user");
        let pwd = non_empty_setting(list, "pwd");
        Ok(SmtpConfig { server, port, tls, auth, user, pwd })
    }
}

/// The sections read so far.
pub struct Sections {
    pub web: Option<WebView>,
    pub net: Option<NetView>,
    pub proc: Option<Seq<AutoCount<int>>>,
    pub db: Option<DbView>,
    pub mail: Option<MailView>,
}

/// What one entry of the file does in a build with the features `f`: a
/// section is read (the first that is refused is the answer); a key that is
/// not a section, a section of a feature that is left out, or a section that
/// is not a table, is passed over.
pub open spec fn section_step(st: Sections, k: Seq<char>, v: ConfValue, f: Features) -> Result<Sections, InitError> {
    match v {
        ConfValue::Table(list) => if k == "web"@ {
            match web_of(list@, f) {
                Ok(w) => Ok(Sections { web: Some(w), ..st }),
                Err(e) => Err(e),
            }
        } else if k == "net"@ {
            match net_of(list@) {
                Ok(n) => Ok(Sections { net: Some(n), ..st }),
                Err(e) => Err(e),
            }
        } else if k == "async"@ {
            match async_of(list@) {
                Ok(a) => Ok(Sections { proc: Some(a), ..st }),
                Err(e) => Err(e),
            }
        } else if k == "db"@ && f.db {
            match db_of(list@) {
                Ok(d) => Ok(Sections { db: Some(d), ..st }),
                Err(e) => Err(e),
            }
        } else if k == "mail"@ && f.mail() {
            match mail_of(list@, f) {
                Ok(m) => Ok(Sections { mail: Some(m), ..st }),
                Err(e) => Err(e),
            }
        } else {
            Ok(st)
        },
        _ => Ok(st),
    }
}

/// Reads the entries in order.
pub open spec fn sections_fold(st: Sections, entries: Seq<(String, ConfValue)>, f: Features) -> Result<Sections, InitError>
    decreases entries.len(),
{
    if entries.len() == 0 {
        Ok(st)
    } else {
        match section_step(st, entries[0].0@, entries[0].1, f) {
            Ok(s2) => sections_fold(s2, entries.drop_first(), f),
            Err(e) => Err(e),
        }
    }
}

/// What a build with the features `f` needs of the sections read: `[web]`,
/// `[net]` and `[async]` always, `[db]` and `[mail]` with their features.
pub open spec fn sections_needed(s: Sections, f: Features) -> Result<Sections, InitError> {
    if s.web is None {
        Err(InitError::NoWeb)
    } else if s.net is None {
        Err(InitError::NoNet)
    } else if s.proc is None {
        Err(InitError::NoAsync)
    } else if f.db && s.db is None {
        Err(InitError::NoDb)
    } else if f.mail() && s.mail is None {
        Err(InitError::NoMail)
    } else {
        Ok(s)
    }
}

/// The application configuration that a build with the features `f` reads
/// from a file's values.
pub open spec fn app_init_of(entries: Seq<(String, ConfValue)>, f: Features) -> Result<Sections, InitError> {
    match sections_fold(Sections { web: None, net: None, proc: None, db: None, mail: None }, entries, f) {
        Err(e) => Err(e),
        Ok(s) => sections_needed(s, f),
    }
}

/// The application configuration as a mathematical value.
pub open spec fn app_view(a: AppInit) -> Sections {
    Sections {
        web: Some(web_view(a.web)),
        net: Some(net_view(a.net)),
        proc: Some(async_view(a.proc)),
        db: match a.db {
            Some(d) => Some(db_view(d)),
            None => None,
        },
        mail: match a.mail {
            Some(m) => Some(mail_view(m)),
            None => None,
        },
    }
}

impl AppInit {
    fn ok_sections(self) -> (res: Result<AppInit, InitError>)
        ensures
            res matches Ok(r) && r == self,
    {
        Ok(self)
    }

    /// Reads the configuration of the application named `name` from a
    /// file's values, as a build with the features `f` does (see
    /// `app_init_of`).
    pub fn parse(name: String, version: String, desc: String, entries: &Vec<(String, ConfValue)>, f: Features) -> (res: Result<AppInit, InitError>)
        ensures
            match app_init_of(entries@, f) {
                Ok(s) => res matches Ok(r) && app_view(r) == s && r.name == name && r.version == version
                    && r.desc == desc,
                Err(e) => res matches Err(e2) && e2 == e,
            },
    {
        let mut b = SectionsBuild { web: None, net: None, proc: None, db: None, mail: None };
        let ghost start = sections_view(b);
        let mut i: usize = 0;
        assert(entries@.subrange(0, entries@.len() as int) =~= entries@);
        while i < entries.len()
            invariant
                i <= entries@.len(),
                start == (Sections { web: None, net: None, proc: None, db: None, mail: None }),
                sections_fold(sections_view(b), entries@.subrange(i as int, entries@.len() as int), f)
                    == sections_fold(start, entries@, f),
            decreases entries@.len() - i,
        {
            assert(entries@.subrange(i as int, entries@.len() as int).drop_first()
                =~= entries@.subrange(i + 1, entries@.len() as int));
            match b.apply(entries[i].0.as_str(), &entries[i].1, f) {
                Ok(()) => {},
                Err(e) => return Err(e),
            }
            i = i + 1;
        }
        assert(entries@.subrange(i as int, entries@.len() as int) =~= Seq::<(String, ConfValue)>::empty());
        b.finish(name, version, desc, f)
    }
}

struct SectionsBuild {
    web: Option<Web>,
    net: Option<Net>,
    proc: Option<Async>,
    db: Option<DBConfig>,
    mail: Option<MailConfig>,
}

spec fn sections_view(b: SectionsBuild) -> Sections {
    Sections {
        web: match b.web {
            Some(w) => Some(web_view(w)),
            None => None,
        },
        net: match b.net {
            Some(n) => Some(net_view(n)),
            None => None,
        },
        proc: match b.proc {
            Some(a) => Some(async_view(a)),
            None => None,
        },
        db: match b.db {
            Some(d) => Some(db_view(d)),
            None => None,
        },
        mail: match b.mail {
            Some(m) => Some(mail_view(m)),
            None => None,
        },
    }
}

impl SectionsBuild {
    fn finish(self, name: String, version: String, desc: String, f: Features) -> (res: Result<AppInit, InitError>)
        ensures
            match sections_needed(sections_view(self), f) {
                Ok(s) => res matches Ok(r) && app_view(r) == s && r.name == name && r.version == version
                    && r.desc == desc,
                Err(e) => res matches Err(e2) && e2 == e,
            },
    {
        let web = match self.web {
            Some(w) => w,
            None => return Err(InitError::NoWeb),
        };
        let net = match self.net {
            Some(n) => n,
            None => return Err(InitError::NoNet),
        };
        let proc = match self.proc {
            Some(a) => a,
            None => return Err(InitError::NoAsync),
        };
        if f.db && self.db.is_none() {
            return Err(InitError::NoDb);
        }
        if f.has_mail() && self.mail.is_none() {
            return Err(InitError::NoMail);
        }
        AppInit { name, version, desc, web, net, proc, db: self.db, mail: self.mail }.ok_sections()
    }

    fn apply(&mut self, key: &str, value: &ConfValue, f: Features) -> (res: Result<(), InitError>)
        ensures
            match section_step(sections_view(*old(self)), key@, *value, f) {
                Ok(s) => res is Ok && sections_view(*final(self)) == s,
                Err(e) => res matches Err(e2) && e2 == e,
            },
    {
        let list = match value {
            ConfValue::Table(list) => list,
            _ => return Ok(()),
        };
        if str_eq(key, "web") {
            match Web::from_table(list, f) {
                Ok(w) => {
                    self.web = Some(w);
                },
                Err(e) => return Err(e),
            }
        } else if str_eq(key, "net") {
            match Net::from_table(list) {
                Ok(n) => {
                    self.net = Some(n);
                },
                Err(e) => return Err(e),
            }
        } else if str_eq(key, "async") {
            match Async::from_table(list) {
                Ok(a) => {
                    self.proc = Some(a);
                },
                Err(e) => return Err(e),
            }
        } else if f.db && str_eq(key, "db") {
            match DBConfig::from_table(list) {
                Ok(d) => {
                    self.db = Some(d);
                },
                Err(e) => return Err(e),
            }
        } else if f.has_mail() && str_eq(key, "mail") {
            match MailConfig::from_table(list, f) {
                Ok(m) => {
                    self.mail = Some(m);
                },
                Err(e) => return Err(e),
            }
        }
        Ok(())
    }
}

} // verus!
