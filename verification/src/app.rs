//! The installation dialog: what each answer gives for the configuration
//! file.

use vstd::prelude::*;
use vstd::string::{StringExecFns, StringSliceAdditionalSpecFns};
use vstd::utf8::encode_utf8;

use crate::request::str_eq;
use crate::text::{decimal, parse_unsigned, parse_unsigned_bytes, push_char};

verus! {

/// Whether a character is white space (Unicode `White_Space`, as
/// `char::is_whitespace` has it).
pub open spec fn is_ws(c: char) -> bool {
    ('\u{9}' <= c <= '\u{d}') || c == ' ' || c == '\u{85}' || c == '\u{a0}' || c == '\u{1680}' || (
    '\u{2000}' <= c <= '\u{200a}') || c == '\u{2028}' || c == '\u{2029}' || c == '\u{202f}' || c
        == '\u{205f}' || c == '\u{3000}'
}

/// `s` without its leading white space.
pub open spec fn strip_start(s: Seq<char>) -> Seq<char>
    decreases s.len(),
{
    if s.len() > 0 && is_ws(s[0]) {
        strip_start(s.drop_first())
    } else {
        s
    }
}

/// `s` without its trailing white space.
pub open spec fn strip_end(s: Seq<char>) -> Seq<char>
    decreases s.len(),
{
    if s.len() > 0 && is_ws(s.last()) {
        strip_end(s.drop_last())
    } else {
        s
    }
}

/// `s` without leading and trailing white space.
pub open spec fn trimmed(s: Seq<char>) -> Seq<char> {
    strip_end(strip_start(s))
}

/// Leading white space can be dropped before stripping the start.
proof fn lemma_strip_start_from(s: Seq<char>, i: int)
    requires
        0 <= i <= s.len(),
        forall|j: int| 0 <= j < i ==> is_ws(#[trigger] s[j]),
    ensures
        strip_start(s) == strip_start(s.subrange(i, s.len() as int)),
    decreases i,
{
    if i == 0 {
        assert(s.subrange(0, s.len() as int) =~= s);
    } else {
        assert(is_ws(s[0]));
        let t = s.drop_first();
        assert forall|j: int| 0 <= j < i - 1 implies is_ws(#[trigger] t[j]) by {
            assert(t[j] == s[j + 1]);
        }
        lemma_strip_start_from(t, i - 1);
        assert(t.subrange(i - 1, t.len() as int) =~= s.subrange(i, s.len() as int));
    }
}

/// Trailing white space can be dropped before stripping the end.
proof fn lemma_strip_end_to(s: Seq<char>, e: int)
    requires
        0 <= e <= s.len(),
        forall|j: int| e <= j < s.len() ==> is_ws(#[trigger] s[j]),
    ensures
        strip_end(s) == strip_end(s.subrange(0, e)),
    decreases s.len() - e,
{
    if e == s.len() {
        assert(s.subrange(0, e) =~= s);
    } else {
        assert(is_ws(s[s.len() - 1]));
        let t = s.drop_last();
        assert forall|j: int| e <= j < t.len() implies is_ws(#[trigger] t[j]) by {
            assert(t[j] == s[j]);
        }
        lemma_strip_end_to(t, e);
        assert(t.subrange(0, e) =~= s.subrange(0, e));
    }
}

/// Removes leading and trailing white space, as std's `str::trim` does.
pub fn trim(s: &str) -> (res: &str)
    ensures
        res@ == trimmed(s@),
{
    let n = s.unicode_len();
    let mut i: usize = 0;
    while i < n && is_whitespace(s.get_char(i))
        invariant
            i <= n,
            n == s@.len(),
            forall|j: int| 0 <= j < i ==> is_ws(#[trigger] s@[j]),
        decreases n - i,
    {
        i = i + 1;
    }
    let mut e: usize = n;
    while e > i && is_whitespace(s.get_char(e - 1))
        invariant
            i <= e <= n,
            n == s@.len(),
            forall|j: int| e <= j < n ==> is_ws(#[trigger] s@[j]),
        decreases e - i,
    {
        e = e - 1;
    }
    proof {
        lemma_strip_start_from(s@, i as int);
        let rest = s@.subrange(i as int, n as int);
        if i < n {
            assert(!is_ws(rest[0]));
        } else {
            assert(rest.len() == 0);
        }
        assert(strip_start(rest) == rest);
        assert forall|j: int| e - i <= j < rest.len() implies is_ws(#[trigger] rest[j]) by {
            assert(rest[j] == s@[i + j]);
        }
        lemma_strip_end_to(rest, e - i);
        let kept = rest.subrange(0, e - i);
        if e > i {
            assert(kept.last() == s@[e - 1]);
            assert(!is_ws(kept.last()));
        }
        assert(strip_end(kept) == kept);
        assert(kept =~= s@.subrange(i as int, e as int));
    }
    s.substring_char(i, e)
}

/// Whether a character is white space.
fn is_whitespace(c: char) -> (res: bool)
    ensures
        res == is_ws(c),
{
    ('\u{9}' <= c && c <= '\u{d}') || c == ' ' || c == '\u{85}' || c == '\u{a0}' || c == '\u{1680}'
        || ('\u{2000}' <= c && c <= '\u{200a}') || c == '\u{2028}' || c == '\u{2029}' || c == '\u{202f}'
        || c == '\u{205f}' || c == '\u{3000}'
}

/// The questions of the installation dialog, in order.
#[derive(Debug, Clone, Copy)]
pub enum InstallQuestion {
    Start,
    ConfigPath,
    Lang,
    Log,
    Max,
    BindFrom,
    Bind,
    RpcFrom,
    Rpc,
    Salt,
    DbHost,
    DbPort,
    DbName,
    DbUser,
    DbPwd,
    DbMax,
    SslMode,
    Zone,
}

/// What an answer gives.
#[derive(Debug)]
pub enum InstallReply {
    /// The dialog ends without a configuration.
    Stop,
    /// The answer is not taken; the question is asked again.
    Retry,
    /// The configuration file's path and the folder it lies in.
    Path(String, String),
    /// A line of the configuration file.
    Line(String),
}

/// What an answer gives, as a mathematical value.
pub enum ReplyView {
    Stop,
    Retry,
    Path(Seq<char>, Seq<char>),
    Line(Seq<char>),
}

pub open spec fn reply_view(r: InstallReply) -> ReplyView {
    match r {
        InstallReply::Stop => ReplyView::Stop,
        InstallReply::Retry => ReplyView::Retry,
        InstallReply::Path(a, b) => ReplyView::Path(a@, b@),
        InstallReply::Line(l) => ReplyView::Line(l@),
    }
}

/// ASCII lower case of a text.
pub open spec fn lower(s: Seq<char>) -> Seq<char> {
    s.map_values(|c: char| crate::params::ascii_lower(c))
}

/// A line `name = value`.
pub open spec fn line(name: Seq<char>, value: Seq<char>) -> Seq<char> {
    name + " = "@ + value
}

/// The text of a 16-bit number, or `auto` for an empty answer; `None` when
/// the answer is not such a number.
pub open spec fn count_text(a: Seq<char>) -> Option<Seq<char>> {
    if a.len() == 0 {
        Some("auto"@)
    } else {
        match parse_unsigned(encode_utf8(a), 65535) {
            Some(n) => Some(decimal(n).map_values(|b: u8| b as char)),
            None => None,
        }
    }
}

/// What an answer (trimmed) gives for a question, with `dir` the folder the
/// dialog runs in, `path` the folder of the configuration file, and `salt`
/// a salt to offer.
///
/// The dialog goes on with an empty answer or `y`; a path gives the file
/// `tiny.conf` in it; a language has two ASCII letters (`en` by default);
/// numbers have 16 bits (`auto` or 5432 by default); `sslmode` is `no` or
/// `require`; other answers fall back to their defaults when empty.
pub open spec fn install_reply(q: InstallQuestion, raw: Seq<char>, dir: Seq<char>, path: Seq<char>, salt: Seq<char>) -> ReplyView {
    let a = trimmed(raw);
    let or = |d: Seq<char>| if a.len() == 0 {
        d
    } else {
        a
    };
    match q {
        InstallQuestion::Start => if a.len() == 0 || lower(a) == "y"@ {
            ReplyView::Line(Seq::empty())
        } else {
            ReplyView::Stop
        },
        InstallQuestion::ConfigPath => if a.len() == 0 {
            ReplyView::Path(dir + "/tiny.conf"@, dir)
        } else if a.last() == '/' {
            ReplyView::Path(a + "tiny.conf"@, a.drop_last())
        } else {
            ReplyView::Path(a + "/tiny.conf"@, a)
        },
        InstallQuestion::Lang => {
            let l = lower(a);
            if l.len() == 0 {
                ReplyView::Line(line("lang"@, "en"@))
            } else if encode_utf8(l).len() as usize != 2 {
                ReplyView::Retry
            } else {
                ReplyView::Line(line("lang"@, l))
            }
        },
        InstallQuestion::Log => ReplyView::Line(line("log"@, or(path + "/tiny.log"@))),
        InstallQuestion::Max => match count_text(a) {
            Some(t) => ReplyView::Line(line("max"@, t)),
            None => ReplyView::Retry,
        },
        InstallQuestion::BindFrom => ReplyView::Line(line("bind_from"@, or("127.0.0.1"@))),
        InstallQuestion::Bind => ReplyView::Line(line("bind"@, or("127.0.0.1:12500"@))),
        InstallQuestion::RpcFrom => ReplyView::Line(line("rpc_from"@, or("127.0.0.1"@))),
        InstallQuestion::Rpc => ReplyView::Line(line("rpc"@, or("127.0.0.1:12501"@))),
        InstallQuestion::Salt => ReplyView::Line(line("salt"@, or(salt))),
        InstallQuestion::DbHost => ReplyView::Line(line("db_host"@, or("127.0.0.1"@))),
        InstallQuestion::DbPort => if a.len() == 0 {
            ReplyView::Line(line("db_port"@, "5432"@))
        } else {
            match parse_unsigned(encode_utf8(a), 65535) {
                Some(n) => ReplyView::Line(line("db_port"@, decimal(n).map_values(|b: u8| b as char))),
                None => ReplyView::Retry,
            }
        },
        InstallQuestion::DbName => ReplyView::Line(line("db_name"@, or("tiny"@))),
        InstallQuestion::DbUser => ReplyView::Line(line("db_user"@, or("tiny"@))),
        InstallQuestion::DbPwd => ReplyView::Line(line("db_pwd"@, a)),
        InstallQuestion::DbMax => match count_text(a) {
            Some(t) => ReplyView::Line(line("db_max"@, t)),
            None => ReplyView::Retry,
        },
        InstallQuestion::SslMode => if a.len() == 0 {
            ReplyView::Line(line("sslmode"@, "no"@))
        } else if a == "no"@ || a == "require"@ {
            ReplyView::Line(line("sslmode"@, a))
        } else {
            ReplyView::Retry
        },
        InstallQuestion::Zone => ReplyView::Line(line("zone"@, a)),
    }
}

fn lower_exec(s: &str) -> (res: String)
    ensures
        res@ == lower(s@),
{
    let mut out = String::new();
    let n = s.unicode_len();
    let mut i: usize = 0;
    while i < n
        invariant
            n == s@.len(),
            i <= n,
            out@ =~= lower(s@.subrange(0, i as int)),
        decreases n - i,
    {
        let c = s.get_char(i);
        let l = if 'A' <= c && c <= 'Z' {
            ((c as u8) + 32u8) as char
        } else {
            c
        };
        push_char(&mut out, l);
        i = i + 1;
    }
    assert(s@.subrange(0, n as int) =~= s@);
    out
}

fn make_line(name: &str, value: &str) -> (res: String)
    ensures
        res@ == line(name@, value@),
{
    let s = String::from_str(name).concat(" = ").concat(value);
    s
}

fn decimal_string(n: u64) -> (res: String)
    ensures
        res@ == decimal(n as nat).map_values(|b: u8| b as char),
{
    let mut v: Vec<u8> = Vec::new();
    crate::text::push_decimal(&mut v, n);
    assert(v@ =~= Seq::<u8>::empty() + decimal(n as nat));
    let mut out = String::new();
    let mut i: usize = 0;
    while i < v.len()
        invariant
            i <= v@.len(),
            v@ == decimal(n as nat),
            out@ =~= v@.subrange(0, i as int).map_values(|b: u8| b as char),
        decreases v@.len() - i,
    {
        push_char(&mut out, v[i] as char);
        i = i + 1;
    }
    assert(v@.subrange(0, v@.len() as int) =~= v@);
    out
}

fn count_exec(a: &str) -> (res: Option<String>)
    ensures
        match count_text(a@) {
            Some(t) => res matches Some(r) && r@ == t,
            None => res is None,
        },
{
    if a.unicode_len() == 0 {
        return Some("auto".to_owned());
    }
    match parse_unsigned_bytes(a.as_bytes(), 65535) {
        Some(n) => Some(decimal_string(n)),
        None => None,
    }
}

/// The value of an answer, or the default for an empty one.
fn or_default(a: &str, d: &str) -> (res: String)
    ensures
        res@ == if a@.len() == 0 {
            d@
        } else {
            a@
        },
{
    if a.unicode_len() == 0 {
        d.to_owned()
    } else {
        a.to_owned()
    }
}

/// The installation dialog.
pub struct App;

impl App {
    /// What an answer gives for a question of the installation dialog (see
    /// `install_reply`).
    #[verifier::rlimit(60)]
    pub fn install_answer(q: InstallQuestion, raw: &str, dir: &str, path: &str, salt: &str) -> (res: InstallReply)
        ensures
            reply_view(res) == install_reply(q, raw@, dir@, path@, salt@),
    {
        let a = trim(raw);
        match q {
            InstallQuestion::Start => {
                if a.unicode_len() == 0 || str_eq(lower_exec(a).as_str(), "y") {
                    InstallReply::Line(String::new())
                } else {
                    InstallReply::Stop
                }
            },
            InstallQuestion::ConfigPath => {
                let n = a.unicode_len();
                if n == 0 {
                    InstallReply::Path(String::from_str(dir).concat("/tiny.conf"), dir.to_owned())
                } else if a.get_char(n - 1) == '/' {
                    let folder = a.substring_char(0, n - 1).to_owned();
                    assert(a@.subrange(0, n - 1) =~= a@.drop_last());
                    InstallReply::Path(String::from_str(a).concat("tiny.conf"), folder)
                } else {
                    InstallReply::Path(String::from_str(a).concat("/tiny.conf"), a.to_owned())
                }
            },
            InstallQuestion::Lang => {
                let l = lower_exec(a);
                if l.as_str().unicode_len() == 0 {
                    InstallReply::Line(make_line("lang", "en"))
                } else if l.as_str().len() != 2 {
                    InstallReply::Retry
                } else {
                    InstallReply::Line(make_line("lang", l.as_str()))
                }
            },
            InstallQuestion::Log => {
                let d = String::from_str(path).concat("/tiny.log");
                InstallReply::Line(make_line("log", or_default(a, d.as_str()).as_str()))
            },
            InstallQuestion::Max => match count_exec(a) {
                Some(t) => InstallReply::Line(make_line("max", t.as_str())),
                None => InstallReply::Retry,
            },
            InstallQuestion::BindFrom => InstallReply::Line(
                make_line("bind_from", or_default(a, "127.0.0.1").as_str()),
            ),
            InstallQuestion::Bind => InstallReply::Line(
                make_line("bind", or_default(a, "127.0.0.1:12500").as_str()),
            ),
            InstallQuestion::RpcFrom => InstallReply::Line(
                make_line("rpc_from", or_default(a, "127.0.0.1").as_str()),
            ),
            InstallQuestion::Rpc => InstallReply::Line(
                make_line("rpc", or_default(a, "127.0.0.1:12501").as_str()),
            ),
            InstallQuestion::Salt => InstallReply::Line(make_line("salt", or_default(a, salt).as_str())),
            InstallQuestion::DbHost => InstallReply::Line(
                make_line("db_host", or_default(a, "127.0.0.1").as_str()),
            ),
            InstallQuestion::DbPort => {
                if a.unicode_len() == 0 {
                    InstallReply::Line(make_line("db_port", "5432"))
                } else {
                    match parse_unsigned_bytes(a.as_bytes(), 65535) {
                        Some(n) => InstallReply::Line(make_line("db_port", decimal_string(n).as_str())),
                        None => InstallReply::Retry,
                    }
                }
            },
            InstallQuestion::DbName => InstallReply::Line(
                make_line("db_name", or_default(a, "tiny").as_str()),
            ),
            InstallQuestion::DbUser => InstallReply::Line(
                make_line("db_user", or_default(a, "tiny").as_str()),
            ),
            InstallQuestion::DbPwd => InstallReply::Line(make_line("db_pwd", a)),
            InstallQuestion::DbMax => match count_exec(a) {
                Some(t) => InstallReply::Line(make_line("db_max", t.as_str())),
                None => InstallReply::Retry,
            },
            InstallQuestion::SslMode => {
                if a.unicode_len() == 0 {
                    InstallReply::Line(make_line("sslmode", "no"))
                } else if str_eq(a, "no") || str_eq(a, "require") {
                    InstallReply::Line(make_line("sslmode", a))
                } else {
                    InstallReply::Retry
                }
            },
            InstallQuestion::Zone => InstallReply::Line(make_line("zone", a)),
        }
    }
}

} // verus!
