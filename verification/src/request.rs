//! The request as the controllers see it, and how the parameters that a web
//! server hands over (FastCGI, SCGI) fill it.

use vstd::prelude::*;
use vstd::string::StringExecFns;

use crate::params::{
    after_question, before_question, check_ajax, cookie_pairs, decoded, is_ajax, pairs_view,
    parse_cookie, parse_query, query_pairs, split_uri,
};
use crate::text::{parse_unsigned, parse_unsigned_bytes};
use vstd::string::StringSliceAdditionalSpecFns;
use vstd::utf8::encode_utf8;

verus! {

broadcast use vstd::utf8::encode_utf8_decode_utf8;

/// Describes a received file.
#[derive(Debug)]
pub struct WebFile {
    /// File size.
    pub size: usize,
    /// File name.
    pub name: String,
    /// Absolute path to file location.
    pub tmp: String,
}

/// Raw HTTP data if the HTTP POST data was not recognized.
#[derive(Debug)]
pub enum RawData {
    /// Nothing.
    Nothing,
    /// JSON text.
    Json(String),
    /// Text.
    String(String),
    /// Bytes.
    Raw(Vec<u8>),
}

/// Http version.
#[derive(Debug)]
pub enum HttpVersion {
    /// Not known (a web server in front).
    Nothing,
    /// HTTP/1.0.
    HTTP1_0,
    /// HTTP/1.1.
    HTTP1_1,
    /// HTTP/2.
    HTTP2,
}

/// HTTP methods.
#[derive(Debug)]
pub enum HttpMethod {
    Get,
    Head,
    Post,
    Put,
    Delete,
    Connect,
    Options,
    Trace,
    Patch,
    Other(String),
}

/// Whether two texts are equal.
pub fn str_eq(a: &str, b: &str) -> (res: bool)
    ensures
        res == (a@ == b@),
{
    let n = a.unicode_len();
    if n != b.unicode_len() {
        return false;
    }
    let mut i: usize = 0;
    while i < n
        invariant
            n == a@.len(),
            n == b@.len(),
            i <= n,
            forall|j: int| 0 <= j < i ==> a@[j] == b@[j],
        decreases n - i,
    {
        if a.get_char(i) != b.get_char(i) {
            return false;
        }
        i = i + 1;
    }
    assert(a@ =~= b@);
    true
}

/// The method named by a text.
pub open spec fn method_of(m: Seq<char>) -> HttpMethodView {
    if m == "GET"@ {
        HttpMethodView::Get
    } else if m == "HEAD"@ {
        HttpMethodView::Head
    } else if m == "POST"@ {
        HttpMethodView::Post
    } else if m == "PUT"@ {
        HttpMethodView::Put
    } else if m == "DELETE"@ {
        HttpMethodView::Delete
    } else if m == "CONNECT"@ {
        HttpMethodView::Connect
    } else if m == "OPTIONS"@ {
        HttpMethodView::Options
    } else if m == "TRACE"@ {
        HttpMethodView::Trace
    } else if m == "PATCH"@ {
        HttpMethodView::Patch
    } else {
        HttpMethodView::Other(m)
    }
}

/// A method as a mathematical value.
pub enum HttpMethodView {
    Get,
    Head,
    Post,
    Put,
    Delete,
    Connect,
    Options,
    Trace,
    Patch,
    Other(Seq<char>),
}

impl HttpMethod {
    pub open spec fn view(&self) -> HttpMethodView {
        match self {
            HttpMethod::Get => HttpMethodView::Get,
            HttpMethod::Head => HttpMethodView::Head,
            HttpMethod::Post => HttpMethodView::Post,
            HttpMethod::Put => HttpMethodView::Put,
            HttpMethod::Delete => HttpMethodView::Delete,
            HttpMethod::Connect => HttpMethodView::Connect,
            HttpMethod::Options => HttpMethodView::Options,
            HttpMethod::Trace => HttpMethodView::Trace,
            HttpMethod::Patch => HttpMethodView::Patch,
            HttpMethod::Other(s) => HttpMethodView::Other(s@),
        }
    }

    /// The method named by a text; any other name is `Other`.
    pub fn from_name(method: &str) -> (res: HttpMethod)
        ensures
            res.view() == method_of(method@),
    {
        if str_eq(method, "GET") {
            HttpMethod::Get
        } else if str_eq(method, "HEAD") {
            HttpMethod::Head
        } else if str_eq(method, "POST") {
            HttpMethod::Post
        } else if str_eq(method, "PUT") {
            HttpMethod::Put
        } else if str_eq(method, "DELETE") {
            HttpMethod::Delete
        } else if str_eq(method, "CONNECT") {
            HttpMethod::Connect
        } else if str_eq(method, "OPTIONS") {
            HttpMethod::Options
        } else if str_eq(method, "TRACE") {
            HttpMethod::Trace
        } else if str_eq(method, "PATCH") {
            HttpMethod::Patch
        } else {
            HttpMethod::Other(method.to_owned())
        }
    }
}

/// What the parameters of a web server say of a request.
#[derive(Debug)]
pub struct HeadInfo {
    /// Ajax query.
    pub ajax: bool,
    /// Request host.
    pub host: String,
    /// Request scheme.
    pub scheme: String,
    /// Site: the scheme, `://` and the host.
    pub site: String,
    /// User agent.
    pub agent: String,
    /// Referer.
    pub referer: String,
    /// Client address, as given.
    pub ip: Option<String>,
    /// Request method, as given.
    pub method: String,
    /// Document root.
    pub path: String,
    /// Request path, percent-decoded.
    pub url: String,
    /// GET data, in order; a later pair replaces an earlier one with its key.
    pub get: Vec<(String, String)>,
    /// Cookies, in order; a later pair replaces an earlier one with its name.
    pub cookie: Vec<(String, String)>,
    /// Other parameters, in order.
    pub params: Vec<(String, String)>,
    /// Content type.
    pub content_type: Option<String>,
    /// Length of the body.
    pub content_len: usize,
}

/// The parameters of a request as a mathematical value.
pub struct HeadView {
    pub ajax: bool,
    pub host: Seq<char>,
    pub scheme: Seq<char>,
    pub agent: Seq<char>,
    pub referer: Seq<char>,
    pub ip: Option<Seq<char>>,
    pub method: Seq<char>,
    pub path: Seq<char>,
    pub url: Seq<char>,
    pub get: Seq<(Seq<char>, Seq<char>)>,
    pub cookie: Seq<(Seq<char>, Seq<char>)>,
    pub params: Seq<(Seq<char>, Seq<char>)>,
    pub content_type: Option<Seq<char>>,
    pub content_len: nat,
}

pub open spec fn opt_view(o: Option<String>) -> Option<Seq<char>> {
    match o {
        Some(s) => Some(s@),
        None => None,
    }
}

impl HeadInfo {
    pub open spec fn view(&self) -> HeadView {
        HeadView {
            ajax: self.ajax,
            host: self.host@,
            scheme: self.scheme@,
            agent: self.agent@,
            referer: self.referer@,
            ip: opt_view(self.ip),
            method: self.method@,
            path: self.path@,
            url: self.url@,
            get: pairs_view(self.get@),
            cookie: pairs_view(self.cookie@),
            params: pairs_view(self.params@),
            content_type: opt_view(self.content_type),
            content_len: self.content_len as nat,
        }
    }

    /// Nothing known yet, with the given default scheme.
    pub fn new(scheme: &str) -> (res: HeadInfo)
        ensures
            res.view() == empty_head(scheme@),
            res.site@ == Seq::<char>::empty(),
    {
        let res = HeadInfo {
            ajax: false,
            host: String::new(),
            scheme: scheme.to_owned(),
            site: String::new(),
            agent: String::new(),
            referer: String::new(),
            ip: None,
            method: String::new(),
            path: String::new(),
            url: String::new(),
            get: Vec::new(),
            cookie: Vec::new(),
            params: Vec::new(),
            content_type: None,
            content_len: 0,
        };
        assert(pairs_view(res.get@) =~= Seq::<(Seq<char>, Seq<char>)>::empty());
        assert(pairs_view(res.cookie@) =~= Seq::<(Seq<char>, Seq<char>)>::empty());
        assert(pairs_view(res.params@) =~= Seq::<(Seq<char>, Seq<char>)>::empty());
        assert(res.view() =~~= empty_head(scheme@));
        res
    }
}

/// The site of a request: its scheme, `://` and its host.
pub open spec fn site_text(scheme: Seq<char>, host: Seq<char>) -> Seq<char> {
    scheme + "://"@ + host
}

impl HeadInfo {
    /// Sets the site from the scheme and the host (see `site_text`),
    /// changing nothing else.
    pub fn set_site(&mut self)
        ensures
            final(self).view() == old(self).view(),
            final(self).site@ == site_text(old(self).scheme@, old(self).host@),
    {
        let mut site = String::new();
        site.append(self.scheme.as_str());
        site.append("://");
        site.append(self.host.as_str());
        self.site = site;
    }
}

/// Nothing known yet, with the given default scheme.
pub open spec fn empty_head(scheme: Seq<char>) -> HeadView {
    HeadView {
        ajax: false,
        host: Seq::empty(),
        scheme: scheme,
        agent: Seq::empty(),
        referer: Seq::empty(),
        ip: None,
        method: Seq::empty(),
        path: Seq::empty(),
        url: Seq::empty(),
        get: Seq::empty(),
        cookie: Seq::empty(),
        params: Seq::empty(),
        content_type: None,
        content_len: 0,
    }
}

/// What one parameter of a web server does to a request.
///
/// `CONTENT_LENGTH` is read (SCGI only) as a number, kept when it parses;
/// `REDIRECT_URL` gives the decoded path before `?` when it decodes;
/// `QUERY_STRING` and `HTTP_COOKIE` add their pairs; the other known names
/// set their field; any other name is kept as a parameter.
pub open spec fn cgi_apply(h: HeadView, key: Seq<char>, value: Seq<char>, scgi: bool) -> HeadView {
    if scgi && key == "CONTENT_LENGTH"@ {
        match parse_unsigned(encode_utf8(value), usize::MAX as nat) {
            Some(n) => HeadView { content_len: n, ..h },
            None => h,
        }
    } else if key == "HTTP_X_REQUESTED_WITH"@ {
        HeadView { ajax: is_ajax(value), ..h }
    } else if key == "HTTP_HOST"@ {
        HeadView { host: value, ..h }
    } else if key == "REQUEST_SCHEME"@ {
        HeadView { scheme: value, ..h }
    } else if key == "HTTP_USER_AGENT"@ {
        HeadView { agent: value, ..h }
    } else if key == "HTTP_REFERER"@ {
        HeadView { referer: value, ..h }
    } else if key == "REMOTE_ADDR"@ {
        HeadView { ip: Some(value), ..h }
    } else if key == "REQUEST_METHOD"@ {
        HeadView { method: value, ..h }
    } else if key == "DOCUMENT_ROOT"@ {
        HeadView { path: value, ..h }
    } else if key == "REDIRECT_URL"@ {
        match decoded(before_question(value)) {
            Some(u) => HeadView { url: u, ..h },
            None => h,
        }
    } else if key == "QUERY_STRING"@ {
        HeadView { get: h.get + query_pairs(value), ..h }
    } else if key == "CONTENT_TYPE"@ {
        HeadView { content_type: Some(value), ..h }
    } else if key == "HTTP_COOKIE"@ {
        HeadView { cookie: h.cookie + cookie_pairs(value), ..h }
    } else {
        HeadView { params: h.params.push((key, value)), ..h }
    }
}

pub fn append_pairs(out: &mut Vec<(String, String)>, more: Vec<(String, String)>)
    ensures
        pairs_view(final(out)@) == pairs_view(old(out)@) + pairs_view(more@),
{
    let mut more = more;
    let ghost m0 = more@;
    let ghost o0 = out@;
    out.append(&mut more);
    assert(out@ =~= o0 + m0);
    assert(pairs_view(out@) =~= pairs_view(o0) + pairs_view(m0));
}

impl HeadInfo {
    /// Applies one parameter of a web server (see `cgi_apply`).
    pub fn apply_cgi(&mut self, key: String, value: String, scgi: bool)
        ensures
            final(self).view() == cgi_apply(old(self).view(), key@, value@, scgi),
    {
        let k = key.as_str();
        if scgi && str_eq(k, "CONTENT_LENGTH") {
            match parse_unsigned_bytes(value.as_str().as_bytes(), usize::MAX as u64) {
                Some(n) => {
                    self.content_len = n as usize;
                },
                None => {},
            }
        } else if str_eq(k, "HTTP_X_REQUESTED_WITH") {
            self.ajax = check_ajax(value.as_str());
        } else if str_eq(k, "HTTP_HOST") {
            self.host = value;
        } else if str_eq(k, "REQUEST_SCHEME") {
            self.scheme = value;
        } else if str_eq(k, "HTTP_USER_AGENT") {
            self.agent = value;
        } else if str_eq(k, "HTTP_REFERER") {
            self.referer = value;
        } else if str_eq(k, "REMOTE_ADDR") {
            self.ip = Some(value);
        } else if str_eq(k, "REQUEST_METHOD") {
            self.method = value;
        } else if str_eq(k, "DOCUMENT_ROOT") {
            self.path = value;
        } else if str_eq(k, "REDIRECT_URL") {
            let (u, _) = split_uri(value.as_str());
            match u {
                Some(u) => {
                    self.url = u;
                },
                None => {},
            }
        } else if str_eq(k, "QUERY_STRING") {
            let q = parse_query(value.as_str());
            append_pairs(&mut self.get, q);
        } else if str_eq(k, "CONTENT_TYPE") {
            self.content_type = Some(value);
        } else if str_eq(k, "HTTP_COOKIE") {
            let c = parse_cookie(value.as_str());
            append_pairs(&mut self.cookie, c);
        } else {
            let ghost kv = (key@, value@);
            let ghost p0 = self.params@;
            self.params.push((key, value));
            assert(pairs_view(self.params@) =~= pairs_view(p0).push(kv));
        }
        assert(final(self).view() =~~= cgi_apply(old(self).view(), key@, value@, scgi));
    }
}

/// The names of web server parameters that set a field of their own.
pub open spec fn cgi_sets(key: Seq<char>) -> bool {
    key == "HTTP_HOST"@ || key == "REQUEST_SCHEME"@ || key == "HTTP_USER_AGENT"@ || key == "HTTP_REFERER"@ || key
        == "REMOTE_ADDR"@ || key == "REQUEST_METHOD"@ || key == "DOCUMENT_ROOT"@ || key == "CONTENT_TYPE"@
}

/// The field of a request that a parameter of this name sets.
pub open spec fn cgi_field(h: HeadView, key: Seq<char>) -> Option<Seq<char>> {
    if key == "HTTP_HOST"@ {
        Some(h.host)
    } else if key == "REQUEST_SCHEME"@ {
        Some(h.scheme)
    } else if key == "HTTP_USER_AGENT"@ {
        Some(h.agent)
    } else if key == "HTTP_REFERER"@ {
        Some(h.referer)
    } else if key == "REMOTE_ADDR"@ {
        h.ip
    } else if key == "REQUEST_METHOD"@ {
        Some(h.method)
    } else if key == "DOCUMENT_ROOT"@ {
        Some(h.path)
    } else if key == "CONTENT_TYPE"@ {
        h.content_type
    } else {
        None
    }
}

/// The names of web server parameters that the request reads: those that
/// set a field, the length (SCGI), the AJAX marker, the path, the query
/// string and the cookies.
pub open spec fn cgi_known(key: Seq<char>, scgi: bool) -> bool {
    cgi_sets(key) || (scgi && key == "CONTENT_LENGTH"@) || key == "HTTP_X_REQUESTED_WITH"@ || key
        == "REDIRECT_URL"@ || key == "QUERY_STRING"@ || key == "HTTP_COOKIE"@
}

/// A parameter sets the field of its name to its value and leaves the field
/// of every other name as it was.
pub proof fn law_cgi_apply_field(h: HeadView, key: Seq<char>, value: Seq<char>, scgi: bool, k: Seq<char>)
    requires
        cgi_sets(k),
    ensures
        cgi_field(cgi_apply(h, key, value, scgi), k) == if key == k {
            Some(value)
        } else {
            cgi_field(h, k)
        },
{
    reveal_strlit("CONTENT_LENGTH");
    reveal_strlit("HTTP_X_REQUESTED_WITH");
    reveal_strlit("HTTP_HOST");
    reveal_strlit("REQUEST_SCHEME");
    reveal_strlit("HTTP_USER_AGENT");
    reveal_strlit("HTTP_REFERER");
    reveal_strlit("REMOTE_ADDR");
    reveal_strlit("REQUEST_METHOD");
    reveal_strlit("DOCUMENT_ROOT");
    reveal_strlit("REDIRECT_URL");
    reveal_strlit("QUERY_STRING");
    reveal_strlit("CONTENT_TYPE");
    reveal_strlit("HTTP_COOKIE");
    assert("CONTENT_LENGTH"@[0] != "REQUEST_SCHEME"@[0]);
    assert("CONTENT_LENGTH"@[0] != "REQUEST_METHOD"@[0]);
    assert("REQUEST_SCHEME"@[8] != "REQUEST_METHOD"@[8]);
    assert("HTTP_REFERER"@[0] != "REDIRECT_URL"@[0]);
    assert("HTTP_REFERER"@[0] != "QUERY_STRING"@[0]);
    assert("HTTP_REFERER"@[0] != "CONTENT_TYPE"@[0]);
    assert("REDIRECT_URL"@[0] != "QUERY_STRING"@[0]);
    assert("REDIRECT_URL"@[0] != "CONTENT_TYPE"@[0]);
    assert("QUERY_STRING"@[0] != "CONTENT_TYPE"@[0]);
    assert("REMOTE_ADDR"@[0] != "HTTP_COOKIE"@[0]);
    assert("CONTENT_LENGTH"@.len() == 14);
    assert("HTTP_X_REQUESTED_WITH"@.len() == 21);
    assert("HTTP_HOST"@.len() == 9);
    assert("REQUEST_SCHEME"@.len() == 14);
    assert("HTTP_USER_AGENT"@.len() == 15);
    assert("HTTP_REFERER"@.len() == 12);
    assert("REMOTE_ADDR"@.len() == 11);
    assert("REQUEST_METHOD"@.len() == 14);
    assert("DOCUMENT_ROOT"@.len() == 13);
    assert("REDIRECT_URL"@.len() == 12);
    assert("QUERY_STRING"@.len() == 12);
    assert("CONTENT_TYPE"@.len() == 12);
    assert("HTTP_COOKIE"@.len() == 11);
}

/// A parameter that the request does not read is kept, after the others,
/// among its parameters; one that it reads is not.
pub proof fn law_cgi_apply_params(h: HeadView, key: Seq<char>, value: Seq<char>, scgi: bool)
    ensures
        cgi_apply(h, key, value, scgi).params == if cgi_known(key, scgi) {
            h.params
        } else {
            h.params.push((key, value))
        },
{
}

} // verus!

