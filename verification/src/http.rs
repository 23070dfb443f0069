//! The HTTP front end: the request head and the parameters it gives.

use vstd::prelude::*;
use vstd::utf8::{decode_utf8, valid_utf8};

use crate::params::{
    after_question, before_question, check_ajax, cookie_pairs, decoded, is_ajax, pairs_view,
    parse_cookie, parse_query, query_pairs, split_uri,
};
use crate::request::{empty_head, method_of, str_eq, HeadInfo, HeadView, HttpMethod, HttpMethodView};
use crate::scgi::{find_byte, lemma_find_byte};
use crate::text::{parse_unsigned, parse_unsigned_bytes, string_from_utf8};

verus! {

broadcast use vstd::utf8::encode_utf8_decode_utf8;

/// The version named on a request line.
pub enum VersionView {
    Nothing,
    Http10,
    Http11,
}

/// A request head as a mathematical value.
pub struct HttpHeadView {
    pub version: VersionView,
    pub method: HttpMethodView,
    pub header: Seq<(Seq<char>, Seq<char>)>,
    pub size: Option<nat>,
}

/// Why a request head was refused.
#[derive(Debug)]
pub enum HttpHeadError {
    /// The head is not UTF-8.
    Utf8,
    /// The request line lacks the URL or the version.
    HttpProtocol,
    /// `Content-Length` is not a number.
    ContentLength,
    /// A header line is not `name: value`.
    Header,
}

/// A request head: the method and version of its request line, its header
/// lines (the URL of the request line under `ORIGIN_URL`), and the length of
/// its body.
#[derive(Debug)]
pub struct HttpHead {
    /// Version.
    pub version: crate::request::HttpVersion,
    /// Method.
    pub method: HttpMethod,
    /// Header lines by upper-case name; each name once.
    pub header: Vec<(String, String)>,
    /// Length of the body, when given and not zero.
    pub size: Option<usize>,
}

/// Whether a line of the head ends at `i`: a CR LF not followed by CR.
pub open spec fn line_break_at(b: Seq<u8>, i: int) -> bool {
    0 <= i && i + 2 < b.len() && b[i] == 13u8 && b[i + 1] == 10u8 && b[i + 2] != 13u8
}

/// The first line break at or after `i`.
pub open spec fn find_break(b: Seq<u8>, i: int) -> Option<int>
    decreases b.len() - i,
{
    if i < 0 || i + 2 >= b.len() {
        None
    } else if line_break_at(b, i) {
        Some(i)
    } else {
        find_break(b, i + 1)
    }
}

pub proof fn lemma_find_break(b: Seq<u8>, i: int)
    ensures
        match find_break(b, i) {
            Some(p) => 0 <= i <= p && line_break_at(b, p),
            None => true,
        },
    decreases b.len() - i,
{
    if 0 <= i && i + 2 < b.len() && !line_break_at(b, i) {
        lemma_find_break(b, i + 1);
    }
}

/// The lines of a head (without its closing blank line).
pub open spec fn head_lines(b: Seq<u8>) -> Seq<Seq<u8>>
    decreases b.len(),
{
    proof {
        lemma_find_break(b, 0);
    }
    match find_break(b, 0) {
        None => seq![b],
        Some(p) => seq![b.subrange(0, p)] + head_lines(b.subrange(p + 2, b.len() as int)),
    }
}

/// ASCII upper case of a byte.
pub open spec fn upper(c: u8) -> u8 {
    if 97 <= c <= 122 {
        (c - 32) as u8
    } else {
        c
    }
}

/// ASCII upper case of bytes.
pub open spec fn upper_bytes(b: Seq<u8>) -> Seq<u8> {
    b.map_values(|c: u8| upper(c))
}

/// `HTTP/1.` and the given minor version digit.
pub open spec fn http_version_bytes(minor: u8) -> Seq<u8> {
    seq![72u8, 84u8, 84u8, 80u8, 47u8, 49u8, 46u8, minor]
}

/// `name: value` pairs replace an earlier pair with the same name, or come last.
pub open spec fn pairs_insert(s: Seq<(Seq<char>, Seq<char>)>, k: Seq<char>, v: Seq<char>) -> Seq<
    (Seq<char>, Seq<char>),
>
    decreases s.len(),
{
    if s.len() == 0 {
        seq![(k, v)]
    } else if s[0].0 == k {
        seq![(k, v)] + s.drop_first()
    } else {
        seq![s[0]] + pairs_insert(s.drop_first(), k, v)
    }
}

/// The pieces of a request line between spaces.
pub open spec fn space_pieces(l: Seq<u8>) -> Seq<Seq<u8>>
    decreases l.len(),
{
    proof {
        lemma_find_byte(l, 0, 32u8);
    }
    match find_byte(l, 0, 32u8) {
        None => seq![l],
        Some(p) => seq![l.subrange(0, p)] + space_pieces(l.subrange(p + 1, l.len() as int)),
    }
}

/// The state while reading the lines of a head: the head so far and whether
/// the request line is still to come.
pub struct HeadState {
    pub head: HttpHeadView,
    pub first: bool,
}

/// What one line does to the head.
///
/// A line without `:` while the request line is to come is the request line:
/// method, URL (kept as `ORIGIN_URL`) and version, separated by spaces. A
/// line with `:` is a header: its name in upper case, its value after the
/// byte that follows the `:`; `CONTENT-LENGTH` gives the body's length.
pub open spec fn apply_line(st: HeadState, line: Seq<u8>) -> Result<HeadState, HttpHeadError> {
    match find_byte(line, 0, 58u8) {
        None => if st.first {
            let ps = space_pieces(line);
            if ps.len() < 3 {
                Err(HttpHeadError::HttpProtocol)
            } else if !valid_utf8(ps[0]) || !valid_utf8(ps[1]) {
                Err(HttpHeadError::Utf8)
            } else {
                let version = if ps[2] == http_version_bytes(48u8) {
                    VersionView::Http10
                } else if ps[2] == http_version_bytes(49u8) {
                    VersionView::Http11
                } else {
                    st.head.version
                };
                Ok(
                    HeadState {
                        head: HttpHeadView {
                            version: version,
                            method: method_of(decode_utf8(ps[0])),
                            header: pairs_insert(
                                st.head.header,
                                "ORIGIN_URL"@,
                                decode_utf8(ps[1]),
                            ),
                            size: st.head.size,
                        },
                        first: false,
                    },
                )
            }
        } else {
            Err(HttpHeadError::Header)
        },
        Some(c) => if c + 2 > line.len() || !valid_utf8(upper_bytes(line.subrange(0, c)))
            || !valid_utf8(line.subrange(c + 2, line.len() as int)) {
            Err(HttpHeadError::Header)
        } else {
            let key = decode_utf8(upper_bytes(line.subrange(0, c)));
            let value = line.subrange(c + 2, line.len() as int);
            if key == "CONTENT-LENGTH"@ {
                match parse_unsigned(value, usize::MAX as nat) {
                    Some(n) => Ok(
                        HeadState {
                            head: HttpHeadView {
                                size: if n > 0 {
                                    Some(n)
                                } else {
                                    st.head.size
                                },
                                ..st.head
                            },
                            ..st
                        },
                    ),
                    None => Err(HttpHeadError::ContentLength),
                }
            } else {
                Ok(
                    HeadState {
                        head: HttpHeadView {
                            header: pairs_insert(st.head.header, key, decode_utf8(value)),
                            ..st.head
                        },
                        ..st
                    },
                )
            }
        },
    }
}

/// Applies the lines in order; the first refusal is the answer.
pub open spec fn apply_lines(st: HeadState, lines: Seq<Seq<u8>>) -> Result<HeadState, HttpHeadError>
    decreases lines.len(),
{
    if lines.len() == 0 {
        Ok(st)
    } else {
        match apply_line(st, lines[0]) {
            Ok(s2) => apply_lines(s2, lines.drop_first()),
            Err(e) => Err(e),
        }
    }
}

/// The head given by the bytes before its blank line.
pub open spec fn parse_head(b: Seq<u8>) -> Result<HttpHeadView, HttpHeadError> {
    if !valid_utf8(b) {
        Err(HttpHeadError::Utf8)
    } else {
        let start = HeadState {
            head: HttpHeadView {
                version: VersionView::Nothing,
                method: HttpMethodView::Get,
                header: Seq::empty(),
                size: None,
            },
            first: true,
        };
        match apply_lines(start, head_lines(b)) {
            Ok(st) => Ok(st.head),
            Err(e) => Err(e),
        }
    }
}

} // verus!

verus! {

fn find_break_from(b: &[u8], i: usize) -> (res: Option<usize>)
    requires
        i <= b@.len(),
    ensures
        match res {
            Some(p) => find_break(b@, i as int) == Some(p as int) && i <= p && p + 2 < b@.len(),
            None => find_break(b@, i as int) is None,
        },
{
    let mut j = i;
    while b.len() > 2 && j < b.len() - 2
        invariant
            i <= j <= b@.len(),
            find_break(b@, j as int) == find_break(b@, i as int),
        decreases b@.len() - j,
    {
        if b[j] == 13u8 && b[j + 1] == 10u8 && b[j + 2] != 13u8 {
            return Some(j);
        }
        j = j + 1;
    }
    None
}

/// Inserts a pair, replacing an earlier pair with the same name.
pub fn insert_pair(v: &mut Vec<(String, String)>, k: String, val: String)
    ensures
        pairs_view(final(v)@) == pairs_insert(pairs_view(old(v)@), k@, val@),
{
    let ghost s0 = pairs_view(v@);
    let mut i: usize = 0;
    while i < v.len()
        invariant
            i <= v@.len(),
            s0 == pairs_view(old(v)@),
            v@ == old(v)@,
            forall|j: int| 0 <= j < i ==> v@[j].0@ != k@,
        decreases v@.len() - i,
    {
        if v[i].0 == k {
            let ghost kv = (k@, val@);
            proof {
                lemma_pairs_insert_at(s0, k@, val@, i as int);
            }
            v.set(i, (k, val));
            assert(pairs_view(v@) =~= s0.update(i as int, kv));
            return;
        }
        i = i + 1;
    }
    proof {
        lemma_pairs_insert_absent(s0, k@, val@);
    }
    let ghost kv = (k@, val@);
    v.push((k, val));
    assert(pairs_view(v@) =~= s0.push(kv));
}

proof fn lemma_pairs_insert_at(s: Seq<(Seq<char>, Seq<char>)>, k: Seq<char>, v: Seq<char>, i: int)
    requires
        0 <= i < s.len(),
        s[i].0 == k,
        forall|j: int| 0 <= j < i ==> s[j].0 != k,
    ensures
        pairs_insert(s, k, v) == s.update(i, (k, v)),
    decreases s.len(),
{
    if i == 0 {
        assert(seq![(k, v)] + s.drop_first() =~= s.update(0, (k, v)));
    } else {
        assert(s[0].0 != k);
        lemma_pairs_insert_at(s.drop_first(), k, v, i - 1);
        assert(seq![s[0]] + s.drop_first().update(i - 1, (k, v)) =~= s.update(i, (k, v)));
    }
}

proof fn lemma_pairs_insert_absent(s: Seq<(Seq<char>, Seq<char>)>, k: Seq<char>, v: Seq<char>)
    requires
        forall|j: int| 0 <= j < s.len() ==> s[j].0 != k,
    ensures
        pairs_insert(s, k, v) == s.push((k, v)),
    decreases s.len(),
{
    if s.len() > 0 {
        assert(s[0].0 != k);
        lemma_pairs_insert_absent(s.drop_first(), k, v);
        assert(seq![s[0]] + s.drop_first().push((k, v)) =~= s.push((k, v)));
    } else {
        assert(seq![(k, v)] =~= s.push((k, v)));
    }
}

/// The mathematical value of a version.
pub open spec fn version_view(v: crate::request::HttpVersion) -> VersionView {
    match v {
        crate::request::HttpVersion::HTTP1_0 => VersionView::Http10,
        crate::request::HttpVersion::HTTP1_1 => VersionView::Http11,
        _ => VersionView::Nothing,
    }
}

/// The mathematical value of a request head.
pub open spec fn head_view(h: HttpHead) -> HttpHeadView {
    HttpHeadView {
        version: version_view(h.version),
        method: h.method.view(),
        header: pairs_view(h.header@),
        size: match h.size {
            Some(n) => Some(n as nat),
            None => None,
        },
    }
}

fn bytes_eq(a: &[u8], b: &[u8]) -> (res: bool)
    ensures
        res == (a@ == b@),
{
    if a.len() != b.len() {
        return false;
    }
    let mut i: usize = 0;
    while i < a.len()
        invariant
            a@.len() == b@.len(),
            i <= a@.len(),
            forall|j: int| 0 <= j < i ==> a@[j] == b@[j],
        decreases a@.len() - i,
    {
        if a[i] != b[i] {
            return false;
        }
        i = i + 1;
    }
    assert(a@ =~= b@);
    true
}

fn to_upper(b: &[u8]) -> (res: Vec<u8>)
    ensures
        res@ == upper_bytes(b@),
{
    let mut out: Vec<u8> = Vec::new();
    let mut i: usize = 0;
    while i < b.len()
        invariant
            i <= b@.len(),
            out@ =~= upper_bytes(b@.subrange(0, i as int)),
        decreases b@.len() - i,
    {
        let c = b[i];
        if 97u8 <= c && c <= 122u8 {
            out.push(c - 32u8);
        } else {
            out.push(c);
        }
        i = i + 1;
    }
    assert(b@.subrange(0, b@.len() as int) =~= b@);
    out
}

proof fn lemma_space_pieces_step(l: Seq<u8>, start: int)
    requires
        0 <= start <= l.len(),
    ensures
        space_pieces(l.subrange(start, l.len() as int)) == match find_byte(l, start, 32u8) {
            None => seq![l.subrange(start, l.len() as int)],
            Some(p) => seq![l.subrange(start, p)] + space_pieces(l.subrange(p + 1, l.len() as int)),
        },
{
    let t = l.subrange(start, l.len() as int);
    crate::scgi::lemma_find_byte_shift(l, start, 0, 32u8);
    lemma_find_byte(l, start, 32u8);
    match find_byte(l, start, 32u8) {
        None => {},
        Some(p) => {
            assert(t.subrange(0, p - start) =~= l.subrange(start, p));
            assert(t.subrange(p - start + 1, t.len() as int) =~= l.subrange(p + 1, l.len() as int));
        },
    }
}

/// The head being read.
struct HeadBuild {
    version: crate::request::HttpVersion,
    method: HttpMethod,
    header: Vec<(String, String)>,
    size: Option<usize>,
    first: bool,
}

spec fn build_view(b: HeadBuild) -> HeadState {
    HeadState {
        head: HttpHeadView {
            version: version_view(b.version),
            method: b.method.view(),
            header: pairs_view(b.header@),
            size: match b.size {
                Some(n) => Some(n as nat),
                None => None,
            },
        },
        first: b.first,
    }
}

fn bytes_string(b: &[u8]) -> (res: Option<String>)
    ensures
        match res {
            Some(s) => valid_utf8(b@) && s@ == decode_utf8(b@),
            None => !valid_utf8(b@),
        },
{
    string_from_utf8(vstd::slice::slice_to_vec(b))
}

/// Applies one line of the head.
fn apply_line_exec(st: &mut HeadBuild, line: &[u8]) -> (res: Result<(), HttpHeadError>)
    ensures
        match apply_line(build_view(*old(st)), line@) {
            Ok(s2) => res is Ok && build_view(*final(st)) == s2,
            Err(e) => res matches Err(e2) && e2 == e,
        },
{
    let len = line.len();
    match crate::scgi::Scgi::read_colon(line) {
        None => {
            if !st.first {
                return Err(HttpHeadError::Header);
            }
            proof {
                lemma_space_pieces_step(line@, 0);
                assert(line@.subrange(0, len as int) =~= line@);
            }
            let p1 = match crate::scgi::find_space(line, 0) {
                Some(p) => p,
                None => return Err(HttpHeadError::HttpProtocol),
            };
            proof {
                lemma_space_pieces_step(line@, p1 + 1);
            }
            let p2 = match crate::scgi::find_space(line, p1 + 1) {
                Some(p) => p,
                None => {
                    assert(space_pieces(line@).len() == 2);
                    return Err(HttpHeadError::HttpProtocol);
                },
            };
            proof {
                lemma_space_pieces_step(line@, p2 + 1);
            }
            let p3 = match crate::scgi::find_space(line, p2 + 1) {
                Some(p) => p,
                None => len,
            };
            let ghost ps = space_pieces(line@);
            assert(ps[0] == line@.subrange(0, p1 as int));
            assert(ps[1] == line@.subrange(p1 + 1, p2 as int));
            assert(ps[2] == line@.subrange(p2 + 1, p3 as int));
            let method = match bytes_string(&line[0..p1]) {
                Some(m) => m,
                None => return Err(HttpHeadError::Utf8),
            };
            let url = match bytes_string(&line[p1 + 1..p2]) {
                Some(u) => u,
                None => return Err(HttpHeadError::Utf8),
            };
            let ver = &line[p2 + 1..p3];
            let v10: [u8; 8] = [72u8, 84u8, 84u8, 80u8, 47u8, 49u8, 46u8, 48u8];
            let v11: [u8; 8] = [72u8, 84u8, 84u8, 80u8, 47u8, 49u8, 46u8, 49u8];
            assert(v10@ =~= http_version_bytes(48u8));
            assert(v11@ =~= http_version_bytes(49u8));
            if bytes_eq(ver, v10.as_slice()) {
                st.version = crate::request::HttpVersion::HTTP1_0;
            } else if bytes_eq(ver, v11.as_slice()) {
                st.version = crate::request::HttpVersion::HTTP1_1;
            }
            st.method = HttpMethod::from_name(method.as_str());
            insert_pair(&mut st.header, "ORIGIN_URL".to_owned(), url);
            st.first = false;
            Ok(())
        },
        Some(c) => {
            if len - c < 2 {
                return Err(HttpHeadError::Header);
            }
            let kb = to_upper(&line[0..c]);
            let key = match bytes_string(kb.as_slice()) {
                Some(k) => k,
                None => return Err(HttpHeadError::Header),
            };
            let vb = &line[c + 2..len];
            let value = match bytes_string(vb) {
                Some(v) => v,
                None => return Err(HttpHeadError::Header),
            };
            if str_eq(key.as_str(), "CONTENT-LENGTH") {
                match parse_unsigned_bytes(vb, usize::MAX as u64) {
                    Some(n) => {
                        if n > 0 {
                            st.size = Some(n as usize);
                        }
                        Ok(())
                    },
                    None => Err(HttpHeadError::ContentLength),
                }
            } else {
                insert_pair(&mut st.header, key, value);
                Ok(())
            }
        },
    }
}

/// The position of the blank line that ends a head: the first CR LF CR LF.
pub fn find_head_end(buf: &[u8]) -> (res: Option<usize>)
    ensures
        match res {
            Some(p) => p + 3 < buf@.len() && buf@[p as int] == 13u8 && buf@[p + 1] == 10u8
                && buf@[p + 2] == 13u8 && buf@[p + 3] == 10u8 && forall|j: int|
                0 <= j < p ==> !(#[trigger] buf@[j] == 13u8 && buf@[j + 1] == 10u8 && buf@[j + 2]
                    == 13u8 && buf@[j + 3] == 10u8),
            None => forall|j: int|
                0 <= j && j + 3 < buf@.len() ==> !(#[trigger] buf@[j] == 13u8 && buf@[j + 1] == 10u8
                    && buf@[j + 2] == 13u8 && buf@[j + 3] == 10u8),
        },
{
    let mut i: usize = 0;
    while buf.len() > 3 && i < buf.len() - 3
        invariant
            i <= buf@.len(),
            forall|j: int|
                0 <= j < i ==> !(#[trigger] buf@[j] == 13u8 && buf@[j + 1] == 10u8 && buf@[j + 2]
                    == 13u8 && buf@[j + 3] == 10u8),
        decreases buf@.len() - i,
    {
        if buf[i] == 13u8 && buf[i + 1] == 10u8 && buf[i + 2] == 13u8 && buf[i + 3] == 10u8 {
            return Some(i);
        }
        i = i + 1;
    }
    None
}

/// Reads a request head from the bytes before its blank line.
pub fn read_head(block: &[u8]) -> (res: Result<HttpHead, HttpHeadError>)
    ensures
        match parse_head(block@) {
            Ok(h) => res matches Ok(r) && head_view(r) == h,
            Err(e) => res matches Err(e2) && e2 == e,
        },
{
    if bytes_string(block).is_none() {
        return Err(HttpHeadError::Utf8);
    }
    let mut st = HeadBuild {
        version: crate::request::HttpVersion::Nothing,
        method: HttpMethod::Get,
        header: Vec::new(),
        size: None,
        first: true,
    };
    assert(pairs_view(st.header@) =~= Seq::<(Seq<char>, Seq<char>)>::empty());
    let len = block.len();
    let mut pos: usize = 0;
    assert(block@.subrange(0, len as int) =~= block@);
    let ghost start = build_view(st);
    loop
        invariant
            len == block@.len(),
            pos <= len,
            valid_utf8(block@),
            apply_lines(build_view(st), head_lines(block@.subrange(pos as int, len as int)))
                == apply_lines(start, head_lines(block@)),
            parse_head(block@) == match apply_lines(start, head_lines(block@)) {
                Ok(s) => Ok::<HttpHeadView, HttpHeadError>(s.head),
                Err(e) => Err(e),
            },
        decreases len - pos,
    {
        let ghost rest = block@.subrange(pos as int, len as int);
        proof {
            lemma_find_break_shift(block@, pos as int, 0);
        }
        match find_break_from(block, pos) {
            None => {
                assert(head_lines(rest) == seq![rest]);
                assert(seq![rest].drop_first() =~= Seq::<Seq<u8>>::empty());
                let ghost st0 = build_view(st);
                assert(block@.subrange(pos as int, len as int) == rest);
                let r = apply_line_exec(&mut st, &block[pos..len]);
                match r {
                    Ok(()) => {
                        assert(apply_lines(st0, seq![rest]) == apply_lines(
                            build_view(st),
                            seq![rest].drop_first(),
                        ));
                        assert(apply_lines(build_view(st), Seq::<Seq<u8>>::empty()) == Ok::<
                            HeadState,
                            HttpHeadError,
                        >(build_view(st)));
                        return Ok(
                            HttpHead {
                                version: st.version,
                                method: st.method,
                                header: st.header,
                                size: st.size,
                            },
                        );
                    },
                    Err(e) => {
                        return Err(e);
                    },
                }
            },
            Some(p) => {
                let ghost line = block@.subrange(pos as int, p as int);
                assert(rest.subrange(0, p - pos) =~= line);
                assert(rest.subrange(p - pos + 2, rest.len() as int) =~= block@.subrange(
                    p + 2,
                    len as int,
                ));
                assert(head_lines(rest) == seq![line] + head_lines(block@.subrange(p + 2, len as int)));
                assert((seq![line] + head_lines(block@.subrange(p + 2, len as int))).drop_first()
                    =~= head_lines(block@.subrange(p + 2, len as int)));
                let r = apply_line_exec(&mut st, &block[pos..p]);
                match r {
                    Ok(()) => {},
                    Err(e) => {
                        return Err(e);
                    },
                }
                pos = p + 2;
            },
        }
    }
}

proof fn lemma_find_break_shift(s: Seq<u8>, start: int, i: int)
    requires
        0 <= start <= s.len(),
        0 <= i,
    ensures
        find_break(s.subrange(start, s.len() as int), i) == match find_break(s, start + i) {
            None => None,
            Some(p) => Some(p - start),
        },
    decreases s.len() - start - i,
{
    let t = s.subrange(start, s.len() as int);
    if i + 2 < t.len() && !line_break_at(t, i) {
        assert(!line_break_at(s, start + i));
        lemma_find_break_shift(s, start, i + 1);
    } else if i + 2 < t.len() {
        assert(line_break_at(s, start + i));
    }
}

} // verus!

verus! {

/// What one header does to a request (the names in upper case): the known
/// names set their field, `X-REQUEST-URI` gives the decoded path and the
/// query string after `?`, `ORIGIN_URL` is kept aside, any other name is kept
/// as a parameter.
pub open spec fn http_apply(st: (HeadView, Seq<char>), key: Seq<char>, value: Seq<char>) -> (HeadView, Seq<char>) {
    let (h, orig) = st;
    if key == "X-REQUESTED-WITH"@ {
        (HeadView { ajax: is_ajax(value), ..h }, orig)
    } else if key == "HOST"@ {
        (HeadView { host: value, ..h }, orig)
    } else if key == "X-FORWARDED-PROTO"@ {
        (HeadView { scheme: value, ..h }, orig)
    } else if key == "USER-AGENT"@ {
        (HeadView { agent: value, ..h }, orig)
    } else if key == "REFERER"@ {
        (HeadView { referer: value, ..h }, orig)
    } else if key == "X-REAL-IP"@ {
        (HeadView { ip: Some(value), ..h }, orig)
    } else if key == "X-REQUEST-URI"@ {
        (with_uri(h, value), orig)
    } else if key == "ORIGIN_URL"@ {
        (h, value)
    } else if key == "CONTENT-TYPE"@ {
        (HeadView { content_type: Some(value), ..h }, orig)
    } else if key == "COOKIE"@ {
        (HeadView { cookie: h.cookie + cookie_pairs(value), ..h }, orig)
    } else {
        (HeadView { params: h.params.push((key, value)), ..h }, orig)
    }
}

/// A request URI applied to a request: its decoded path (when it decodes)
/// and the pairs of a non-empty query string.
pub open spec fn with_uri(h: HeadView, value: Seq<char>) -> HeadView {
    let h1 = match decoded(before_question(value)) {
        Some(u) => HeadView { url: u, ..h },
        None => h,
    };
    match after_question(value) {
        Some(q) => if q.len() > 0 {
            HeadView { get: h1.get + query_pairs(q), ..h1 }
        } else {
            h1
        },
        None => h1,
    }
}

/// Applies the headers in order.
pub open spec fn http_fold(st: (HeadView, Seq<char>), pairs: Seq<(Seq<char>, Seq<char>)>) -> (HeadView, Seq<char>)
    decreases pairs.len(),
{
    if pairs.len() == 0 {
        st
    } else {
        http_fold(http_apply(st, pairs[0].0, pairs[0].1), pairs.drop_first())
    }
}

/// The parameters of a request from its headers: a missing address is the
/// peer's, a missing path comes from the request line's URL.
pub open spec fn http_params(header: Seq<(Seq<char>, Seq<char>)>, remote_ip: Option<Seq<char>>) -> HeadView {
    let (h, orig) = http_fold((empty_head("http"@), Seq::empty()), header);
    let h1 = if h.ip is None {
        HeadView { ip: remote_ip, ..h }
    } else {
        h
    };
    if h1.url.len() == 0 {
        with_uri(h1, orig)
    } else {
        h1
    }
}

impl HeadInfo {
    fn apply_uri(&mut self, value: &str)
        ensures
            final(self).view() == with_uri(old(self).view(), value@),
    {
        let (u, q) = split_uri(value);
        match u {
            Some(u) => {
                self.url = u;
            },
            None => {},
        }
        match q {
            Some(q) => {
                if q.as_str().unicode_len() > 0 {
                    let pairs = parse_query(q.as_str());
                    crate::request::append_pairs(&mut self.get, pairs);
                }
            },
            None => {},
        }
        assert(final(self).view() =~~= with_uri(old(self).view(), value@));
    }

    fn apply_http(&mut self, orig: &mut String, key: String, value: String)
        ensures
            (final(self).view(), final(orig)@) == http_apply(
                (old(self).view(), old(orig)@),
                key@,
                value@,
            ),
    {
        let k = key.as_str();
        if str_eq(k, "X-REQUESTED-WITH") {
            self.ajax = check_ajax(value.as_str());
        } else if str_eq(k, "HOST") {
            self.host = value;
        } else if str_eq(k, "X-FORWARDED-PROTO") {
            self.scheme = value;
        } else if str_eq(k, "USER-AGENT") {
            self.agent = value;
        } else if str_eq(k, "REFERER") {
            self.referer = value;
        } else if str_eq(k, "X-REAL-IP") {
            self.ip = Some(value);
        } else if str_eq(k, "X-REQUEST-URI") {
            self.apply_uri(value.as_str());
        } else if str_eq(k, "ORIGIN_URL") {
            *orig = value;
        } else if str_eq(k, "CONTENT-TYPE") {
            self.content_type = Some(value);
        } else if str_eq(k, "COOKIE") {
            let c = parse_cookie(value.as_str());
            crate::request::append_pairs(&mut self.cookie, c);
        } else {
            let ghost kv = (key@, value@);
            let ghost p0 = self.params@;
            self.params.push((key, value));
            assert(pairs_view(self.params@) =~= pairs_view(p0).push(kv));
        }
        assert(final(self).view() =~~= http_apply((old(self).view(), old(orig)@), key@, value@).0);
    }

    /// The parameters of a request from the headers of its head; `remote_ip`
    /// is the peer's address, used when no `X-Real-IP` header is given.
    pub fn read_http(header: Vec<(String, String)>, remote_ip: Option<String>) -> (res: HeadInfo)
        ensures
            res.view() == http_params(pairs_view(header@), crate::request::opt_view(remote_ip)),
            res.site@ == crate::request::site_text(res.scheme@, res.host@),
    {
        let mut head = HeadInfo::new("http");
        let mut orig = String::new();
        let ghost all = pairs_view(header@);
        let mut header = header;
        let n = header.len();
        let ghost hs = header@;
        let mut i: usize = 0;
        assert(all.subrange(0, n as int) =~= all);
        while i < n
            invariant
                n == hs.len(),
                i <= n,
                header@.len() == n,
                forall|j: int| i <= j < n ==> header@[j] == hs[j],
                all == pairs_view(hs),
                http_fold((head.view(), orig@), all.subrange(i as int, n as int)) == http_fold(
                    (empty_head("http"@), Seq::<char>::empty()),
                    all,
                ),
            decreases n - i,
        {
            let mut kv = (String::new(), String::new());
            let ghost rest = all.subrange(i as int, n as int);
            assert(rest.drop_first() =~= all.subrange(i + 1, n as int));
            assert(rest[0] == (hs[i as int].0@, hs[i as int].1@));
            vstd::pervasive::VecAdditionalExecFns::set_and_swap(&mut header, i, &mut kv);
            let (k, v) = kv;
            head.apply_http(&mut orig, k, v);
            i = i + 1;
        }
        assert(all.subrange(0, n as int) =~= all);
        if head.ip.is_none() {
            head.ip = remote_ip;
        }
        if head.url.as_str().unicode_len() == 0 {
            head.apply_uri(orig.as_str());
        }
        head.set_site();
        head
    }
}

/// The names of headers that set a field of their own.
pub open spec fn http_sets(key: Seq<char>) -> bool {
    key == "HOST"@ || key == "X-FORWARDED-PROTO"@ || key == "USER-AGENT"@ || key == "REFERER"@ || key == "X-REAL-IP"@
        || key == "CONTENT-TYPE"@
}

/// The field of a request that a header of this name sets.
pub open spec fn http_field(h: HeadView, key: Seq<char>) -> Option<Seq<char>> {
    if key == "HOST"@ {
        Some(h.host)
    } else if key == "X-FORWARDED-PROTO"@ {
        Some(h.scheme)
    } else if key == "USER-AGENT"@ {
        Some(h.agent)
    } else if key == "REFERER"@ {
        Some(h.referer)
    } else if key == "X-REAL-IP"@ {
        h.ip
    } else if key == "CONTENT-TYPE"@ {
        h.content_type
    } else {
        None
    }
}

/// The names of headers that the request reads: those that set a field, the
/// AJAX marker, the request URI, the original URL and the cookies.
pub open spec fn http_known(key: Seq<char>) -> bool {
    http_sets(key) || key == "X-REQUESTED-WITH"@ || key == "X-REQUEST-URI"@ || key == "ORIGIN_URL"@ || key
        == "COOKIE"@
}

/// A header sets the field of its name to its value and leaves the field of
/// every other name as it was.
pub proof fn law_http_apply_field(st: (HeadView, Seq<char>), key: Seq<char>, value: Seq<char>, k: Seq<char>)
    requires
        http_sets(k),
    ensures
        http_field(http_apply(st, key, value).0, k) == if key == k {
            Some(value)
        } else {
            http_field(st.0, k)
        },
{
    reveal_strlit("X-REQUESTED-WITH");
    reveal_strlit("HOST");
    reveal_strlit("X-FORWARDED-PROTO");
    reveal_strlit("USER-AGENT");
    reveal_strlit("REFERER");
    reveal_strlit("X-REAL-IP");
    reveal_strlit("X-REQUEST-URI");
    reveal_strlit("ORIGIN_URL");
    reveal_strlit("CONTENT-TYPE");
    reveal_strlit("COOKIE");
    assert("X-REQUESTED-WITH"@.len() == 16);
    assert("HOST"@.len() == 4);
    assert("X-FORWARDED-PROTO"@.len() == 17);
    assert("USER-AGENT"@.len() == 10);
    assert("REFERER"@.len() == 7);
    assert("X-REAL-IP"@.len() == 9);
    assert("X-REQUEST-URI"@.len() == 13);
    assert("ORIGIN_URL"@.len() == 10);
    assert("CONTENT-TYPE"@.len() == 12);
    assert("COOKIE"@.len() == 6);
    assert("USER-AGENT"@[0] != "ORIGIN_URL"@[0]);
}

/// A header that the request does not read is kept, after the others, among
/// its parameters; one that it reads is not.
pub proof fn law_http_apply_params(st: (HeadView, Seq<char>), key: Seq<char>, value: Seq<char>)
    ensures
        http_apply(st, key, value).0.params == if http_known(key) {
            st.0.params
        } else {
            st.0.params.push((key, value))
        },
{
}

proof fn lemma_http_field_keep(st: (HeadView, Seq<char>), pairs: Seq<(Seq<char>, Seq<char>)>, k: Seq<char>)
    requires
        http_sets(k),
        forall|j: int| 0 <= j < pairs.len() ==> (#[trigger] pairs[j]).0 != k,
    ensures
        http_field(http_fold(st, pairs).0, k) == http_field(st.0, k),
    decreases pairs.len(),
{
    if pairs.len() > 0 {
        assert(pairs[0].0 != k);
        law_http_apply_field(st, pairs[0].0, pairs[0].1, k);
        let t = pairs.drop_first();
        assert forall|j: int| 0 <= j < t.len() implies (#[trigger] t[j]).0 != k by {
            assert(t[j] == pairs[j + 1]);
        }
        lemma_http_field_keep(http_apply(st, pairs[0].0, pairs[0].1), t, k);
    }
}

proof fn lemma_http_field_last(st: (HeadView, Seq<char>), pairs: Seq<(Seq<char>, Seq<char>)>, i: int, k: Seq<char>)
    requires
        http_sets(k),
        0 <= i < pairs.len(),
        pairs[i].0 == k,
        forall|j: int| i < j < pairs.len() ==> (#[trigger] pairs[j]).0 != k,
    ensures
        http_field(http_fold(st, pairs).0, k) == Some(pairs[i].1),
    decreases i,
{
    let st1 = http_apply(st, pairs[0].0, pairs[0].1);
    law_http_apply_field(st, pairs[0].0, pairs[0].1, k);
    let t = pairs.drop_first();
    if i == 0 {
        assert forall|j: int| 0 <= j < t.len() implies (#[trigger] t[j]).0 != k by {
            assert(t[j] == pairs[j + 1]);
        }
        lemma_http_field_keep(st1, t, k);
    } else {
        assert(t[i - 1] == pairs[i]);
        assert forall|j: int| i - 1 < j < t.len() implies (#[trigger] t[j]).0 != k by {
            assert(t[j] == pairs[j + 1]);
        }
        lemma_http_field_last(st1, t, i - 1, k);
    }
}

/// The request read from a list of headers takes, for each name that sets a
/// field (the host, the scheme, the user agent, the referer, the address and
/// the content type), the value of the last header of that name.
pub proof fn law_http_last_header_wins(
    header: Seq<(Seq<char>, Seq<char>)>,
    remote_ip: Option<Seq<char>>,
    i: int,
    k: Seq<char>,
)
    requires
        http_sets(k),
        0 <= i < header.len(),
        header[i].0 == k,
        forall|j: int| i < j < header.len() ==> (#[trigger] header[j]).0 != k,
    ensures
        http_field(http_params(header, remote_ip), k) == Some(header[i].1),
{
    lemma_http_field_last((empty_head("http"@), Seq::empty()), header, i, k);
    reveal_strlit("X-REAL-IP");
}

/// Without a `Content-Type` header, the request has no content type.
pub proof fn law_http_no_content_type(header: Seq<(Seq<char>, Seq<char>)>, remote_ip: Option<Seq<char>>)
    requires
        forall|j: int| 0 <= j < header.len() ==> (#[trigger] header[j]).0 != "CONTENT-TYPE"@,
    ensures
        http_params(header, remote_ip).content_type is None,
{
    reveal_strlit("CONTENT-TYPE");
    reveal_strlit("HOST");
    reveal_strlit("X-FORWARDED-PROTO");
    reveal_strlit("USER-AGENT");
    reveal_strlit("REFERER");
    reveal_strlit("X-REAL-IP");
    assert("CONTENT-TYPE"@.len() == 12);
    assert("HOST"@.len() == 4);
    assert("X-FORWARDED-PROTO"@.len() == 17);
    assert("USER-AGENT"@.len() == 10);
    assert("REFERER"@.len() == 7);
    assert("X-REAL-IP"@.len() == 9);
    lemma_http_field_keep((empty_head("http"@), Seq::empty()), header, "CONTENT-TYPE"@);
}

proof fn lemma_http_params_grow(st: (HeadView, Seq<char>), pairs: Seq<(Seq<char>, Seq<char>)>, x: (Seq<char>, Seq<char>))
    requires
        st.0.params.contains(x),
    ensures
        http_fold(st, pairs).0.params.contains(x),
    decreases pairs.len(),
{
    if pairs.len() > 0 {
        let st1 = http_apply(st, pairs[0].0, pairs[0].1);
        law_http_apply_params(st, pairs[0].0, pairs[0].1);
        let w = choose|w: int| 0 <= w < st.0.params.len() && st.0.params[w] == x;
        assert(st1.0.params[w] == x);
        lemma_http_params_grow(st1, pairs.drop_first(), x);
    }
}

proof fn lemma_http_unknown_kept(st: (HeadView, Seq<char>), pairs: Seq<(Seq<char>, Seq<char>)>, i: int)
    requires
        0 <= i < pairs.len(),
        !http_known(pairs[i].0),
    ensures
        http_fold(st, pairs).0.params.contains(pairs[i]),
    decreases i,
{
    let st1 = http_apply(st, pairs[0].0, pairs[0].1);
    law_http_apply_params(st, pairs[0].0, pairs[0].1);
    let t = pairs.drop_first();
    if i == 0 {
        assert(st1.0.params[st.0.params.len() as int] == pairs[0]);
        lemma_http_params_grow(st1, t, pairs[0]);
    } else {
        assert(t[i - 1] == pairs[i]);
        lemma_http_unknown_kept(st1, t, i - 1);
    }
}

/// Every header whose name the request does not read is kept among the
/// request's parameters.
pub proof fn law_http_unknown_header_kept(header: Seq<(Seq<char>, Seq<char>)>, remote_ip: Option<Seq<char>>, i: int)
    requires
        0 <= i < header.len(),
        !http_known(header[i].0),
    ensures
        http_params(header, remote_ip).params.contains(header[i]),
{
    lemma_http_unknown_kept((empty_head("http"@), Seq::empty()), header, i);
}

} // verus!
