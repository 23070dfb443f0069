//! Request parameters shared by the FastCGI, SCGI and HTTP front ends: the
//! query string, cookies, the request URL and the AJAX marker.

use vstd::prelude::*;
use vstd::string::StringSliceAdditionalSpecFns;
use vstd::utf8::{decode_utf8, encode_utf8, valid_utf8};

use crate::text::{pct_decode, percent_decode_utf8};

verus! {

/// Percent-decoding of a text read back as UTF-8; `None` when the decoded
/// bytes are not UTF-8.
pub open spec fn decoded(s: Seq<char>) -> Option<Seq<char>> {
    let b = pct_decode(encode_utf8(s));
    if valid_utf8(b) {
        Some(decode_utf8(b))
    } else {
        None
    }
}

fn decode(s: &str) -> (res: Option<String>)
    ensures
        match decoded(s@) {
            Some(t) => res matches Some(r) && r@ == t,
            None => res is None,
        },
{
    percent_decode_utf8(s)
}

/// The first position at or after `i` holding `c`.
pub open spec fn find_char(s: Seq<char>, i: int, c: char) -> Option<int>
    decreases s.len() - i,
{
    if i < 0 || i >= s.len() {
        None
    } else if s[i] == c {
        Some(i)
    } else {
        find_char(s, i + 1, c)
    }
}

/// A position `find_char` gives holds the character, at or after the start.
pub proof fn lemma_find_char(s: Seq<char>, i: int, c: char)
    ensures
        match find_char(s, i, c) {
            Some(p) => 0 <= i <= p < s.len() && s[p] == c,
            None => true,
        },
    decreases s.len() - i,
{
    if 0 <= i < s.len() && s[i] != c {
        lemma_find_char(s, i + 1, c);
    }
}

/// A position `find_semi` gives holds `; `, at or after the start.
pub proof fn lemma_find_semi(s: Seq<char>, i: int)
    ensures
        match find_semi(s, i) {
            Some(p) => 0 <= i <= p && p + 1 < s.len() && s[p] == ';' && s[p + 1] == ' ',
            None => true,
        },
    decreases s.len() - i,
{
    if 0 <= i && i + 1 < s.len() && !(s[i] == ';' && s[i + 1] == ' ') {
        lemma_find_semi(s, i + 1);
    }
}

/// The first position at or after `i` holding `c`.
pub(crate) fn find_char_from(s: &str, n: usize, i: usize, c: char) -> (res: Option<usize>)
    requires
        n == s@.len(),
        i <= n,
    ensures
        match res {
            Some(p) => find_char(s@, i as int, c) == Some(p as int) && i <= p < n,
            None => find_char(s@, i as int, c) is None,
        },
{
    let mut j = i;
    while j < n
        invariant
            i <= j <= n,
            n == s@.len(),
            find_char(s@, j as int, c) == find_char(s@, i as int, c),
        decreases n - j,
    {
        if s.get_char(j) == c {
            return Some(j);
        }
        j = j + 1;
    }
    None
}

/// The pieces of `s` between the separators `c`, in order (`n` separators
/// give `n + 1` pieces).
pub open spec fn split_char(s: Seq<char>, c: char) -> Seq<Seq<char>>
    decreases s.len(),
{
    proof {
        lemma_find_char(s, 0, c);
    }
    match find_char(s, 0, c) {
        None => seq![s],
        Some(p) => seq![s.subrange(0, p)] + split_char(s.subrange(p + 1, s.len() as int), c),
    }
}

/// The pieces of `s` between the separators `; `, in order.
pub open spec fn split_cookie(s: Seq<char>) -> Seq<Seq<char>>
    decreases s.len(),
{
    proof {
        lemma_find_semi(s, 0);
    }
    match find_semi(s, 0) {
        None => seq![s],
        Some(p) => seq![s.subrange(0, p)] + split_cookie(s.subrange(p + 2, s.len() as int)),
    }
}

/// The first position at or after `i` where `; ` starts.
pub open spec fn find_semi(s: Seq<char>, i: int) -> Option<int>
    decreases s.len() - i,
{
    if i < 0 || i + 1 >= s.len() {
        None
    } else if s[i] == ';' && s[i + 1] == ' ' {
        Some(i)
    } else {
        find_semi(s, i + 1)
    }
}

/// A query string piece as a pair: `key=value` gives both decoded, a piece
/// without `=` gives its decoding and an empty value; nothing when a
/// decoding fails.
pub open spec fn query_piece(p: Seq<char>) -> Option<(Seq<char>, Seq<char>)> {
    match find_char(p, 0, '=') {
        None => match decoded(p) {
            Some(k) => Some((k, Seq::<char>::empty())),
            None => None,
        },
        Some(e) => match (decoded(p.subrange(0, e)), decoded(p.subrange(e + 1, p.len() as int))) {
            (Some(k), Some(v)) => Some((k, v)),
            _ => None,
        },
    }
}

/// A cookie piece as a pair: `name=value` as it stands; nothing without `=`.
pub open spec fn cookie_piece(p: Seq<char>) -> Option<(Seq<char>, Seq<char>)> {
    match find_char(p, 0, '=') {
        None => None,
        Some(e) => Some((p.subrange(0, e), p.subrange(e + 1, p.len() as int))),
    }
}

/// How the pieces of a list become pairs.
pub enum PieceKind {
    /// A query string: both sides percent-decoded.
    Query,
    /// A cookie header: `name=value` as it stands.
    Cookie,
    /// A form body: `key=value` as it stands, a piece without `=` with an
    /// empty value.
    Form,
}

/// A form piece as a pair: `key=value` as it stands, or the piece and an
/// empty value.
pub open spec fn form_piece(p: Seq<char>) -> (Seq<char>, Seq<char>) {
    match find_char(p, 0, '=') {
        None => (p, Seq::<char>::empty()),
        Some(e) => (p.subrange(0, e), p.subrange(e + 1, p.len() as int)),
    }
}

/// The pair of a piece of the given kind, if any.
pub open spec fn piece_pair(kind: PieceKind, p: Seq<char>) -> Option<(Seq<char>, Seq<char>)> {
    match kind {
        PieceKind::Query => query_piece(p),
        PieceKind::Cookie => cookie_piece(p),
        PieceKind::Form => Some(form_piece(p)),
    }
}

/// The pairs given by a list of pieces, in order.
pub open spec fn pieces_pairs(ps: Seq<Seq<char>>, kind: PieceKind) -> Seq<(Seq<char>, Seq<char>)>
    decreases ps.len(),
{
    if ps.len() == 0 {
        Seq::empty()
    } else {
        let r = pieces_pairs(ps.drop_last(), kind);
        match piece_pair(kind, ps.last()) {
            Some(kv) => r.push(kv),
            None => r,
        }
    }
}

/// The pairs of a query string; none for an empty one.
pub open spec fn query_pairs(s: Seq<char>) -> Seq<(Seq<char>, Seq<char>)> {
    if s.len() == 0 {
        Seq::empty()
    } else {
        pieces_pairs(split_char(s, '&'), PieceKind::Query)
    }
}

/// The pairs of a cookie header.
pub open spec fn cookie_pairs(s: Seq<char>) -> Seq<(Seq<char>, Seq<char>)> {
    pieces_pairs(split_cookie(s), PieceKind::Cookie)
}

/// The mathematical value of a list of text pairs.
pub open spec fn pairs_view(v: Seq<(String, String)>) -> Seq<(Seq<char>, Seq<char>)> {
    v.map_values(|kv: (String, String)| (kv.0@, kv.1@))
}

fn query_piece_exec(p: &str) -> (res: Option<(String, String)>)
    ensures
        match query_piece(p@) {
            Some(kv) => res matches Some(r) && r.0@ == kv.0 && r.1@ == kv.1,
            None => res is None,
        },
{
    let n = p.unicode_len();
    match find_char_from(p, n, 0, '=') {
        None => match decode(p) {
            Some(k) => Some((k, String::new())),
            None => None,
        },
        Some(e) => {
            let k = p.substring_char(0, e);
            let v = p.substring_char(e + 1, n);
            match decode(k) {
                Some(dk) => match decode(v) {
                    Some(dv) => Some((dk, dv)),
                    None => None,
                },
                None => None,
            }
        },
    }
}

fn form_piece_exec(p: &str) -> (res: (String, String))
    ensures
        res.0@ == form_piece(p@).0,
        res.1@ == form_piece(p@).1,
{
    let n = p.unicode_len();
    match find_char_from(p, n, 0, '=') {
        None => {
            assert(p@.subrange(0, n as int) =~= p@);
            (p.substring_char(0, n).to_owned(), String::new())
        },
        Some(e) => (p.substring_char(0, e).to_owned(), p.substring_char(e + 1, n).to_owned()),
    }
}

fn cookie_piece_exec(p: &str) -> (res: Option<(String, String)>)
    ensures
        match cookie_piece(p@) {
            Some(kv) => res matches Some(r) && r.0@ == kv.0 && r.1@ == kv.1,
            None => res is None,
        },
{
    let n = p.unicode_len();
    match find_char_from(p, n, 0, '=') {
        None => None,
        Some(e) => {
            let k = p.substring_char(0, e).to_owned();
            let v = p.substring_char(e + 1, n).to_owned();
            Some((k, v))
        },
    }
}

proof fn lemma_split_char_step(s: Seq<char>, c: char, start: int)
    requires
        0 <= start <= s.len(),
    ensures
        split_char(s.subrange(start, s.len() as int), c) == match find_char(s, start, c) {
            None => seq![s.subrange(start, s.len() as int)],
            Some(p) => seq![s.subrange(start, p)] + split_char(s.subrange(p + 1, s.len() as int), c),
        },
{
    let t = s.subrange(start, s.len() as int);
    lemma_find_char_shift(s, start, 0, c);
    lemma_find_char(s, start, c);
    match find_char(s, start, c) {
        None => {},
        Some(p) => {
            assert(t.subrange(0, p - start) =~= s.subrange(start, p));
            assert(t.subrange(p - start + 1, t.len() as int) =~= s.subrange(p + 1, s.len() as int));
        },
    }
}

/// `find_char` on a suffix is `find_char` on the whole, shifted.
pub(crate) proof fn lemma_find_char_shift(s: Seq<char>, start: int, i: int, c: char)
    requires
        0 <= start <= s.len(),
        0 <= i,
    ensures
        find_char(s.subrange(start, s.len() as int), i, c) == match find_char(s, start + i, c) {
            None => None,
            Some(p) => Some(p - start),
        },
    decreases s.len() - start - i,
{
    let t = s.subrange(start, s.len() as int);
    if i < t.len() && t[i] != c {
        lemma_find_char_shift(s, start, i + 1, c);
    }
}

proof fn lemma_split_cookie_step(s: Seq<char>, start: int)
    requires
        0 <= start <= s.len(),
    ensures
        split_cookie(s.subrange(start, s.len() as int)) == match find_semi(s, start) {
            None => seq![s.subrange(start, s.len() as int)],
            Some(p) => seq![s.subrange(start, p)] + split_cookie(s.subrange(p + 2, s.len() as int)),
        },
{
    let t = s.subrange(start, s.len() as int);
    lemma_find_semi_shift(s, start, 0);
    lemma_find_semi(s, start);
    match find_semi(s, start) {
        None => {},
        Some(p) => {
            assert(t.subrange(0, p - start) =~= s.subrange(start, p));
            assert(t.subrange(p - start + 2, t.len() as int) =~= s.subrange(p + 2, s.len() as int));
        },
    }
}

proof fn lemma_find_semi_shift(s: Seq<char>, start: int, i: int)
    requires
        0 <= start <= s.len(),
        0 <= i,
    ensures
        find_semi(s.subrange(start, s.len() as int), i) == match find_semi(s, start + i) {
            None => None,
            Some(p) => Some(p - start),
        },
    decreases s.len() - start - i,
{
    let t = s.subrange(start, s.len() as int);
    if i + 1 < t.len() && !(t[i] == ';' && t[i + 1] == ' ') {
        lemma_find_semi_shift(s, start, i + 1);
    }
}

proof fn lemma_pieces_pairs_append(a: Seq<Seq<char>>, b: Seq<Seq<char>>, kind: PieceKind)
    ensures
        pieces_pairs(a + b, kind) == pieces_pairs(a, kind) + pieces_pairs(b, kind),
    decreases b.len(),
{
    if b.len() == 0 {
        assert(a + b =~= a);
        assert(pieces_pairs(a, kind) + pieces_pairs(b, kind) =~= pieces_pairs(a, kind));
    } else {
        assert((a + b).drop_last() =~= a + b.drop_last());
        assert((a + b).last() == b.last());
        lemma_pieces_pairs_append(a, b.drop_last(), kind);
        let r = pieces_pairs(b.drop_last(), kind);
        let l = pieces_pairs(a, kind);
        match piece_pair(kind, b.last()) {
            Some(kv) => {
                assert((l + r).push(kv) =~= l + r.push(kv));
            },
            None => {},
        }
    }
}

proof fn lemma_pieces_pairs_one(p: Seq<char>, kind: PieceKind)
    ensures
        pieces_pairs(seq![p], kind) == match piece_pair(kind, p) {
            Some(kv) => seq![kv],
            None => Seq::<(Seq<char>, Seq<char>)>::empty(),
        },
{
    let one = seq![p];
    assert(one.drop_last() =~= Seq::<Seq<char>>::empty());
    assert(one.last() == p);
    assert(pieces_pairs(Seq::<Seq<char>>::empty(), kind) == Seq::<(Seq<char>, Seq<char>)>::empty());
    let r = piece_pair(kind, p);
    match r {
        Some(kv) => {
            assert(Seq::<(Seq<char>, Seq<char>)>::empty().push(kv) =~= seq![kv]);
        },
        None => {},
    }
}

/// Appends the pair of a piece, if any.
fn push_piece(out: &mut Vec<(String, String)>, p: &str, kind: PieceKind)
    ensures
        pairs_view(final(out)@) == pairs_view(old(out)@) + pieces_pairs(seq![p@], kind),
{
    proof {
        lemma_pieces_pairs_one(p@, kind);
    }
    let kv = match kind {
        PieceKind::Query => query_piece_exec(p),
        PieceKind::Cookie => cookie_piece_exec(p),
        PieceKind::Form => Some(form_piece_exec(p)),
    };
    match kv {
        Some(kv) => {
            let ghost kvv = (kv.0@, kv.1@);
            out.push(kv);
            assert(pairs_view(out@) =~= pairs_view(old(out)@) + seq![kvv]);
        },
        None => {
            assert(pairs_view(out@) =~= pairs_view(old(out)@) + Seq::<(Seq<char>, Seq<char>)>::empty());
        },
    }
}

/// Parses a query string: pieces between `&`, each `key=value` with both
/// sides percent-decoded; pieces that do not decode are left out.
pub fn parse_query(value: &str) -> (res: Vec<(String, String)>)
    ensures
        pairs_view(res@) == query_pairs(value@),
{
    let mut out: Vec<(String, String)> = Vec::new();
    let n = value.unicode_len();
    if n == 0 {
        assert(pairs_view(out@) =~= Seq::<(Seq<char>, Seq<char>)>::empty());
        return out;
    }
    let ghost s = value@;
    let mut start: usize = 0;
    assert(s.subrange(0, s.len() as int) =~= s);
    loop
        invariant
            n == s.len(),
            s == value@,
            start <= n,
            pairs_view(out@) + pieces_pairs(split_char(s.subrange(start as int, n as int), '&'), PieceKind::Query)
                == query_pairs(s),
        decreases n - start,
    {
        proof {
            lemma_split_char_step(s, '&', start as int);
        }
        match find_char_from(value, n, start, '&') {
            None => {
                let p = value.substring_char(start, n);
                push_piece(&mut out, p, PieceKind::Query);
                return out;
            },
            Some(e) => {
                let p = value.substring_char(start, e);
                let ghost rest = split_char(s.subrange(e + 1, n as int), '&');
                proof {
                    lemma_pieces_pairs_append(seq![p@], rest, PieceKind::Query);
                }
                let ghost before = pairs_view(out@);
                push_piece(&mut out, p, PieceKind::Query);
                assert(pairs_view(out@) + pieces_pairs(rest, PieceKind::Query) =~= before + (pieces_pairs(
                    seq![p@],
                    PieceKind::Query,
                ) + pieces_pairs(rest, PieceKind::Query)));
                start = e + 1;
            },
        }
    }
}

fn find_semi_from(s: &str, n: usize, i: usize) -> (res: Option<usize>)
    requires
        n == s@.len(),
        i <= n,
    ensures
        match res {
            Some(p) => find_semi(s@, i as int) == Some(p as int) && i <= p && p + 1 < n,
            None => find_semi(s@, i as int) is None,
        },
{
    let mut j = i;
    while n > 0 && j < n - 1
        invariant
            i <= j <= n,
            n == s@.len(),
            find_semi(s@, j as int) == find_semi(s@, i as int),
        decreases n - j,
    {
        if s.get_char(j) == ';' && s.get_char(j + 1) == ' ' {
            return Some(j);
        }
        j = j + 1;
    }
    None
}

/// Splits a form body: pieces between `&`, each `key=value` as it stands.
pub fn parse_form(value: &str) -> (res: Vec<(String, String)>)
    ensures
        pairs_view(res@) == pieces_pairs(split_char(value@, '&'), PieceKind::Form),
{
    let mut out: Vec<(String, String)> = Vec::new();
    let n = value.unicode_len();
    let ghost s = value@;
    let mut start: usize = 0;
    assert(s.subrange(0, s.len() as int) =~= s);
    assert(pairs_view(out@) =~= Seq::<(Seq<char>, Seq<char>)>::empty());
    assert(Seq::<(Seq<char>, Seq<char>)>::empty() + pieces_pairs(split_char(s, '&'), PieceKind::Form)
        =~= pieces_pairs(split_char(s, '&'), PieceKind::Form));
    loop
        invariant
            n == s.len(),
            s == value@,
            start <= n,
            pairs_view(out@) + pieces_pairs(split_char(s.subrange(start as int, n as int), '&'), PieceKind::Form)
                == pieces_pairs(split_char(s, '&'), PieceKind::Form),
        decreases n - start,
    {
        proof {
            lemma_split_char_step(s, '&', start as int);
        }
        match find_char_from(value, n, start, '&') {
            None => {
                let p = value.substring_char(start, n);
                push_piece(&mut out, p, PieceKind::Form);
                return out;
            },
            Some(e) => {
                let p = value.substring_char(start, e);
                let ghost rest = split_char(s.subrange(e + 1, n as int), '&');
                proof {
                    lemma_pieces_pairs_append(seq![p@], rest, PieceKind::Form);
                }
                let ghost before = pairs_view(out@);
                push_piece(&mut out, p, PieceKind::Form);
                assert(pairs_view(out@) + pieces_pairs(rest, PieceKind::Form) =~= before + (pieces_pairs(
                    seq![p@],
                    PieceKind::Form,
                ) + pieces_pairs(rest, PieceKind::Form)));
                start = e + 1;
            },
        }
    }
}

/// Parses a cookie header: pieces between `; `, each `name=value` as it
/// stands; pieces without `=` are left out.
pub fn parse_cookie(value: &str) -> (res: Vec<(String, String)>)
    ensures
        pairs_view(res@) == cookie_pairs(value@),
{
    let mut out: Vec<(String, String)> = Vec::new();
    let n = value.unicode_len();
    let ghost s = value@;
    let mut start: usize = 0;
    assert(s.subrange(0, s.len() as int) =~= s);
    assert(pairs_view(out@) + cookie_pairs(s) =~= cookie_pairs(s));
    loop
        invariant
            n == s.len(),
            s == value@,
            start <= n,
            pairs_view(out@) + pieces_pairs(split_cookie(s.subrange(start as int, n as int)), PieceKind::Cookie)
                == cookie_pairs(s),
        decreases n - start,
    {
        proof {
            lemma_split_cookie_step(s, start as int);
        }
        let found = find_semi_from(value, n, start);
        if found.is_none() {
            let p = value.substring_char(start, n);
            push_piece(&mut out, p, PieceKind::Cookie);
            return out;
        }
        let j = found.unwrap();
        let p = value.substring_char(start, j);
        let ghost rest = split_cookie(s.subrange(j + 2, n as int));
        proof {
            lemma_pieces_pairs_append(seq![p@], rest, PieceKind::Cookie);
        }
        let ghost before = pairs_view(out@);
        push_piece(&mut out, p, PieceKind::Cookie);
        assert(pairs_view(out@) + pieces_pairs(rest, PieceKind::Cookie) =~= before + (pieces_pairs(seq![p@], PieceKind::Cookie)
            + pieces_pairs(rest, PieceKind::Cookie)));
        start = j + 2;
    }
}

/// The text before the first `?`.
pub open spec fn before_question(s: Seq<char>) -> Seq<char> {
    match find_char(s, 0, '?') {
        None => s,
        Some(p) => s.subrange(0, p),
    }
}

/// The text between the first `?` and the next one (or the end), if there
/// is a `?`.
pub open spec fn after_question(s: Seq<char>) -> Option<Seq<char>> {
    match find_char(s, 0, '?') {
        None => None,
        Some(p) => Some(before_question(s.subrange(p + 1, s.len() as int))),
    }
}

/// Splits a request URI at `?`: the decoded path (`None` when it does not
/// decode) and the query string, if any.
pub fn split_uri(value: &str) -> (res: (Option<String>, Option<String>))
    ensures
        match decoded(before_question(value@)) {
            Some(u) => res.0 matches Some(r) && r@ == u,
            None => res.0 is None,
        },
        match after_question(value@) {
            Some(q) => res.1 matches Some(r) && r@ == q,
            None => res.1 is None,
        },
{
    let n = value.unicode_len();
    match find_char_from(value, n, 0, '?') {
        None => {
            assert(value@.subrange(0, n as int) =~= value@);
            let path = decode(value.substring_char(0, n));
            (path, None)
        },
        Some(p) => {
            let path = decode(value.substring_char(0, p));
            let rest = value.substring_char(p + 1, n);
            let m = rest.unicode_len();
            let q = match find_char_from(rest, m, 0, '?') {
                None => {
                    assert(rest@.subrange(0, m as int) =~= rest@);
                    rest.substring_char(0, m).to_owned()
                },
                Some(e) => rest.substring_char(0, e).to_owned(),
            };
            (path, Some(q))
        },
    }
}

/// ASCII lower case of a character.
pub open spec fn ascii_lower(c: char) -> char {
    if 'A' <= c <= 'Z' {
        ((c as u8) + 32) as char
    } else {
        c
    }
}

/// Whether a header marks an AJAX request: `XMLHttpRequest` in any case.
pub open spec fn is_ajax(s: Seq<char>) -> bool {
    s.len() == ajax_word().len() && forall|i: int|
        0 <= i < ajax_word().len() ==> ascii_lower(#[trigger] s[i]) == ajax_word()[i]
}

/// The AJAX marker in lower case.
pub open spec fn ajax_word() -> Seq<char> {
    seq!['x', 'm', 'l', 'h', 't', 't', 'p', 'r', 'e', 'q', 'u', 'e', 's', 't']
}

/// Whether a header value marks an AJAX request.
pub fn check_ajax(value: &str) -> (res: bool)
    ensures
        res == is_ajax(value@),
{
    let n = value.unicode_len();
    if n != 14 {
        return false;
    }
    let w = ['x', 'm', 'l', 'h', 't', 't', 'p', 'r', 'e', 'q', 'u', 'e', 's', 't'];
    let ghost ws = ajax_word();
    assert(w@ =~= ws);
    let mut i: usize = 0;
    while i < 14
        invariant
            n == 14,
            n == value@.len(),
            ws == ajax_word(),
            w@ == ws,
            i <= 14,
            forall|j: int| 0 <= j < i ==> ascii_lower(#[trigger] value@[j]) == ws[j],
        decreases 14 - i,
    {
        let c = value.get_char(i);
        let l = if 'A' <= c && c <= 'Z' {
            ((c as u8) + 32u8) as char
        } else {
            c
        };
        if l != w[i] {
            assert(ascii_lower(value@[i as int]) != ws[i as int]);
            return false;
        }
        i = i + 1;
    }
    true
}

} // verus!
