//! The body of a request: a URL-encoded form, a `multipart/form-data`
//! body with its fields and files, or raw bytes.

use vstd::prelude::*;
use vstd::string::StringSliceAdditionalSpecFns;
use vstd::utf8::{decode_utf8, valid_utf8};

use crate::html::find_pair;
use crate::http::{insert_pair, pairs_insert};
use crate::params::{pairs_view, parse_form, pieces_pairs, split_char, PieceKind};
use crate::request::RawData;
use crate::text::string_from_utf8;
use crate::worker::Worker;

verus! {

/// A part of a `multipart/form-data` body.
#[derive(Debug)]
pub enum PostPart {
    /// A field: its name and its value.
    Field(String, String),
    /// A file: the name of its field, its file name and its data.
    File(String, String, Vec<u8>),
}

/// A part as values.
pub enum PartView {
    Field(Seq<char>, Seq<char>),
    File(Seq<char>, Seq<char>, Seq<u8>),
}

/// A received file.
#[derive(Debug)]
pub struct PostFile {
    /// The name of its form field.
    pub field: String,
    /// Its file name.
    pub name: String,
    /// Its data.
    pub data: Vec<u8>,
}

/// What a request body gives: the fields (each name once, a later value
/// replacing an earlier one), the files in order, and the raw bytes of a
/// body that is neither a form nor `multipart/form-data`.
#[derive(Debug)]
pub struct PostInput {
    pub post: Vec<(String, String)>,
    pub files: Vec<PostFile>,
    pub raw: RawData,
}

impl PostPart {
    pub open spec fn view(&self) -> PartView {
        match self {
            PostPart::Field(k, v) => PartView::Field(k@, v@),
            PostPart::File(f, n, d) => PartView::File(f@, n@, d@),
        }
    }
}

/// The views of a list of parts.
pub open spec fn parts_view(v: Seq<PostPart>) -> Seq<PartView> {
    v.map_values(|p: PostPart| p.view())
}

/// The views of a list of files.
pub open spec fn files_view(v: Seq<PostFile>) -> Seq<(Seq<char>, Seq<char>, Seq<u8>)> {
    v.map_values(|f: PostFile| (f.field@, f.name@, f.data@))
}

/// Whether `pat` stands in `d` at `i`.
pub open spec fn starts_at(d: Seq<u8>, i: int, pat: Seq<u8>) -> bool {
    0 <= i && i + pat.len() <= d.len() && d.subrange(i, i + pat.len()) == pat
}

/// The first CR LF CR LF at or after `i` and before `len`.
pub open spec fn find_stop(d: Seq<u8>, i: int, len: int) -> Option<int>
    decreases len - i,
{
    if i < 0 || i >= len {
        None
    } else if starts_at(d, i, seq![13u8, 10u8, 13u8, 10u8]) {
        Some(i)
    } else {
        find_stop(d, i + 1, len)
    }
}

/// `d[l..e]`, empty when the bounds are not in order.
pub open spec fn piece(d: Seq<u8>, l: int, e: int) -> Seq<u8> {
    if 0 <= l <= e <= d.len() {
        d.subrange(l, e)
    } else {
        Seq::empty()
    }
}

/// The pieces of a part header between `; `, at most three.
pub open spec fn header_pieces(h: Seq<u8>) -> Seq<Seq<u8>> {
    match find_pair(h, 0, 59u8, 32u8) {
        None => seq![h],
        Some(a) => match find_pair(h, a + 2, 59u8, 32u8) {
            None => seq![h.subrange(0, a), h.subrange(a + 2, h.len() as int)],
            Some(b) => seq![h.subrange(0, a), h.subrange(a + 2, b), h.subrange(b + 2, h.len() as int)],
        },
    }
}

/// The text of `key="value"`: what lies between the first `k` bytes and the
/// last byte.
pub open spec fn quoted(p: Seq<u8>, k: int) -> Option<Seq<u8>> {
    if p.len() >= k + 1 {
        Some(p.subrange(k, p.len() - 1))
    } else {
        None
    }
}

/// The first line of a text.
pub open spec fn first_line(p: Seq<u8>) -> Seq<u8> {
    match find_pair(p, 0, 13u8, 10u8) {
        None => p,
        Some(e) => p.subrange(0, e),
    }
}

/// The characters of bytes that are UTF-8.
pub open spec fn utf8_text(b: Option<Seq<u8>>) -> Option<Seq<char>> {
    match b {
        Some(b) => if valid_utf8(b) {
            Some(decode_utf8(b))
        } else {
            None
        },
        None => None,
    }
}

/// The part a header and its data give: with two pieces
/// (`Content-Disposition: form-data; name="x"`) a field, when its data is
/// UTF-8; with three (`...; name="x"; filename="y"` and more lines) a file.
pub open spec fn post_part(h: Seq<u8>, data: Seq<u8>) -> Option<PartView> {
    let ps = header_pieces(h);
    if ps.len() == 2 {
        match (utf8_text(quoted(ps[1], 6)), utf8_text(Some(data))) {
            (Some(k), Some(v)) => Some(PartView::Field(k, v)),
            _ => None,
        }
    } else if ps.len() == 3 {
        match (utf8_text(quoted(ps[1], 6)), utf8_text(quoted(first_line(ps[2]), 10))) {
            (Some(f), Some(n)) => Some(PartView::File(f, n, data)),
            _ => None,
        }
    } else {
        None
    }
}

/// The parts so far followed by the part of a header and its data, if any.
pub open spec fn with_part(acc: Seq<PartView>, p: Option<PartView>) -> Seq<PartView> {
    match p {
        Some(x) => acc.push(x),
        None => acc,
    }
}

/// The part whose header and data start were found, ended at `e`.
pub open spec fn ended(d: Seq<u8>, found: Option<(int, int, int)>, e: int) -> Option<PartView> {
    match found {
        Some((l, hs, he)) => post_part(d.subrange(hs, he), piece(d, l, e)),
        None => None,
    }
}

/// Scans a `multipart/form-data` body from `seek` on for the boundary `b`.
///
/// `found` is the part whose header was read: where its data starts and where
/// its header lies. A boundary ends that part two bytes before it (the CR LF);
/// the boundary that ends the body stands four bytes before its end. After a
/// boundary and CR LF, the part's header runs to the next CR LF CR LF; a
/// header that is not UTF-8 leaves the part before it open.
pub open spec fn scan_parts(
    d: Seq<u8>,
    b: Seq<u8>,
    seek: int,
    found: Option<(int, int, int)>,
    acc: Seq<PartView>,
) -> Seq<PartView>
    decreases d.len() - seek,
{
    let len = d.len() - 4;
    if seek < 0 || seek >= len {
        acc
    } else if starts_at(d, seek, b) {
        if seek + b.len() == len {
            with_part(acc, ended(d, found, seek - 2))
        } else {
            let start = seek + b.len() + 2;
            match find_stop(d, start, len) {
                None => acc,
                Some(p) => if start <= p && p < len && p + 4 > seek {
                    if valid_utf8(d.subrange(start, p)) {
                        scan_parts(d, b, p + 4, Some((p + 4, start, p)), with_part(acc, ended(d, found, seek - 2)))
                    } else {
                        scan_parts(d, b, p + 4, found, acc)
                    }
                } else {
                    acc
                },
            }
        }
    } else {
        scan_parts(d, b, seek + 1, found, acc)
    }
}

/// The parts of a `multipart/form-data` body with the boundary `b`.
pub open spec fn multipart_parts(d: Seq<u8>, b: Seq<u8>) -> Seq<PartView> {
    if d.len() < 4 {
        Seq::empty()
    } else {
        scan_parts(d, b, 0, None, Seq::empty())
    }
}

/// The fields of parts inserted in order into `post`.
pub open spec fn fields_into(post: Seq<(Seq<char>, Seq<char>)>, parts: Seq<PartView>) -> Seq<(Seq<char>, Seq<char>)>
    decreases parts.len(),
{
    if parts.len() == 0 {
        post
    } else {
        match parts.last() {
            PartView::Field(k, v) => pairs_insert(fields_into(post, parts.drop_last()), k, v),
            _ => fields_into(post, parts.drop_last()),
        }
    }
}

/// The files of parts, in order.
pub open spec fn files_of(parts: Seq<PartView>) -> Seq<(Seq<char>, Seq<char>, Seq<u8>)>
    decreases parts.len(),
{
    if parts.len() == 0 {
        Seq::empty()
    } else {
        match parts.last() {
            PartView::File(f, n, d) => files_of(parts.drop_last()).push((f, n, d)),
            _ => files_of(parts.drop_last()),
        }
    }
}

/// Pairs inserted in order into `post`.
pub open spec fn pairs_into(post: Seq<(Seq<char>, Seq<char>)>, pairs: Seq<(Seq<char>, Seq<char>)>) -> Seq<(Seq<char>, Seq<char>)>
    decreases pairs.len(),
{
    if pairs.len() == 0 {
        post
    } else {
        pairs_insert(pairs_into(post, pairs.drop_last()), pairs.last().0, pairs.last().1)
    }
}

/// The prefix of a multipart content type.
pub open spec fn multipart_prefix() -> Seq<u8> {
    "multipart/form-data; boundary="@.map_values(|c: char| c as u8)
}

/// How a body is read, by its content type.
pub enum BodyKind {
    /// A URL-encoded form.
    Form,
    /// `multipart/form-data` with the boundary (with `--` before it).
    Multipart(Seq<u8>),
    /// Neither, with a content type given.
    Raw,
    /// No content type.
    Nothing,
}

/// The kind of a body with the given content type (by its bytes).
pub open spec fn body_kind(c: Option<Seq<u8>>) -> BodyKind {
    match c {
        None => BodyKind::Nothing,
        Some(c) => if c == "application/x-www-form-urlencoded"@.map_values(|x: char| x as u8) {
            BodyKind::Form
        } else if c.len() > 30 {
            if c.subrange(0, 30) == multipart_prefix() {
                BodyKind::Multipart(seq![45u8, 45u8] + c.subrange(30, c.len() as int))
            } else {
                BodyKind::Raw
            }
        } else {
            BodyKind::Raw
        },
    }
}

fn starts_at_exec(d: &[u8], i: usize, pat: &[u8]) -> (res: bool)
    ensures
        res == starts_at(d@, i as int, pat@),
        res ==> i + pat.len() <= d.len(),
{
    if pat.len() > d.len() || i > d.len() - pat.len() {
        return false;
    }
    let mut j: usize = 0;
    while j < pat.len()
        invariant
            i + pat.len() <= d.len(),
            j <= pat@.len(),
            forall|k: int| 0 <= k < j ==> d@[i + k] == pat@[k],
        decreases pat@.len() - j,
    {
        if d[i + j] != pat[j] {
            assert(d@.subrange(i as int, i + pat@.len())[j as int] != pat@[j as int]);
            return false;
        }
        j = j + 1;
    }
    assert(d@.subrange(i as int, i + pat@.len()) =~= pat@);
    true
}

fn find_stop_exec(d: &[u8], i: usize, len: usize) -> (res: Option<usize>)
    requires
        len + 4 == d@.len(),
    ensures
        match res {
            Some(p) => find_stop(d@, i as int, len as int) == Some(p as int) && i <= p < len,
            None => find_stop(d@, i as int, len as int) is None,
        },
{
    let mut j = i;
    while j < len
        invariant
            len + 4 == d@.len(),
            i <= j,
            find_stop(d@, j as int, len as int) == find_stop(d@, i as int, len as int),
        decreases len - j,
    {
        if d[j] == 13u8 && d[j + 1] == 10u8 && d[j + 2] == 13u8 && d[j + 3] == 10u8 {
            assert(d@.subrange(j as int, j + 4) =~= seq![13u8, 10u8, 13u8, 10u8]);
            return Some(j);
        }
        assert(d@.subrange(j as int, j + 4)[0] == d@[j as int]);
        assert(d@.subrange(j as int, j + 4)[1] == d@[j + 1]);
        assert(d@.subrange(j as int, j + 4)[2] == d@[j + 2]);
        assert(d@.subrange(j as int, j + 4)[3] == d@[j + 3]);
        j = j + 1;
    }
    None
}

fn find_pair_exec(s: &[u8], i: usize, a: u8, b: u8) -> (res: Option<usize>)
    ensures
        match res {
            Some(p) => find_pair(s@, i as int, a, b) == Some(p as int) && i <= p && p + 1 < s.len(),
            None => find_pair(s@, i as int, a, b) is None,
        },
{
    let mut j = i;
    while j < s.len() && j + 1 < s.len()
        invariant
            i <= j,
            find_pair(s@, j as int, a, b) == find_pair(s@, i as int, a, b),
        decreases s@.len() - j,
    {
        if s[j] == a && s[j + 1] == b {
            return Some(j);
        }
        j = j + 1;
    }
    None
}

fn text_of(b: &[u8]) -> (res: Option<String>)
    ensures
        match utf8_text(Some(b@)) {
            Some(t) => res matches Some(s) && s@ == t,
            None => res is None,
        },
{
    string_from_utf8(vstd::slice::slice_to_vec(b))
}

fn quoted_text(p: &[u8], k: usize) -> (res: Option<String>)
    requires
        k <= 10,
    ensures
        match utf8_text(quoted(p@, k as int)) {
            Some(t) => res matches Some(s) && s@ == t,
            None => res is None,
        },
{
    if p.len() < k + 1 {
        return None;
    }
    text_of(&p[k..p.len() - 1])
}

/// The part a header and its data give (see `post_part`).
fn post_part_exec(h: &[u8], data: &[u8]) -> (res: Option<PostPart>)
    ensures
        match post_part(h@, data@) {
            Some(v) => res matches Some(p) && p.view() == v,
            None => res is None,
        },
{
    let a = match find_pair_exec(h, 0, 59u8, 32u8) {
        None => return None,
        Some(a) => a,
    };
    match find_pair_exec(h, a + 2, 59u8, 32u8) {
        None => {
            let ghost ps = header_pieces(h@);
            assert(ps[1] == h@.subrange(a + 2, h@.len() as int));
            let name = quoted_text(&h[a + 2..h.len()], 6);
            let value = text_of(data);
            match (name, value) {
                (Some(k), Some(v)) => Some(PostPart::Field(k, v)),
                _ => None,
            }
        },
        Some(b) => {
            let ghost ps = header_pieces(h@);
            assert(ps[1] == h@.subrange(a + 2, b as int));
            assert(ps[2] == h@.subrange(b + 2, h@.len() as int));
            let form = quoted_text(&h[a + 2..b], 6);
            let rest = &h[b + 2..h.len()];
            let line = match find_pair_exec(rest, 0, 13u8, 10u8) {
                None => rest,
                Some(e) => &rest[0..e],
            };
            assert(line@ == first_line(ps[2]));
            let name = quoted_text(line, 10);
            match (form, name) {
                (Some(f), Some(n)) => Some(PostPart::File(f, n, vstd::slice::slice_to_vec(data))),
                _ => None,
            }
        },
    }
}

/// `d[l..e]` (see `piece`).
fn piece_exec(d: &[u8], l: usize, e: usize) -> (res: &[u8])
    ensures
        res@ == piece(d@, l as int, e as int),
{
    if l <= e && e <= d.len() {
        &d[l..e]
    } else {
        let empty: &[u8] = &[];
        assert(empty@ =~= Seq::<u8>::empty());
        empty
    }
}

/// Appends the part that `found` started, ended two bytes before `seek`.
fn push_ended(out: &mut Vec<PostPart>, d: &[u8], found: Option<(usize, usize, usize)>, seek: usize)
    requires
        match found {
            Some((l, hs, he)) => hs <= he <= d@.len(),
            None => true,
        },
    ensures
        parts_view(final(out)@) == with_part(
            parts_view(old(out)@),
            ended(
                d@,
                match found {
                    Some((l, hs, he)) => Some((l as int, hs as int, he as int)),
                    None => None,
                },
                seek - 2,
            ),
        ),
{
    match found {
        None => {},
        Some((l, hs, he)) => {
            let data: &[u8] = if seek >= 2 {
                piece_exec(d, l, seek - 2)
            } else {
                let empty: &[u8] = &[];
                assert(empty@ =~= piece(d@, l as int, seek - 2));
                empty
            };
            match post_part_exec(&d[hs..he], data) {
                Some(p) => {
                    let ghost before = out@;
                    out.push(p);
                    assert(parts_view(out@) =~= parts_view(before).push(p.view()));
                },
                None => {},
            }
        },
    }
}

spec fn found_view(found: Option<(usize, usize, usize)>) -> Option<(int, int, int)> {
    match found {
        Some((l, hs, he)) => Some((l as int, hs as int, he as int)),
        None => None,
    }
}

/// The parts of a `multipart/form-data` body (see `multipart_parts`).
pub fn read_parts(d: &[u8], b: &[u8]) -> (res: Vec<PostPart>)
    ensures
        parts_view(res@) == multipart_parts(d@, b@),
{
    let mut out: Vec<PostPart> = Vec::new();
    if d.len() < 4 {
        assert(parts_view(out@) =~= Seq::<PartView>::empty());
        return out;
    }
    let len = d.len() - 4;
    let mut seek: usize = 0;
    let mut found: Option<(usize, usize, usize)> = None;
    assert(parts_view(out@) =~= Seq::<PartView>::empty());
    loop
        invariant
            len + 4 == d@.len(),
            match found {
                Some((l, hs, he)) => hs <= he <= d@.len(),
                None => true,
            },
            scan_parts(d@, b@, seek as int, found_view(found), parts_view(out@)) == multipart_parts(d@, b@),
        decreases d@.len() - seek,
    {
        if seek >= len {
            return out;
        }
        if starts_at_exec(d, seek, b) {
            if seek + b.len() == len {
                push_ended(&mut out, d, found, seek);
                return out;
            }
            let after = seek + b.len();
            if len < 2 || after >= len - 2 {
                assert(find_stop(d@, after + 2, len as int) is None);
                return out;
            }
            let start = after + 2;
            match find_stop_exec(d, start, len) {
                None => {
                    return out;
                },
                Some(p) => {
                    match text_of(&d[start..p]) {
                        Some(_) => {
                            push_ended(&mut out, d, found, seek);
                            found = Some((p + 4, start, p));
                        },
                        None => {},
                    }
                    seek = p + 4;
                },
            }
        } else {
            seek = seek + 1;
        }
    }
}

impl Worker {
    /// Reads a request body by its content type: a URL-encoded form gives
    /// its fields, `multipart/form-data` its fields and files, anything
    /// else with a content type (or a body without one) its raw bytes.
    pub fn read_input(data: Vec<u8>, content_type: Option<&str>) -> (res: PostInput)
        ensures
            match body_kind(
                match content_type {
                    Some(c) => Some(c.spec_bytes()),
                    None => None,
                },
            ) {
                BodyKind::Form => {
                    &&& res.raw is Nothing
                    &&& files_view(res.files@).len() == 0
                    &&& pairs_view(res.post@) == if data@.len() > 0 && valid_utf8(data@) {
                        pairs_into(
                            Seq::empty(),
                            pieces_pairs(split_char(decode_utf8(data@), '&'), PieceKind::Form),
                        )
                    } else {
                        Seq::empty()
                    }
                },
                BodyKind::Multipart(b) => {
                    &&& res.raw is Nothing
                    &&& pairs_view(res.post@) == fields_into(Seq::empty(), multipart_parts(data@, b))
                    &&& files_view(res.files@) == files_of(multipart_parts(data@, b))
                },
                BodyKind::Raw => res.raw matches RawData::Raw(r) && r@ == data@ && res.post@.len() == 0
                    && res.files@.len() == 0,
                BodyKind::Nothing => res.post@.len() == 0 && res.files@.len() == 0 && if data@.len() > 0 {
                    res.raw matches RawData::Raw(r) && r@ == data@
                } else {
                    res.raw is Nothing
                },
            },
    {
        let mut post: Vec<(String, String)> = Vec::new();
        let mut files: Vec<PostFile> = Vec::new();
        assert(pairs_view(post@) =~= Seq::<(Seq<char>, Seq<char>)>::empty());
        assert(files_view(files@) =~= Seq::<(Seq<char>, Seq<char>, Seq<u8>)>::empty());
        let c = match content_type {
            None => {
                if data.len() > 0 {
                    return PostInput { post, files, raw: RawData::Raw(data) };
                }
                return PostInput { post, files, raw: RawData::Nothing };
            },
            Some(c) => c,
        };
        let cb = c.as_bytes();
        if form_type(cb) {
            if data.len() > 0 {
                match string_from_utf8(data) {
                    Some(s) => {
                        let pairs = parse_form(s.as_str());
                        insert_all(&mut post, &pairs);
                    },
                    None => {},
                }
            }
            return PostInput { post, files, raw: RawData::Nothing };
        }
        if cb.len() <= 30 || !prefix_is_multipart(cb) {
            return PostInput { post, files, raw: RawData::Raw(data) };
        }
        let mut boundary: Vec<u8> = Vec::new();
        boundary.push(45u8);
        boundary.push(45u8);
        let mut i: usize = 30;
        while i < cb.len()
            invariant
                30 <= i <= cb@.len(),
                boundary@ == seq![45u8, 45u8] + cb@.subrange(30, i as int),
            decreases cb@.len() - i,
        {
            boundary.push(cb[i]);
            assert(cb@.subrange(30, i + 1) =~= cb@.subrange(30, i as int).push(cb@[i as int]));
            i = i + 1;
        }
        let parts = read_parts(data.as_slice(), boundary.as_slice());
        split_parts(&mut post, &mut files, parts);
        PostInput { post, files, raw: RawData::Nothing }
    }
}

fn form_type(c: &[u8]) -> (res: bool)
    ensures
        res == (c@ == "application/x-www-form-urlencoded"@.map_values(|x: char| x as u8)),
{
    let t = "application/x-www-form-urlencoded";
    proof {
        reveal_strlit("application/x-www-form-urlencoded");
    }
    let tb = t.as_bytes();
    proof {
        assert(vstd::string::is_ascii(t));
        vstd::string::is_ascii_spec_bytes(t);
    }
    assert(tb@ =~= t@.map_values(|x: char| x as u8));
    if c.len() != tb.len() {
        return false;
    }
    let r = starts_at_exec(c, 0, tb);
    assert(c@.subrange(0, tb@.len() as int) =~= c@);
    r
}

fn prefix_is_multipart(c: &[u8]) -> (res: bool)
    requires
        c@.len() > 30,
    ensures
        res == (c@.subrange(0, 30) == multipart_prefix()),
{
    let t = "multipart/form-data; boundary=";
    proof {
        reveal_strlit("multipart/form-data; boundary=");
    }
    let tb = t.as_bytes();
    proof {
        assert(vstd::string::is_ascii(t));
        vstd::string::is_ascii_spec_bytes(t);
    }
    assert(tb@ =~= multipart_prefix());
    starts_at_exec(c, 0, tb)
}

/// Inserts pairs in order.
fn insert_all(post: &mut Vec<(String, String)>, pairs: &Vec<(String, String)>)
    ensures
        pairs_view(final(post)@) == pairs_into(pairs_view(old(post)@), pairs_view(pairs@)),
{
    let ghost p0 = pairs_view(post@);
    let mut i: usize = 0;
    while i < pairs.len()
        invariant
            i <= pairs@.len(),
            pairs_view(post@) == pairs_into(p0, pairs_view(pairs@.subrange(0, i as int))),
        decreases pairs@.len() - i,
    {
        let (k, v) = &pairs[i];
        insert_pair(post, k.clone(), v.clone());
        assert(pairs_view(pairs@.subrange(0, i + 1)).drop_last() =~= pairs_view(pairs@.subrange(0, i as int)));
        i = i + 1;
    }
    assert(pairs@.subrange(0, pairs@.len() as int) =~= pairs@);
}

/// Sorts parts into fields and files.
fn split_parts(post: &mut Vec<(String, String)>, files: &mut Vec<PostFile>, parts: Vec<PostPart>)
    ensures
        pairs_view(final(post)@) == fields_into(pairs_view(old(post)@), parts_view(parts@)),
        files_view(final(files)@) == files_view(old(files)@) + files_of(parts_view(parts@)),
{
    let ghost p0 = pairs_view(post@);
    let ghost f0 = files_view(files@);
    let mut i: usize = 0;
    let mut parts = parts;
    let ghost all = parts_view(parts@);
    let mut rev: Vec<PostPart> = Vec::new();
    while parts.len() > 0
        invariant
            parts_view(parts@) + parts_view(rev@).reverse() == all,
        decreases parts@.len(),
    {
        let ghost before = parts@;
        let ghost rb = rev@;
        let p = parts.pop().unwrap();
        rev.push(p);
        assert(parts_view(rev@).reverse() =~= seq![p.view()] + parts_view(rb).reverse());
        assert(parts_view(before) =~= parts_view(parts@).push(p.view()));
        assert(parts_view(parts@) + parts_view(rev@).reverse() =~= parts_view(before) + parts_view(rb).reverse());
    }
    assert(parts_view(rev@).reverse() =~= all);
    while rev.len() > 0
        invariant
            pairs_view(post@) == fields_into(p0, all.subrange(0, all.len() - rev@.len())),
            files_view(files@) == f0 + files_of(all.subrange(0, all.len() - rev@.len())),
            parts_view(rev@).reverse() == all.subrange(all.len() - rev@.len(), all.len() as int),
            rev@.len() <= all.len(),
        decreases rev@.len(),
    {
        let ghost k = all.len() - rev@.len();
        let ghost rb = rev@;
        let p = rev.pop().unwrap();
        assert(parts_view(rb) =~= parts_view(rev@).push(p.view()));
        assert(parts_view(rb).reverse() =~= seq![p.view()] + parts_view(rev@).reverse());
        assert(parts_view(rb).reverse()[0] == p.view());
        assert(all[k] == p.view());
        assert(all.subrange(0, k + 1).drop_last() =~= all.subrange(0, k));
        assert(all.subrange(k + 1, all.len() as int) =~= all.subrange(k, all.len() as int).drop_first());
        assert(parts_view(rev@).reverse() =~= all.subrange(k + 1, all.len() as int));
        match p {
            PostPart::Field(key, value) => {
                insert_pair(post, key, value);
                assert(files_view(files@) == f0 + files_of(all.subrange(0, k + 1)));
            },
            PostPart::File(f, n, d) => {
                let ghost fb = files_view(files@);
                files.push(PostFile { field: f, name: n, data: d });
                assert(files_view(files@) =~= fb.push((f@, n@, d@)));
                assert(files_view(files@) =~= f0 + files_of(all.subrange(0, k + 1)));
            },
        }
    }
    assert(all.subrange(0, all.len() as int) =~= all);
}

/// The files of parts put one after the other are the files of each, in
/// order.
pub proof fn law_files_of_append(a: Seq<PartView>, b: Seq<PartView>)
    ensures
        files_of(a + b) == files_of(a) + files_of(b),
    decreases b.len(),
{
    if b.len() == 0 {
        assert(a + b =~= a);
        assert(files_of(a) + files_of(b) =~= files_of(a));
    } else {
        law_files_of_append(a, b.drop_last());
        assert((a + b).drop_last() =~= a + b.drop_last());
        assert((a + b).last() == b.last());
        match b.last() {
            PartView::File(f, n, d) => {
                assert(files_of(a) + files_of(b.drop_last()).push((f, n, d)) =~= (files_of(a) + files_of(
                    b.drop_last(),
                )).push((f, n, d)));
            },
            _ => {},
        }
    }
}

/// One part gives its file, or none for a field.
pub proof fn law_files_of_one(p: PartView)
    ensures
        files_of(seq![p]) == match p {
            PartView::File(f, n, d) => seq![(f, n, d)],
            PartView::Field(_, _) => Seq::<(Seq<char>, Seq<char>, Seq<u8>)>::empty(),
        },
{
    let e = Seq::<PartView>::empty();
    assert(seq![p].drop_last() =~= e);
    assert(seq![p].last() == p);
    assert(files_of(e) == Seq::<(Seq<char>, Seq<char>, Seq<u8>)>::empty());
    match p {
        PartView::File(f, n, d) => {
            assert(files_of(e).push((f, n, d)) =~= seq![(f, n, d)]);
        },
        _ => {},
    }
}

/// There is one file for each file part.
pub proof fn law_files_of_count(parts: Seq<PartView>)
    ensures
        files_of(parts).len() == parts.filter(|p: PartView| p is File).len(),
    decreases parts.len(),
{
    reveal(Seq::filter);
    if parts.len() > 0 {
        law_files_of_count(parts.drop_last());
    }
}

} // verus!
