//! The FastCGI protocol: record headers, name-value pairs of a PARAMS
//! stream, and the STDOUT records of an answer.

use vstd::prelude::*;
use vstd::utf8::{decode_utf8, valid_utf8};

use crate::request::{cgi_apply, cgi_field, cgi_known, cgi_sets, empty_head, law_cgi_apply_field, law_cgi_apply_params, HeadInfo, HeadView};
use crate::text::{push_bytes, string_from_utf8};

verus! {

/// Length of a record header.
pub const FASTCGI_HEADER_LEN: usize = 8;
/// Largest content of one record.
pub const FASTCGI_MAX_CONTENT_LEN: usize = 65535;
/// Record type: begin request.
pub const FASTCGI_BEGIN_REQUEST: u8 = 1;
/// Record type: end request.
pub const FASTCGI_END_REQUEST: u8 = 3;
/// Record type: parameters.
pub const FASTCGI_PARAMS: u8 = 4;
/// Record type: body.
pub const FASTCGI_STDIN: u8 = 5;
/// Record type: answer.
pub const FASTCGI_STDOUT: u8 = 6;

/// A record header.
#[derive(Debug)]
pub struct Header {
    /// Record type.
    pub header_type: u8,
    /// Length of the content.
    pub content_length: u16,
    /// Length of the padding after the content.
    pub padding_length: u8,
}

/// A length of a name or a value at `i`: one byte below 128, else four
/// bytes, big-endian, with the top bit of the first cleared. Gives the length
/// and the position after it; `None` when the bytes run out.
pub open spec fn pair_len(d: Seq<u8>, i: int) -> Option<(nat, int)> {
    if i < 0 || i >= d.len() {
        None
    } else if d[i] < 128 {
        Some((d[i] as nat, i + 1))
    } else if i + 4 > d.len() {
        None
    } else {
        Some(
            (((d[i] - 128) as nat) * 0x1000000 + (d[i + 1] as nat) * 0x10000 + (d[i + 2] as nat)
                * 0x100 + (d[i + 3] as nat), i + 4),
        )
    }
}

/// The name-value pairs of a PARAMS stream from position `i` on; reading
/// stops at a zero-length name or when the bytes run out.
pub open spec fn fcgi_pairs(d: Seq<u8>, i: int) -> Seq<(Seq<u8>, Seq<u8>)>
    decreases d.len() - i,
{
    if i < 0 || i >= d.len() {
        Seq::empty()
    } else {
        match pair_len(d, i) {
            None => Seq::empty(),
            Some((kl, j)) => if kl == 0 {
                Seq::empty()
            } else {
                match pair_len(d, j) {
                    None => Seq::empty(),
                    Some((vl, k)) => if k + kl + vl > d.len() {
                        Seq::empty()
                    } else {
                        seq![(d.subrange(k, k + kl), d.subrange(k + kl, k + kl + vl))] + fcgi_pairs(
                            d,
                            k + kl + vl,
                        )
                    },
                }
            },
        }
    }
}

/// Applies the pairs in order, stopping at the first name or value that is
/// not UTF-8.
pub open spec fn fcgi_fold(h: HeadView, pairs: Seq<(Seq<u8>, Seq<u8>)>) -> HeadView
    decreases pairs.len(),
{
    if pairs.len() == 0 {
        h
    } else {
        let (k, v) = pairs[0];
        if valid_utf8(k) && valid_utf8(v) {
            fcgi_fold(cgi_apply(h, decode_utf8(k), decode_utf8(v), false), pairs.drop_first())
        } else {
            h
        }
    }
}

/// The header of a record holding `size` bytes of the given type.
pub open spec fn record_header(t: u8, size: nat) -> Seq<u8> {
    seq![1u8, t, 0u8, 1u8, (size / 256) as u8, (size % 256) as u8, 0u8, 0u8]
}

/// The STDOUT records that carry `a`: pieces of at most 65535 bytes, each
/// after its header.
pub open spec fn stdout_records(a: Seq<u8>) -> Seq<u8>
    decreases a.len(),
{
    if a.len() == 0 {
        Seq::empty()
    } else {
        let size = if a.len() > 65535 {
            65535
        } else {
            a.len()
        };
        record_header(6u8, size) + a.subrange(0, size as int) + stdout_records(
            a.subrange(size as int, a.len() as int),
        )
    }
}

/// The records that end a request: an empty STDOUT record and an
/// END_REQUEST record with eight zero bytes.
pub open spec fn end_records() -> Seq<u8> {
    record_header(6u8, 0) + record_header(3u8, 8) + seq![0u8, 0u8, 0u8, 0u8, 0u8, 0u8, 0u8, 0u8]
}

/// FastCGI protocol.
pub struct FastCGI;

fn read_len(d: &[u8], i: usize) -> (res: Option<(u32, usize)>)
    ensures
        match pair_len(d@, i as int) {
            Some((l, j)) => res matches Some(r) && r.0 as nat == l && r.1 as int == j,
            None => res is None,
        },
{
    if i >= d.len() {
        return None;
    }
    if d[i] < 128u8 {
        return Some((d[i] as u32, i + 1));
    }
    if d.len() - i < 4 {
        return None;
    }
    let b0 = (d[i] - 128u8) as u32;
    let l = b0 * 0x1000000u32 + (d[i + 1] as u32) * 0x10000u32 + (d[i + 2] as u32) * 0x100u32
        + (d[i + 3] as u32);
    Some((l, i + 4))
}

impl FastCGI {
    /// Reads a record header (the first eight bytes of a record).
    pub fn read_header(data: &[u8]) -> (res: Header)
        requires
            data@.len() >= FASTCGI_HEADER_LEN,
        ensures
            res.header_type == data@[1],
            res.content_length == data@[4] * 256 + data@[5],
            res.padding_length == data@[6],
    {
        Header {
            header_type: data[1],
            content_length: (data[4] as u16) * 256u16 + (data[5] as u16),
            padding_length: data[6],
        }
    }

    /// Reads a request's parameters from the content of its PARAMS records:
    /// the pairs are applied in order until one is not UTF-8.
    pub fn read_param(data: &[u8]) -> (res: HeadInfo)
        ensures
            res.view() == fcgi_fold(empty_head("https"@), fcgi_pairs(data@, 0)),
            res.site@ == crate::request::site_text(res.scheme@, res.host@),
    {
        let mut head = FastCGI::read_pairs(data);
        head.set_site();
        head
    }

    /// The parameters the pairs of `data` give, without the site.
    fn read_pairs(data: &[u8]) -> (res: HeadInfo)
        ensures
            res.view() == fcgi_fold(empty_head("https"@), fcgi_pairs(data@, 0)),
    {
        let mut head = HeadInfo::new("https");
        let len = data.len();
        let mut size: usize = 0;
        loop
            invariant
                len == data@.len(),
                size <= len,
                fcgi_fold(head.view(), fcgi_pairs(data@, size as int)) == fcgi_fold(
                    empty_head("https"@),
                    fcgi_pairs(data@, 0),
                ),
            decreases len - size,
        {
            if size >= len {
                return head;
            }
            let (key_len, j) = match read_len(data, size) {
                Some(r) => r,
                None => return head,
            };
            if key_len == 0 {
                return head;
            }
            let (value_len, k) = match read_len(data, j) {
                Some(r) => r,
                None => return head,
            };
            if (len - k) < key_len as usize || (len - k - key_len as usize) < value_len as usize {
                return head;
            }
            let kl = key_len as usize;
            let vl = value_len as usize;
            let ghost pair = (data@.subrange(k as int, (k + kl) as int), data@.subrange(
                (k + kl) as int,
                (k + kl + vl) as int,
            ));
            assert(fcgi_pairs(data@, size as int) == seq![pair] + fcgi_pairs(
                data@,
                (k + kl + vl) as int,
            ));
            assert((seq![pair] + fcgi_pairs(data@, (k + kl + vl) as int)).drop_first()
                =~= fcgi_pairs(data@, (k + kl + vl) as int));
            let key = string_from_utf8(vstd::slice::slice_to_vec(&data[k..k + kl]));
            let value = string_from_utf8(vstd::slice::slice_to_vec(&data[k + kl..k + kl + vl]));
            match (key, value) {
                (Some(key), Some(value)) => {
                    head.apply_cgi(key, value, false);
                },
                _ => {
                    return head;
                },
            }
            size = k + kl + vl;
        }
    }

    /// Frames an answer as STDOUT records of at most 65535 bytes each; with
    /// `end`, the records that end the request follow.
    pub fn write(answer: Vec<u8>, end: bool) -> (res: Vec<u8>)
        ensures
            res@ == stdout_records(answer@) + if end {
                end_records()
            } else {
                Seq::empty()
            },
    {
        let mut data: Vec<u8> = Vec::new();
        let len = answer.len();
        let mut seek: usize = 0;
        assert(answer@.subrange(0, len as int) =~= answer@);
        while seek < len
            invariant
                len == answer@.len(),
                seek <= len,
                data@ + stdout_records(answer@.subrange(seek as int, len as int)) == stdout_records(
                    answer@,
                ),
            decreases len - seek,
        {
            let ghost rest = answer@.subrange(seek as int, len as int);
            let size: usize = if len - seek > FASTCGI_MAX_CONTENT_LEN {
                FASTCGI_MAX_CONTENT_LEN
            } else {
                len - seek
            };
            let ghost d0 = data@;
            data.push(1u8);
            data.push(FASTCGI_STDOUT);
            data.push(0u8);
            data.push(1u8);
            data.push((size / 256) as u8);
            data.push((size % 256) as u8);
            data.push(0u8);
            data.push(0u8);
            push_bytes(&mut data, &answer.as_slice()[seek..seek + size]);
            assert(rest.subrange(0, size as int) =~= answer@.subrange(seek as int, (seek + size) as int));
            assert(rest.subrange(size as int, rest.len() as int) =~= answer@.subrange(
                (seek + size) as int,
                len as int,
            ));
            assert(data@ =~= d0 + record_header(6u8, size as nat) + rest.subrange(0, size as int));
            assert(data@ + stdout_records(answer@.subrange((seek + size) as int, len as int))
                =~= d0 + stdout_records(rest));
            seek = seek + size;
        }
        assert(answer@.subrange(len as int, len as int) =~= Seq::<u8>::empty());
        assert(data@ =~= stdout_records(answer@));
        if end {
            let ghost d0 = data@;
            data.push(1u8);
            data.push(FASTCGI_STDOUT);
            data.push(0u8);
            data.push(1u8);
            data.push(0u8);
            data.push(0u8);
            data.push(0u8);
            data.push(0u8);
            data.push(1u8);
            data.push(FASTCGI_END_REQUEST);
            data.push(0u8);
            data.push(1u8);
            data.push(0u8);
            data.push(8u8);
            data.push(0u8);
            data.push(0u8);
            let mut i: usize = 0;
            while i < 8
                invariant
                    i <= 8,
                    data@ =~= d0 + record_header(6u8, 0) + record_header(3u8, 8) + Seq::new(
                        i as nat,
                        |j: int| 0u8,
                    ),
                decreases 8 - i,
            {
                data.push(0u8);
                i = i + 1;
            }
            assert(Seq::new(8, |j: int| 0u8) =~= seq![0u8, 0u8, 0u8, 0u8, 0u8, 0u8, 0u8, 0u8]);
        } else {
            assert(data@ + Seq::<u8>::empty() =~= data@);
        }
        data
    }
}

/// The contents of the records in `d`, read one header at a time: the
/// content length is in bytes 4 and 5 of a header, the padding length in
/// byte 6; reading stops when the bytes run out.
pub open spec fn record_contents(d: Seq<u8>) -> Seq<u8>
    decreases d.len(),
{
    if d.len() < 8 {
        Seq::empty()
    } else {
        let len = d[4] * 256 + d[5];
        let end = 8 + len + d[6];
        if end > d.len() {
            Seq::empty()
        } else {
            d.subrange(8, 8 + len) + record_contents(d.subrange(end, d.len() as int))
        }
    }
}

/// Reading back the records of an answer gives the answer.
pub proof fn law_stdout_round_trip(a: Seq<u8>)
    ensures
        record_contents(stdout_records(a)) == a,
    decreases a.len(),
{
    if a.len() > 0 {
        let size: nat = if a.len() > 65535 {
            65535
        } else {
            a.len()
        };
        let rest = a.subrange(size as int, a.len() as int);
        let d = stdout_records(a);
        law_stdout_round_trip(rest);
        let h = record_header(6u8, size);
        assert(d == h + a.subrange(0, size as int) + stdout_records(rest));
        assert(d[4] * 256 + d[5] == size) by {
            assert(d[4] == h[4]);
            assert(d[5] == h[5]);
        }
        assert(d[6] == 0);
        assert(d.subrange(8, 8 + size as int) =~= a.subrange(0, size as int));
        assert(d.subrange(8 + size as int, d.len() as int) =~= stdout_records(rest));
        assert(a.subrange(0, size as int) + rest =~= a);
    } else {
        assert(stdout_records(a) =~= Seq::<u8>::empty());
        assert(a =~= Seq::<u8>::empty());
    }
}

/// The content lengths of the records in `d`, in order, read as
/// `record_contents` reads them.
pub open spec fn record_lengths(d: Seq<u8>) -> Seq<nat>
    decreases d.len(),
{
    if d.len() < 8 {
        Seq::empty()
    } else {
        let len = d[4] * 256 + d[5];
        let end = 8 + len + d[6];
        if end > d.len() {
            Seq::empty()
        } else {
            seq![len as nat] + record_lengths(d.subrange(end, d.len() as int))
        }
    }
}

/// The records of a nonempty answer are not empty; each carries at most
/// 65535 bytes, and every one but the last carries exactly 65535.
pub proof fn law_stdout_record_size(a: Seq<u8>)
    requires
        a.len() > 0,
    ensures
        record_lengths(stdout_records(a)).len() >= 1,
        forall|i: int|
            0 <= i < record_lengths(stdout_records(a)).len() ==> 0 < #[trigger] record_lengths(
                stdout_records(a),
            )[i] <= 65535,
        forall|i: int|
            0 <= i < record_lengths(stdout_records(a)).len() - 1 ==> #[trigger] record_lengths(
                stdout_records(a),
            )[i] == 65535,
    decreases a.len(),
{
    let size: nat = if a.len() > 65535 {
        65535
    } else {
        a.len()
    };
    let rest = a.subrange(size as int, a.len() as int);
    let d = stdout_records(a);
    let h = record_header(6u8, size);
    assert(d == h + a.subrange(0, size as int) + stdout_records(rest));
    assert(d[4] * 256 + d[5] == size) by {
        assert(d[4] == h[4]);
        assert(d[5] == h[5]);
    }
    assert(d[6] == 0);
    assert(d.subrange(8 + size as int, d.len() as int) =~= stdout_records(rest));
    let ls = record_lengths(d);
    assert(ls == seq![size] + record_lengths(stdout_records(rest)));
    if rest.len() > 0 {
        law_stdout_record_size(rest);
        assert(size == 65535);
        let lr = record_lengths(stdout_records(rest));
        assert forall|i: int| 0 <= i < ls.len() implies 0 < #[trigger] ls[i] <= 65535 by {
            if i > 0 {
                assert(ls[i] == lr[i - 1]);
            }
        }
        assert forall|i: int| 0 <= i < ls.len() - 1 implies #[trigger] ls[i] == 65535 by {
            if i > 0 {
                assert(ls[i] == lr[i - 1]);
            }
        }
    } else {
        assert(stdout_records(rest) =~= Seq::<u8>::empty());
        assert(ls =~= seq![size]);
    }
}

} // verus!

verus! {

/// A request being read from its PARAMS and STDIN records.
#[derive(Debug)]
pub struct RecordBuild {
    /// The content of the PARAMS records so far.
    pub params: Vec<u8>,
    /// The content of the STDIN records so far.
    pub stdin: Vec<u8>,
    /// Whether the empty PARAMS record came.
    pub params_done: bool,
    /// Whether the empty STDIN record came.
    pub stdin_done: bool,
}

/// What a record does to a request being read.
#[derive(Debug)]
pub enum RecordStep {
    /// More records are needed.
    More,
    /// Both streams ended: the request is complete.
    Complete,
    /// A record of another type: the connection is given up.
    Abort,
}

impl FastCGI {
    /// A request with no record read yet.
    pub fn new_build() -> (res: RecordBuild)
        ensures
            res.params@.len() == 0,
            res.stdin@.len() == 0,
            !res.params_done,
            !res.stdin_done,
    {
        RecordBuild { params: Vec::new(), stdin: Vec::new(), params_done: false, stdin_done: false }
    }

    /// Takes the next record of a request: a PARAMS or STDIN record adds
    /// its content to its stream, or ends that stream when it is empty; the
    /// request is complete once both streams ended. A record of another type
    /// gives up, changing nothing.
    pub fn take_record(b: &mut RecordBuild, header_type: u8, data: &[u8]) -> (res: RecordStep)
        ensures
            header_type != FASTCGI_PARAMS && header_type != FASTCGI_STDIN ==> res is Abort && final(b).params@
                == old(b).params@ && final(b).stdin@ == old(b).stdin@ && final(b).params_done == old(
                b,
            ).params_done && final(b).stdin_done == old(b).stdin_done,
            header_type == FASTCGI_PARAMS ==> {
                &&& final(b).params@ == old(b).params@ + data@
                &&& final(b).params_done == (old(b).params_done || data@.len() == 0)
                &&& final(b).stdin@ == old(b).stdin@
                &&& final(b).stdin_done == old(b).stdin_done
            },
            header_type == FASTCGI_STDIN ==> {
                &&& final(b).stdin@ == old(b).stdin@ + data@
                &&& final(b).stdin_done == (old(b).stdin_done || data@.len() == 0)
                &&& final(b).params@ == old(b).params@
                &&& final(b).params_done == old(b).params_done
            },
            header_type == FASTCGI_PARAMS || header_type == FASTCGI_STDIN ==> (res is Complete <==> (
            final(b).params_done && final(b).stdin_done)) && !(res is Abort),
    {
        if header_type == FASTCGI_PARAMS {
            if data.len() == 0 {
                b.params_done = true;
                assert(b.params@ =~= old(b).params@ + data@);
            } else {
                push_bytes(&mut b.params, data);
            }
        } else if header_type == FASTCGI_STDIN {
            if data.len() == 0 {
                b.stdin_done = true;
                assert(b.stdin@ =~= old(b).stdin@ + data@);
            } else {
                push_bytes(&mut b.stdin, data);
            }
        } else {
            return RecordStep::Abort;
        }
        if b.params_done && b.stdin_done {
            RecordStep::Complete
        } else {
            RecordStep::More
        }
    }
}

/// How a FastCGI name-value pair writes a length: one byte below 128, else
/// four bytes, big-endian, with the top bit of the first set.
pub open spec fn len_bytes(n: u32) -> Seq<u8> {
    if n < 128 {
        seq![n as u8]
    } else {
        seq![((n >> 24u32) | 0x80u32) as u8, (n >> 16u32) as u8, (n >> 8u32) as u8, n as u8]
    }
}

/// A length written as FastCGI writes it reads back: every length below
/// 2^31, in either form, gives itself and the position after its bytes.
pub proof fn law_pair_len_round_trip(d: Seq<u8>, i: int, n: u32)
    requires
        n < 0x8000_0000,
        0 <= i,
        i + len_bytes(n).len() <= d.len(),
        d.subrange(i, i + len_bytes(n).len()) == len_bytes(n),
    ensures
        pair_len(d, i) == Some((n as nat, i + len_bytes(n).len())),
{
    let e = len_bytes(n);
    assert(d[i] == e[0]);
    if n < 128 {
        assert((n as u8) < 128 && (n as u8) as nat == n as nat) by (bit_vector)
            requires
                n < 128u32,
        ;
    } else {
        assert(d[i + 1] == e[1]);
        assert(d[i + 2] == e[2]);
        assert(d[i + 3] == e[3]);
        let b0 = ((n >> 24u32) | 0x80u32) as u8;
        let b1 = (n >> 16u32) as u8;
        let b2 = (n >> 8u32) as u8;
        let b3 = n as u8;
        assert(b0 >= 128 && (b0 - 128) as u32 == n >> 24u32) by (bit_vector)
            requires
                n < 0x8000_0000u32,
                b0 == ((n >> 24u32) | 0x80u32) as u8,
        ;
        assert(b1 as u32 == (n >> 16u32) & 0xffu32 && b2 as u32 == (n >> 8u32) & 0xffu32 && b3 as u32 == n
            & 0xffu32) by (bit_vector)
            requires
                b1 == (n >> 16u32) as u8,
                b2 == (n >> 8u32) as u8,
                b3 == n as u8,
        ;
        assert((n >> 24u32) * 0x1000000u32 + ((n >> 16u32) & 0xffu32) * 0x10000u32 + ((n >> 8u32) & 0xffu32)
            * 0x100u32 + (n & 0xffu32) == n) by (bit_vector)
            requires
                n < 0x8000_0000u32,
        ;
        assert(((n >> 24u32) as nat) * 0x1000000 + (((n >> 16u32) & 0xffu32) as nat) * 0x10000 + (((n
            >> 8u32) & 0xffu32) as nat) * 0x100 + ((n & 0xffu32) as nat) == n as nat) by (nonlinear_arith)
            requires
                (n >> 24u32) * 0x1000000u32 + ((n >> 16u32) & 0xffu32) * 0x10000u32 + ((n >> 8u32) & 0xffu32)
                    * 0x100u32 + (n & 0xffu32) == n,
        ;
    }
}

/// The request of a PARAMS stream's pairs, as an option (never `None`).
pub open spec fn fcgi_some(h: HeadView, pairs: Seq<(Seq<u8>, Seq<u8>)>) -> Option<HeadView> {
    Some(fcgi_fold(h, pairs))
}

proof fn lemma_fcgi_field_keep(h: HeadView, pairs: Seq<(Seq<u8>, Seq<u8>)>, k: Seq<char>)
    requires
        cgi_sets(k),
        forall|j: int| 0 <= j < pairs.len() ==> valid_utf8(#[trigger] pairs[j].0) && valid_utf8(pairs[j].1),
        forall|j: int| 0 <= j < pairs.len() ==> decode_utf8(#[trigger] pairs[j].0) != k,
    ensures
        fcgi_some(h, pairs) matches Some(r) && cgi_field(r, k) == cgi_field(h, k),
    decreases pairs.len(),
{
    if pairs.len() > 0 {
        let (kk, v) = pairs[0];
        assert(valid_utf8(pairs[0].0) && valid_utf8(pairs[0].1));
        assert(decode_utf8(pairs[0].0) != k);
        law_cgi_apply_field(h, decode_utf8(kk), decode_utf8(v), false, k);
        let t = pairs.drop_first();
        assert forall|j: int| 0 <= j < t.len() implies valid_utf8(#[trigger] t[j].0) && valid_utf8(t[j].1)
            && decode_utf8(t[j].0) != k by {
            assert(t[j] == pairs[j + 1]);
        }
        lemma_fcgi_field_keep(cgi_apply(h, decode_utf8(kk), decode_utf8(v), false), t, k);
    }
}

/// In parameters of UTF-8 names and values, the last parameter of a name
/// that sets a field gives that field its value, whatever comes before or
/// after it.
pub proof fn law_fcgi_last_param_wins(h: HeadView, pairs: Seq<(Seq<u8>, Seq<u8>)>, i: int, k: Seq<char>)
    requires
        cgi_sets(k),
        forall|j: int| 0 <= j < pairs.len() ==> valid_utf8(#[trigger] pairs[j].0) && valid_utf8(pairs[j].1),
        0 <= i < pairs.len(),
        decode_utf8(pairs[i].0) == k,
        forall|j: int| i < j < pairs.len() ==> decode_utf8(#[trigger] pairs[j].0) != k,
    ensures
        fcgi_some(h, pairs) matches Some(r) && cgi_field(r, k) == Some(decode_utf8(pairs[i].1)),
    decreases i,
{
    let (kk, v) = pairs[0];
    assert(valid_utf8(pairs[0].0) && valid_utf8(pairs[0].1));
    let h1 = cgi_apply(h, decode_utf8(kk), decode_utf8(v), false);
    law_cgi_apply_field(h, decode_utf8(kk), decode_utf8(v), false, k);
    let t = pairs.drop_first();
    assert forall|j: int| 0 <= j < t.len() implies valid_utf8(#[trigger] t[j].0) && valid_utf8(t[j].1) by {
        assert(t[j] == pairs[j + 1]);
    }
    if i == 0 {
        assert forall|j: int| 0 <= j < t.len() implies decode_utf8(#[trigger] t[j].0) != k by {
            assert(t[j] == pairs[j + 1]);
        }
        lemma_fcgi_field_keep(h1, t, k);
    } else {
        assert(t[i - 1] == pairs[i]);
        assert forall|j: int| i - 1 < j < t.len() implies decode_utf8(#[trigger] t[j].0) != k by {
            assert(t[j] == pairs[j + 1]);
        }
        law_fcgi_last_param_wins(h1, t, i - 1, k);
    }
}

proof fn lemma_fcgi_params_grow(h: HeadView, pairs: Seq<(Seq<u8>, Seq<u8>)>, x: (Seq<char>, Seq<char>))
    requires
        h.params.contains(x),
        forall|j: int| 0 <= j < pairs.len() ==> valid_utf8(#[trigger] pairs[j].0) && valid_utf8(pairs[j].1),
    ensures
        fcgi_some(h, pairs) matches Some(r) && r.params.contains(x),
    decreases pairs.len(),
{
    if pairs.len() > 0 {
        let (kk, v) = pairs[0];
        assert(valid_utf8(pairs[0].0) && valid_utf8(pairs[0].1));
        let h1 = cgi_apply(h, decode_utf8(kk), decode_utf8(v), false);
        law_cgi_apply_params(h, decode_utf8(kk), decode_utf8(v), false);
        let w = choose|w: int| 0 <= w < h.params.len() && h.params[w] == x;
        assert(h1.params[w] == x);
        let t = pairs.drop_first();
        assert forall|j: int| 0 <= j < t.len() implies valid_utf8(#[trigger] t[j].0) && valid_utf8(t[j].1) by {
            assert(t[j] == pairs[j + 1]);
        }
        lemma_fcgi_params_grow(h1, t, x);
    }
}

/// In parameters of UTF-8 names and values, every parameter whose name the
/// request does not read is kept among its parameters.
pub proof fn law_fcgi_unknown_param_kept(h: HeadView, pairs: Seq<(Seq<u8>, Seq<u8>)>, i: int)
    requires
        forall|j: int| 0 <= j < pairs.len() ==> valid_utf8(#[trigger] pairs[j].0) && valid_utf8(pairs[j].1),
        0 <= i < pairs.len(),
        !cgi_known(decode_utf8(pairs[i].0), false),
    ensures
        fcgi_some(h, pairs) matches Some(r) && r.params.contains((decode_utf8(pairs[i].0), decode_utf8(pairs[i].1))),
    decreases i,
{
    let (kk, v) = pairs[0];
    assert(valid_utf8(pairs[0].0) && valid_utf8(pairs[0].1));
    let h1 = cgi_apply(h, decode_utf8(kk), decode_utf8(v), false);
    law_cgi_apply_params(h, decode_utf8(kk), decode_utf8(v), false);
    let t = pairs.drop_first();
    assert forall|j: int| 0 <= j < t.len() implies valid_utf8(#[trigger] t[j].0) && valid_utf8(t[j].1) by {
        assert(t[j] == pairs[j + 1]);
    }
    if i == 0 {
        let x = (decode_utf8(kk), decode_utf8(v));
        assert(h1.params[h.params.len() as int] == x);
        lemma_fcgi_params_grow(h1, t, x);
    } else {
        assert(t[i - 1] == pairs[i]);
        law_fcgi_unknown_param_kept(h1, t, i - 1);
    }
}

/// A name-value pair as FastCGI writes it: the two lengths, the name, the
/// value.
pub open spec fn pair_bytes(k: Seq<u8>, v: Seq<u8>) -> Seq<u8> {
    len_bytes(k.len() as u32) + len_bytes(v.len() as u32) + k + v
}

/// Name-value pairs as FastCGI writes them, one after the other.
pub open spec fn params_bytes(ps: Seq<(Seq<u8>, Seq<u8>)>) -> Seq<u8>
    decreases ps.len(),
{
    if ps.len() == 0 {
        Seq::empty()
    } else {
        pair_bytes(ps[0].0, ps[0].1) + params_bytes(ps.drop_first())
    }
}

proof fn lemma_len_bytes_len(n: u32)
    ensures
        len_bytes(n).len() == if n < 128 { 1int } else { 4int },
{
}

proof fn lemma_fcgi_pairs_after(a: Seq<u8>, ps: Seq<(Seq<u8>, Seq<u8>)>)
    requires
        forall|j: int| 0 <= j < ps.len() ==> 0 < (#[trigger] ps[j]).0.len() < 0x8000_0000 && ps[j].1.len()
            < 0x8000_0000,
    ensures
        fcgi_pairs(a + params_bytes(ps), a.len() as int) == ps,
    decreases ps.len(),
{
    let d = a + params_bytes(ps);
    if ps.len() == 0 {
        assert(d =~= a);
    } else {
        let (k, v) = ps[0];
        assert(0 < k.len() < 0x8000_0000 && v.len() < 0x8000_0000);
        let kn = k.len() as u32;
        let vn = v.len() as u32;
        let lk = len_bytes(kn);
        let lv = len_bytes(vn);
        lemma_len_bytes_len(kn);
        lemma_len_bytes_len(vn);
        let rest = params_bytes(ps.drop_first());
        let i = a.len() as int;
        assert(d =~= a + lk + lv + k + v + rest);
        assert(d.subrange(i, i + lk.len()) =~= lk);
        law_pair_len_round_trip(d, i, kn);
        let j = i + lk.len();
        assert(d.subrange(j, j + lv.len()) =~= lv);
        law_pair_len_round_trip(d, j, vn);
        let s = j + lv.len();
        assert(d.subrange(s, s + k.len()) =~= k);
        assert(d.subrange(s + k.len(), s + k.len() + v.len()) =~= v);
        let a2 = a + pair_bytes(k, v);
        assert(a2 + rest =~= d);
        assert(a2.len() == s + k.len() + v.len());
        let t = ps.drop_first();
        assert forall|m: int| 0 <= m < t.len() implies 0 < (#[trigger] t[m]).0.len() < 0x8000_0000 && t[m].1.len()
            < 0x8000_0000 by {
            assert(t[m] == ps[m + 1]);
        }
        lemma_fcgi_pairs_after(a2, t);
        assert(fcgi_pairs(d, i) == seq![(k, v)] + t);
        assert(seq![(k, v)] + t =~= ps);
    }
}

/// Name-value pairs written as FastCGI writes them read back as the same
/// pairs, in order, for non-empty names and lengths below 2^31.
pub proof fn law_fcgi_pairs_round_trip(ps: Seq<(Seq<u8>, Seq<u8>)>)
    requires
        forall|j: int| 0 <= j < ps.len() ==> 0 < (#[trigger] ps[j]).0.len() < 0x8000_0000 && ps[j].1.len()
            < 0x8000_0000,
    ensures
        fcgi_pairs(params_bytes(ps), 0) == ps,
{
    lemma_fcgi_pairs_after(Seq::empty(), ps);
    assert(Seq::<u8>::empty() + params_bytes(ps) =~= params_bytes(ps));
}

} // verus!
