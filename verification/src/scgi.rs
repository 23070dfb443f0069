//! The SCGI protocol: a netstring header of NUL-terminated names and values.

use vstd::prelude::*;
use vstd::utf8::{decode_utf8, valid_utf8};

use crate::request::{cgi_apply, cgi_field, cgi_known, cgi_sets, empty_head, law_cgi_apply_field, law_cgi_apply_params, HeadInfo, HeadView};
use crate::text::{decimal, digits_value, is_digit, string_from_utf8};

verus! {

/// How many bytes the header length prefix (`digits` and `:`) may take.
pub const SCGI_LEN_PACKAGE_SIZE: usize = 7;

/// The first position at or after `i` holding the byte `x`.
pub open spec fn find_byte(s: Seq<u8>, i: int, x: u8) -> Option<int>
    decreases s.len() - i,
{
    if i < 0 || i >= s.len() {
        None
    } else if s[i] == x {
        Some(i)
    } else {
        find_byte(s, i + 1, x)
    }
}

pub proof fn lemma_find_byte(s: Seq<u8>, i: int, x: u8)
    ensures
        match find_byte(s, i, x) {
            Some(p) => 0 <= i <= p < s.len() && s[p] == x,
            None => true,
        },
    decreases s.len() - i,
{
    if 0 <= i < s.len() && s[i] != x {
        lemma_find_byte(s, i + 1, x);
    }
}

/// The first space at or after `i`.
pub fn find_space(s: &[u8], i: usize) -> (res: Option<usize>)
    requires
        i <= s@.len(),
    ensures
        match res {
            Some(p) => find_byte(s@, i as int, 32u8) == Some(p as int) && i <= p < s@.len(),
            None => find_byte(s@, i as int, 32u8) is None,
        },
{
    find_byte_from(s, i, 32u8)
}

fn find_byte_from(s: &[u8], i: usize, x: u8) -> (res: Option<usize>)
    requires
        i <= s@.len(),
    ensures
        match res {
            Some(p) => find_byte(s@, i as int, x) == Some(p as int) && i <= p < s@.len(),
            None => find_byte(s@, i as int, x) is None,
        },
{
    let mut j = i;
    while j < s.len()
        invariant
            i <= j <= s@.len(),
            find_byte(s@, j as int, x) == find_byte(s@, i as int, x),
        decreases s@.len() - j,
    {
        if s[j] == x {
            return Some(j);
        }
        j = j + 1;
    }
    None
}

/// Where the length prefix ends: the position of the first `:` when only
/// digits come before it.
pub open spec fn separator_at(s: Seq<u8>, i: int) -> Option<int>
    decreases s.len() - i,
{
    if i < 0 || i >= s.len() {
        None
    } else if s[i] == 58u8 {
        Some(i)
    } else if !is_digit(s[i]) {
        None
    } else {
        separator_at(s, i + 1)
    }
}

/// The name-value pairs of a header block `b`: each name and value ends with
/// a NUL; a pair counts only when more bytes follow it in the block.
pub open spec fn scgi_pairs(b: Seq<u8>) -> Seq<(Seq<u8>, Seq<u8>)>
    decreases b.len(),
{
    proof {
        lemma_find_byte(b, 0, 0u8);
    }
    match find_byte(b, 0, 0u8) {
        None => Seq::empty(),
        Some(k) => {
            proof {
                lemma_find_byte(b, k + 1, 0u8);
            }
            match find_byte(b, k + 1, 0u8) {
                None => Seq::empty(),
                Some(v) => if v + 1 < b.len() {
                    seq![(b.subrange(0, k), b.subrange(k + 1, v))] + scgi_pairs(
                        b.subrange(v + 1, b.len() as int),
                    )
                } else {
                    Seq::empty()
                },
            }
        },
    }
}

/// Applies the pairs in order; `None` as soon as a name or a value is not UTF-8.
pub open spec fn scgi_fold(h: HeadView, pairs: Seq<(Seq<u8>, Seq<u8>)>) -> Option<HeadView>
    decreases pairs.len(),
{
    if pairs.len() == 0 {
        Some(h)
    } else {
        let (k, v) = pairs[0];
        if valid_utf8(k) && valid_utf8(v) {
            scgi_fold(cgi_apply(h, decode_utf8(k), decode_utf8(v), true), pairs.drop_first())
        } else {
            None
        }
    }
}

/// SCGI protocol.
pub struct Scgi;

impl Scgi {
    /// Searches for the first NUL byte.
    pub fn read_next(buf: &[u8]) -> (res: Option<usize>)
        ensures
            match res {
                Some(p) => find_byte(buf@, 0, 0u8) == Some(p as int),
                None => find_byte(buf@, 0, 0u8) is None,
            },
    {
        find_byte_from(buf, 0, 0u8)
    }

    /// Searches for the first `:`.
    pub fn read_colon(buf: &[u8]) -> (res: Option<usize>)
        ensures
            match res {
                Some(p) => find_byte(buf@, 0, 58u8) == Some(p as int) && p < buf@.len(),
                None => find_byte(buf@, 0, 58u8) is None,
            },
    {
        find_byte_from(buf, 0, 58u8)
    }

    /// Searches for the first `:`, with only digits before it.
    pub fn read_separator(buf: &[u8]) -> (res: Option<usize>)
        ensures
            match res {
                Some(p) => separator_at(buf@, 0) == Some(p as int),
                None => separator_at(buf@, 0) is None,
            },
    {
        let mut i: usize = 0;
        while i < buf.len()
            invariant
                i <= buf@.len(),
                separator_at(buf@, i as int) == separator_at(buf@, 0),
            decreases buf@.len() - i,
        {
            if buf[i] == 58u8 {
                return Some(i);
            }
            if buf[i] < 48u8 || buf[i] > 57u8 {
                return None;
            }
            i = i + 1;
        }
        None
    }

    /// The header length given by the first bytes of a request, and the
    /// position of the `:` after it: `None` unless one to seven digits come
    /// before a `:` among the bytes.
    pub fn header_len(buf: &[u8]) -> (res: Option<(usize, usize)>)
        ensures
            match separator_at(buf@, 0) {
                Some(p) => if 1 <= p <= 7 {
                    res == Some((digits_value(buf@.subrange(0, p)) as usize, p as usize))
                } else {
                    res is None
                },
                None => res is None,
            },
    {
        let shift = match Scgi::read_separator(buf) {
            Some(s) => s,
            None => return None,
        };
        proof {
            lemma_separator_digits(buf@, 0);
        }
        if shift == 0 || shift > 7 {
            return None;
        }
        let mut value: usize = 0;
        let mut i: usize = 0;
        while i < shift
            invariant
                shift <= 7,
                shift < buf@.len(),
                i <= shift,
                forall|j: int| 0 <= j < shift ==> #[trigger] is_digit(buf@[j]),
                value == digits_value(buf@.subrange(0, i as int)),
                value < pow10(i as nat),
            decreases shift - i,
        {
            assert(buf@.subrange(0, i + 1).drop_last() =~= buf@.subrange(0, i as int));
            assert(is_digit(buf@[i as int]));
            assert(value * 10 + 9 < pow10((i + 1) as nat)) by (nonlinear_arith)
                requires
                    value < pow10(i as nat),
                    pow10((i + 1) as nat) == pow10(i as nat) * 10,
            ;
            assert(pow10((i + 1) as nat) <= 10_000_000) by {
                lemma_pow10_bound((i + 1) as nat);
            }
            value = value * 10 + ((buf[i] - 48u8) as usize);
            i = i + 1;
        }
        Some((value, shift))
    }

    /// Reads a request's parameters from its header block: the pairs are
    /// applied in order; `None` when a name or a value is not UTF-8.
    pub fn read_header(block: &[u8]) -> (res: Option<HeadInfo>)
        ensures
            match scgi_fold(empty_head("https"@), scgi_pairs(block@)) {
                Some(h) => res matches Some(r) && r.view() == h && r.site@ == crate::request::site_text(
                    r.scheme@,
                    r.host@,
                ),
                None => res is None,
            },
    {
        match Scgi::read_pairs(block) {
            Some(mut head) => {
                head.set_site();
                Some(head)
            },
            None => None,
        }
    }

    /// The parameters the pairs of a header block give, without the site.
    fn read_pairs(block: &[u8]) -> (res: Option<HeadInfo>)
        ensures
            match scgi_fold(empty_head("https"@), scgi_pairs(block@)) {
                Some(h) => res matches Some(r) && r.view() == h,
                None => res is None,
            },
    {
        let mut head = HeadInfo::new("https");
        let len = block.len();
        let mut pos: usize = 0;
        assert(block@.subrange(0, len as int) =~= block@);
        loop
            invariant
                len == block@.len(),
                pos <= len,
                scgi_fold(head.view(), scgi_pairs(block@.subrange(pos as int, len as int)))
                    == scgi_fold(empty_head("https"@), scgi_pairs(block@)),
            decreases len - pos,
        {
            let ghost rest = block@.subrange(pos as int, len as int);
            proof {
                lemma_find_byte_shift(block@, pos as int, 0, 0u8);
            }
            let k = match find_byte_from(block, pos, 0u8) {
                Some(k) => k,
                None => {
                    assert(scgi_pairs(rest) =~= Seq::<(Seq<u8>, Seq<u8>)>::empty());
                    return Some(head);
                },
            };
            proof {
                lemma_find_byte_shift(block@, pos as int, k - pos + 1, 0u8);
            }
            let v = match find_byte_from(block, k + 1, 0u8) {
                Some(v) => v,
                None => {
                    assert(scgi_pairs(rest) =~= Seq::<(Seq<u8>, Seq<u8>)>::empty());
                    return Some(head);
                },
            };
            if v + 1 >= len {
                assert(scgi_pairs(rest) =~= Seq::<(Seq<u8>, Seq<u8>)>::empty());
                return Some(head);
            }
            let ghost pair = (block@.subrange(pos as int, k as int), block@.subrange(k + 1, v as int));
            assert(rest.subrange(0, k - pos) =~= pair.0);
            assert(rest.subrange(k - pos + 1, v - pos) =~= pair.1);
            assert(rest.subrange(v - pos + 1, rest.len() as int) =~= block@.subrange(
                v + 1,
                len as int,
            ));
            assert(scgi_pairs(rest) == seq![pair] + scgi_pairs(
                block@.subrange(v + 1, len as int),
            ));
            assert((seq![pair] + scgi_pairs(block@.subrange(v + 1, len as int))).drop_first()
                =~= scgi_pairs(block@.subrange(v + 1, len as int)));
            let key = string_from_utf8(vstd::slice::slice_to_vec(&block[pos..k]));
            let value = string_from_utf8(vstd::slice::slice_to_vec(&block[k + 1..v]));
            match (key, value) {
                (Some(key), Some(value)) => {
                    head.apply_cgi(key, value, true);
                },
                _ => {
                    return None;
                },
            }
            pos = v + 1;
        }
    }
}

/// Ten to the power `n`.
pub open spec fn pow10(n: nat) -> nat
    decreases n,
{
    if n == 0 {
        1
    } else {
        pow10((n - 1) as nat) * 10
    }
}

proof fn lemma_pow10_bound(n: nat)
    requires
        n <= 7,
    ensures
        pow10(n) <= 10_000_000,
{
    reveal_with_fuel(pow10, 8);
}

proof fn lemma_separator_digits(s: Seq<u8>, i: int)
    requires
        0 <= i,
    ensures
        match separator_at(s, i) {
            Some(p) => i <= p < s.len() && s[p] == 58u8 && forall|j: int| i <= j < p ==> #[trigger] is_digit(s[j]),
            None => true,
        },
    decreases s.len() - i,
{
    if i < s.len() && s[i] != 58u8 && is_digit(s[i]) {
        lemma_separator_digits(s, i + 1);
    }
}

pub proof fn lemma_find_byte_shift(s: Seq<u8>, start: int, i: int, x: u8)
    requires
        0 <= start <= s.len(),
        0 <= i,
    ensures
        find_byte(s.subrange(start, s.len() as int), i, x) == match find_byte(s, start + i, x) {
            None => None,
            Some(p) => Some(p - start),
        },
    decreases s.len() - start - i,
{
    let t = s.subrange(start, s.len() as int);
    if i < t.len() && t[i] != x {
        lemma_find_byte_shift(s, start, i + 1, x);
    }
}

} // verus!

verus! {

proof fn lemma_decimal_digits(n: nat)
    ensures
        forall|i: int| 0 <= i < decimal(n).len() ==> #[trigger] is_digit(decimal(n)[i]),
        digits_value(decimal(n)) == n,
        decimal(n).len() >= 1,
        n < 10 ==> decimal(n).len() == 1,
        n >= 10 ==> decimal(n).len() == decimal(n / 10).len() + 1,
    decreases n,
{
    if n < 10 {
        let d = decimal(n);
        assert(d.drop_last() =~= Seq::<u8>::empty());
        assert(d.last() == (n + 48) as u8);
        assert(((n + 48) as u8) as int == n + 48);
        assert(digits_value(d) == (digits_value(d.drop_last()) * 10 + (d.last() - 48)) as nat);
    } else {
        lemma_decimal_digits(n / 10);
        let d = decimal(n);
        assert(d.drop_last() =~= decimal(n / 10));
        assert(d.last() == (n % 10 + 48) as u8);
        assert(n == (n / 10) * 10 + n % 10) by (nonlinear_arith);
        assert(((n % 10 + 48) as u8) as int == n % 10 + 48);
        assert(digits_value(d) == (digits_value(d.drop_last()) * 10 + (d.last() - 48)) as nat);
        assert forall|i: int| 0 <= i < d.len() implies #[trigger] is_digit(d[i]) by {
            if i < d.len() - 1 {
                assert(d[i] == decimal(n / 10)[i]);
            }
        }
    }
}

proof fn lemma_decimal_len(n: nat, k: nat)
    requires
        n < pow10(k),
        k >= 1,
    ensures
        decimal(n).len() <= k,
    decreases k,
{
    lemma_decimal_digits(n);
    if n >= 10 {
        assert(k >= 2) by {
            if k == 1 {
                reveal_with_fuel(pow10, 2);
            }
        }
        assert(n / 10 < pow10((k - 1) as nat)) by (nonlinear_arith)
            requires
                n < pow10(k),
                pow10(k) == pow10((k - 1) as nat) * 10,
        {
        }
        lemma_decimal_len(n / 10, (k - 1) as nat);
    }
}

proof fn lemma_separator_after_digits(d: Seq<u8>, rest: Seq<u8>, i: int)
    requires
        forall|j: int| 0 <= j < d.len() ==> #[trigger] is_digit(d[j]),
        0 <= i <= d.len(),
    ensures
        separator_at(d + seq![58u8] + rest, i) == Some(d.len() as int),
    decreases d.len() - i,
{
    let s = d + seq![58u8] + rest;
    if i < d.len() {
        assert(s[i] == d[i]);
        assert(is_digit(d[i]));
        lemma_separator_after_digits(d, rest, i + 1);
    } else {
        assert(s[i] == 58u8);
    }
}

/// The length prefix of an SCGI request reads back the number it was
/// written from: the decimal digits of a number below ten million, a `:`,
/// then the header, give that number and the position of the `:`.
pub proof fn law_length_prefix_round_trip(n: nat, rest: Seq<u8>)
    requires
        n < 10_000_000,
    ensures
        separator_at(decimal(n) + seq![58u8] + rest, 0) == Some(decimal(n).len() as int),
        1 <= decimal(n).len() <= 7,
        digits_value((decimal(n) + seq![58u8] + rest).subrange(0, decimal(n).len() as int)) == n,
{
    lemma_decimal_digits(n);
    lemma_pow10_bound(7);
    reveal_with_fuel(pow10, 8);
    lemma_decimal_len(n, 7);
    lemma_separator_after_digits(decimal(n), rest, 0);
    assert((decimal(n) + seq![58u8] + rest).subrange(0, decimal(n).len() as int) =~= decimal(n));
}


proof fn lemma_scgi_field_keep(h: HeadView, pairs: Seq<(Seq<u8>, Seq<u8>)>, k: Seq<char>)
    requires
        cgi_sets(k),
        forall|j: int| 0 <= j < pairs.len() ==> valid_utf8(#[trigger] pairs[j].0) && valid_utf8(pairs[j].1),
        forall|j: int| 0 <= j < pairs.len() ==> decode_utf8(#[trigger] pairs[j].0) != k,
    ensures
        scgi_fold(h, pairs) matches Some(r) && cgi_field(r, k) == cgi_field(h, k),
    decreases pairs.len(),
{
    if pairs.len() > 0 {
        let (kk, v) = pairs[0];
        assert(valid_utf8(pairs[0].0) && valid_utf8(pairs[0].1));
        assert(decode_utf8(pairs[0].0) != k);
        law_cgi_apply_field(h, decode_utf8(kk), decode_utf8(v), true, k);
        let t = pairs.drop_first();
        assert forall|j: int| 0 <= j < t.len() implies valid_utf8(#[trigger] t[j].0) && valid_utf8(t[j].1)
            && decode_utf8(t[j].0) != k by {
            assert(t[j] == pairs[j + 1]);
        }
        lemma_scgi_field_keep(cgi_apply(h, decode_utf8(kk), decode_utf8(v), true), t, k);
    }
}

/// In parameters of UTF-8 names and values, the last parameter of a name
/// that sets a field gives that field its value, whatever comes before or
/// after it.
pub proof fn law_scgi_last_param_wins(h: HeadView, pairs: Seq<(Seq<u8>, Seq<u8>)>, i: int, k: Seq<char>)
    requires
        cgi_sets(k),
        forall|j: int| 0 <= j < pairs.len() ==> valid_utf8(#[trigger] pairs[j].0) && valid_utf8(pairs[j].1),
        0 <= i < pairs.len(),
        decode_utf8(pairs[i].0) == k,
        forall|j: int| i < j < pairs.len() ==> decode_utf8(#[trigger] pairs[j].0) != k,
    ensures
        scgi_fold(h, pairs) matches Some(r) && cgi_field(r, k) == Some(decode_utf8(pairs[i].1)),
    decreases i,
{
    let (kk, v) = pairs[0];
    assert(valid_utf8(pairs[0].0) && valid_utf8(pairs[0].1));
    let h1 = cgi_apply(h, decode_utf8(kk), decode_utf8(v), true);
    law_cgi_apply_field(h, decode_utf8(kk), decode_utf8(v), true, k);
    let t = pairs.drop_first();
    assert forall|j: int| 0 <= j < t.len() implies valid_utf8(#[trigger] t[j].0) && valid_utf8(t[j].1) by {
        assert(t[j] == pairs[j + 1]);
    }
    if i == 0 {
        assert forall|j: int| 0 <= j < t.len() implies decode_utf8(#[trigger] t[j].0) != k by {
            assert(t[j] == pairs[j + 1]);
        }
        lemma_scgi_field_keep(h1, t, k);
    } else {
        assert(t[i - 1] == pairs[i]);
        assert forall|j: int| i - 1 < j < t.len() implies decode_utf8(#[trigger] t[j].0) != k by {
            assert(t[j] == pairs[j + 1]);
        }
        law_scgi_last_param_wins(h1, t, i - 1, k);
    }
}

proof fn lemma_scgi_params_grow(h: HeadView, pairs: Seq<(Seq<u8>, Seq<u8>)>, x: (Seq<char>, Seq<char>))
    requires
        h.params.contains(x),
        forall|j: int| 0 <= j < pairs.len() ==> valid_utf8(#[trigger] pairs[j].0) && valid_utf8(pairs[j].1),
    ensures
        scgi_fold(h, pairs) matches Some(r) && r.params.contains(x),
    decreases pairs.len(),
{
    if pairs.len() > 0 {
        let (kk, v) = pairs[0];
        assert(valid_utf8(pairs[0].0) && valid_utf8(pairs[0].1));
        let h1 = cgi_apply(h, decode_utf8(kk), decode_utf8(v), true);
        law_cgi_apply_params(h, decode_utf8(kk), decode_utf8(v), true);
        let w = choose|w: int| 0 <= w < h.params.len() && h.params[w] == x;
        assert(h1.params[w] == x);
        let t = pairs.drop_first();
        assert forall|j: int| 0 <= j < t.len() implies valid_utf8(#[trigger] t[j].0) && valid_utf8(t[j].1) by {
            assert(t[j] == pairs[j + 1]);
        }
        lemma_scgi_params_grow(h1, t, x);
    }
}

/// In parameters of UTF-8 names and values, every parameter whose name the
/// request does not read is kept among its parameters.
pub proof fn law_scgi_unknown_param_kept(h: HeadView, pairs: Seq<(Seq<u8>, Seq<u8>)>, i: int)
    requires
        forall|j: int| 0 <= j < pairs.len() ==> valid_utf8(#[trigger] pairs[j].0) && valid_utf8(pairs[j].1),
        0 <= i < pairs.len(),
        !cgi_known(decode_utf8(pairs[i].0), true),
    ensures
        scgi_fold(h, pairs) matches Some(r) && r.params.contains((decode_utf8(pairs[i].0), decode_utf8(pairs[i].1))),
    decreases i,
{
    let (kk, v) = pairs[0];
    assert(valid_utf8(pairs[0].0) && valid_utf8(pairs[0].1));
    let h1 = cgi_apply(h, decode_utf8(kk), decode_utf8(v), true);
    law_cgi_apply_params(h, decode_utf8(kk), decode_utf8(v), true);
    let t = pairs.drop_first();
    assert forall|j: int| 0 <= j < t.len() implies valid_utf8(#[trigger] t[j].0) && valid_utf8(t[j].1) by {
        assert(t[j] == pairs[j + 1]);
    }
    if i == 0 {
        let x = (decode_utf8(kk), decode_utf8(v));
        assert(h1.params[h.params.len() as int] == x);
        lemma_scgi_params_grow(h1, t, x);
    } else {
        assert(t[i - 1] == pairs[i]);
        law_scgi_unknown_param_kept(h1, t, i - 1);
    }
}

} // verus!
