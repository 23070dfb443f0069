//! A fresh salt for the installation: SHA3-512 of the current time in hex,
//! with a fixed set of symbols, shuffled, its first 32 characters.

use vstd::prelude::*;

use crate::app::App;
use crate::text::push_char;

verus! {

broadcast use vstd::seq_lib::to_multiset_contains;

/// SHA3-512 of a byte sequence (`sha3::Sha3_512`).
pub uninterp spec fn sha3_512_of(data: Seq<u8>) -> Seq<u8>;

/// sha3's `Sha3_512::digest`: the 64-byte SHA3-512 digest of the data.
#[verifier::external_body]
fn sha3_512(data: &[u8]) -> (res: Vec<u8>)
    ensures
        res@ == sha3_512_of(data@),
        res@.len() == 64,
{
    <sha3::Sha3_512 as sha3::Digest>::digest(data).to_vec()
}

/// rand's `SliceRandom::shuffle` with the thread's generator: the same
/// bytes in an order that chance decides.
#[verifier::external_body]
fn shuffle(v: Vec<u8>) -> (res: Vec<u8>)
    ensures
        res@.len() == v@.len(),
        res@.to_multiset() == v@.to_multiset(),
{
    let mut v = v;
    rand::seq::SliceRandom::shuffle(v.as_mut_slice(), &mut rand::thread_rng());
    v
}

/// chrono's `Local::now()` written as `%Y.%m.%d %H:%M:%S%.9f %:z`: the
/// local time, which nothing here can state.
#[verifier::external_body]
fn local_time_text() -> String {
    chrono::Local::now().format("%Y.%m.%d %H:%M:%S%.9f %:z").to_string()
}

/// The lower-case hex digit of a value below 16.
pub open spec fn hex_digit(n: int) -> u8 {
    if n < 10 {
        (48 + n) as u8
    } else {
        (87 + n) as u8
    }
}

/// Bytes in lower-case hex, two digits each, the high one first.
pub open spec fn lower_hex(b: Seq<u8>) -> Seq<u8>
    decreases b.len(),
{
    if b.len() == 0 {
        Seq::empty()
    } else {
        lower_hex(b.drop_last()) + seq![hex_digit(b.last() as int / 16), hex_digit(b.last() as int % 16)]
    }
}

/// The symbols added to the digest.
pub open spec fn salt_symbols() -> Seq<char> {
    "123467890-+_)(*&^%$#@!qazedcrfvtgbyhnujmik,ol.p;/[]:?><|"@
}

/// What a salt is drawn from: the digest in hex and the symbols.
pub open spec fn salt_source(digest: Seq<u8>) -> Seq<u8> {
    lower_hex(digest) + salt_symbols().map_values(|c: char| c as u8)
}

/// A character a salt may hold: a lower-case hex digit or a symbol.
pub open spec fn salt_char(c: char) -> bool {
    ('0' <= c <= '9') || ('a' <= c <= 'f') || salt_symbols().contains(c)
}

/// A byte a salt may hold.
pub open spec fn salt_byte(b: u8) -> bool {
    b < 128 && salt_char(b as char)
}

proof fn lemma_hex_bytes(b: Seq<u8>)
    ensures
        forall|i: int| 0 <= i < lower_hex(b).len() ==> salt_byte(#[trigger] lower_hex(b)[i]),
        lower_hex(b).len() == 2 * b.len(),
    decreases b.len(),
{
    if b.len() > 0 {
        lemma_hex_bytes(b.drop_last());
        let x = b.last();
        let h = hex_digit(x as int / 16);
        let l = hex_digit(x as int % 16);
        assert(salt_byte(h)) by {
            assert(0 <= x / 16 < 16);
        }
        assert(salt_byte(l)) by {
            assert(0 <= x % 16 < 16);
        }
        let r = lower_hex(b.drop_last());
        assert forall|i: int| 0 <= i < lower_hex(b).len() implies salt_byte(#[trigger] lower_hex(b)[i]) by {
            if i < r.len() {
                assert(lower_hex(b)[i] == r[i]);
            }
        }
    }
}

proof fn lemma_source_bytes(digest: Seq<u8>)
    ensures
        forall|i: int| 0 <= i < salt_source(digest).len() ==> salt_byte(#[trigger] salt_source(digest)[i]),
        salt_source(digest).len() == 2 * digest.len() + 56,
{
    reveal_strlit("123467890-+_)(*&^%$#@!qazedcrfvtgbyhnujmik,ol.p;/[]:?><|");
    lemma_hex_bytes(digest);
    let h = lower_hex(digest);
    let s = salt_symbols().map_values(|c: char| c as u8);
    assert forall|i: int| 0 <= i < salt_source(digest).len() implies salt_byte(#[trigger] salt_source(digest)[i]) by {
        if i >= h.len() {
            let k = i - h.len();
            assert(salt_source(digest)[i] == s[k]);
            assert(salt_symbols().contains(salt_symbols()[k]));
            assert((salt_symbols()[k] as u8) < 128);
        }
    }
}

fn push_hex(out: &mut Vec<u8>, b: &[u8])
    ensures
        final(out)@ == old(out)@ + lower_hex(b@),
{
    let ghost o = out@;
    let mut i: usize = 0;
    while i < b.len()
        invariant
            i <= b@.len(),
            out@ == o + lower_hex(b@.subrange(0, i as int)),
        decreases b@.len() - i,
    {
        let x = b[i];
        let hi = x / 16;
        let lo = x % 16;
        out.push(if hi < 10 { 48u8 + hi } else { 87u8 + hi });
        out.push(if lo < 10 { 48u8 + lo } else { 87u8 + lo });
        assert(b@.subrange(0, i + 1).drop_last() =~= b@.subrange(0, i as int));
        assert(out@ =~= o + lower_hex(b@.subrange(0, i + 1)));
        i = i + 1;
    }
    assert(b@.subrange(0, b@.len() as int) =~= b@);
}

impl App {
    /// A salt from shuffled bytes: their first 32, as characters.
    pub fn salt_from(shuffled: &[u8]) -> (res: String)
        requires
            shuffled@.len() >= 32,
            forall|i: int| 0 <= i < shuffled@.len() ==> #[trigger] shuffled@[i] < 128,
        ensures
            res@ == shuffled@.subrange(0, 32).map_values(|b: u8| b as char),
    {
        let mut out = String::new();
        let mut i: usize = 0;
        while i < 32
            invariant
                i <= 32,
                shuffled@.len() >= 32,
                out@ == shuffled@.subrange(0, i as int).map_values(|b: u8| b as char),
            decreases 32 - i,
        {
            push_char(&mut out, shuffled[i] as char);
            assert(shuffled@.subrange(0, i + 1) =~= shuffled@.subrange(0, i as int).push(shuffled@[i as int]));
            assert(out@ =~= shuffled@.subrange(0, i + 1).map_values(|b: u8| b as char));
            i = i + 1;
        }
        out
    }

    /// What a salt is drawn from (see `salt_source`): the digest in
    /// lower-case hex, then the symbols.
    pub fn salt_source_of(digest: &[u8]) -> (res: Vec<u8>)
        ensures
            res@ == salt_source(digest@),
    {
        let mut source: Vec<u8> = Vec::new();
        push_hex(&mut source, digest);
        let symbols = "123467890-+_)(*&^%$#@!qazedcrfvtgbyhnujmik,ol.p;/[]:?><|";
        proof {
            reveal_strlit("123467890-+_)(*&^%$#@!qazedcrfvtgbyhnujmik,ol.p;/[]:?><|");
            assert(vstd::string::is_ascii(symbols));
            vstd::string::is_ascii_spec_bytes(symbols);
        }
        let sb = symbols.as_bytes();
        assert(sb@ =~= salt_symbols().map_values(|c: char| c as u8));
        let mut i: usize = 0;
        let ghost h = source@;
        while i < sb.len()
            invariant
                i <= sb@.len(),
                source@ == h + sb@.subrange(0, i as int),
            decreases sb@.len() - i,
        {
            source.push(sb[i]);
            assert(sb@.subrange(0, i + 1) =~= sb@.subrange(0, i as int).push(sb@[i as int]));
            i = i + 1;
        }
        assert(sb@.subrange(0, sb@.len() as int) =~= sb@);
        assert(source@ =~= salt_source(digest@));
        source
    }

    /// A new salt: SHA3-512 of the local time in hex, with the symbols,
    /// shuffled; its first 32 characters. Each is a hex digit or a symbol.
    pub fn generate_salt() -> (res: String)
        ensures
            res@.len() == 32,
            forall|i: int| 0 <= i < 32 ==> salt_char(#[trigger] res@[i]),
            exists|tb: Seq<u8>, p: Seq<u8>|
                #![trigger salt_source(sha3_512_of(tb)), p.subrange(0, 32)]
                p.to_multiset() == salt_source(sha3_512_of(tb)).to_multiset() && res@ == p.subrange(0, 32).map_values(
                    |b: u8| b as char,
                ),
    {
        let time = local_time_text();
        let tbytes = time.as_str().as_bytes();
        let digest = sha3_512(tbytes);
        let source = App::salt_source_of(digest.as_slice());
        proof {
            lemma_source_bytes(digest@);
        }
        let shuffled = shuffle(source);
        let ghost src = salt_source(digest@);
        assert forall|k: int| 0 <= k < shuffled@.len() implies salt_byte(#[trigger] shuffled@[k]) by {
            let x = shuffled@[k];
            assert(shuffled@.contains(x));
            assert(shuffled@.to_multiset().count(x) > 0);
            assert(src.to_multiset().count(x) > 0);
            assert(src.contains(x));
            let j = choose|j: int| 0 <= j < src.len() && src[j] == x;
            assert(salt_byte(src[j]));
        }
        let res = App::salt_from(shuffled.as_slice());
        proof {
            let tb = tbytes@;
            let p = shuffled@;
            assert(digest@ == sha3_512_of(tb));
            assert(p.to_multiset() == salt_source(sha3_512_of(tb)).to_multiset() && res@ == p.subrange(0, 32).map_values(
                |b: u8| b as char,
            ));
        }
        assert forall|i: int| 0 <= i < 32 implies salt_char(#[trigger] res@[i]) by {
            assert(res@[i] == shuffled@[i] as char);
            assert(salt_byte(shuffled@[i]));
        }
        res
    }
}

} // verus!
