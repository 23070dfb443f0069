//! A small web engine: template rendering, request protocol parsing
//! (FastCGI, SCGI, HTTP), a hierarchical cache and request routing.

pub mod action;
pub mod app;
pub mod app_init;
pub mod arg;
pub mod cache;
pub mod controller;
pub mod data;
pub mod db;
pub mod fastcgi;
pub mod group;
pub mod file;
pub mod html;
pub mod init;
pub mod lang;
pub mod mail;
pub mod mail_build;
pub mod mail_message;
pub mod multipart;
pub mod http;
pub mod params;
pub mod request;
pub mod response;
pub mod rows;
pub mod rpc;
pub mod salt;
pub mod scgi;
pub mod scgi_block;
pub mod text;
pub mod utf8_lemmas;
pub mod worker;

use vstd::prelude::*;

verus! {

/// FNV-1a offset basis.
pub const FNV_OFFSET: u64 = 0xcbf29ce484222325;

/// FNV-1a prime.
pub const FNV_PRIME: u64 = 0x100000001b3;

/// One step of the 64-bit FNV-1a hash: xor the byte in, then multiply
/// by the prime modulo 2^64.
pub open spec fn fnv_step(hash: u64, byte: u8) -> u64 {
    (((hash ^ (byte as u64)) as nat * FNV_PRIME as nat) % 0x1_0000_0000_0000_0000nat) as u64
}

/// The unsigned 64-bit FNV-1a hash of a byte sequence.
pub open spec fn fnv_hash(bytes: Seq<u8>) -> u64
    decreases bytes.len(),
{
    if bytes.len() == 0 {
        FNV_OFFSET
    } else {
        fnv_step(fnv_hash(bytes.drop_last()), bytes.last())
    }
}

/// The FNV-1a hash reinterpreted as a signed 64-bit integer.
pub open spec fn spec_fnv1a_64(bytes: Seq<u8>) -> i64 {
    fnv_hash(bytes) as i64
}

/// fnv1a_64 hash function
pub fn fnv1a_64(bytes: &[u8]) -> (res: i64)
    ensures
        res == spec_fnv1a_64(bytes@),
{
    let mut hash: u64 = FNV_OFFSET;
    let n = bytes.len();
    let mut i: usize = 0;
    while i < n
        invariant
            n == bytes@.len(),
            i <= n,
            hash == fnv_hash(bytes@.subrange(0, i as int)),
        decreases n - i,
    {
        let c = bytes[i];
        assert(bytes@.subrange(0, i + 1).drop_last() =~= bytes@.subrange(0, i as int));
        hash = (hash ^ (c as u64)).wrapping_mul(FNV_PRIME);
        i = i + 1;
    }
    assert(bytes@.subrange(0, n as int) =~= bytes@);
    hash as i64
}

} // verus!
