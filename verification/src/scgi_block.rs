//! The SCGI header block as a writer lays it out, and how reading it gives
//! back what was written.

use vstd::prelude::*;

use crate::scgi::{find_byte, scgi_pairs};

verus! {

/// Whether a byte string holds no NUL.
pub open spec fn no_nul(s: Seq<u8>) -> bool {
    forall|j: int| 0 <= j < s.len() ==> s[j] != 0u8
}

/// Name-value pairs as an SCGI header block writes them: each name and each
/// value followed by a NUL.
pub open spec fn header_bytes(ps: Seq<(Seq<u8>, Seq<u8>)>) -> Seq<u8>
    decreases ps.len(),
{
    if ps.len() == 0 {
        Seq::empty()
    } else {
        ps[0].0 + seq![0u8] + ps[0].1 + seq![0u8] + header_bytes(ps.drop_first())
    }
}

proof fn lemma_find_first_nul(s: Seq<u8>, i: int, m: int)
    requires
        0 <= i <= m < s.len(),
        s[m] == 0u8,
        forall|j: int| i <= j < m ==> s[j] != 0u8,
    ensures
        find_byte(s, i, 0u8) == Some(m),
    decreases m - i,
{
    if i < m {
        lemma_find_first_nul(s, i + 1, m);
    }
}

proof fn lemma_find_no_nul(s: Seq<u8>, i: int)
    requires
        0 <= i,
        forall|j: int| i <= j < s.len() ==> s[j] != 0u8,
    ensures
        find_byte(s, i, 0u8) is None,
    decreases s.len() - i,
{
    if i < s.len() {
        lemma_find_no_nul(s, i + 1);
    }
}

/// An SCGI header block read back: pairs of names and values without NUL,
/// written one after the other and followed by more bytes without NUL, read
/// back as the same pairs in order.
pub proof fn law_scgi_pairs_round_trip(ps: Seq<(Seq<u8>, Seq<u8>)>, tail: Seq<u8>)
    requires
        forall|j: int| 0 <= j < ps.len() ==> no_nul((#[trigger] ps[j]).0) && no_nul(ps[j].1),
        tail.len() > 0,
        no_nul(tail),
    ensures
        scgi_pairs(header_bytes(ps) + tail) == ps,
    decreases ps.len(),
{
    let b = header_bytes(ps) + tail;
    if ps.len() == 0 {
        assert(b =~= tail);
        lemma_find_no_nul(b, 0);
    } else {
        let (k, v) = ps[0];
        assert(no_nul(k) && no_nul(v));
        let t = ps.drop_first();
        let rest = header_bytes(t) + tail;
        assert(b =~= k + seq![0u8] + v + seq![0u8] + rest);
        let kl = k.len() as int;
        let vl = kl + 1 + v.len();
        assert forall|j: int| 0 <= j < kl implies b[j] != 0u8 by {
            assert(b[j] == k[j]);
        }
        lemma_find_first_nul(b, 0, kl);
        assert forall|j: int| kl + 1 <= j < vl implies b[j] != 0u8 by {
            assert(b[j] == v[j - kl - 1]);
        }
        lemma_find_first_nul(b, kl + 1, vl);
        assert(b.subrange(0, kl) =~= k);
        assert(b.subrange(kl + 1, vl) =~= v);
        assert(b.subrange(vl + 1, b.len() as int) =~= rest);
        assert(rest.len() > 0);
        assert forall|j: int| 0 <= j < t.len() implies no_nul((#[trigger] t[j]).0) && no_nul(t[j].1) by {
            assert(t[j] == ps[j + 1]);
        }
        law_scgi_pairs_round_trip(t, tail);
        assert(seq![(k, v)] + t =~= ps);
    }
}

} // verus!
