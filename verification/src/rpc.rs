//! The control channel of a running server: a client sends a signal (an
//! `i64`, big-endian); the server answers with its process ID (a `u64`,
//! big-endian), followed by a status text for the status signal.

use vstd::prelude::*;
use vstd::string::StringSliceAdditionalSpecFns;

use crate::text::{decimal, push_decimal, push_str, string_from_utf8};

verus! {

/// What a received signal asks for.
#[derive(Debug, Clone, Copy, PartialEq, Eq, Structural)]
pub enum Signal {
    /// Stop the server.
    Stop,
    /// Report the server's status.
    Status,
    /// A signal the server does not know.
    Unknown,
}

impl Signal {
    /// What `signal` asks of a server whose stop and status signals are
    /// given: the stop signal is tested first.
    pub fn of(signal: i64, stop_signal: i64, status_signal: i64) -> (res: Signal)
        ensures
            res == if signal == stop_signal {
                Signal::Stop
            } else if signal == status_signal {
                Signal::Status
            } else {
                Signal::Unknown
            },
    {
        if signal == stop_signal {
            Signal::Stop
        } else if signal == status_signal {
            Signal::Status
        } else {
            Signal::Unknown
        }
    }
}

/// The last `k` bytes of `n` in big-endian order.
pub open spec fn be_bytes(n: nat, k: nat) -> Seq<u8>
    decreases k,
{
    if k == 0 {
        Seq::empty()
    } else {
        be_bytes(n / 256, (k - 1) as nat).push((n % 256) as u8)
    }
}

/// The number that big-endian bytes stand for.
pub open spec fn from_be(b: Seq<u8>) -> nat
    decreases b.len(),
{
    if b.len() == 0 {
        0
    } else {
        from_be(b.drop_last()) * 256 + b.last() as nat
    }
}

/// 256 to the power `k`.
pub open spec fn pow256(k: nat) -> nat
    decreases k,
{
    if k == 0 {
        1
    } else {
        256 * pow256((k - 1) as nat)
    }
}

/// The status text of a server: its number of workers, the ID of the last
/// one (`empty` for none), and its numbers of online and total requests.
pub open spec fn status_text(workers: u64, last: u64, online: u64, total: u64) -> Seq<u8> {
    "\nThe system is working ...\nNumber of workers: "@.map_values(|c: char| c as u8) + decimal(workers as nat)
        + ".\nLast worker id: "@.map_values(|c: char| c as u8) + (if last > 0 {
        decimal(last as nat)
    } else {
        "empty"@.map_values(|c: char| c as u8)
    }) + ".\nNumber of online requests: "@.map_values(|c: char| c as u8) + decimal(online as nat)
        + ".\nNumber of total requests: "@.map_values(|c: char| c as u8) + decimal(total as nat) + ".\n"@.map_values(
        |c: char| c as u8,
    )
}

fn push_be(out: &mut Vec<u8>, n: u64, k: u32)
    requires
        k <= 8,
    ensures
        final(out)@ == old(out)@ + be_bytes(n as nat, k as nat),
    decreases k,
{
    if k > 0 {
        push_be(out, n / 256, k - 1);
        out.push((n % 256) as u8);
        assert(final(out)@ =~= old(out)@ + be_bytes(n as nat, k as nat));
    } else {
        assert(final(out)@ =~= old(out)@ + be_bytes(n as nat, k as nat));
    }
}

fn push_ascii(out: &mut Vec<u8>, s: &str)
    requires
        vstd::string::is_ascii(s),
    ensures
        final(out)@ == old(out)@ + s@.map_values(|c: char| c as u8),
{
    proof {
        vstd::string::is_ascii_spec_bytes(s);
    }
    push_str(out, s);
    assert(s.spec_bytes() =~= s@.map_values(|c: char| c as u8));
}

/// The answer to the stop signal: the process ID.
pub fn stop_reply(pid: u64) -> (res: Vec<u8>)
    ensures
        res@ == be_bytes(pid as nat, 8),
{
    let mut out: Vec<u8> = Vec::new();
    push_be(&mut out, pid, 8);
    assert(out@ =~= be_bytes(pid as nat, 8));
    out
}

/// The answer to the status signal: the process ID, then the status text.
pub fn status_reply(pid: u64, workers: u64, last: u64, online: u64, total: u64) -> (res: Vec<u8>)
    ensures
        res@ == be_bytes(pid as nat, 8) + status_text(workers, last, online, total),
{
    let mut out: Vec<u8> = Vec::new();
    push_be(&mut out, pid, 8);
    proof {
        reveal_strlit("\nThe system is working ...\nNumber of workers: ");
        reveal_strlit(".\nLast worker id: ");
        reveal_strlit("empty");
        reveal_strlit(".\nNumber of online requests: ");
        reveal_strlit(".\nNumber of total requests: ");
        reveal_strlit(".\n");
    }
    assert(vstd::string::is_ascii("\nThe system is working ...\nNumber of workers: "));
    assert(vstd::string::is_ascii(".\nLast worker id: "));
    assert(vstd::string::is_ascii("empty"));
    assert(vstd::string::is_ascii(".\nNumber of online requests: "));
    assert(vstd::string::is_ascii(".\nNumber of total requests: "));
    assert(vstd::string::is_ascii(".\n"));
    push_ascii(&mut out, "\nThe system is working ...\nNumber of workers: ");
    push_decimal(&mut out, workers);
    push_ascii(&mut out, ".\nLast worker id: ");
    if last > 0 {
        push_decimal(&mut out, last);
    } else {
        push_ascii(&mut out, "empty");
    }
    push_ascii(&mut out, ".\nNumber of online requests: ");
    push_decimal(&mut out, online);
    push_ascii(&mut out, ".\nNumber of total requests: ");
    push_decimal(&mut out, total);
    push_ascii(&mut out, ".\n");
    assert(out@ =~= be_bytes(pid as nat, 8) + status_text(workers, last, online, total));
    out
}

/// What a client reads from an answer: the process ID in its first eight
/// bytes and the text after them; `None` when it is shorter than eight
/// bytes or the text is not UTF-8.
pub fn read_reply(answer: &[u8]) -> (res: Option<(u64, String)>)
    ensures
        answer@.len() < 8 ==> res is None,
        answer@.len() >= 8 ==> match res {
            Some((pid, text)) => pid == from_be(answer@.subrange(0, 8)) && vstd::utf8::encode_utf8(text@)
                == answer@.subrange(8, answer@.len() as int),
            None => !vstd::utf8::valid_utf8(answer@.subrange(8, answer@.len() as int)),
        },
{
    if answer.len() < 8 {
        return None;
    }
    let mut pid: u64 = 0;
    let mut i: usize = 0;
    while i < 8
        invariant
            i <= 8,
            answer@.len() >= 8,
            pid == from_be(answer@.subrange(0, i as int)),
            from_be(answer@.subrange(0, i as int)) < pow256(i as nat),
        decreases 8 - i,
    {
        assert(answer@.subrange(0, i + 1).drop_last() =~= answer@.subrange(0, i as int));
        proof {
            let b = answer@[i as int];
            assert(pow256((i + 1) as nat) == 256 * pow256(i as nat));
            assert(from_be(answer@.subrange(0, i as int)) * 256 + b < pow256((i + 1) as nat)) by (nonlinear_arith)
                requires
                    from_be(answer@.subrange(0, i as int)) < pow256(i as nat),
                    b < 256,
                    pow256((i + 1) as nat) == 256 * pow256(i as nat),
            ;
            lemma_pow256_small(i as nat);
        }
        pid = pid * 256 + answer[i] as u64;
        i = i + 1;
    }
    let rest = vstd::slice::slice_to_vec(&answer[8..answer.len()]);
    assert(rest@ =~= answer@.subrange(8, answer@.len() as int));
    match string_from_utf8(rest) {
        Some(s) => {
            proof {
                vstd::utf8::decode_utf8_encode_utf8(answer@.subrange(8, answer@.len() as int));
            }
            Some((pid, s))
        },
        None => None,
    }
}

proof fn lemma_pow256_small(k: nat)
    requires
        k <= 7,
    ensures
        256 * pow256(k) <= 0x1_0000_0000_0000_0000,
    decreases k,
{
    reveal_with_fuel(pow256, 8);
    assert(k == 0 || k == 1 || k == 2 || k == 3 || k == 4 || k == 5 || k == 6 || k == 7);
}

/// Big-endian bytes read back to the number they were made from, reduced
/// to what fits in them.
pub proof fn law_be_round_trip(n: nat, k: nat)
    ensures
        from_be(be_bytes(n, k)) == n % pow256(k),
    decreases k,
{
    if k > 0 {
        law_be_round_trip(n / 256, (k - 1) as nat);
        let b = be_bytes(n, k);
        assert(b.drop_last() =~= be_bytes(n / 256, (k - 1) as nat));
        let m = pow256((k - 1) as nat);
        assert(m > 0) by {
            lemma_pow256_positive((k - 1) as nat);
        }
        assert(((n / 256) % m) * 256 + n % 256 == n % (256 * m)) by (nonlinear_arith)
            requires
                m > 0,
        {
            vstd::arithmetic::div_mod::lemma_breakdown(n as int, 256, m as int);
        }
    }
}

proof fn lemma_pow256_positive(k: nat)
    ensures
        pow256(k) > 0,
    decreases k,
{
    if k > 0 {
        lemma_pow256_positive((k - 1) as nat);
    }
}

/// A client reads back from the status answer the process ID and the
/// status text the server put in it.
pub proof fn law_status_reply_read_back(pid: u64, workers: u64, last: u64, online: u64, total: u64, answer: Seq<u8>)
    requires
        answer == be_bytes(pid as nat, 8) + status_text(workers, last, online, total),
    ensures
        from_be(answer.subrange(0, 8)) == pid,
        answer.subrange(8, answer.len() as int) == status_text(workers, last, online, total),
{
    lemma_be_len(pid as nat, 8);
    assert(answer.subrange(0, 8) =~= be_bytes(pid as nat, 8));
    assert(answer.subrange(8, answer.len() as int) =~= status_text(workers, last, online, total));
    law_be_round_trip(pid as nat, 8);
    assert(pow256(8) == 0x1_0000_0000_0000_0000) by {
        reveal_with_fuel(pow256, 9);
    }
}

proof fn lemma_be_len(n: nat, k: nat)
    ensures
        be_bytes(n, k).len() == k,
    decreases k,
{
    if k > 0 {
        lemma_be_len(n / 256, (k - 1) as nat);
    }
}

} // verus!
