//! The computable parts of the hole-punch handshake: the tag and address
//! buffers exchanged with the rendezvous server, and the wall-clock
//! alignment arithmetic. The datagram exchange itself is driven by the
//! caller around these.
use vstd::prelude::*;

verus! {

/// Milliseconds since the Unix epoch, by the wall clock.
///
/// Relies on `std::time::SystemTime::now`: the result depends on the
/// clock, so nothing is promised of it.
#[verifier::external_body]
pub fn unix_millis() -> u64 {
    std::time::SystemTime::now().duration_since(std::time::SystemTime::UNIX_EPOCH).unwrap()
        .as_millis() as u64
}

/// How long to sleep, the wall clock reading `now` milliseconds, so that
/// both peers wake at the next alignment boundary: the rest of the current
/// interval.
pub fn punch_wait_millis(now: u64) -> (d: u64)
    ensures
        d == crate::PUNCH_DELAY - now % crate::PUNCH_DELAY,
        1 <= d <= crate::PUNCH_DELAY,
{
    crate::PUNCH_DELAY - now % crate::PUNCH_DELAY
}

/// How long to sleep after a probe sent at `sent` so that probes go out
/// one per pacing interval: the remainder of the interval, or nothing when
/// the send already took longer.
pub fn pace_millis(sent: u64, now: u64) -> (d: u64)
    requires
        sent <= now,
    ensures
        now - sent >= crate::PUNCH_INC_DELAY ==> d == 0,
        now - sent < crate::PUNCH_INC_DELAY ==> d == crate::PUNCH_INC_DELAY - (now - sent),
{
    let elapsed = now - sent;
    if elapsed >= crate::PUNCH_INC_DELAY {
        0
    } else {
        crate::PUNCH_INC_DELAY - elapsed
    }
}

/// A padded rendezvous buffer with its trailing zero bytes removed.
pub open spec fn spec_strip_zeros(b: Seq<u8>) -> Seq<u8>
    decreases b.len(),
{
    if b.len() == 0 {
        b
    } else if b.last() == 0 {
        spec_strip_zeros(b.drop_last())
    } else {
        b
    }
}

/// A prefix that ends at the last nonzero byte is the stripped buffer.
proof fn lemma_strip_prefix(b: Seq<u8>, i: int)
    requires
        0 <= i <= b.len(),
        forall|k: int| i <= k < b.len() ==> b[k] == 0,
        i > 0 ==> b[i - 1] != 0,
    ensures
        spec_strip_zeros(b) == b.take(i),
    decreases b.len(),
{
    if i == b.len() {
        assert(b.take(i) =~= b);
    } else {
        assert(b.last() == 0);
        assert(forall|k: int| i <= k < b.len() - 1 ==> b.drop_last()[k] == 0);
        lemma_strip_prefix(b.drop_last(), i);
        assert(b.drop_last().take(i) =~= b.take(i));
    }
}

/// Drop the trailing zero bytes of a padded rendezvous buffer; this
/// recovers the address bytes from the server's reply.
pub fn strip_zero_bytes(buf: &[u8]) -> (out: Vec<u8>)
    ensures
        out@ == spec_strip_zeros(buf@),
{
    let mut i: usize = buf.len();
    let mut found = false;
    while i > 0 && !found
        invariant
            i <= buf@.len(),
            forall|k: int| i <= k < buf@.len() ==> buf@[k] == 0,
            found ==> i > 0 && buf@[i - 1] != 0,
        decreases i + (if found {
            0int
        } else {
            1int
        }),
    {
        if buf[i - 1] != 0 {
            found = true;
        } else {
            i = i - 1;
        }
    }
    proof {
        lemma_strip_prefix(buf@, i as int);
        assert(buf@.subrange(0, i as int) =~= buf@.take(i as int));
    }
    crate::packet::bytes_range(buf, 0, i)
}

} // verus!
