//! The reliability state machine: sequence ids, the retransmit map, and the
//! decisions taken on acknowledgments, resend requests, idle timers and
//! incoming data packets.
//!
//! The machine owns no socket. The caller receives datagrams and feeds them
//! in; each method returns what must be sent or delivered. This keeps every
//! protocol decision verified while the blocking I/O stays outside.
use vstd::prelude::*;

use std::collections::HashMap;

use crate::packet::{
    frame_packet, lemma_frame_round_trip, spec_frame, spec_frame_id, spec_frame_payload,
    spec_kind_byte, u16_from_be, SafeReadWritePacket,
};

verus! {

broadcast use vstd::std_specs::hash::group_hash_axioms;

/// The 16-bit id a packet carries on the wire, for a 64-bit packet count.
pub open spec fn spec_wire_id(count: u64) -> u16 {
    (count % 0x10000) as u16
}

/// The wire id of a packet count.
pub fn wire_id(count: u64) -> (id: u16)
    ensures
        id == spec_wire_id(count),
{
    (count % 0x10000) as u16
}

/// Consecutive packet counts carry consecutive wire ids modulo 2^16; in
/// particular the id after 0xFFFF is 0.
pub proof fn lemma_wire_id_wrap(count: u64)
    requires
        count < u64::MAX,
    ensures
        spec_wire_id((count + 1) as u64) == (spec_wire_id(count) + 1) % 0x10000,
        spec_wire_id(count) == crate::ID_WRAP ==> spec_wire_id((count + 1) as u64) == 0,
{
    assert((count + 1) % 0x10000 == (count % 0x10000 + 1) % 0x10000) by (nonlinear_arith);
}

/// One endpoint of the reliable channel: the outbound and inbound packet
/// counters and the map of sent-but-unacknowledged datagrams.
pub struct SafeReadWrite {
    /// Complete datagram bytes most recently sent for each unacknowledged
    /// wire id.
    pub last_transmitted: HashMap<u16, Vec<u8>>,
    /// Number of packets framed so far; the low 16 bits of the next value
    /// are the next outbound wire id.
    pub packet_count_out: u64,
    /// Number of packets delivered so far; the low 16 bits are the next
    /// expected inbound wire id.
    pub packet_count_in: u64,
}

/// What one incoming datagram makes the receiving side do.
pub struct ReadStep {
    /// A control datagram to send back: an acknowledgment or a resend
    /// request.
    pub reply: Option<Vec<u8>>,
    /// The payload to hand to the caller, present exactly when the packet
    /// is the next expected one.
    pub delivered: Option<Vec<u8>>,
    /// Whether the packet announces the end of the stream; the caller then
    /// reports a zero-length read.
    pub eof: bool,
}

/// What the post-send drain loop does when no datagram arrived in time.
pub enum IdleAction {
    /// The peer has been silent past the lost deadline and the caller asked
    /// to exit on a lost peer: stop waiting.
    GiveUp,
    /// The connection counts as broken: send this datagram again and restart
    /// the idle timer.
    Retransmit(Vec<u8>),
    /// The latest packet is already acknowledged: nothing is lost, stop.
    Done,
    /// Not obliged to wait: hand control back to the caller.
    Proceed,
    /// Keep listening.
    KeepWaiting,
}

/// Whether a datagram is the one the receiving side expects next: it is
/// well-formed and carries the wire id of the inbound packet count.
pub open spec fn spec_delivers(in_seq: u64, d: Seq<u8>) -> bool {
    d.len() >= 3 && spec_frame_id(d) == spec_wire_id(in_seq)
}

/// The inbound packet count after processing one datagram: it advances by
/// one exactly when the datagram is the expected one.
pub open spec fn spec_in_seq_step(in_seq: u64, d: Seq<u8>) -> u64 {
    if spec_delivers(in_seq, d) {
        (in_seq + 1) as u64
    } else {
        in_seq
    }
}

/// The inbound packet count after processing a whole run of datagrams.
pub open spec fn spec_in_seq_run(in_seq: u64, ds: Seq<Seq<u8>>) -> u64
    decreases ds.len(),
{
    if ds.len() == 0 {
        in_seq
    } else {
        spec_in_seq_run(spec_in_seq_step(in_seq, ds[0]), ds.skip(1))
    }
}

/// The payloads a receiver delivers, in order, over a run of datagrams.
pub open spec fn spec_deliver_run(in_seq: u64, ds: Seq<Seq<u8>>) -> Seq<Seq<u8>>
    decreases ds.len(),
{
    if ds.len() == 0 {
        Seq::empty()
    } else if spec_delivers(in_seq, ds[0]) {
        seq![spec_frame_payload(ds[0])] + spec_deliver_run(spec_in_seq_step(in_seq, ds[0]),
            ds.skip(1))
    } else {
        spec_deliver_run(in_seq, ds.skip(1))
    }
}

/// The datagrams a sender frames for a sequence of chunks, ids assigned
/// consecutively from the packet count `start`.
pub open spec fn frames_of(chunks: Seq<Seq<u8>>, start: u64) -> Seq<Seq<u8>> {
    Seq::new(chunks.len(), |i: int|
        spec_frame(spec_wire_id((start + i) as u64), SafeReadWritePacket::Write, chunks[i]))
}

/// The concatenation of a sequence of chunks.
pub open spec fn concat_all(chunks: Seq<Seq<u8>>) -> Seq<u8>
    decreases chunks.len(),
{
    if chunks.len() == 0 {
        Seq::empty()
    } else {
        chunks[0] + concat_all(chunks.skip(1))
    }
}

/// Chunk boundaries survive the channel: when a sender frames any sequence
/// of chunks under consecutive ids and the receiver, expecting the first of
/// those ids, processes the datagrams in order, it delivers exactly the
/// written chunks, one read per write, and its inbound count moves past
/// them. This holds across the 16-bit id wrap, since both sides compare
/// ids through the same truncation.
pub proof fn lemma_ordered_delivery(chunks: Seq<Seq<u8>>, start: u64)
    requires
        start + chunks.len() <= u64::MAX,
    ensures
        spec_deliver_run(start, frames_of(chunks, start)) == chunks,
        spec_in_seq_run(start, frames_of(chunks, start)) == start + chunks.len(),
    decreases chunks.len(),
{
    let fs = frames_of(chunks, start);
    if chunks.len() == 0 {
        assert(spec_deliver_run(start, fs) =~= chunks);
    } else {
        let f0 = fs[0];
        lemma_frame_round_trip(spec_wire_id(start), SafeReadWritePacket::Write, chunks[0]);
        assert(spec_wire_id((start + 0) as u64) == spec_wire_id(start));
        assert(spec_delivers(start, f0));
        assert(spec_frame_payload(f0) == chunks[0]);
        let next = (start + 1) as u64;
        assert(fs.skip(1) =~= frames_of(chunks.skip(1), next)) by {
            assert forall|i: int| 0 <= i < chunks.len() - 1 implies fs.skip(1)[i] == frames_of(
                chunks.skip(1), next)[i] by {
                assert(fs.skip(1)[i] == fs[i + 1]);
                assert((next + i) == (start + (i + 1)));
                assert(chunks.skip(1)[i] == chunks[i + 1]);
            }
        }
        lemma_ordered_delivery(chunks.skip(1), next);
        assert(spec_deliver_run(start, fs) =~= seq![chunks[0]] + chunks.skip(1));
        assert(seq![chunks[0]] + chunks.skip(1) =~= chunks);
    }
}

/// What one peer wrote is what the other reads: over an in-order run the
/// concatenation of the delivered payloads equals the concatenation of the
/// written chunks.
pub proof fn lemma_delivery_concat(chunks: Seq<Seq<u8>>, start: u64)
    requires
        start + chunks.len() <= u64::MAX,
    ensures
        concat_all(spec_deliver_run(start, frames_of(chunks, start))) == concat_all(chunks),
{
    lemma_ordered_delivery(chunks, start);
}

/// The inbound packet count never moves backward, and over any run of
/// datagrams it advances by exactly one per delivered payload.
pub proof fn lemma_in_seq_advances(in_seq: u64, ds: Seq<Seq<u8>>)
    requires
        in_seq + ds.len() <= u64::MAX,
    ensures
        spec_in_seq_run(in_seq, ds) == in_seq + spec_deliver_run(in_seq, ds).len(),
        spec_in_seq_run(in_seq, ds) >= in_seq,
        spec_deliver_run(in_seq, ds).len() <= ds.len(),
    decreases ds.len(),
{
    if ds.len() == 0 {
    } else {
        if spec_delivers(in_seq, ds[0]) {
            lemma_in_seq_advances((in_seq + 1) as u64, ds.skip(1));
        } else {
            lemma_in_seq_advances(in_seq, ds.skip(1));
        }
    }
}

/// The datagrams retransmitted for a resend request starting at `n`: the
/// stored packet of every id from `n` up to `idn`, stopping at the first id
/// no longer in the map.
pub open spec fn spec_resend_run(retx: Map<u16, Seq<u8>>, n: int, idn: int) -> Seq<Seq<u8>>
    decreases idn - n + 1,
{
    if n > idn || n < 0 || idn > u16::MAX {
        Seq::empty()
    } else if !retx.contains_key(n as u16) {
        Seq::empty()
    } else {
        seq![retx[n as u16]] + spec_resend_run(retx, n + 1, idn)
    }
}

/// The views of a sequence of byte vectors.
pub open spec fn seq_views(s: Seq<Vec<u8>>) -> Seq<Seq<u8>> {
    s.map_values(|v: Vec<u8>| v@)
}

impl SafeReadWrite {
    /// The retransmit map as a map from wire id to datagram bytes.
    pub open spec fn retx(self) -> Map<u16, Seq<u8>> {
        self.last_transmitted@.map_values(|v: Vec<u8>| v@)
    }

    /// A fresh endpoint: both counters at zero, nothing in flight.
    pub fn new() -> (s: Self)
        ensures
            s.packet_count_out == 0,
            s.packet_count_in == 0,
            s.retx() == Map::<u16, Seq<u8>>::empty(),
    {
        let s = SafeReadWrite {
            last_transmitted: HashMap::new(),
            packet_count_out: 0,
            packet_count_in: 0,
        };
        proof {
            assert(s.retx() =~= Map::<u16, Seq<u8>>::empty());
        }
        s
    }

    /// Frame the next outbound packet, remember it for retransmission, and
    /// say whether the sender must wait for an acknowledgment before
    /// writing on: it must when the id space is about to wrap, when the
    /// caller asked to flush, and when too many packets are in flight.
    fn internal_write_prepare(&mut self, buf: &[u8], kind: SafeReadWritePacket, flush: bool) -> (r:
        (Vec<u8>, u16, bool))
        requires
            buf@.len() <= crate::MAX_BUF_LEN,
            old(self).packet_count_out < u64::MAX,
        ensures
            r.1 == spec_wire_id(old(self).packet_count_out),
            r.0@ == spec_frame(r.1, kind, buf@),
            final(self).packet_count_out == old(self).packet_count_out + 1,
            final(self).packet_count_in == old(self).packet_count_in,
            final(self).retx() == old(self).retx().insert(r.1, r.0@),
            r.2 == (r.1 == crate::ID_WRAP || flush || final(self).retx().len()
                >= crate::MAX_IN_FLIGHT),
    {
        let idn = wire_id(self.packet_count_out);
        self.packet_count_out = self.packet_count_out + 1;
        let pkt = frame_packet(idn, kind, buf);
        let stored = crate::packet::bytes_of(pkt.as_slice());
        self.last_transmitted.insert(idn, stored);
        proof {
            assert(self.retx() =~= old(self).retx().insert(idn, pkt@));
            assert(self.retx().dom() =~= self.last_transmitted@.dom());
        }
        let mut wait = idn == crate::ID_WRAP || flush;
        if self.last_transmitted.len() >= crate::MAX_IN_FLIGHT {
            wait = true;
        }
        (pkt, idn, wait)
    }

    /// Frame a data packet carrying `buf` and queue it as the latest
    /// outbound packet.
    pub fn write_safe(&mut self, buf: &[u8]) -> (r: (Vec<u8>, u16, bool))
        requires
            buf@.len() <= crate::MAX_BUF_LEN,
            old(self).packet_count_out < u64::MAX,
        ensures
            r.1 == spec_wire_id(old(self).packet_count_out),
            r.0@ == spec_frame(r.1, SafeReadWritePacket::Write, buf@),
            final(self).packet_count_out == old(self).packet_count_out + 1,
            final(self).packet_count_in == old(self).packet_count_in,
            final(self).retx() == old(self).retx().insert(r.1, r.0@),
            r.2 == (r.1 == crate::ID_WRAP || final(self).retx().len() >= crate::MAX_IN_FLIGHT),
    {
        self.write_flush_safe(buf, false)
    }

    /// Frame a data packet, queue it, and say whether the sender must wait;
    /// `flush` forces waiting until the packet is acknowledged.
    pub fn write_flush_safe(&mut self, buf: &[u8], flush: bool) -> (r: (Vec<u8>, u16, bool))
        requires
            buf@.len() <= crate::MAX_BUF_LEN,
            old(self).packet_count_out < u64::MAX,
        ensures
            r.1 == spec_wire_id(old(self).packet_count_out),
            r.0@ == spec_frame(r.1, SafeReadWritePacket::Write, buf@),
            final(self).packet_count_out == old(self).packet_count_out + 1,
            final(self).packet_count_in == old(self).packet_count_in,
            final(self).retx() == old(self).retx().insert(r.1, r.0@),
            r.2 == (r.1 == crate::ID_WRAP || flush || final(self).retx().len()
                >= crate::MAX_IN_FLIGHT),
    {
        self.internal_write_prepare(buf, SafeReadWritePacket::Write, flush)
    }

    /// Frame the end-of-stream packet, queued like any data packet; the
    /// sender then waits for its acknowledgment or gives the peer up for
    /// lost.
    pub fn end(&mut self) -> (r: (Vec<u8>, u16, bool))
        requires
            old(self).packet_count_out < u64::MAX,
        ensures
            r.1 == spec_wire_id(old(self).packet_count_out),
            r.0@ == spec_frame(r.1, SafeReadWritePacket::End, Seq::<u8>::empty()),
            final(self).packet_count_out == old(self).packet_count_out + 1,
            final(self).packet_count_in == old(self).packet_count_in,
            final(self).retx() == old(self).retx().insert(r.1, r.0@),
            r.2,
    {
        let empty: [u8; 0] = [];
        let r = self.internal_write_prepare(&empty, SafeReadWritePacket::End, true);
        proof {
            assert(empty@ =~= Seq::<u8>::empty());
        }
        r
    }

    /// How many sent packets still await their acknowledgment.
    pub fn in_flight(&self) -> (n: usize)
        ensures
            n == self.retx().len(),
    {
        proof {
            assert(self.retx().dom() =~= self.last_transmitted@.dom());
        }
        self.last_transmitted.len()
    }

    /// The wire id of the latest packet framed so far.
    pub open spec fn spec_latest_id(self) -> u16 {
        spec_wire_id((self.packet_count_out - 1) as u64)
    }

    /// Process an acknowledgment for wire id `n`: drop that id from the
    /// retransmit map. When `n` is the latest id sent, every earlier packet
    /// must have been delivered as well, so the whole map is cleared; the
    /// result says whether that happened, and the sender then stops
    /// waiting.
    ///
    /// An acknowledgment of the latest sent id leaves the retransmit map
    /// empty.
    pub fn on_ack(&mut self, n: u16) -> (caught_up: bool)
        requires
            old(self).packet_count_out > 0,
        ensures
            caught_up == (n == old(self).spec_latest_id()),
            caught_up ==> final(self).retx() == Map::<u16, Seq<u8>>::empty(),
            !caught_up ==> final(self).retx() == old(self).retx().remove(n),
            final(self).packet_count_out == old(self).packet_count_out,
            final(self).packet_count_in == old(self).packet_count_in,
    {
        let idn = wire_id(self.packet_count_out - 1);
        self.last_transmitted.remove(&n);
        if n == idn {
            self.last_transmitted.clear();
            proof {
                assert(self.retx() =~= Map::<u16, Seq<u8>>::empty());
            }
            true
        } else {
            proof {
                assert(self.retx() =~= old(self).retx().remove(n));
            }
            false
        }
    }

    /// Answer a resend request for wire id `n`: the packets to send again,
    /// in id order from `n` up to the latest id, stopping at the first id
    /// already acknowledged. Nothing leaves the retransmit map here; the
    /// acknowledgments do that. During a catch-up episode further requests
    /// retransmit nothing, so one burst serves one episode; a request that
    /// asks from id 0 while the latest id sits at the wrap boundary is
    /// stale and also retransmits nothing.
    pub fn on_resend_request(&self, n: u16, catching_up: bool) -> (resends: Vec<Vec<u8>>)
        requires
            self.packet_count_out > 0,
        ensures
            seq_views(resends@) == (if catching_up || (self.spec_latest_id() == crate::ID_WRAP
                && n == 0) {
                Seq::<Seq<u8>>::empty()
            } else {
                spec_resend_run(self.retx(), n as int, self.spec_latest_id() as int)
            }),
            catching_up ==> resends@.len() == 0,
    {
        let mut resends: Vec<Vec<u8>> = Vec::new();
        proof {
            assert(seq_views(resends@) =~= Seq::<Seq<u8>>::empty());
        }
        if catching_up {
            return resends;
        }
        let idn = wire_id(self.packet_count_out - 1);
        if idn == crate::ID_WRAP && n == 0 {
            return resends;
        }
        let mut cur: u16 = n;
        while cur <= idn
            invariant
                n <= cur,
                !catching_up,
                self.packet_count_out > 0,
                idn == self.spec_latest_id(),
                !(idn == crate::ID_WRAP && n == 0),
                spec_resend_run(self.retx(), n as int, idn as int) == seq_views(resends@)
                    + spec_resend_run(self.retx(), cur as int, idn as int),
            decreases idn - cur,
        {
            match self.last_transmitted.get(&cur) {
                None => {
                    proof {
                        assert(!self.retx().contains_key(cur));
                        assert(spec_resend_run(self.retx(), cur as int, idn as int)
                            =~= Seq::<Seq<u8>>::empty());
                        assert(seq_views(resends@) =~= seq_views(resends@)
                            + Seq::<Seq<u8>>::empty());
                    }
                    return resends;
                },
                Some(p) => {
                    let ghost prev = resends@;
                    let copied = crate::packet::bytes_of(p.as_slice());
                    resends.push(copied);
                    proof {
                        assert(self.last_transmitted@.contains_key(cur));
                        assert(self.retx().contains_key(cur));
                        assert(self.retx()[cur] == p@);
                        assert(seq_views(resends@) =~= seq_views(prev) + seq![p@]);
                        assert(spec_resend_run(self.retx(), cur as int, idn as int) == seq![
                            self.retx()[cur as u16]] + spec_resend_run(self.retx(), cur as int
                            + 1, idn as int));
                        assert(spec_resend_run(self.retx(), n as int, idn as int) =~= seq_views(
                            resends@) + spec_resend_run(self.retx(), cur as int + 1,
                            idn as int));
                    }
                },
            }
            if cur == idn {
                proof {
                    assert(spec_resend_run(self.retx(), cur as int + 1, idn as int)
                        =~= Seq::<Seq<u8>>::empty());
                    assert(seq_views(resends@) =~= seq_views(resends@)
                        + Seq::<Seq<u8>>::empty());
                }
                return resends;
            }
            cur = cur + 1;
        }
        proof {
            assert(spec_resend_run(self.retx(), cur as int, idn as int)
                =~= Seq::<Seq<u8>>::empty());
            assert(seq_views(resends@) =~= seq_views(resends@) + Seq::<Seq<u8>>::empty());
        }
        resends
    }

    /// Process one received datagram. Runts under three bytes are ignored.
    /// A packet at or behind the expected id is acknowledged, so a peer
    /// that resent a duplicate can retire it. The packet carrying exactly
    /// the expected id is delivered and the inbound count advances by one;
    /// a packet ahead of the expected id by less than 0xC000 asks the peer
    /// to resend from the expected id; one even further ahead is a stale
    /// straggler from before the wrap and is dropped. An end-of-stream
    /// packet makes the caller report a zero-length read.
    pub fn read_safe(&mut self, data: &[u8]) -> (step: ReadStep)
        requires
            old(self).packet_count_in < u64::MAX,
        ensures
            final(self).packet_count_out == old(self).packet_count_out,
            final(self).retx() == old(self).retx(),
            final(self).packet_count_in == spec_in_seq_step(old(self).packet_count_in, data@),
            (step.delivered is Some) == spec_delivers(old(self).packet_count_in, data@),
            step.delivered matches Some(p) ==> p@ == spec_frame_payload(data@),
            data@.len() < 3 ==> step.reply is None && !step.eof,
            data@.len() >= 3 && spec_frame_id(data@) <= spec_wire_id(old(self).packet_count_in)
                ==> (step.reply matches Some(r) && r@ == spec_frame(spec_frame_id(data@),
                SafeReadWritePacket::Ack, Seq::<u8>::empty())),
            data@.len() >= 3 && spec_frame_id(data@) > spec_wire_id(old(self).packet_count_in)
                && spec_frame_id(data@) - spec_wire_id(old(self).packet_count_in) < 0xC000 ==> (
            step.reply matches Some(r) && r@ == spec_frame(spec_wire_id(
                old(self).packet_count_in), SafeReadWritePacket::ResendRequest,
                Seq::<u8>::empty())),
            data@.len() >= 3 && spec_frame_id(data@) - spec_wire_id(old(self).packet_count_in)
                >= 0xC000 ==> step.reply is None,
            data@.len() >= 3 ==> step.eof == (data@[2] == spec_kind_byte(
                SafeReadWritePacket::End)),
    {
        if data.len() < 3 {
            return ReadStep { reply: None, delivered: None, eof: false };
        }
        let id = u16_from_be(data[0], data[1]);
        let expected = wire_id(self.packet_count_in);
        let empty: [u8; 0] = [];
        proof {
            assert(empty@ =~= Seq::<u8>::empty());
        }
        let mut reply: Option<Vec<u8>> = None;
        if id <= expected {
            reply = Some(frame_packet(id, SafeReadWritePacket::Ack, &empty));
        } else if id - expected < 0xC000 {
            reply = Some(frame_packet(expected, SafeReadWritePacket::ResendRequest, &empty));
        }
        let mut delivered: Option<Vec<u8>> = None;
        if id == expected {
            self.packet_count_in = self.packet_count_in + 1;
            let payload = crate::packet::bytes_range(data, 3, data.len());
            proof {
                assert(payload@ =~= spec_frame_payload(data@));
            }
            delivered = Some(payload);
        }
        let eof = data[2] == crate::packet::kind_byte(SafeReadWritePacket::End);
        ReadStep { reply, delivered, eof }
    }

    /// Decide what to do when the drain loop saw no datagram before its
    /// read timeout: give the peer up for lost, retransmit the latest
    /// packet after a broken spell, stop because the latest packet is
    /// acknowledged, proceed when not obliged to wait, or keep listening.
    pub fn idle_step(&self, wait: bool, exit_on_lost: bool, now: u64, start: u64) -> (a:
        IdleAction)
        requires
            self.packet_count_out > 0,
            start <= now,
        ensures
            (now - start > crate::LOST_DELAY && exit_on_lost) ==> (a is GiveUp),
            (!(now - start > crate::LOST_DELAY && exit_on_lost) && now - start
                > crate::BROKEN_DELAY && self.retx().contains_key(self.spec_latest_id())) ==> (
            a matches IdleAction::Retransmit(p) && p@ == self.retx()[self.spec_latest_id()]),
            (!(now - start > crate::LOST_DELAY && exit_on_lost) && now - start
                > crate::BROKEN_DELAY && !self.retx().contains_key(self.spec_latest_id())) ==> (
            a is Done),
            (!(now - start > crate::LOST_DELAY && exit_on_lost) && !(now - start
                > crate::BROKEN_DELAY) && !wait) ==> (a is Proceed),
            (!(now - start > crate::LOST_DELAY && exit_on_lost) && !(now - start
                > crate::BROKEN_DELAY) && wait) ==> (a is KeepWaiting),
    {
        if now - start > crate::LOST_DELAY && exit_on_lost {
            return IdleAction::GiveUp;
        }
        if now - start > crate::BROKEN_DELAY {
            let idn = wire_id(self.packet_count_out - 1);
            match self.last_transmitted.get(&idn) {
                Some(p) => {
                    return IdleAction::Retransmit(crate::packet::bytes_of(p.as_slice()));
                },
                None => {
                    return IdleAction::Done;
                },
            }
        }
        if !wait {
            IdleAction::Proceed
        } else {
            IdleAction::KeepWaiting
        }
    }
}

} // verus!
