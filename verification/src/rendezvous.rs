//! The rendezvous server's pairing logic: a registry from tag bytes to the
//! public address of the first peer seen with that tag, and the decision
//! taken on each inbound datagram.
use vstd::prelude::*;

use crate::packet::bytes_eq;
use crate::packet::bytes_of;

verus! {

/// The zero-padded fixed-length buffer a rendezvous datagram carries: the
/// first bytes are the input (cut off past the buffer length), the rest is
/// zero.
pub open spec fn spec_pad_map_len(b: Seq<u8>) -> Seq<u8> {
    Seq::new(crate::MAP_LEN as nat, |i: int|
        if i < b.len() {
            b[i]
        } else {
            0
        })
}

/// Zero-pad bytes to the fixed rendezvous datagram length.
pub fn pad_to_map_len(bytes: &[u8]) -> (buf: Vec<u8>)
    ensures
        buf@ == spec_pad_map_len(bytes@),
        buf@.len() == crate::MAP_LEN,
{
    let n = if bytes.len() < crate::MAP_LEN {
        bytes.len()
    } else {
        crate::MAP_LEN
    };
    let mut buf: Vec<u8> = Vec::new();
    let mut i: usize = 0;
    while i < n
        invariant
            i <= n,
            n <= bytes@.len(),
            n <= crate::MAP_LEN,
            buf@.len() == i,
            forall|k: int| 0 <= k < i ==> buf@[k] == bytes@[k],
        decreases n - i,
    {
        buf.push(bytes[i]);
        i = i + 1;
    }
    while i < crate::MAP_LEN
        invariant
            n <= i <= crate::MAP_LEN,
            n <= bytes@.len(),
            n == (if bytes@.len() < crate::MAP_LEN {
                bytes@.len() as int
            } else {
                crate::MAP_LEN as int
            }),
            buf@.len() == i,
            forall|k: int| 0 <= k < n ==> buf@[k] == bytes@[k],
            forall|k: int| n <= k < i ==> buf@[k] == 0,
        decreases crate::MAP_LEN - i,
    {
        buf.push(0);
        i = i + 1;
    }
    proof {
        assert(buf@ =~= spec_pad_map_len(bytes@));
    }
    buf
}

/// What the rendezvous server does with one inbound datagram.
pub enum HelperStep {
    /// The datagram does not have the exact tag length: dropped silently.
    Ignored,
    /// First peer under this tag: its address is remembered.
    Stored,
    /// Second peer under the same tag: the pair is served and forgotten.
    Relay {
        /// The stored address of the first peer, where `to_other` goes.
        other_addr: Vec<u8>,
        /// Padded buffer carrying the second peer's address, for the first.
        to_other: Vec<u8>,
        /// Padded buffer carrying the first peer's address, for the second.
        to_sender: Vec<u8>,
    },
}

/// The registry of tags waiting for their second peer. Each entry pairs
/// the exact tag bytes with the first peer's public address bytes; no tag
/// occurs twice.
pub struct HelperMap {
    /// The entries, in arrival order.
    pub entries: Vec<(Vec<u8>, Vec<u8>)>,
}

impl HelperMap {
    /// Well-formed: no two entries hold the same tag.
    pub open spec fn wf(self) -> bool {
        forall|i: int, j: int|
            0 <= i < j < self.entries@.len() ==> self.entries@[i].0@ != self.entries@[j].0@
    }

    /// Whether some peer is waiting under this tag.
    pub open spec fn has_tag(self, tag: Seq<u8>) -> bool {
        exists|i: int| 0 <= i < self.entries@.len() && self.entries@[i].0@ == tag
    }

    /// The stored address of the peer waiting under this tag.
    pub open spec fn addr_of(self, tag: Seq<u8>) -> Seq<u8> {
        self.entries@[choose|i: int|
            0 <= i < self.entries@.len() && self.entries@[i].0@ == tag].1@
    }

    /// In a well-formed registry every entry holding a tag holds its
    /// stored address.
    proof fn lemma_addr_at(self, i: int)
        requires
            self.wf(),
            0 <= i < self.entries@.len(),
        ensures
            self.has_tag(self.entries@[i].0@),
            self.addr_of(self.entries@[i].0@) == self.entries@[i].1@,
    {
        let tag = self.entries@[i].0@;
        assert(self.has_tag(tag));
        let j = choose|j: int| 0 <= j < self.entries@.len() && self.entries@[j].0@ == tag;
        if i < j {
            assert(self.entries@[i].0@ != self.entries@[j].0@);
        } else if j < i {
            assert(self.entries@[j].0@ != self.entries@[i].0@);
        }
    }

    /// An empty registry: nobody is waiting.
    pub fn new() -> (m: HelperMap)
        ensures
            m.wf(),
            m.entries@.len() == 0,
            forall|t: Seq<u8>| !m.has_tag(t),
    {
        HelperMap { entries: Vec::new() }
    }

    /// The index of the entry holding this tag, if any.
    fn find(&self, tag: &[u8]) -> (r: Option<usize>)
        ensures
            r matches Some(i) ==> i < self.entries@.len() && self.entries@[i as int].0@ == tag@,
            r is None ==> !self.has_tag(tag@),
    {
        let mut i: usize = 0;
        while i < self.entries.len()
            invariant
                i <= self.entries@.len(),
                forall|k: int| 0 <= k < i ==> self.entries@[k].0@ != tag@,
            decreases self.entries@.len() - i,
        {
            if bytes_eq(self.entries[i].0.as_slice(), tag) {
                return Some(i);
            }
            i = i + 1;
        }
        None
    }

    /// Handle one inbound rendezvous datagram from a peer whose public
    /// address reads as `sender_addr`.
    ///
    /// Addresses are relayed exactly when the datagram has the exact tag
    /// length and a peer already waits under byte-identical tag bytes;
    /// the served tag is forgotten in the same step, and no other entry is
    /// touched. A first peer with a well-sized tag is stored; everything
    /// else is ignored.
    pub fn process(&mut self, datagram: &[u8], sender_addr: &[u8]) -> (outcome: HelperStep)
        requires
            old(self).wf(),
            old(self).entries@.len() < usize::MAX,
        ensures
            final(self).wf(),
            datagram@.len() != crate::MAP_LEN ==> outcome is Ignored && *final(self) == *old(
            self),
            datagram@.len() == crate::MAP_LEN && !old(self).has_tag(datagram@) ==> outcome
                is Stored && final(self).has_tag(datagram@) && final(self).addr_of(datagram@)
                == sender_addr@,
            datagram@.len() == crate::MAP_LEN && old(self).has_tag(datagram@) ==> (outcome
                matches HelperStep::Relay { other_addr, to_other, to_sender } && other_addr@
                == old(self).addr_of(datagram@) && to_other@ == spec_pad_map_len(sender_addr@)
                && to_sender@ == spec_pad_map_len(old(self).addr_of(datagram@)) && !final(
                self).has_tag(datagram@)),
            forall|t: Seq<u8>|
                t != datagram@ ==> (final(self).has_tag(t) == old(self).has_tag(t) && (old(
                self).has_tag(t) ==> final(self).addr_of(t) == old(self).addr_of(t))),
            outcome is Ignored ==> final(self).entries@.len() == old(self).entries@.len(),
            outcome is Stored ==> final(self).entries@.len() == old(self).entries@.len() + 1,
            outcome matches HelperStep::Relay { .. } ==> final(self).entries@.len() == old(
            self).entries@.len() - 1,
    {
        if datagram.len() != crate::MAP_LEN {
            return HelperStep::Ignored;
        }
        match self.find(datagram) {
            None => {
                let tag_vec = bytes_of(datagram);
                let addr_vec = bytes_of(sender_addr);
                self.entries.push((tag_vec, addr_vec));
                proof {
                    let n = old(self).entries@.len() as int;
                    assert(self.entries@[n].0@ == datagram@);
                    assert(self.has_tag(datagram@));
                    self.lemma_addr_at(n);
                    assert forall|t: Seq<u8>| t != datagram@ implies self.has_tag(t) == old(
                        self).has_tag(t) && (old(self).has_tag(t) ==> self.addr_of(t) == old(
                        self).addr_of(t)) by {
                        if old(self).has_tag(t) {
                            let i = choose|i: int|
                                0 <= i < old(self).entries@.len() && old(self).entries@[i].0@
                                    == t;
                            assert(self.entries@[i].0@ == t);
                            assert(self.has_tag(t));
                            old(self).lemma_addr_at(i);
                            self.lemma_addr_at(i);
                        }
                        if self.has_tag(t) {
                            let i = choose|i: int|
                                0 <= i < self.entries@.len() && self.entries@[i].0@ == t;
                            assert(i < n);
                            assert(old(self).entries@[i].0@ == t);
                            assert(old(self).has_tag(t));
                        }
                    }
                }
                HelperStep::Stored
            },
            Some(idx) => {
                proof {
                    self.lemma_addr_at(idx as int);
                }
                let other_addr = bytes_of(self.entries[idx].1.as_slice());
                let to_other = pad_to_map_len(sender_addr);
                let to_sender = pad_to_map_len(other_addr.as_slice());
                self.entries.remove(idx);
                proof {
                    let n = old(self).entries@.len() as int;
                    let i0 = idx as int;
                    assert(self.entries@ =~= old(self).entries@.remove(i0));
                    assert forall|k: int| 0 <= k < n - 1 implies self.entries@[k] == (if k < i0 {
                        old(self).entries@[k]
                    } else {
                        old(self).entries@[k + 1]
                    }) by {}
                    assert(self.wf());
                    assert forall|k: int| 0 <= k < n - 1 implies self.entries@[k].0@
                        != datagram@ by {
                        if k < i0 {
                            assert(old(self).entries@[k].0@ != old(self).entries@[i0].0@);
                        } else {
                            assert(old(self).entries@[i0].0@ != old(self).entries@[k + 1].0@);
                        }
                    }
                    assert(!self.has_tag(datagram@));
                    assert forall|t: Seq<u8>| t != datagram@ implies self.has_tag(t) == old(
                        self).has_tag(t) && (old(self).has_tag(t) ==> self.addr_of(t) == old(
                        self).addr_of(t)) by {
                        if old(self).has_tag(t) {
                            let i = choose|i: int|
                                0 <= i < old(self).entries@.len() && old(self).entries@[i].0@
                                    == t;
                            assert(i != i0);
                            if i < i0 {
                                assert(self.entries@[i].0@ == t);
                            } else {
                                assert(self.entries@[i - 1].0@ == t);
                            }
                            assert(self.has_tag(t));
                            old(self).lemma_addr_at(i);
                            if i < i0 {
                                self.lemma_addr_at(i);
                            } else {
                                self.lemma_addr_at(i - 1);
                            }
                        }
                        if self.has_tag(t) {
                            let i = choose|i: int|
                                0 <= i < self.entries@.len() && self.entries@[i].0@ == t;
                            if i < i0 {
                                assert(old(self).entries@[i].0@ == t);
                            } else {
                                assert(old(self).entries@[i + 1].0@ == t);
                            }
                            assert(old(self).has_tag(t));
                        }
                    }
                }
                HelperStep::Relay { other_addr, to_other, to_sender }
            },
        }
    }
}

} // verus!
