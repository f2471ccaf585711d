use vstd::prelude::*;
use crate::error::Error;
use crate::handshake::{HandshakeHeader, handshake_header_bytes, HANDSHAKE_HEADER_LENGTH};
use crate::record_layer::{RecordLayerHeader, header_decodes, header_of, CONTENT_TYPE_HANDSHAKE};
use crate::record_layer::RECORD_LAYER_HEADER_SIZE;

verus! {

/// Largest number of message bytes the buffer holds at once.
pub const FRAGMENT_BUFFER_MAX_SIZE: usize = 2_000_000;

/// A handshake message being reassembled: which of its bytes have arrived.
#[derive(Debug)]
pub struct PartialMessage {
    pub epoch: u16,
    pub handshake_type: u8,
    pub message_sequence: u16,
    pub data: Vec<u8>,
    pub have: Vec<bool>,
}

impl PartialMessage {
    pub open spec fn wf(&self) -> bool {
        &&& self.data@.len() == self.have@.len()
        &&& self.data@.len() <= crate::handshake::MAX_U24
    }

    pub open spec fn spec_complete(&self) -> bool {
        forall|i: int| 0 <= i < self.have@.len() ==> #[trigger] self.have@[i]
    }
}

/// Reassembles handshake messages from fragments, keyed by message sequence,
/// and hands them out in message-sequence order.
pub struct FragmentBuffer {
    pub cache: Vec<PartialMessage>,
    /// Sequence of the next message to hand out; earlier ones are dropped.
    pub current_message_sequence_number: u16,
}

/// The header of a whole message of `len` bytes.
pub open spec fn whole_header(typ: u8, len: u32, seq: u16) -> HandshakeHeader {
    HandshakeHeader {
        handshake_type: typ,
        length: len,
        message_sequence: seq,
        fragment_offset: 0,
        fragment_length: len,
    }
}

impl FragmentBuffer {
    pub open spec fn wf(&self) -> bool {
        &&& forall|i: int| 0 <= i < self.cache@.len() ==> (#[trigger] self.cache@[i]).wf()
        &&& forall|i: int|
            0 <= i < self.cache@.len() ==> (#[trigger] self.cache@[i]).message_sequence
                >= self.current_message_sequence_number
        &&& forall|i: int, j: int|
            0 <= i < j < self.cache@.len() ==> (#[trigger] self.cache@[i]).message_sequence
                != (#[trigger] self.cache@[j]).message_sequence
        &&& self.size() <= FRAGMENT_BUFFER_MAX_SIZE
    }

    pub open spec fn size(&self) -> int {
        sizes(self.cache@)
    }

    pub fn new() -> (r: Self)
        ensures
            r.wf(),
            r.cache@.len() == 0,
            r.current_message_sequence_number == 0,
    {
        FragmentBuffer { cache: Vec::new(), current_message_sequence_number: 0 }
    }

    fn total_size(&self) -> (r: usize)
        requires
            self.wf(),
        ensures
            r == self.size(),
    {
        let mut total: usize = 0;
        let mut i: usize = 0;
        while i < self.cache.len()
            invariant
                self.wf(),
                i <= self.cache@.len(),
                total == sizes(self.cache@.take(i as int)),
            decreases self.cache@.len() - i,
        {
            proof {
                assert(self.cache@.take(i + 1).drop_last() =~= self.cache@.take(i as int));
                lemma_sizes_prefix(self.cache@, i as int + 1);
            }
            total = total + self.cache[i].data.len();
            i = i + 1;
        }
        assert(self.cache@.take(i as int) =~= self.cache@);
        total
    }

    fn find(&self, seq: u16) -> (r: Option<usize>)
        ensures
            r matches Some(i) ==> i < self.cache@.len() && self.cache@[i as int].message_sequence
                == seq,
            r is None ==> forall|i: int|
                0 <= i < self.cache@.len() ==> (#[trigger] self.cache@[i]).message_sequence != seq,
    {
        let mut i: usize = 0;
        while i < self.cache.len()
            invariant
                i <= self.cache@.len(),
                forall|j: int| 0 <= j < i ==> (#[trigger] self.cache@[j]).message_sequence != seq,
            decreases self.cache@.len() - i,
        {
            if self.cache[i].message_sequence == seq {
                return Some(i);
            }
            i = i + 1;
        }
        None
    }

    /// Takes one record. A record that is not a handshake is left alone
    /// (`Ok(false)`); a handshake record has each of its fragments stored
    /// (`Ok(true)`), fragments of messages already handed out being dropped.
    /// Malformed bytes, a fragment outside its message, or too much buffered
    /// data is an error, and may leave earlier fragments of the record stored.
    pub fn push(&mut self, buf: &[u8]) -> (r: Result<bool, Error>)
        requires
            old(self).wf(),
        ensures
            final(self).wf(),
            final(self).current_message_sequence_number == old(self).current_message_sequence_number,
            !header_decodes(buf@) ==> r is Err,
            header_decodes(buf@) && header_of(buf@).content_type != CONTENT_TYPE_HANDSHAKE ==> r
                == Ok::<bool, Error>(false) && final(self).cache@ == old(self).cache@,
            header_decodes(buf@) && header_of(buf@).content_type == CONTENT_TYPE_HANDSHAKE ==> (r
                is Ok ==> r == Ok::<bool, Error>(true)),
    {
        let rh = match RecordLayerHeader::unmarshal(buf) {
            Ok(h) => h,
            Err(e) => {
                return Err(e);
            },
        };
        if rh.content_type != CONTENT_TYPE_HANDSHAKE {
            return Ok(false);
        }
        let mut pos: usize = RECORD_LAYER_HEADER_SIZE;
        while pos < buf.len()
            invariant
                self.wf(),
                self.current_message_sequence_number == old(self).current_message_sequence_number,
                RECORD_LAYER_HEADER_SIZE <= pos <= buf@.len(),
                header_decodes(buf@),
                header_of(buf@).content_type == CONTENT_TYPE_HANDSHAKE,
            decreases buf@.len() - pos,
        {
            if buf.len() - pos < HANDSHAKE_HEADER_LENGTH {
                return Err(Error::BufferTooSmall);
            }
            let hh = match HandshakeHeader::unmarshal(vstd::slice::slice_subrange(buf, pos, buf.len())) {
                Ok(h) => h,
                Err(e) => {
                    return Err(e);
                },
            };
            let start = pos + HANDSHAKE_HEADER_LENGTH;
            let flen = hh.fragment_length as usize;
            if flen > buf.len() - start {
                return Err(Error::BufferTooSmall);
            }
            if hh.fragment_offset as u64 + hh.fragment_length as u64 > hh.length as u64 {
                return Err(Error::InvalidPacketLength);
            }
            if hh.message_sequence >= self.current_message_sequence_number {
                match self.store(&hh, rh.epoch, buf, start) {
                    Ok(()) => {},
                    Err(e) => {
                        return Err(e);
                    },
                }
            }
            pos = start + flen;
        }
        Ok(true)
    }

    /// Writes the fragment that `hh` describes, whose bytes start at `start`
    /// in `buf`, into its message.
    fn store(&mut self, hh: &HandshakeHeader, epoch: u16, buf: &[u8], start: usize) -> (r: Result<
        (),
        Error,
    >)
        requires
            old(self).wf(),
            hh.wf(),
            hh.message_sequence >= old(self).current_message_sequence_number,
            start + hh.fragment_length <= buf@.len(),
            hh.fragment_offset + hh.fragment_length <= hh.length,
        ensures
            final(self).wf(),
            final(self).current_message_sequence_number == old(self).current_message_sequence_number,
    {
        let idx = match self.find(hh.message_sequence) {
            Some(i) => i,
            None => {
                let total = self.total_size();
                if hh.length as usize > FRAGMENT_BUFFER_MAX_SIZE - total {
                    return Err(Error::FragmentBufferOverflow);
                }
                let mut data: Vec<u8> = Vec::new();
                let mut have: Vec<bool> = Vec::new();
                let mut k: usize = 0;
                while k < hh.length as usize
                    invariant
                        k <= hh.length,
                        data@.len() == k,
                        have@.len() == k,
                        forall|j: int| 0 <= j < k ==> !(#[trigger] have@[j]),
                    decreases hh.length - k,
                {
                    data.push(0u8);
                    have.push(false);
                    k = k + 1;
                }
                let ghost before = self.cache@;
                self.cache.push(
                    PartialMessage {
                        epoch,
                        handshake_type: hh.handshake_type,
                        message_sequence: hh.message_sequence,
                        data,
                        have,
                    },
                );
                proof {
                    assert(self.cache@.drop_last() =~= before);
                    assert forall|i: int, j: int|
                        0 <= i < j < self.cache@.len() implies (#[trigger] self.cache@[i]).message_sequence
                        != (#[trigger] self.cache@[j]).message_sequence by {
                        if j < before.len() {
                            assert(self.cache@[i] == before[i] && self.cache@[j] == before[j]);
                        } else {
                            assert(self.cache@[i] == before[i]);
                        }
                    }
                    assert forall|i: int| 0 <= i < self.cache@.len() implies (#[trigger] self.cache@[i]).wf()
                        && self.cache@[i].message_sequence >= self.current_message_sequence_number by {
                        if i < before.len() {
                            assert(self.cache@[i] == before[i]);
                        }
                    }
                }
                self.cache.len() - 1
            },
        };
        if self.cache[idx].data.len() != hh.length as usize || self.cache[idx].handshake_type
            != hh.handshake_type {
            return Err(Error::InvalidPacketLength);
        }
        let ghost mid = self.cache@;
        let mut entry = self.cache.remove(idx);
        let off = hh.fragment_offset as usize;
        let flen = hh.fragment_length as usize;
        let mut k: usize = 0;
        while k < flen
            invariant
                k <= flen,
                off + flen <= entry.data@.len(),
                start + flen <= buf.len(),
                entry.wf(),
                entry.data@.len() == hh.length,
                entry.message_sequence == hh.message_sequence,
            decreases flen - k,
        {
            entry.data.set(off + k, buf[start + k]);
            entry.have.set(off + k, true);
            k = k + 1;
        }
        self.cache.insert(idx, entry);
        proof {
            assert(self.cache@ =~= mid.update(idx as int, entry));
            lemma_sizes_replace(mid, idx as int, entry);
            assert forall|i: int, j: int|
                0 <= i < j < self.cache@.len() implies (#[trigger] self.cache@[i]).message_sequence
                != (#[trigger] self.cache@[j]).message_sequence by {
                assert(mid[i].message_sequence != mid[j].message_sequence);
            }
        }
        Ok(())
    }

    /// Hands out the next message in sequence once all its bytes are in:
    /// its whole-message header followed by its body, and the epoch of the
    /// record it came in.
    pub fn pop(&mut self) -> (r: Option<(Vec<u8>, u16)>)
        requires
            old(self).wf(),
        ensures
            final(self).wf(),
            r is None ==> final(self).cache@ == old(self).cache@
                && final(self).current_message_sequence_number == old(self).current_message_sequence_number,
            r matches Some(out) ==> exists|i: int|
                0 <= i < old(self).cache@.len() && (#[trigger] old(self).cache@[i]).message_sequence
                    == old(self).current_message_sequence_number && old(self).cache@[i].spec_complete()
                    && out.1 == old(self).cache@[i].epoch && out.0@ == handshake_header_bytes(
                    whole_header(
                        old(self).cache@[i].handshake_type,
                        old(self).cache@[i].data@.len() as u32,
                        old(self).current_message_sequence_number,
                    ),
                ) + old(self).cache@[i].data@,
            r is Some ==> final(self).current_message_sequence_number == old(self).current_message_sequence_number + 1,
    {
        let seq = self.current_message_sequence_number;
        let idx = match self.find(seq) {
            Some(i) => i,
            None => {
                return None;
            },
        };
        let mut k: usize = 0;
        while k < self.cache[idx].have.len()
            invariant
                self.wf(),
                self.cache@ == old(self).cache@,
                self.current_message_sequence_number == old(self).current_message_sequence_number,
                seq == self.current_message_sequence_number,
                self.cache@[idx as int].message_sequence == seq,
                idx < self.cache@.len(),
                k <= self.cache@[idx as int].have@.len(),
                forall|j: int| 0 <= j < k ==> #[trigger] self.cache@[idx as int].have@[j],
            decreases self.cache@[idx as int].have@.len() - k,
        {
            if !self.cache[idx].have[k] {
                return None;
            }
            k = k + 1;
        }
        if seq == u16::MAX {
            return None;
        }
        let ghost before = self.cache@;
        let entry = self.cache.remove(idx);
        let header = HandshakeHeader {
            handshake_type: entry.handshake_type,
            length: entry.data.len() as u32,
            message_sequence: seq,
            fragment_offset: 0,
            fragment_length: entry.data.len() as u32,
        };
        let mut out = header.marshal();
        out.extend_from_slice(entry.data.as_slice());
        self.current_message_sequence_number = seq + 1;
        proof {
            assert(before[idx as int] == entry);
            lemma_sizes_remove(before, idx as int);
            assert forall|i: int| 0 <= i < self.cache@.len() implies (#[trigger] self.cache@[i]).wf()
                && self.cache@[i].message_sequence >= self.current_message_sequence_number by {
                if i < idx {
                    assert(self.cache@[i] == before[i]);
                } else {
                    assert(self.cache@[i] == before[i + 1]);
                }
                assert(before[i] != entry ==> true);
            }
            assert forall|i: int, j: int|
                0 <= i < j < self.cache@.len() implies (#[trigger] self.cache@[i]).message_sequence
                != (#[trigger] self.cache@[j]).message_sequence by {
                let bi = if i < idx { i } else { i + 1 };
                let bj = if j < idx { j } else { j + 1 };
                assert(self.cache@[i] == before[bi]);
                assert(self.cache@[j] == before[bj]);
            }
            assert(out@ =~= handshake_header_bytes(header) + entry.data@);
        }
        Some((out, entry.epoch))
    }
}

pub open spec fn sizes(s: Seq<PartialMessage>) -> int
    decreases s.len(),
{
    if s.len() == 0 {
        0
    } else {
        sizes(s.drop_last()) + s.last().data@.len()
    }
}

proof fn lemma_sizes_prefix(s: Seq<PartialMessage>, n: int)
    requires
        0 <= n <= s.len(),
    ensures
        sizes(s.take(n)) <= sizes(s),
    decreases s.len() - n,
{
    if n < s.len() {
        lemma_sizes_prefix(s, n + 1);
        assert(s.take(n + 1).drop_last() =~= s.take(n));
    } else {
        assert(s.take(n) =~= s);
    }
}

proof fn lemma_sizes_replace(s: Seq<PartialMessage>, i: int, e: PartialMessage)
    requires
        0 <= i < s.len(),
        e.data@.len() == s[i].data@.len(),
    ensures
        sizes(s.update(i, e)) == sizes(s),
    decreases s.len(),
{
    if i < s.len() - 1 {
        assert(s.update(i, e).drop_last() =~= s.drop_last().update(i, e));
        lemma_sizes_replace(s.drop_last(), i, e);
    } else {
        assert(s.update(i, e).drop_last() =~= s.drop_last());
    }
}

proof fn lemma_sizes_remove(s: Seq<PartialMessage>, i: int)
    requires
        0 <= i < s.len(),
    ensures
        sizes(s.remove(i)) == sizes(s) - s[i].data@.len(),
    decreases s.len(),
{
    if i < s.len() - 1 {
        assert(s.remove(i).drop_last() =~= s.drop_last().remove(i));
        lemma_sizes_remove(s.drop_last(), i);
    } else {
        assert(s.remove(i) =~= s.drop_last());
    }
}

} // verus!
