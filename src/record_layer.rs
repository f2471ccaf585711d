use vstd::prelude::*;
use crate::codec::{be_u16, be_u48, u16_bytes, u48_bytes, push_u16, push_u48};
use crate::codec::{lemma_u16_decode_encode, lemma_u16_encode_decode, lemma_u48_encode_decode};
use crate::codec::lemma_u48_decode_encode;
use crate::error::Error;

verus! {

pub const RECORD_LAYER_HEADER_SIZE: usize = 13;

/// Largest sequence number a record may carry (48 bits).
pub const MAX_SEQUENCE_NUMBER: u64 = 0xffff_ffff_ffff;

pub const CONTENT_TYPE_CHANGE_CIPHER_SPEC: u8 = 20;
pub const CONTENT_TYPE_ALERT: u8 = 21;
pub const CONTENT_TYPE_HANDSHAKE: u8 = 22;
pub const CONTENT_TYPE_APPLICATION_DATA: u8 = 23;

#[derive(Clone, Copy, Debug, PartialEq, Eq, Structural)]
pub struct ProtocolVersion {
    pub major: u8,
    pub minor: u8,
}

/// Major version byte of DTLS 1.x.
pub const DTLS_MAJOR: u8 = 0xfe;

/// Minor version byte of DTLS 1.0.
pub const DTLS1_0_MINOR: u8 = 0xff;

/// Minor version byte of DTLS 1.2, the version of every record this library writes.
pub const DTLS1_2_MINOR: u8 = 0xfd;

/// DTLS 1.2 on the wire.
pub fn protocol_version1_2() -> (r: ProtocolVersion)
    ensures
        r == (ProtocolVersion { major: 0xfe, minor: 0xfd }),
{
    ProtocolVersion { major: DTLS_MAJOR, minor: DTLS1_2_MINOR }
}

pub open spec fn supported_version(major: u8, minor: u8) -> bool {
    major == 0xfe && (minor == 0xff || minor == 0xfd)
}

#[derive(Clone, Copy, Debug, PartialEq, Eq, Structural)]
pub struct RecordLayerHeader {
    pub content_type: u8,
    pub protocol_version: ProtocolVersion,
    pub epoch: u16,
    pub sequence_number: u64,
    pub content_len: u16,
}

/// The 13 bytes that a record header occupies on the wire.
pub open spec fn header_bytes(h: RecordLayerHeader) -> Seq<u8> {
    seq![h.content_type, h.protocol_version.major, h.protocol_version.minor] + u16_bytes(h.epoch)
        + u48_bytes(h.sequence_number) + u16_bytes(h.content_len)
}

/// The header that the first 13 bytes of `b` spell.
pub open spec fn header_of(b: Seq<u8>) -> RecordLayerHeader
    recommends
        b.len() >= 13,
{
    RecordLayerHeader {
        content_type: b[0],
        protocol_version: ProtocolVersion { major: b[1], minor: b[2] },
        epoch: be_u16(b[3], b[4]),
        sequence_number: be_u48(b[5], b[6], b[7], b[8], b[9], b[10]),
        content_len: be_u16(b[11], b[12]),
    }
}

/// Whether `b` starts with a record header that this library reads.
pub open spec fn header_decodes(b: Seq<u8>) -> bool {
    b.len() >= 13 && supported_version(b[1], b[2])
}

impl RecordLayerHeader {
    pub open spec fn wf(self) -> bool {
        self.sequence_number <= MAX_SEQUENCE_NUMBER
    }

    /// Writes the header in its 13-byte wire form.
    pub fn marshal(&self) -> (r: Vec<u8>)
        ensures
            r@ == header_bytes(*self),
            r@.len() == RECORD_LAYER_HEADER_SIZE,
    {
        let mut out: Vec<u8> = Vec::new();
        out.push(self.content_type);
        out.push(self.protocol_version.major);
        out.push(self.protocol_version.minor);
        push_u16(&mut out, self.epoch);
        push_u48(&mut out, self.sequence_number);
        push_u16(&mut out, self.content_len);
        assert(out@ =~= header_bytes(*self));
        out
    }

    /// Reads a header from the start of `b`; fails on a short buffer or an
    /// unknown protocol version.
    pub fn unmarshal(b: &[u8]) -> (r: Result<RecordLayerHeader, Error>)
        ensures
            b@.len() < 13 ==> r == Err::<RecordLayerHeader, Error>(Error::BufferTooSmall),
            b@.len() >= 13 && !supported_version(b@[1], b@[2]) ==> r == Err::<
                RecordLayerHeader,
                Error,
            >(Error::UnsupportedProtocolVersion),
            header_decodes(b@) ==> r == Ok::<RecordLayerHeader, Error>(header_of(b@)),
            r is Ok ==> r->Ok_0.wf(),
    {
        if b.len() < RECORD_LAYER_HEADER_SIZE {
            return Err(Error::BufferTooSmall);
        }
        let major = b[1];
        let minor = b[2];
        if !(major == 0xfe && (minor == 0xff || minor == 0xfd)) {
            return Err(Error::UnsupportedProtocolVersion);
        }
        let epoch = ((b[3] as u16) << 8u16) | (b[4] as u16);
        let sequence_number = ((b[5] as u64) << 40u64) | ((b[6] as u64) << 32u64) | ((b[7] as u64)
            << 24u64) | ((b[8] as u64) << 16u64) | ((b[9] as u64) << 8u64) | (b[10] as u64);
        let content_len = ((b[11] as u16) << 8u16) | (b[12] as u16);
        proof {
            lemma_u48_decode_encode(b@[5], b@[6], b@[7], b@[8], b@[9], b@[10]);
        }
        Ok(
            RecordLayerHeader {
                content_type: b[0],
                protocol_version: ProtocolVersion { major, minor },
                epoch,
                sequence_number,
                content_len,
            },
        )
    }
}

/// Reading a header back from its wire form gives the same header.
pub proof fn lemma_header_round_trip(h: RecordLayerHeader)
    requires
        h.wf(),
        supported_version(h.protocol_version.major, h.protocol_version.minor),
    ensures
        header_decodes(header_bytes(h)),
        header_of(header_bytes(h)) == h,
{
    let b = header_bytes(h);
    lemma_u16_encode_decode(h.epoch);
    lemma_u16_encode_decode(h.content_len);
    lemma_u48_encode_decode(h.sequence_number);
    assert(b[3] == u16_bytes(h.epoch)[0] && b[4] == u16_bytes(h.epoch)[1]);
    assert(b[11] == u16_bytes(h.content_len)[0] && b[12] == u16_bytes(h.content_len)[1]);
    assert(b[5] == u48_bytes(h.sequence_number)[0] && b[10] == u48_bytes(h.sequence_number)[5]);
    assert(b[6] == u48_bytes(h.sequence_number)[1] && b[7] == u48_bytes(h.sequence_number)[2]);
    assert(b[8] == u48_bytes(h.sequence_number)[3] && b[9] == u48_bytes(h.sequence_number)[4]);
}

/// Writing a header that was read from `b` reproduces the first 13 bytes of `b`.
pub proof fn lemma_header_bytes_round_trip(b: Seq<u8>)
    requires
        header_decodes(b),
    ensures
        header_bytes(header_of(b)) == b.subrange(0, 13),
{
    lemma_u16_decode_encode(b[3], b[4]);
    lemma_u16_decode_encode(b[11], b[12]);
    lemma_u48_decode_encode(b[5], b[6], b[7], b[8], b[9], b[10]);
    let h = header_of(b);
    assert(u48_bytes(h.sequence_number)[0] == b[5]);
    assert(header_bytes(h) =~= b.subrange(0, 13));
}

/// The records of a datagram: each is a header and the number of content
/// bytes that the header declares. `None` when the bytes do not split exactly.
pub open spec fn datagram_records(b: Seq<u8>) -> Option<Seq<Seq<u8>>>
    decreases b.len(),
{
    if b.len() == 0 {
        Some(Seq::empty())
    } else if b.len() <= 13 {
        None
    } else {
        let n = 13 + be_u16(b[11], b[12]) as int;
        if n > b.len() {
            None
        } else {
            match datagram_records(b.subrange(n, b.len() as int)) {
                Some(rest) => Some(seq![b.subrange(0, n)] + rest),
                None => None,
            }
        }
    }
}

pub open spec fn views(v: Seq<Vec<u8>>) -> Seq<Seq<u8>> {
    v.map_values(|x: Vec<u8>| x@)
}

/// Splits a datagram into the records it holds, on each header's declared length.
pub fn unpack_datagram(buf: &[u8]) -> (r: Result<Vec<Vec<u8>>, Error>)
    ensures
        match datagram_records(buf@) {
            Some(recs) => r is Ok && views(r->Ok_0@) == recs,
            None => r == Err::<Vec<Vec<u8>>, Error>(Error::InvalidPacketLength),
        },
{
    let mut out: Vec<Vec<u8>> = Vec::new();
    let mut offset: usize = 0;
    proof {
        assert(buf@.subrange(0, buf@.len() as int) =~= buf@);
        assert(views(out@) =~= Seq::<Seq<u8>>::empty());
        match datagram_records(buf@) {
            Some(rest) => {
                assert(Seq::<Seq<u8>>::empty() + rest =~= rest);
            },
            None => {},
        }
    }
    while offset != buf.len()
        invariant
            offset <= buf@.len(),
            datagram_records(buf@) == match datagram_records(
                buf@.subrange(offset as int, buf@.len() as int),
            ) {
                Some(rest) => Some(views(out@) + rest),
                None => None::<Seq<Seq<u8>>>,
            },
        decreases buf@.len() - offset,
    {
        let ghost rem = buf@.subrange(offset as int, buf@.len() as int);
        if buf.len() - offset <= RECORD_LAYER_HEADER_SIZE {
            return Err(Error::InvalidPacketLength);
        }
        let declared = ((buf[offset + 11] as u16) << 8u16) | (buf[offset + 12] as u16);
        let pkt_len: usize = RECORD_LAYER_HEADER_SIZE + declared as usize;
        assert(rem[11] == buf@[offset + 11] && rem[12] == buf@[offset + 12]);
        if pkt_len > buf.len() - offset {
            return Err(Error::InvalidPacketLength);
        }
        let mut rec: Vec<u8> = Vec::new();
        let mut i: usize = offset;
        let end: usize = offset + pkt_len;
        while i < end
            invariant
                offset <= i <= end,
                end == offset + pkt_len <= buf@.len(),
                rec@ == buf@.subrange(offset as int, i as int),
            decreases end - i,
        {
            rec.push(buf[i]);
            i += 1;
            assert(rec@ =~= buf@.subrange(offset as int, i as int));
        }
        proof {
            assert(rem.subrange(pkt_len as int, rem.len() as int) =~= buf@.subrange(
                offset + pkt_len,
                buf@.len() as int,
            ));
            assert(rem.subrange(0, pkt_len as int) =~= rec@);
        }
        let ghost old_out = out@;
        out.push(rec);
        proof {
            assert(views(out@) =~= views(old_out) + seq![rec@]);
            let tail = datagram_records(buf@.subrange(offset + pkt_len, buf@.len() as int));
            match tail {
                Some(rest) => {
                    assert(views(out@) + rest =~= views(old_out) + (seq![rec@] + rest));
                },
                None => {},
            }
        }
        offset = offset + pkt_len;
    }
    proof {
        assert(buf@.subrange(offset as int, buf@.len() as int) =~= Seq::<u8>::empty());
        assert(views(out@) + Seq::<Seq<u8>>::empty() =~= views(out@));
    }
    Ok(out)
}

} // verus!
