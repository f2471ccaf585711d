use vstd::prelude::*;
use crate::codec::{be_u16, be_u24, u16_bytes, u24_bytes, push_u16, push_u24};
use crate::codec::{lemma_u16_decode_encode, lemma_u16_encode_decode};
use crate::codec::{lemma_u24_decode_encode, lemma_u24_encode_decode};
use crate::error::Error;

verus! {

pub const HANDSHAKE_HEADER_LENGTH: usize = 12;

/// Largest value of a 24-bit length or offset field.
pub const MAX_U24: u32 = 0xff_ffff;

pub const HANDSHAKE_TYPE_HELLO_REQUEST: u8 = 0;
pub const HANDSHAKE_TYPE_CLIENT_HELLO: u8 = 1;
pub const HANDSHAKE_TYPE_SERVER_HELLO: u8 = 2;
pub const HANDSHAKE_TYPE_HELLO_VERIFY_REQUEST: u8 = 3;
pub const HANDSHAKE_TYPE_CERTIFICATE: u8 = 11;
pub const HANDSHAKE_TYPE_SERVER_KEY_EXCHANGE: u8 = 12;
pub const HANDSHAKE_TYPE_CERTIFICATE_REQUEST: u8 = 13;
pub const HANDSHAKE_TYPE_SERVER_HELLO_DONE: u8 = 14;
pub const HANDSHAKE_TYPE_CERTIFICATE_VERIFY: u8 = 15;
pub const HANDSHAKE_TYPE_CLIENT_KEY_EXCHANGE: u8 = 16;
pub const HANDSHAKE_TYPE_FINISHED: u8 = 20;

/// The 12-byte header in front of every handshake message or fragment.
#[derive(Clone, Copy, Debug, PartialEq, Eq, Structural)]
pub struct HandshakeHeader {
    pub handshake_type: u8,
    pub length: u32,
    pub message_sequence: u16,
    pub fragment_offset: u32,
    pub fragment_length: u32,
}

pub open spec fn handshake_header_bytes(h: HandshakeHeader) -> Seq<u8> {
    seq![h.handshake_type] + u24_bytes(h.length) + u16_bytes(h.message_sequence) + u24_bytes(
        h.fragment_offset,
    ) + u24_bytes(h.fragment_length)
}

pub open spec fn handshake_header_of(b: Seq<u8>) -> HandshakeHeader
    recommends
        b.len() >= 12,
{
    HandshakeHeader {
        handshake_type: b[0],
        length: be_u24(b[1], b[2], b[3]),
        message_sequence: be_u16(b[4], b[5]),
        fragment_offset: be_u24(b[6], b[7], b[8]),
        fragment_length: be_u24(b[9], b[10], b[11]),
    }
}

impl HandshakeHeader {
    /// Every 24-bit field fits in 24 bits.
    pub open spec fn wf(self) -> bool {
        self.length <= MAX_U24 && self.fragment_offset <= MAX_U24 && self.fragment_length
            <= MAX_U24
    }

    /// Whether the header describes a whole message rather than a fragment of one.
    pub open spec fn spec_is_complete(self) -> bool {
        self.fragment_offset == 0 && self.fragment_length == self.length
    }

    pub fn is_complete(&self) -> (r: bool)
        ensures
            r == self.spec_is_complete(),
    {
        self.fragment_offset == 0 && self.fragment_length == self.length
    }

    pub fn marshal(&self) -> (r: Vec<u8>)
        ensures
            r@ == handshake_header_bytes(*self),
            r@.len() == HANDSHAKE_HEADER_LENGTH,
    {
        let mut out: Vec<u8> = Vec::new();
        out.push(self.handshake_type);
        push_u24(&mut out, self.length);
        push_u16(&mut out, self.message_sequence);
        push_u24(&mut out, self.fragment_offset);
        push_u24(&mut out, self.fragment_length);
        assert(out@ =~= handshake_header_bytes(*self));
        out
    }

    pub fn unmarshal(b: &[u8]) -> (r: Result<HandshakeHeader, Error>)
        ensures
            b@.len() < 12 ==> r == Err::<HandshakeHeader, Error>(Error::BufferTooSmall),
            b@.len() >= 12 ==> r == Ok::<HandshakeHeader, Error>(handshake_header_of(b@)),
            r is Ok ==> r->Ok_0.wf(),
    {
        if b.len() < HANDSHAKE_HEADER_LENGTH {
            return Err(Error::BufferTooSmall);
        }
        proof {
            lemma_u24_decode_encode(b@[1], b@[2], b@[3]);
            lemma_u24_decode_encode(b@[6], b@[7], b@[8]);
            lemma_u24_decode_encode(b@[9], b@[10], b@[11]);
        }
        Ok(
            HandshakeHeader {
                handshake_type: b[0],
                length: ((b[1] as u32) << 16u32) | ((b[2] as u32) << 8u32) | (b[3] as u32),
                message_sequence: ((b[4] as u16) << 8u16) | (b[5] as u16),
                fragment_offset: ((b[6] as u32) << 16u32) | ((b[7] as u32) << 8u32) | (b[8] as u32),
                fragment_length: ((b[9] as u32) << 16u32) | ((b[10] as u32) << 8u32) | (b[11]
                    as u32),
            },
        )
    }
}

/// Reading a handshake header back from its wire form gives the same header.
pub proof fn lemma_handshake_header_round_trip(h: HandshakeHeader)
    requires
        h.wf(),
    ensures
        handshake_header_of(handshake_header_bytes(h)) == h,
        handshake_header_bytes(h).len() == 12,
{
    let b = handshake_header_bytes(h);
    lemma_u24_encode_decode(h.length);
    lemma_u24_encode_decode(h.fragment_offset);
    lemma_u24_encode_decode(h.fragment_length);
    lemma_u16_encode_decode(h.message_sequence);
    assert(b[1] == u24_bytes(h.length)[0] && b[2] == u24_bytes(h.length)[1] && b[3] == u24_bytes(
        h.length,
    )[2]);
    assert(b[4] == u16_bytes(h.message_sequence)[0] && b[5] == u16_bytes(h.message_sequence)[1]);
    assert(b[6] == u24_bytes(h.fragment_offset)[0] && b[7] == u24_bytes(h.fragment_offset)[1]
        && b[8] == u24_bytes(h.fragment_offset)[2]);
    assert(b[9] == u24_bytes(h.fragment_length)[0] && b[10] == u24_bytes(h.fragment_length)[1]
        && b[11] == u24_bytes(h.fragment_length)[2]);
}

/// Writing a handshake header that was read from `b` reproduces the first 12 bytes of `b`.
pub proof fn lemma_handshake_header_bytes_round_trip(b: Seq<u8>)
    requires
        b.len() >= 12,
    ensures
        handshake_header_bytes(handshake_header_of(b)) == b.subrange(0, 12),
{
    lemma_u24_decode_encode(b[1], b[2], b[3]);
    lemma_u24_decode_encode(b[6], b[7], b[8]);
    lemma_u24_decode_encode(b[9], b[10], b[11]);
    lemma_u16_decode_encode(b[4], b[5]);
    assert(handshake_header_bytes(handshake_header_of(b)) =~= b.subrange(0, 12));
}

/// A whole handshake message: its header and its marshalled body.
#[derive(Debug)]
pub struct Handshake {
    pub header: HandshakeHeader,
    pub body: Vec<u8>,
}

impl Handshake {
    /// The header describes the body as one whole message.
    pub open spec fn wf(self) -> bool {
        &&& self.header.wf()
        &&& self.header.length == self.body@.len()
        &&& self.header.spec_is_complete()
    }

    /// A whole message of the given type around `body`; the sequence is stamped later.
    pub fn new(handshake_type: u8, body: Vec<u8>) -> (r: Handshake)
        requires
            body@.len() <= MAX_U24,
        ensures
            r.wf(),
            r.body@ == body@,
            r.header.handshake_type == handshake_type,
            r.header.message_sequence == 0,
    {
        let len = body.len() as u32;
        Handshake {
            header: HandshakeHeader {
                handshake_type,
                length: len,
                message_sequence: 0,
                fragment_offset: 0,
                fragment_length: len,
            },
            body,
        }
    }
}

} // verus!
