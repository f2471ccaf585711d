use vstd::prelude::*;
use crate::handshake::{Handshake, handshake_header_bytes};
use crate::record_layer::{RecordLayerHeader, header_bytes, CONTENT_TYPE_ALERT};
use crate::record_layer::{CONTENT_TYPE_APPLICATION_DATA, CONTENT_TYPE_CHANGE_CIPHER_SPEC};
use crate::record_layer::CONTENT_TYPE_HANDSHAKE;
use crate::record_layer::{DTLS_MAJOR, DTLS1_2_MINOR};

verus! {

#[derive(Clone, Copy, Debug, PartialEq, Eq, Structural)]
pub enum AlertLevel {
    Warning,
    Fatal,
}

pub open spec fn alert_level_byte(l: AlertLevel) -> u8 {
    match l {
        AlertLevel::Warning => 1,
        AlertLevel::Fatal => 2,
    }
}

pub const ALERT_CLOSE_NOTIFY: u8 = 0;
pub const ALERT_UNEXPECTED_MESSAGE: u8 = 10;
pub const ALERT_BAD_RECORD_MAC: u8 = 20;
pub const ALERT_HANDSHAKE_FAILURE: u8 = 40;
pub const ALERT_DECODE_ERROR: u8 = 50;
pub const ALERT_INTERNAL_ERROR: u8 = 80;

#[derive(Clone, Copy, Debug, PartialEq, Eq, Structural)]
pub struct Alert {
    pub alert_level: AlertLevel,
    pub alert_description: u8,
}

impl Alert {
    /// Whether receiving or sending this alert ends the connection.
    pub open spec fn spec_ends_connection(self) -> bool {
        self.alert_level == AlertLevel::Fatal || self.alert_description == ALERT_CLOSE_NOTIFY
    }

    pub fn ends_connection(&self) -> (r: bool)
        ensures
            r == self.spec_ends_connection(),
    {
        match self.alert_level {
            AlertLevel::Fatal => true,
            AlertLevel::Warning => self.alert_description == ALERT_CLOSE_NOTIFY,
        }
    }
}

/// What a record carries.
#[derive(Debug)]
pub enum Content {
    ChangeCipherSpec,
    Alert(Alert),
    Handshake(Handshake),
    ApplicationData(Vec<u8>),
}

pub open spec fn content_type_of(c: Content) -> u8 {
    match c {
        Content::ChangeCipherSpec => CONTENT_TYPE_CHANGE_CIPHER_SPEC,
        Content::Alert(_) => CONTENT_TYPE_ALERT,
        Content::Handshake(_) => CONTENT_TYPE_HANDSHAKE,
        Content::ApplicationData(_) => CONTENT_TYPE_APPLICATION_DATA,
    }
}

/// The wire bytes of a record's content.
pub open spec fn content_bytes(c: Content) -> Seq<u8> {
    match c {
        Content::ChangeCipherSpec => seq![1u8],
        Content::Alert(a) => seq![alert_level_byte(a.alert_level), a.alert_description],
        Content::Handshake(h) => handshake_header_bytes(h.header) + h.body@,
        Content::ApplicationData(d) => d@,
    }
}

impl Content {
    pub open spec fn wf(&self) -> bool {
        match self {
            Content::Handshake(h) => h.wf(),
            _ => true,
        }
    }

    pub fn content_type(&self) -> (r: u8)
        ensures
            r == content_type_of(*self),
    {
        match self {
            Content::ChangeCipherSpec => CONTENT_TYPE_CHANGE_CIPHER_SPEC,
            Content::Alert(_) => CONTENT_TYPE_ALERT,
            Content::Handshake(_) => CONTENT_TYPE_HANDSHAKE,
            Content::ApplicationData(_) => CONTENT_TYPE_APPLICATION_DATA,
        }
    }

    pub fn marshal(&self) -> (r: Vec<u8>)
        ensures
            r@ == content_bytes(*self),
    {
        match self {
            Content::ChangeCipherSpec => {
                let mut v: Vec<u8> = Vec::new();
                v.push(1u8);
                assert(v@ =~= seq![1u8]);
                v
            },
            Content::Alert(a) => {
                let mut v: Vec<u8> = Vec::new();
                let level: u8 = match a.alert_level {
                    AlertLevel::Warning => 1,
                    AlertLevel::Fatal => 2,
                };
                v.push(level);
                v.push(a.alert_description);
                assert(v@ =~= content_bytes(*self));
                v
            },
            Content::Handshake(h) => {
                let mut v = h.header.marshal();
                v.extend_from_slice(h.body.as_slice());
                assert(v@ =~= content_bytes(*self));
                v
            },
            Content::ApplicationData(d) => {
                let mut v: Vec<u8> = Vec::new();
                v.extend_from_slice(d.as_slice());
                assert(v@ =~= d@);
                v
            },
        }
    }
}

/// One record to send: the epoch it belongs to, what it carries, and whether
/// it goes out under the epoch's cipher.
#[derive(Debug)]
pub struct Packet {
    pub epoch: u16,
    pub content: Content,
    pub should_encrypt: bool,
}

/// A record that has its sequence number and wire bytes, waiting to leave.
#[derive(Debug)]
pub struct OutgoingRecord {
    pub header: RecordLayerHeader,
    /// Header and content, in clear.
    pub raw: Vec<u8>,
    pub should_encrypt: bool,
}

/// The clear wire bytes of a DTLS 1.2 record of `content_type` with the given
/// epoch, sequence number and content.
pub open spec fn record_bytes(content_type: u8, epoch: u16, seq: u64, body: Seq<u8>) -> Seq<u8> {
    header_bytes(record_header(content_type, epoch, seq, body.len() as u16)) + body
}

pub open spec fn record_header(content_type: u8, epoch: u16, seq: u64, len: u16) -> RecordLayerHeader {
    RecordLayerHeader {
        content_type,
        protocol_version: crate::record_layer::ProtocolVersion { major: 0xfe, minor: 0xfd },
        epoch,
        sequence_number: seq,
        content_len: len,
    }
}

/// Builds the clear record around `body`.
pub fn seal_record(content_type: u8, epoch: u16, seq: u64, body: &[u8], should_encrypt: bool) -> (r:
    OutgoingRecord)
    requires
        body@.len() <= u16::MAX,
    ensures
        r.header == record_header(content_type, epoch, seq, body@.len() as u16),
        r.raw@ == record_bytes(content_type, epoch, seq, body@),
        r.should_encrypt == should_encrypt,
{
    let header = RecordLayerHeader {
        content_type,
        protocol_version: crate::record_layer::ProtocolVersion {
            major: DTLS_MAJOR,
            minor: DTLS1_2_MINOR,
        },
        epoch,
        sequence_number: seq,
        content_len: body.len() as u16,
    };
    let mut raw = header.marshal();
    raw.extend_from_slice(body);
    assert(raw@ =~= record_bytes(content_type, epoch, seq, body@));
    OutgoingRecord { header, raw, should_encrypt }
}

} // verus!
