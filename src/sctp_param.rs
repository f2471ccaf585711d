use vstd::prelude::*;
use vstd::slice::{slice_subrange, slice_to_vec};
use crate::codec::{be_u16, u16_bytes, push_u16, lemma_u16_encode_decode, lemma_u16_decode_encode};
use crate::error::Error;

verus! {

pub const PARAM_HEADER_LENGTH: usize = 4;

#[derive(Clone, Copy, Debug, PartialEq, Eq, Structural)]
pub enum ParamType {
    HeartbeatInfo,
    StateCookie,
    OutSsnResetReq,
    ReconfigResp,
    Random,
    ChunkList,
    ReqHmacAlgo,
    SupportedExt,
    ForwardTsnSupp,
    Unknown,
}

/// The parameter type that a wire code names.
pub open spec fn param_type_of(code: u16) -> ParamType {
    if code == 1 {
        ParamType::HeartbeatInfo
    } else if code == 7 {
        ParamType::StateCookie
    } else if code == 13 {
        ParamType::OutSsnResetReq
    } else if code == 16 {
        ParamType::ReconfigResp
    } else if code == 0x8002 {
        ParamType::Random
    } else if code == 0x8003 {
        ParamType::ChunkList
    } else if code == 0x8004 {
        ParamType::ReqHmacAlgo
    } else if code == 0x8008 {
        ParamType::SupportedExt
    } else if code == 0xc000 {
        ParamType::ForwardTsnSupp
    } else {
        ParamType::Unknown
    }
}

pub fn param_type(code: u16) -> (r: ParamType)
    ensures
        r == param_type_of(code),
{
    if code == 1 {
        ParamType::HeartbeatInfo
    } else if code == 7 {
        ParamType::StateCookie
    } else if code == 13 {
        ParamType::OutSsnResetReq
    } else if code == 16 {
        ParamType::ReconfigResp
    } else if code == 0x8002 {
        ParamType::Random
    } else if code == 0x8003 {
        ParamType::ChunkList
    } else if code == 0x8004 {
        ParamType::ReqHmacAlgo
    } else if code == 0x8008 {
        ParamType::SupportedExt
    } else if code == 0xc000 {
        ParamType::ForwardTsnSupp
    } else {
        ParamType::Unknown
    }
}

/// An SCTP parameter: its type code and its value, without padding.
#[derive(Debug)]
pub struct Param {
    pub code: u16,
    pub typ: ParamType,
    pub value: Vec<u8>,
}

/// The TLV bytes of a parameter: type, length (header included, padding
/// excluded) and value.
pub open spec fn param_bytes(code: u16, value: Seq<u8>) -> Seq<u8> {
    u16_bytes(code) + u16_bytes((value.len() + 4) as u16) + value
}

/// Whether `raw` holds a parameter that this library reads: a header, and a
/// declared length that covers the header and fits in `raw`.
pub open spec fn param_decodes(raw: Seq<u8>) -> bool {
    raw.len() >= 4 && be_u16(raw[2], raw[3]) >= 4 && be_u16(raw[2], raw[3]) <= raw.len()
}

impl Param {
    pub open spec fn wf(&self) -> bool {
        self.value@.len() + 4 <= u16::MAX && self.typ == param_type_of(self.code)
    }

    /// The parameter's TLV bytes.
    pub fn marshal(&self) -> (r: Result<Vec<u8>, Error>)
        requires
            self.wf(),
        ensures
            (r matches Ok(b) && b@ == param_bytes(self.code, self.value@)),
    {
        let mut out: Vec<u8> = Vec::new();
        push_u16(&mut out, self.code);
        push_u16(&mut out, (self.value.len() + 4) as u16);
        out.extend_from_slice(self.value.as_slice());
        assert(out@ =~= param_bytes(self.code, self.value@));
        Ok(out)
    }

    pub fn value_length(&self) -> (r: usize)
        ensures
            r == self.value@.len(),
    {
        self.value.len()
    }
}

/// Reads the parameter at the start of `raw_param`: too short a header is
/// `ParamHeaderTooShort`, a type this library does not know is
/// `ParamTypeUnhandled`.
pub fn build_param(raw_param: &[u8]) -> (r: Result<Param, Error>)
    ensures
        raw_param@.len() < 4 ==> r == Err::<Param, Error>(Error::ParamHeaderTooShort),
        raw_param@.len() >= 4 && param_type_of(be_u16(raw_param@[0], raw_param@[1]))
            == ParamType::Unknown ==> r == Err::<Param, Error>(Error::ParamTypeUnhandled),
        raw_param@.len() >= 4 && param_type_of(be_u16(raw_param@[0], raw_param@[1]))
            != ParamType::Unknown && !param_decodes(raw_param@) ==> r == Err::<Param, Error>(
            Error::ParamHeaderTooShort,
        ),
        param_decodes(raw_param@) && param_type_of(be_u16(raw_param@[0], raw_param@[1]))
            != ParamType::Unknown ==> (r matches Ok(p) && p.wf() && p.code == be_u16(
            raw_param@[0],
            raw_param@[1],
        ) && p.value@ == raw_param@.subrange(4, be_u16(raw_param@[2], raw_param@[3]) as int)),
{
    if raw_param.len() < PARAM_HEADER_LENGTH {
        return Err(Error::ParamHeaderTooShort);
    }
    let code = ((raw_param[0] as u16) << 8u16) | (raw_param[1] as u16);
    let typ = param_type(code);
    if typ == ParamType::Unknown {
        return Err(Error::ParamTypeUnhandled);
    }
    let len = ((raw_param[2] as u16) << 8u16) | (raw_param[3] as u16);
    if (len as usize) < PARAM_HEADER_LENGTH || raw_param.len() < len as usize {
        return Err(Error::ParamHeaderTooShort);
    }
    let value = slice_to_vec(slice_subrange(raw_param, PARAM_HEADER_LENGTH, len as usize));
    Ok(Param { code, typ, value })
}

/// Writing a parameter read from `b`, whose declared length is all of `b`
/// and a multiple of four, gives `b` back.
pub proof fn lemma_param_round_trip(b: Seq<u8>)
    requires
        param_decodes(b),
        be_u16(b[2], b[3]) == b.len(),
        b.len() % 4 == 0,
    ensures
        param_bytes(be_u16(b[0], b[1]), b.subrange(4, b.len() as int)) == b,
{
    let v = b.subrange(4, b.len() as int);
    lemma_u16_decode_encode(b[0], b[1]);
    lemma_u16_decode_encode(b[2], b[3]);
    assert((v.len() + 4) as u16 == be_u16(b[2], b[3]));
    assert(param_bytes(be_u16(b[0], b[1]), v) =~= b);
}

/// Reading back a parameter's TLV bytes gives the same code and value.
pub proof fn lemma_param_bytes_decode(code: u16, value: Seq<u8>)
    requires
        value.len() + 4 <= u16::MAX,
    ensures
        param_decodes(param_bytes(code, value)),
        be_u16(param_bytes(code, value)[0], param_bytes(code, value)[1]) == code,
        param_bytes(code, value).subrange(4, param_bytes(code, value).len() as int) == value,
{
    let b = param_bytes(code, value);
    lemma_u16_encode_decode(code);
    lemma_u16_encode_decode((value.len() + 4) as u16);
    assert(b[0] == u16_bytes(code)[0] && b[1] == u16_bytes(code)[1]);
    assert(b[2] == u16_bytes((value.len() + 4) as u16)[0] && b[3] == u16_bytes((value.len() + 4) as u16)[1]);
    assert(b.subrange(4, b.len() as int) =~= value);
}

} // verus!
