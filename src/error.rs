use vstd::prelude::*;

verus! {

/// Every failure that the transport core reports to its caller.
#[derive(Clone, Copy, Debug, PartialEq, Eq, Structural)]
pub enum Error {
    AlertFatalOrClose,
    SequenceNumberOverflow,
    HandshakeInProgress,
    ConnClosed,
    ApplicationDataEpochZero,
    UnhandledContextType,
    InvalidFsmTransition,
    NoCertificates,
    MismatchUsername,
    LiteUsingNonHostCandidates,
    RemoteUfragEmpty,
    RemotePwdEmpty,
    LocalUfragInsufficientBits,
    LocalPwdInsufficientBits,
    UselessUrlsProvided,
    NoSuchSrtpProfile,
    ParamHeaderTooShort,
    ParamTypeUnhandled,
    MulticastDnsNotSupported,
    BufferTooSmall,
    UnsupportedProtocolVersion,
    InvalidKeyingLabel,
    FragmentBufferOverflow,
    InvalidPacketLength,
    PacketTooLarge,
    EpochOverflow,
    AlertReceived,
}

} // verus!
