use vstd::prelude::*;
use vstd::slice::{slice_subrange, slice_to_vec};
use crate::error::Error;

verus! {

/// SRTP protection profiles that DTLS-SRTP can negotiate (RFC 5764).
#[allow(non_camel_case_types)]
#[derive(Clone, Copy, Debug, PartialEq, Eq, Structural)]
pub enum SrtpProtectionProfile {
    Srtp_Aes128_Cm_Hmac_Sha1_80,
    Srtp_Aes128_Cm_Hmac_Sha1_32,
    Srtp_Aead_Aes_128_Gcm,
    Srtp_Aead_Aes_256_Gcm,
    Unsupported,
}


/// The SRTP protection profiles that SRTP contexts are made for.
#[derive(Clone, Copy, Debug, PartialEq, Eq, Structural)]
pub enum ProtectionProfile {
    Aes128CmHmacSha1_80,
    AeadAes128Gcm,
}

impl ProtectionProfile {
    pub open spec fn spec_key_len(self) -> usize {
        16
    }

    pub open spec fn spec_salt_len(self) -> usize {
        match self {
            ProtectionProfile::Aes128CmHmacSha1_80 => 14,
            ProtectionProfile::AeadAes128Gcm => 12,
        }
    }

    /// Length of the master key.
    pub fn key_len(&self) -> (r: usize)
        ensures
            r == self.spec_key_len(),
    {
        16
    }

    /// Length of the master salt.
    pub fn salt_len(&self) -> (r: usize)
        ensures
            r == self.spec_salt_len(),
    {
        match self {
            ProtectionProfile::Aes128CmHmacSha1_80 => 14,
            ProtectionProfile::AeadAes128Gcm => 12,
        }
    }
}

/// The SRTP profile that serves a negotiated DTLS-SRTP profile.
pub open spec fn spec_srtp_profile(p: SrtpProtectionProfile) -> Option<ProtectionProfile> {
    match p {
        SrtpProtectionProfile::Srtp_Aes128_Cm_Hmac_Sha1_80 => Some(ProtectionProfile::Aes128CmHmacSha1_80),
        SrtpProtectionProfile::Srtp_Aead_Aes_128_Gcm => Some(ProtectionProfile::AeadAes128Gcm),
        _ => None,
    }
}

/// Default replay window of the remote SRTP and SRTCP contexts.
pub const DEFAULT_SESSION_SRTP_REPLAY_PROTECTION_WINDOW: usize = 64;
pub const DEFAULT_SESSION_SRTCP_REPLAY_PROTECTION_WINDOW: usize = 64;

/// How the remote SRTP context guards against replays.
#[derive(Clone, Copy, Debug, PartialEq, Eq, Structural)]
pub enum ReplayProtection {
    Window(usize),
    Disabled,
}

/// What the SRTP contexts of a session are made with.
#[derive(Clone, Copy, Debug, PartialEq, Eq, Structural)]
pub struct SrtpSessionConfig {
    pub profile: ProtectionProfile,
    pub remote_rtp: ReplayProtection,
    pub remote_rtcp: ReplayProtection,
}

/// The SRTP settings of a completed DTLS session: the profile that the
/// negotiated one maps to, or `NoSuchSrtpProfile`; a configured SRTP window
/// (non-zero) wins over switching replay protection off, and the defaults
/// apply otherwise.
pub fn srtp_session_config(negotiated: SrtpProtectionProfile, srtp_window: usize, disable_srtp_replay_protection: bool) -> (r: Result<SrtpSessionConfig, Error>)
    ensures
        spec_srtp_profile(negotiated) is None ==> r == Err::<SrtpSessionConfig, Error>(Error::NoSuchSrtpProfile),
        spec_srtp_profile(negotiated) matches Some(p) ==> r == Ok::<SrtpSessionConfig, Error>(SrtpSessionConfig {
            profile: p,
            remote_rtp: if srtp_window != 0 {
                ReplayProtection::Window(srtp_window)
            } else if disable_srtp_replay_protection {
                ReplayProtection::Disabled
            } else {
                ReplayProtection::Window(DEFAULT_SESSION_SRTP_REPLAY_PROTECTION_WINDOW)
            },
            remote_rtcp: ReplayProtection::Window(DEFAULT_SESSION_SRTCP_REPLAY_PROTECTION_WINDOW),
        }),
{
    let profile = match negotiated {
        SrtpProtectionProfile::Srtp_Aes128_Cm_Hmac_Sha1_80 => ProtectionProfile::Aes128CmHmacSha1_80,
        SrtpProtectionProfile::Srtp_Aead_Aes_128_Gcm => ProtectionProfile::AeadAes128Gcm,
        _ => {
            return Err(Error::NoSuchSrtpProfile);
        },
    };
    let remote_rtp = if srtp_window != 0 {
        ReplayProtection::Window(srtp_window)
    } else if disable_srtp_replay_protection {
        ReplayProtection::Disabled
    } else {
        ReplayProtection::Window(DEFAULT_SESSION_SRTP_REPLAY_PROTECTION_WINDOW)
    };
    Ok(SrtpSessionConfig {
        profile,
        remote_rtp,
        remote_rtcp: ReplayProtection::Window(DEFAULT_SESSION_SRTCP_REPLAY_PROTECTION_WINDOW),
    })
}

/// Master keys and salts of the two directions of a session.
#[derive(Debug)]
pub struct SessionKeys {
    pub local_master_key: Vec<u8>,
    pub local_master_salt: Vec<u8>,
    pub remote_master_key: Vec<u8>,
    pub remote_master_salt: Vec<u8>,
}

/// Length of keying material that `profile` needs: two keys and two salts.
pub open spec fn keying_material_len(p: ProtectionProfile) -> int {
    2 * (p.spec_key_len() + p.spec_salt_len())
}

/// Splits exported keying material as RFC 5764 section 4.2 lays it out
/// (client key, server key, client salt, server salt) into this side's and
/// the peer's key and salt.
pub fn extract_session_keys(material: &[u8], profile: ProtectionProfile, is_client: bool) -> (r: Result<SessionKeys, Error>)
    ensures
        material@.len() < keying_material_len(profile) ==> r == Err::<SessionKeys, Error>(Error::BufferTooSmall),
        material@.len() >= keying_material_len(profile) ==> (r matches Ok(k) && {
            let kl = profile.spec_key_len() as int;
            let sl = profile.spec_salt_len() as int;
            let client_key = material@.subrange(0, kl);
            let server_key = material@.subrange(kl, 2 * kl);
            let client_salt = material@.subrange(2 * kl, 2 * kl + sl);
            let server_salt = material@.subrange(2 * kl + sl, 2 * kl + 2 * sl);
            &&& k.local_master_key@ == if is_client { client_key } else { server_key }
            &&& k.remote_master_key@ == if is_client { server_key } else { client_key }
            &&& k.local_master_salt@ == if is_client { client_salt } else { server_salt }
            &&& k.remote_master_salt@ == if is_client { server_salt } else { client_salt }
        }),
{
    let kl = profile.key_len();
    let sl = profile.salt_len();
    if material.len() < 2 * (kl + sl) {
        return Err(Error::BufferTooSmall);
    }
    let client_key = slice_to_vec(slice_subrange(material, 0, kl));
    let server_key = slice_to_vec(slice_subrange(material, kl, 2 * kl));
    let client_salt = slice_to_vec(slice_subrange(material, 2 * kl, 2 * kl + sl));
    let server_salt = slice_to_vec(slice_subrange(material, 2 * kl + sl, 2 * kl + 2 * sl));
    if is_client {
        Ok(SessionKeys {
            local_master_key: client_key,
            local_master_salt: client_salt,
            remote_master_key: server_key,
            remote_master_salt: server_salt,
        })
    } else {
        Ok(SessionKeys {
            local_master_key: server_key,
            local_master_salt: server_salt,
            remote_master_key: client_key,
            remote_master_salt: client_salt,
        })
    }
}

/// The labels that the TLS PRF uses itself and that may not be exported.
pub open spec fn invalid_keying_label(l: Seq<char>) -> bool {
    l == "client finished"@ || l == "server finished"@ || l == "master secret"@ || l == "key expansion"@
}

/// Refuses, with `InvalidKeyingLabel`, a label the handshake itself uses.
pub fn check_keying_label(label: &String) -> (r: Result<(), Error>)
    ensures
        invalid_keying_label(label@) <==> r == Err::<(), Error>(Error::InvalidKeyingLabel),
        r is Err ==> r == Err::<(), Error>(Error::InvalidKeyingLabel),
{
    let a = String::from_str("client finished");
    let b = String::from_str("server finished");
    let c = String::from_str("master secret");
    let d = String::from_str("key expansion");
    proof {
        reveal_strlit("client finished");
        reveal_strlit("server finished");
        reveal_strlit("master secret");
        reveal_strlit("key expansion");
    }
    if *label == a || *label == b || *label == c || *label == d {
        Err(Error::InvalidKeyingLabel)
    } else {
        Ok(())
    }
}
} // verus!
