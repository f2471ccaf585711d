use vstd::prelude::*;
use crate::error::Error;

verus! {

/// Default largest datagram the connection emits.
pub const DEFAULT_MTU: usize = 1200;

/// Default replay window (RFC 6347 section 4.1.2.6).
pub const DEFAULT_REPLAY_PROTECTION_WINDOW: usize = 64;

/// Largest MTU for which every handshake fragment fits a record's 16-bit length.
pub const MAX_MTU: usize = 65523;

/// A certificate chain (DER, leaf first) and its private key.
#[derive(Debug)]
pub struct Certificate {
    pub certificate: Vec<Vec<u8>>,
    pub private_key: Vec<u8>,
}

pub open spec fn chain_view(c: Seq<Vec<u8>>) -> Seq<Seq<u8>> {
    c.map_values(|v: Vec<u8>| v@)
}

fn copy_bytes(b: &Vec<u8>) -> (r: Vec<u8>)
    ensures
        r@ == b@,
{
    let mut r: Vec<u8> = Vec::new();
    r.extend_from_slice(b.as_slice());
    assert(r@ =~= b@);
    r
}

impl Certificate {
    /// A copy with the same chain and key.
    pub fn duplicate(&self) -> (r: Certificate)
        ensures
            chain_view(r.certificate@) == chain_view(self.certificate@),
            r.private_key@ == self.private_key@,
    {
        let mut chain: Vec<Vec<u8>> = Vec::new();
        let mut i: usize = 0;
        while i < self.certificate.len()
            invariant
                i <= self.certificate@.len(),
                chain_view(chain@) == chain_view(self.certificate@.take(i as int)),
            decreases self.certificate@.len() - i,
        {
            let ghost before = chain@;
            let b = copy_bytes(&self.certificate[i]);
            chain.push(b);
            proof {
                assert(chain@ == before.push(b));
                assert(chain_view(chain@) =~= chain_view(before).push(b@));
                assert(self.certificate@.take(i + 1) =~= self.certificate@.take(i as int).push(self.certificate@[i as int]));
                assert(chain_view(self.certificate@.take(i + 1)) =~= chain_view(self.certificate@.take(i as int)).push(self.certificate@[i as int]@));
            }
            i = i + 1;
        }
        assert(self.certificate@.take(i as int) =~= self.certificate@);
        Certificate { certificate: chain, private_key: copy_bytes(&self.private_key) }
    }
}

/// The settings a connection is made with. Times are in milliseconds.
#[derive(Debug)]
pub struct HandshakeConfig {
    pub local_certificates: Vec<Certificate>,
    pub local_psk_identity_hint: Option<Vec<u8>>,
    pub server_name: String,
    pub insecure_skip_verify: bool,
    pub retransmit_interval: u64,
    pub initial_epoch: u16,
    pub maximum_transmission_unit: usize,
    pub replay_protection_window: usize,
}

impl HandshakeConfig {
    pub open spec fn wf(&self) -> bool {
        0 < self.maximum_transmission_unit <= MAX_MTU
    }

    /// The default settings: no certificates, no retransmit interval, epoch
    /// 0, an MTU of 1200 bytes and a window of 64 records.
    pub fn default_config() -> (r: Self)
        ensures
            r.wf(),
            r.retransmit_interval == 0,
            r.initial_epoch == 0,
            r.maximum_transmission_unit == DEFAULT_MTU,
            r.replay_protection_window == DEFAULT_REPLAY_PROTECTION_WINDOW,
            r.local_psk_identity_hint is None,
            !r.insecure_skip_verify,
            r.local_certificates@.len() == 0,
    {
        HandshakeConfig {
            local_certificates: Vec::new(),
            local_psk_identity_hint: None,
            server_name: String::new(),
            insecure_skip_verify: false,
            retransmit_interval: 0,
            initial_epoch: 0,
            maximum_transmission_unit: DEFAULT_MTU,
            replay_protection_window: DEFAULT_REPLAY_PROTECTION_WINDOW,
        }
    }
}

impl HandshakeConfig {
    /// The certificate to present for `server_name`: none configured is
    /// `NoCertificates`; no name-based selection is configured, so it is the
    /// first one.
    pub fn get_certificate(&self, server_name: &String) -> (r: Result<Certificate, Error>)
        ensures
            self.local_certificates@.len() == 0 ==> r == Err::<Certificate, Error>(Error::NoCertificates),
            self.local_certificates@.len() > 0 ==> (r matches Ok(c) && chain_view(c.certificate@)
                == chain_view(self.local_certificates@[0].certificate@) && c.private_key@
                == self.local_certificates@[0].private_key@),
    {
        if self.local_certificates.len() == 0 {
            return Err(Error::NoCertificates);
        }
        Ok(self.local_certificates[0].duplicate())
    }
}

} // verus!
