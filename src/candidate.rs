use vstd::prelude::*;
use crate::error::Error;
use crate::random::generate_cand_id;

verus! {

#[derive(Clone, Copy, Debug, PartialEq, Eq, Structural)]
pub enum CandidateType {
    Unspecified,
    Host,
    ServerReflexive,
    PeerReflexive,
    Relay,
}

impl CandidateType {
    /// Type preference of RFC 8445 section 5.1.2.2.
    pub open spec fn spec_preference(self) -> u16 {
        match self {
            CandidateType::Host => 126,
            CandidateType::PeerReflexive => 110,
            CandidateType::ServerReflexive => 100,
            _ => 0,
        }
    }

    pub fn preference(&self) -> (r: u16)
        ensures
            r == self.spec_preference(),
    {
        match self {
            CandidateType::Host => 126,
            CandidateType::PeerReflexive => 110,
            CandidateType::ServerReflexive => 100,
            _ => 0,
        }
    }
}

#[derive(Clone, Copy, Debug, PartialEq, Eq, Structural)]
pub enum TcpType {
    Unspecified,
    Active,
    Passive,
    SimultaneousOpen,
}

#[derive(Clone, Copy, Debug, PartialEq, Eq, Structural)]
pub enum NetworkType {
    Udp4,
    Udp6,
    Tcp4,
    Tcp6,
}

/// Local preference of a UDP candidate (RFC 8445 section 5.1.2.1).
pub const DEFAULT_LOCAL_PREFERENCE: u16 = 65535;

/// What every kind of candidate is made from.
#[derive(Debug)]
pub struct CandidateBaseConfig {
    pub candidate_id: String,
    pub network: String,
    pub address: String,
    pub port: u16,
    pub component: u16,
    pub priority: u32,
    pub foundation: String,
}

/// The config required to create a new host candidate.
#[derive(Debug)]
pub struct CandidateHostConfig {
    pub base_config: CandidateBaseConfig,
    pub tcp_type: TcpType,
}

/// A transport address that an agent may use, with when it last sent and
/// received (milliseconds).
#[derive(Debug)]
pub struct CandidateBase {
    pub id: String,
    pub network_type: NetworkType,
    pub candidate_type: CandidateType,
    pub component: u16,
    pub address: String,
    pub port: u16,
    pub tcp_type: TcpType,
    pub foundation_override: String,
    pub priority_override: u32,
    pub network: String,
    pub last_sent: u64,
    pub last_received: u64,
}

/// Candidate priority of RFC 8445 section 5.1.2.1 for a UDP candidate.
pub open spec fn candidate_priority(t: CandidateType, component: u16, priority_override: u32) -> int {
    if priority_override != 0 {
        priority_override as int
    } else {
        16777216 * t.spec_preference() + 256 * DEFAULT_LOCAL_PREFERENCE + (256 - component)
    }
}

impl CandidateBase {
    /// A component is numbered from 1 to 256.
    pub open spec fn wf(&self) -> bool {
        1 <= self.component <= 256
    }

    pub open spec fn spec_priority(&self) -> int {
        candidate_priority(self.candidate_type, self.component, self.priority_override)
    }

    pub fn priority(&self) -> (r: u32)
        requires
            self.wf(),
        ensures
            r == self.spec_priority(),
    {
        if self.priority_override != 0 {
            return self.priority_override;
        }
        let pref = self.candidate_type.preference() as u32;
        16777216 * pref + 256 * (DEFAULT_LOCAL_PREFERENCE as u32) + (256 - self.component as u32)
    }

    /// Two candidates stand for the same transport address.
    pub open spec fn spec_equal(&self, other: &CandidateBase) -> bool {
        &&& self.network_type == other.network_type
        &&& self.candidate_type == other.candidate_type
        &&& self.address@ == other.address@
        &&& self.port == other.port
    }

    pub fn equal(&self, other: &CandidateBase) -> (r: bool)
        ensures
            r == self.spec_equal(other),
    {
        self.network_type == other.network_type && self.candidate_type == other.candidate_type
            && self.address == other.address && self.port == other.port
    }

    /// Notes that a packet came from or went to this candidate at `now`.
    pub fn seen(&mut self, outbound: bool, now: u64)
        ensures
            outbound ==> final(self).last_sent == now && final(self).last_received == old(
                self,
            ).last_received,
            !outbound ==> final(self).last_received == now && final(self).last_sent == old(
                self,
            ).last_sent,
            final(self).address == old(self).address,
            final(self).port == old(self).port,
            final(self).component == old(self).component,
            final(self).candidate_type == old(self).candidate_type,
            final(self).network_type == old(self).network_type,
            final(self).priority_override == old(self).priority_override,
    {
        if outbound {
            self.last_sent = now;
        } else {
            self.last_received = now;
        }
    }
}

impl CandidateHostConfig {
    /// Creates a new host candidate; an empty id is replaced by a random one.
    pub fn new_candidate_host(self) -> (r: Result<CandidateBase, Error>)
        ensures
            r is Ok,
            r matches Ok(c) && {
                &&& self.base_config.candidate_id@.len() > 0 ==> c.id@
                    == self.base_config.candidate_id@
                &&& self.base_config.candidate_id@.len() == 0 ==> c.id@.take(10) == "candidate:"@
                    && c.id@.len() == 42
                &&& c.address@ == self.base_config.address@
                &&& c.candidate_type == CandidateType::Host
                &&& c.component == self.base_config.component
                &&& c.port == self.base_config.port
                &&& c.tcp_type == self.tcp_type
                &&& c.foundation_override@ == self.base_config.foundation@
                &&& c.priority_override == self.base_config.priority
                &&& c.network@ == self.base_config.network@
                &&& c.network_type == NetworkType::Udp4
                &&& c.last_sent == 0 && c.last_received == 0
            },
    {
        let cfg = self.base_config;
        let id = if cfg.candidate_id.as_str().is_empty() {
            generate_cand_id()
        } else {
            cfg.candidate_id
        };
        Ok(
            CandidateBase {
                id,
                network_type: NetworkType::Udp4,
                candidate_type: CandidateType::Host,
                component: cfg.component,
                address: cfg.address,
                port: cfg.port,
                tcp_type: self.tcp_type,
                foundation_override: cfg.foundation,
                priority_override: cfg.priority,
                network: cfg.network,
                last_sent: 0,
                last_received: 0,
            },
        )
    }
}

#[derive(Clone, Copy, Debug, PartialEq, Eq, Structural)]
pub enum CandidatePairState {
    Waiting,
    InProgress,
    Failed,
    Succeeded,
    Frozen,
}

/// A local and a remote candidate, by their places in the agent's lists.
#[derive(Clone, Copy, Debug)]
pub struct CandidatePair {
    pub local: usize,
    pub remote: usize,
    pub ice_role_controlling: bool,
    pub state: CandidatePairState,
    pub nominated: bool,
    pub nominate_on_binding_success: bool,
    pub binding_request_count: u16,
}

/// Pair priority of RFC 8445 section 6.1.2.3, from the priorities of the
/// controlling side's candidate `g` and the controlled side's `d`.
pub open spec fn spec_pair_priority(g: int, d: int) -> int {
    let lo = if g < d {
        g
    } else {
        d
    };
    let hi = if g < d {
        d
    } else {
        g
    };
    4294967296 * lo + 2 * hi + if g > d {
        1int
    } else {
        0int
    }
}

/// The priority of a pair whose local candidate has priority `local` and
/// remote one `remote`, seen from the controlling side or not.
pub fn pair_priority(local: u32, remote: u32, controlling: bool) -> (r: u128)
    ensures
        r == if controlling {
            spec_pair_priority(local as int, remote as int)
        } else {
            spec_pair_priority(remote as int, local as int)
        },
{
    let (g, d) = if controlling {
        (local as u128, remote as u128)
    } else {
        (remote as u128, local as u128)
    };
    let lo = if g < d {
        g
    } else {
        d
    };
    let hi = if g < d {
        d
    } else {
        g
    };
    let extra: u128 = if g > d {
        1
    } else {
        0
    };
    assert(lo * 4294967296 <= 0xffff_ffff * 4294967296) by (nonlinear_arith)
        requires
            lo <= 0xffff_ffff,
    ;
    lo * 4294967296 + 2 * hi + extra
}

} // verus!
