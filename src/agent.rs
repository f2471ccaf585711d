use vstd::prelude::*;
use crate::candidate::{CandidateBase, CandidatePair, CandidatePairState, CandidateType};
use crate::error::Error;
use crate::random::{generate_pwd, generate_ufrag, random_transaction_id, random_u64};
use crate::stun_check::{check_message_integrity, integrity_valid};

verus! {

pub const DEFAULT_MAX_BINDING_REQUESTS: u16 = 7;
pub const DEFAULT_HOST_ACCEPTANCE_MIN_WAIT: u64 = 0;
pub const DEFAULT_DISCONNECTED_TIMEOUT: u64 = 5000;
pub const DEFAULT_FAILED_TIMEOUT: u64 = 25000;
pub const DEFAULT_KEEPALIVE_INTERVAL: u64 = 2000;
pub const DEFAULT_CHECK_INTERVAL: u64 = 200;

/// How long a binding request waits for its answer (RFC 8445 appendix B.1,
/// round-trip time unknown), in milliseconds.
pub const MAX_BINDING_REQUEST_TIMEOUT: u64 = 500;

pub const METHOD_BINDING: u16 = 0x0001;

#[derive(Clone, Copy, Debug, PartialEq, Eq, Structural)]
pub enum ConnectionState {
    Unspecified,
    New,
    Checking,
    Connected,
    Completed,
    Disconnected,
    Failed,
    Closed,
}

#[derive(Clone, Copy, Debug, PartialEq, Eq, Structural)]
pub enum StunClass {
    Request,
    Indication,
    SuccessResponse,
    ErrorResponse,
}

/// The parts of a STUN message that the agent reads or writes. Outgoing
/// messages carry the key of their MESSAGE-INTEGRITY and get a FINGERPRINT;
/// incoming ones carry their bytes as received.
#[derive(Debug)]
pub struct StunMessage {
    pub method: u16,
    pub class: StunClass,
    pub transaction_id: [u8; 12],
    pub username: Option<String>,
    pub use_candidate: bool,
    pub ice_controlling: Option<u64>,
    pub ice_controlled: Option<u64>,
    pub priority: Option<u32>,
    pub xor_mapped_address: Option<(String, u16)>,
    pub integrity_key: Option<String>,
    pub raw: Vec<u8>,
}

/// A STUN message to send from local candidate `local` to a remote address.
#[derive(Debug)]
pub struct Transmit {
    pub local: usize,
    pub remote_address: String,
    pub remote_port: u16,
    pub message: StunMessage,
}

/// An outbound binding request waiting for its answer.
#[derive(Debug)]
pub struct BindingRequest {
    pub timestamp: u64,
    pub transaction_id: [u8; 12],
    pub destination_address: String,
    pub destination_port: u16,
    pub is_use_candidate: bool,
}

#[derive(Debug)]
pub struct UfragPwd {
    pub local_ufrag: String,
    pub local_pwd: String,
    pub remote_ufrag: String,
    pub remote_pwd: String,
}

/// How an agent is made. Times are in milliseconds; `None` takes the default.
#[derive(Debug)]
pub struct AgentConfig {
    pub urls: Vec<String>,
    pub local_ufrag: String,
    pub local_pwd: String,
    pub is_controlling: bool,
    pub lite: bool,
    pub candidate_types: Vec<CandidateType>,
    pub max_binding_requests: Option<u16>,
    pub host_acceptance_min_wait: Option<u64>,
    pub disconnected_timeout: Option<u64>,
    pub failed_timeout: Option<u64>,
    pub keepalive_interval: Option<u64>,
    pub check_interval: u64,
    pub insecure_skip_verify: bool,
}

/// Length of a string in bytes, as `str::len` reports it.
pub open spec fn byte_len(s: Seq<char>) -> int {
    (vstd::utf8::encode_utf8(s).len() as usize) as int
}

/// Whether the UTF-8 bytes of a name end in `.local`.
pub open spec fn ends_with_local(b: Seq<u8>) -> bool {
    b.len() >= 6 && b.subrange(b.len() - 6, b.len() as int) == seq![
        0x2eu8,
        0x6cu8,
        0x6fu8,
        0x63u8,
        0x61u8,
        0x6cu8,
    ]
}

/// The ICE agent: candidates, the checklist of their pairs, outstanding
/// binding requests and the connection state. It owns no socket: STUN
/// messages come in through `handle_inbound` and leave through
/// `poll_transmit`; time comes in as milliseconds.
pub struct Agent {
    pub tie_breaker: u64,
    pub is_controlling: bool,
    pub lite: bool,
    pub start_time: u64,
    pub checking_since: Option<u64>,
    pub nominated_pair: Option<usize>,
    pub connection_state: ConnectionState,
    pub ufrag_pwd: UfragPwd,
    pub local_candidates: Vec<CandidateBase>,
    pub remote_candidates: Vec<CandidateBase>,
    pub pending_binding_requests: Vec<BindingRequest>,
    pub checklist: Vec<CandidatePair>,
    pub selected_pair: Option<usize>,
    pub transmits: Vec<Transmit>,
    pub bytes_sent: usize,
    pub bytes_received: usize,
    pub insecure_skip_verify: bool,
    pub max_binding_requests: u16,
    pub host_acceptance_min_wait: u64,
    pub disconnected_timeout: u64,
    pub failed_timeout: u64,
    pub keepalive_interval: u64,
    pub check_interval: u64,
    pub candidate_types: Vec<CandidateType>,
    pub urls: Vec<String>,
}

/// The candidate types an agent gathers when the config names none.
pub open spec fn default_candidate_types() -> Seq<CandidateType> {
    seq![CandidateType::Host, CandidateType::ServerReflexive, CandidateType::Relay]
}

pub open spec fn contains_type(s: Seq<CandidateType>, t: CandidateType) -> bool {
    exists|i: int| 0 <= i < s.len() && s[i] == t
}

fn contains_candidate_type(t: CandidateType, types: &Vec<CandidateType>) -> (r: bool)
    ensures
        r == contains_type(types@, t),
{
    let mut i: usize = 0;
    while i < types.len()
        invariant
            i <= types@.len(),
            forall|j: int| 0 <= j < i ==> types@[j] != t,
        decreases types@.len() - i,
    {
        if types[i] == t {
            return true;
        }
        i = i + 1;
    }
    false
}

fn same_id(a: &[u8; 12], b: &[u8; 12]) -> (r: bool)
    ensures
        r == (a@ == b@),
{
    let mut i: usize = 0;
    while i < 12
        invariant
            i <= 12,
            a@.len() == 12,
            b@.len() == 12,
            forall|j: int| 0 <= j < i ==> a@[j] == b@[j],
        decreases 12 - i,
    {
        if a[i] != b[i] {
            return false;
        }
        i = i + 1;
    }
    assert(a@ =~= b@);
    true
}

pub open spec fn pair_ends(p: CandidatePair) -> (int, int) {
    (p.local as int, p.remote as int)
}

impl Agent {
    pub open spec fn wf(&self) -> bool {
        &&& forall|i: int|
            0 <= i < self.checklist@.len() ==> (#[trigger] self.checklist@[i]).local
                < self.local_candidates@.len() && self.checklist@[i].remote
                < self.remote_candidates@.len()
                && self.checklist@[i].binding_request_count <= self.max_binding_requests
        &&& forall|i: int|
            0 <= i < self.local_candidates@.len() ==> (#[trigger] self.local_candidates@[i]).wf()
        &&& forall|i: int|
            0 <= i < self.remote_candidates@.len() ==> (#[trigger] self.remote_candidates@[i]).wf()
        &&& self.selected_pair matches Some(i) ==> i < self.checklist@.len()
        &&& self.nominated_pair matches Some(i) ==> i < self.checklist@.len()
    }

    /// Every pair in the checklist has used at most `max_binding_requests` requests.
    pub open spec fn requests_bounded(&self) -> bool {
        forall|i: int|
            0 <= i < self.checklist@.len() ==> (#[trigger] self.checklist@[i]).binding_request_count
                <= self.max_binding_requests
    }

    pub fn get_name(&self) -> (r: &'static str)
        ensures
            self.is_controlling ==> r@ == "controlling"@,
            !self.is_controlling ==> r@ == "controlled"@,
    {
        if self.is_controlling {
            "controlling"
        } else {
            "controlled"
        }
    }

    /// Bytes received on the selected pair.
    pub fn get_bytes_received(&self) -> (r: usize)
        ensures
            r == self.bytes_received,
    {
        self.bytes_received
    }

    /// Bytes sent on the selected pair.
    pub fn get_bytes_sent(&self) -> (r: usize)
        ensures
            r == self.bytes_sent,
    {
        self.bytes_sent
    }

    /// The local username fragment and password.
    pub fn get_local_user_credentials(&self) -> (r: (String, String))
        ensures
            r.0@ == self.ufrag_pwd.local_ufrag@,
            r.1@ == self.ufrag_pwd.local_pwd@,
    {
        (self.ufrag_pwd.local_ufrag.clone(), self.ufrag_pwd.local_pwd.clone())
    }

    /// The remote username fragment and password.
    pub fn get_remote_user_credentials(&self) -> (r: (String, String))
        ensures
            r.0@ == self.ufrag_pwd.remote_ufrag@,
            r.1@ == self.ufrag_pwd.remote_pwd@,
    {
        (self.ufrag_pwd.remote_ufrag.clone(), self.ufrag_pwd.remote_pwd.clone())
    }

    /// The local candidates, in the order they were added.
    pub fn get_local_candidates(&self) -> (r: &Vec<CandidateBase>)
        ensures
            r@ == self.local_candidates@,
    {
        &self.local_candidates
    }

    /// The selected pair, if any.
    pub fn get_selected_candidate_pair(&self) -> (r: Option<CandidatePair>)
        requires
            self.wf(),
        ensures
            match self.selected_pair {
                Some(i) => r == Some(self.checklist@[i as int]),
                None => r is None,
            },
    {
        match self.selected_pair {
            Some(i) => Some(self.checklist[i]),
            None => None,
        }
    }

    /// Sets the credentials of the remote agent; neither may be empty.
    pub fn set_remote_credentials(&mut self, remote_ufrag: String, remote_pwd: String) -> (r: Result<
        (),
        Error,
    >)
        ensures
            remote_ufrag@.len() == 0 ==> r == Err::<(), Error>(Error::RemoteUfragEmpty),
            remote_ufrag@.len() > 0 && remote_pwd@.len() == 0 ==> r == Err::<(), Error>(
                Error::RemotePwdEmpty,
            ),
            r is Err ==> final(self).ufrag_pwd == old(self).ufrag_pwd,
            r is Err ==> *final(self) == *old(self),
            remote_ufrag@.len() > 0 && remote_pwd@.len() > 0 ==> r is Ok
                && final(self).ufrag_pwd.remote_ufrag@ == remote_ufrag@
                && final(self).ufrag_pwd.remote_pwd@ == remote_pwd@
                && final(self).ufrag_pwd.local_ufrag == old(self).ufrag_pwd.local_ufrag
                && final(self).ufrag_pwd.local_pwd == old(self).ufrag_pwd.local_pwd,
            final(self).checklist == old(self).checklist,
            final(self).local_candidates == old(self).local_candidates,
            final(self).remote_candidates == old(self).remote_candidates,
            final(self).selected_pair == old(self).selected_pair,
            final(self).nominated_pair == old(self).nominated_pair,
            final(self).max_binding_requests == old(self).max_binding_requests,
            final(self).connection_state == old(self).connection_state,
            final(self).is_controlling == old(self).is_controlling,
            final(self).transmits == old(self).transmits,
            final(self).pending_binding_requests == old(self).pending_binding_requests,
    {
        if remote_ufrag.as_str().is_empty() {
            return Err(Error::RemoteUfragEmpty);
        } else if remote_pwd.as_str().is_empty() {
            return Err(Error::RemotePwdEmpty);
        }
        self.ufrag_pwd.remote_ufrag = remote_ufrag;
        self.ufrag_pwd.remote_pwd = remote_pwd;
        Ok(())
    }
}


/// What the agent's logic leaves alone when it only sends.
pub open spec fn config_same(a: &Agent, b: &Agent) -> bool {
    &&& a.is_controlling == b.is_controlling
    &&& a.max_binding_requests == b.max_binding_requests
    &&& a.disconnected_timeout == b.disconnected_timeout
    &&& a.failed_timeout == b.failed_timeout
    &&& a.keepalive_interval == b.keepalive_interval
    &&& a.check_interval == b.check_interval
    &&& a.ufrag_pwd == b.ufrag_pwd
    &&& a.tie_breaker == b.tie_breaker
}

/// The username that a binding request to this agent must carry.
pub open spec fn expected_username(u: UfragPwd) -> Seq<char> {
    u.local_ufrag@ + ":"@ + u.remote_ufrag@
}

/// Whether a pending request made at `ts` is still awaited at `now`.
pub open spec fn still_pending(ts: u64, now: u64) -> bool {
    now < ts || now - ts < MAX_BINDING_REQUEST_TIMEOUT
}

impl Agent {
    /// Creates an agent from `config`: an ICE-lite agent gathers host
    /// candidates only, and URLs are of use only with server-reflexive or
    /// relay candidates. Missing ufrag and password are generated.
    pub fn new(config: AgentConfig) -> (r: Result<Agent, Error>)
        ensures
            ({
                let types = if config.candidate_types@.len() == 0 {
                    default_candidate_types()
                } else {
                    config.candidate_types@
                };
                &&& config.lite && (types.len() != 1 || types[0] != CandidateType::Host) ==> r
                    == Err::<Agent, Error>(Error::LiteUsingNonHostCandidates)
                &&& !(config.lite && (types.len() != 1 || types[0] != CandidateType::Host))
                    && config.urls@.len() > 0 && !contains_type(types, CandidateType::ServerReflexive)
                    && !contains_type(types, CandidateType::Relay) ==> r == Err::<Agent, Error>(
                    Error::UselessUrlsProvided,
                )
                &&& r matches Ok(a) ==> {
                    &&& a.wf()
                    &&& a.connection_state == ConnectionState::New
                    &&& a.is_controlling == config.is_controlling
                    &&& a.max_binding_requests == match config.max_binding_requests {
                        Some(m) => m,
                        None => DEFAULT_MAX_BINDING_REQUESTS,
                    }
                    &&& a.check_interval == if config.check_interval == 0 {
                        DEFAULT_CHECK_INTERVAL
                    } else {
                        config.check_interval
                    }
                    &&& a.checklist@.len() == 0 && a.local_candidates@.len() == 0
                        && a.remote_candidates@.len() == 0
                    &&& a.selected_pair is None
                    &&& config.local_ufrag@.len() > 0 ==> a.ufrag_pwd.local_ufrag@ == config.local_ufrag@
                    &&& config.local_pwd@.len() > 0 ==> a.ufrag_pwd.local_pwd@ == config.local_pwd@
                }
                &&& (config.local_ufrag@.len() == 0 || byte_len(config.local_ufrag@) * 8 >= 24)
                    && (config.local_pwd@.len() == 0 || byte_len(config.local_pwd@) * 8 >= 128)
                    && !(config.lite && (types.len() != 1 || types[0] != CandidateType::Host))
                    && !(config.urls@.len() > 0 && !contains_type(types, CandidateType::ServerReflexive)
                    && !contains_type(types, CandidateType::Relay)) ==> (r matches Ok(a) && (config.local_ufrag@.len() == 0
                    ==> a.ufrag_pwd.local_ufrag@.len() == crate::random::LEN_UFRAG) && (config.local_pwd@.len() == 0
                    ==> a.ufrag_pwd.local_pwd@.len() == crate::random::LEN_PWD))
                &&& !(config.lite && (types.len() != 1 || types[0] != CandidateType::Host))
                    && !(config.urls@.len() > 0 && !contains_type(types, CandidateType::ServerReflexive)
                    && !contains_type(types, CandidateType::Relay)) && config.local_ufrag@.len() > 0
                    && byte_len(config.local_ufrag@) * 8 < 24 ==> r == Err::<Agent, Error>(Error::LocalUfragInsufficientBits)
                &&& !(config.lite && (types.len() != 1 || types[0] != CandidateType::Host))
                    && !(config.urls@.len() > 0 && !contains_type(types, CandidateType::ServerReflexive)
                    && !contains_type(types, CandidateType::Relay)) && (config.local_ufrag@.len() == 0
                    || byte_len(config.local_ufrag@) * 8 >= 24) && config.local_pwd@.len() > 0
                    && byte_len(config.local_pwd@) * 8 < 128 ==> r == Err::<Agent, Error>(Error::LocalPwdInsufficientBits)
                &&& config.local_ufrag@.len() > 0 && config.local_pwd@.len() > 0 ==> (r is Err
                    <==> (config.lite && (types.len() != 1 || types[0] != CandidateType::Host)
                        || (config.urls@.len() > 0 && !contains_type(types, CandidateType::ServerReflexive)
                    && !contains_type(types, CandidateType::Relay)) || byte_len(config.local_ufrag@) * 8 < 24
                        || byte_len(config.local_pwd@) * 8 < 128))
            }),
    {
        let candidate_types = if config.candidate_types.len() == 0 {
            let mut v: Vec<CandidateType> = Vec::new();
            v.push(CandidateType::Host);
            v.push(CandidateType::ServerReflexive);
            v.push(CandidateType::Relay);
            assert(v@ =~= default_candidate_types());
            v
        } else {
            config.candidate_types
        };
        if config.lite && (candidate_types.len() != 1 || candidate_types[0] != CandidateType::Host) {
            return Err(Error::LiteUsingNonHostCandidates);
        }
        if config.urls.len() > 0 && !contains_candidate_type(CandidateType::ServerReflexive, &candidate_types)
            && !contains_candidate_type(CandidateType::Relay, &candidate_types) {
            return Err(Error::UselessUrlsProvided);
        }
        let mut agent = Agent {
            tie_breaker: random_u64(),
            is_controlling: config.is_controlling,
            lite: config.lite,
            start_time: 0,
            checking_since: None,
            nominated_pair: None,
            connection_state: ConnectionState::New,
            ufrag_pwd: UfragPwd {
                local_ufrag: String::new(),
                local_pwd: String::new(),
                remote_ufrag: String::new(),
                remote_pwd: String::new(),
            },
            local_candidates: Vec::new(),
            remote_candidates: Vec::new(),
            pending_binding_requests: Vec::new(),
            checklist: Vec::new(),
            selected_pair: None,
            transmits: Vec::new(),
            bytes_sent: 0,
            bytes_received: 0,
            insecure_skip_verify: config.insecure_skip_verify,
            max_binding_requests: match config.max_binding_requests {
                Some(m) => m,
                None => DEFAULT_MAX_BINDING_REQUESTS,
            },
            host_acceptance_min_wait: match config.host_acceptance_min_wait {
                Some(m) => m,
                None => DEFAULT_HOST_ACCEPTANCE_MIN_WAIT,
            },
            disconnected_timeout: match config.disconnected_timeout {
                Some(m) => m,
                None => DEFAULT_DISCONNECTED_TIMEOUT,
            },
            failed_timeout: match config.failed_timeout {
                Some(m) => m,
                None => DEFAULT_FAILED_TIMEOUT,
            },
            keepalive_interval: match config.keepalive_interval {
                Some(m) => m,
                None => DEFAULT_KEEPALIVE_INTERVAL,
            },
            check_interval: if config.check_interval == 0 {
                DEFAULT_CHECK_INTERVAL
            } else {
                config.check_interval
            },
            candidate_types,
            urls: config.urls,
        };
        match agent.restart(config.local_ufrag, config.local_pwd) {
            Ok(()) => Ok(agent),
            Err(e) => {
                let _ = agent.close();
                Err(e)
            },
        }
    }

    /// Restarts the agent with the given credentials, generating those that
    /// are empty: a ufrag needs at least 24 bits and a password 128. The
    /// remote credentials, the checklist, pending requests and all
    /// candidates are dropped.
    pub fn restart(&mut self, ufrag: String, pwd: String) -> (r: Result<(), Error>)
        requires
            old(self).wf(),
        ensures
            final(self).wf(),
            final(self).is_controlling == old(self).is_controlling,
            final(self).max_binding_requests == old(self).max_binding_requests,
            final(self).check_interval == old(self).check_interval,
            ufrag@.len() > 0 && byte_len(ufrag@) * 8 < 24 ==> r == Err::<(), Error>(
                Error::LocalUfragInsufficientBits,
            ),
            (ufrag@.len() == 0 || byte_len(ufrag@) * 8 >= 24) && pwd@.len() > 0 && byte_len(pwd@) * 8
                < 128 ==> r == Err::<(), Error>(Error::LocalPwdInsufficientBits),
            r is Err ==> *final(self) == *old(self),
            (ufrag@.len() == 0 || byte_len(ufrag@) * 8 >= 24) && (pwd@.len() == 0 || byte_len(pwd@) * 8
                >= 128) ==> r is Ok,
            r is Ok && ufrag@.len() == 0 ==> final(self).ufrag_pwd.local_ufrag@.len() == crate::random::LEN_UFRAG,
            r is Ok && pwd@.len() == 0 ==> final(self).ufrag_pwd.local_pwd@.len() == crate::random::LEN_PWD,
            r is Ok ==> {
                &&& ufrag@.len() > 0 ==> final(self).ufrag_pwd.local_ufrag@ == ufrag@
                &&& pwd@.len() > 0 ==> final(self).ufrag_pwd.local_pwd@ == pwd@
                &&& final(self).ufrag_pwd.remote_ufrag@.len() == 0
                &&& final(self).ufrag_pwd.remote_pwd@.len() == 0
                &&& final(self).checklist@.len() == 0
                &&& final(self).pending_binding_requests@.len() == 0
                &&& final(self).local_candidates@.len() == 0
                &&& final(self).remote_candidates@.len() == 0
                &&& final(self).selected_pair is None
                &&& final(self).connection_state == if old(self).connection_state
                    == ConnectionState::New {
                    ConnectionState::New
                } else {
                    ConnectionState::Checking
                }
            },
    {
        let ufrag = if ufrag.as_str().is_empty() {
            let g = generate_ufrag();
            proof {
                crate::random::lemma_alphanumeric_byte_len(g@);
            }
            g
        } else {
            ufrag
        };
        let pwd = if pwd.as_str().is_empty() {
            let g = generate_pwd();
            proof {
                crate::random::lemma_alphanumeric_byte_len(g@);
            }
            g
        } else {
            pwd
        };
        if ufrag.as_str().len() < 3 {
            return Err(Error::LocalUfragInsufficientBits);
        }
        if pwd.as_str().len() < 16 {
            return Err(Error::LocalPwdInsufficientBits);
        }
        self.ufrag_pwd.local_ufrag = ufrag;
        self.ufrag_pwd.local_pwd = pwd;
        self.ufrag_pwd.remote_ufrag = String::new();
        self.ufrag_pwd.remote_pwd = String::new();
        self.pending_binding_requests = Vec::new();
        self.selected_pair = None;
        self.nominated_pair = None;
        self.checklist = Vec::new();
        self.delete_all_candidates();
        if self.connection_state != ConnectionState::New {
            self.update_connection_state(ConnectionState::Checking);
        }
        Ok(())
    }

    /// Drops every candidate, and with them the checklist and the selection.
    pub fn delete_all_candidates(&mut self)
        requires
            old(self).wf(),
        ensures
            final(self).wf(),
            config_same(old(self), final(self)),
            final(self).local_candidates@.len() == 0,
            final(self).remote_candidates@.len() == 0,
            final(self).checklist@.len() == 0,
            final(self).selected_pair is None,
            final(self).nominated_pair is None,
            final(self).connection_state == old(self).connection_state,
            final(self).pending_binding_requests == old(self).pending_binding_requests,
            final(self).transmits == old(self).transmits,
    {
        self.local_candidates.clear();
        self.remote_candidates.clear();
        self.checklist.clear();
        self.selected_pair = None;
        self.nominated_pair = None;
    }

    /// Moves to `new_state`; entering Failed drops every candidate.
    pub fn update_connection_state(&mut self, new_state: ConnectionState)
        requires
            old(self).wf(),
        ensures
            final(self).wf(),
            config_same(old(self), final(self)),
            final(self).connection_state == new_state,
            final(self).pending_binding_requests == old(self).pending_binding_requests,
            final(self).transmits == old(self).transmits,
            old(self).connection_state != new_state && new_state == ConnectionState::Failed ==> final(self).local_candidates@.len() == 0 && final(self).remote_candidates@.len() == 0
                && final(self).checklist@.len() == 0 && final(self).selected_pair is None,
            !(old(self).connection_state != new_state && new_state == ConnectionState::Failed) ==> final(self).local_candidates == old(self).local_candidates && final(self).remote_candidates == old(self).remote_candidates && final(self).checklist == old(self).checklist && final(self).selected_pair == old(self).selected_pair && final(self).nominated_pair == old(self).nominated_pair,
    {
        if self.connection_state != new_state {
            if new_state == ConnectionState::Failed {
                self.delete_all_candidates();
            }
            self.connection_state = new_state;
        }
    }

    /// Selects pair `p` (nominating it) and moves to Connected, or clears the selection.
    pub fn set_selected_pair(&mut self, p: Option<usize>)
        requires
            old(self).wf(),
            p matches Some(i) ==> i < old(self).checklist@.len(),
        ensures
            final(self).wf(),
            config_same(old(self), final(self)),
            final(self).selected_pair == p,
            final(self).pending_binding_requests == old(self).pending_binding_requests,
            final(self).transmits == old(self).transmits,
            final(self).local_candidates == old(self).local_candidates,
            final(self).remote_candidates == old(self).remote_candidates,
            final(self).checklist@.len() == old(self).checklist@.len(),
            p is None ==> final(self).checklist == old(self).checklist && final(self).connection_state
                == old(self).connection_state,
            p matches Some(i) ==> final(self).connection_state == ConnectionState::Connected
                && final(self).checklist@ == old(self).checklist@.update(
                i as int,
                CandidatePair { nominated: true, ..old(self).checklist@[i as int] },
            ),
    {
        match p {
            Some(i) => {
                let mut pair = self.checklist[i];
                pair.nominated = true;
                self.checklist.set(i, pair);
                self.selected_pair = Some(i);
                if self.connection_state != ConnectionState::Connected {
                    self.connection_state = ConnectionState::Connected;
                }
            },
            None => {
                self.selected_pair = None;
            },
        }
    }

    /// Appends a waiting pair of local candidate `local` and remote `remote`.
    pub fn add_pair(&mut self, local: usize, remote: usize) -> (r: usize)
        requires
            old(self).wf(),
            local < old(self).local_candidates@.len(),
            remote < old(self).remote_candidates@.len(),
        ensures
            final(self).wf(),
            config_same(old(self), final(self)),
            r == old(self).checklist@.len(),
            final(self).checklist@ == old(self).checklist@.push(
                CandidatePair {
                    local,
                    remote,
                    ice_role_controlling: old(self).is_controlling,
                    state: CandidatePairState::Waiting,
                    nominated: false,
                    nominate_on_binding_success: false,
                    binding_request_count: 0,
                },
            ),
            final(self).local_candidates == old(self).local_candidates,
            final(self).remote_candidates == old(self).remote_candidates,
            final(self).selected_pair == old(self).selected_pair,
            final(self).connection_state == old(self).connection_state,
            final(self).pending_binding_requests == old(self).pending_binding_requests,
            final(self).transmits == old(self).transmits,
    {
        let r = self.checklist.len();
        self.checklist.push(
            CandidatePair {
                local,
                remote,
                ice_role_controlling: self.is_controlling,
                state: CandidatePairState::Waiting,
                nominated: false,
                nominate_on_binding_success: false,
                binding_request_count: 0,
            },
        );
        r
    }

    /// The first pair of `local` and `remote`, if any.
    pub fn find_pair(&self, local: usize, remote: usize) -> (r: Option<usize>)
        ensures
            r matches Some(i) ==> i < self.checklist@.len() && self.checklist@[i as int].local
                == local && self.checklist@[i as int].remote == remote && forall|j: int|
                0 <= j < i ==> !((#[trigger] self.checklist@[j]).local == local
                    && self.checklist@[j].remote == remote),
            r is None ==> forall|i: int|
                0 <= i < self.checklist@.len() ==> !((#[trigger] self.checklist@[i]).local == local
                    && self.checklist@[i].remote == remote),
    {
        let mut i: usize = 0;
        while i < self.checklist.len()
            invariant
                i <= self.checklist@.len(),
                forall|j: int|
                    0 <= j < i ==> !((#[trigger] self.checklist@[j]).local == local
                        && self.checklist@[j].remote == remote),
            decreases self.checklist@.len() - i,
        {
            if self.checklist[i].local == local && self.checklist[i].remote == remote {
                return Some(i);
            }
            i = i + 1;
        }
        None
    }

    /// The remote candidate at `address` and `port`, if any.
    pub fn find_remote_candidate(&self, address: &String, port: u16) -> (r: Option<usize>)
        ensures
            r matches Some(i) ==> first_remote(*self, address@, port, i as int),
            r is None ==> forall|i: int|
                0 <= i < self.remote_candidates@.len() ==> !((#[trigger] self.remote_candidates@[i]).address@
                    == address@ && self.remote_candidates@[i].port == port),
    {
        let mut i: usize = 0;
        while i < self.remote_candidates.len()
            invariant
                i <= self.remote_candidates@.len(),
                forall|j: int|
                    0 <= j < i ==> !((#[trigger] self.remote_candidates@[j]).address@ == address@
                        && self.remote_candidates@[j].port == port),
            decreases self.remote_candidates@.len() - i,
        {
            if self.remote_candidates[i].address == *address && self.remote_candidates[i].port
                == port {
                return Some(i);
            }
            i = i + 1;
        }
        None
    }

    /// Adds a local candidate, unless an equal one is there, and pairs it
    /// with every remote candidate.
    pub fn add_local_candidate(&mut self, c: CandidateBase) -> (r: Result<(), Error>)
        requires
            old(self).wf(),
            c.wf(),
        ensures
            final(self).wf(),
            r is Ok,
            config_same(old(self), final(self)),
            final(self).remote_candidates == old(self).remote_candidates,
            final(self).selected_pair == old(self).selected_pair,
            final(self).connection_state == old(self).connection_state,
            (exists|i: int|
                0 <= i < old(self).local_candidates@.len()
                    && (#[trigger] old(self).local_candidates@[i]).spec_equal(&c)) ==> final(self).local_candidates == old(self).local_candidates && final(self).checklist == old(self).checklist,
            (forall|i: int|
                0 <= i < old(self).local_candidates@.len() ==> !(#[trigger] old(self).local_candidates@[i]).spec_equal(&c)) ==> final(self).local_candidates@ == old(self).local_candidates@.push(c) && final(self).checklist@.len() == old(self).checklist@.len()
                + old(self).remote_candidates@.len() && final(self).checklist@.take(
                old(self).checklist@.len() as int,
            ) == old(self).checklist@ && forall|j: int|
                0 <= j < old(self).remote_candidates@.len() ==> #[trigger] pair_ends(
                    final(self).checklist@[old(self).checklist@.len() + j],
                ) == (old(self).local_candidates@.len() as int, j) && final(self).checklist@[old(self).checklist@.len() + j].state == CandidatePairState::Waiting,
    {
        let mut i: usize = 0;
        while i < self.local_candidates.len()
            invariant
                self.wf(),
                *self == *old(self),
                i <= self.local_candidates@.len(),
                forall|j: int| 0 <= j < i ==> !(#[trigger] self.local_candidates@[j]).spec_equal(&c),
            decreases self.local_candidates@.len() - i,
        {
            if self.local_candidates[i].equal(&c) {
                return Ok(());
            }
            i = i + 1;
        }
        let li = self.local_candidates.len();
        self.local_candidates.push(c);
        let n = self.remote_candidates.len();
        let ghost base = self.checklist@;
        let mut j: usize = 0;
        while j < n
            invariant
                self.wf(),
                config_same(old(self), self),
                n == self.remote_candidates@.len(),
                li == self.local_candidates@.len() - 1,
                self.remote_candidates == old(self).remote_candidates,
                self.local_candidates@ == old(self).local_candidates@.push(c),
                self.selected_pair == old(self).selected_pair,
                self.connection_state == old(self).connection_state,
                base == old(self).checklist@,
                j <= n,
                self.checklist@.len() == base.len() + j,
                self.checklist@.take(base.len() as int) == base,
                forall|k: int|
                    0 <= k < j ==> (#[trigger] self.checklist@[base.len() + k]).local == li && self.checklist@[base.len() + k].remote == k && self.checklist@[base.len() + k].state == CandidatePairState::Waiting,
            decreases n - j,
        {
            let ghost prev = self.checklist@;
            self.add_pair(li, j);
            proof {
                assert(self.checklist@[base.len() + j as int] == self.checklist@[prev.len() as int]);
                assert(self.checklist@[prev.len() as int].local == li);
                assert(self.checklist@[prev.len() as int].remote == j);
                assert(self.checklist@.take(base.len() as int) =~= prev.take(base.len() as int));
                assert forall|k: int|
                    0 <= k < j + 1 implies (#[trigger] self.checklist@[base.len() + k]).local == li && self.checklist@[base.len() + k].remote == k && self.checklist@[base.len() + k].state == CandidatePairState::Waiting by {
                    assert(self.checklist@ == prev.push(self.checklist@[prev.len() as int]));
                    if k < j {
                        assert(self.checklist@[base.len() + k] == prev[base.len() + k]);
                    } else {
                        assert(k == j);
                    }
                }
            }
            j = j + 1;
        }
        Ok(())
    }

    /// Adds a remote candidate, unless an equal one is there, and pairs every
    /// local candidate with it. A host candidate named by an mDNS `.local`
    /// name is refused.
    pub fn add_remote_candidate(&mut self, c: CandidateBase) -> (r: Result<(), Error>)
        requires
            old(self).wf(),
            c.wf(),
        ensures
            final(self).wf(),
            config_same(old(self), final(self)),
            final(self).local_candidates == old(self).local_candidates,
            final(self).selected_pair == old(self).selected_pair,
            final(self).connection_state == old(self).connection_state,
            c.candidate_type == CandidateType::Host && ends_with_local(
                vstd::utf8::encode_utf8(c.address@),
            ) ==> r == Err::<(), Error>(Error::MulticastDnsNotSupported) && final(self).remote_candidates
                == old(self).remote_candidates && final(self).checklist == old(self).checklist,
            r is Err ==> *final(self) == *old(self),
            !(c.candidate_type == CandidateType::Host && ends_with_local(
                vstd::utf8::encode_utf8(c.address@),
            )) ==> r is Ok,
            r is Ok && (exists|i: int|
                0 <= i < old(self).remote_candidates@.len()
                    && (#[trigger] old(self).remote_candidates@[i]).spec_equal(&c)) ==> final(self).remote_candidates == old(self).remote_candidates && final(self).checklist == old(self).checklist,
            r is Ok && (forall|i: int|
                0 <= i < old(self).remote_candidates@.len() ==> !(#[trigger] old(self).remote_candidates@[i]).spec_equal(&c)) ==> final(self).remote_candidates@ == old(self).remote_candidates@.push(c) && final(self).checklist@.len() == old(self).checklist@.len()
                + old(self).local_candidates@.len() && final(self).checklist@.take(
                old(self).checklist@.len() as int,
            ) == old(self).checklist@ && forall|j: int|
                0 <= j < old(self).local_candidates@.len() ==> #[trigger] pair_ends(
                    final(self).checklist@[old(self).checklist@.len() + j],
                ) == (j, old(self).remote_candidates@.len() as int) && final(self).checklist@[old(self).checklist@.len() + j].state == CandidatePairState::Waiting,
    {
        if c.candidate_type == CandidateType::Host {
            let b = c.address.as_str().as_bytes();
            let n = b.len();
            if n >= 6 && b[n - 6] == 0x2e && b[n - 5] == 0x6c && b[n - 4] == 0x6f && b[n - 3] == 0x63
                && b[n - 2] == 0x61 && b[n - 1] == 0x6c {
                assert(b@.subrange(n - 6, n as int) =~= seq![0x2eu8, 0x6cu8, 0x6fu8, 0x63u8, 0x61u8, 0x6cu8]);
                return Err(Error::MulticastDnsNotSupported);
            }
            proof {
                if n >= 6 {
                    let t = b@.subrange(n - 6, n as int);
                    assert(t[0] == b@[n - 6] && t[1] == b@[n - 5] && t[2] == b@[n - 4]);
                    assert(t[3] == b@[n - 3] && t[4] == b@[n - 2] && t[5] == b@[n - 1]);
                }
            }
        }
        let mut i: usize = 0;
        while i < self.remote_candidates.len()
            invariant
                self.wf(),
                *self == *old(self),
                !(c.candidate_type == CandidateType::Host && ends_with_local(
                    vstd::utf8::encode_utf8(c.address@),
                )),
                i <= self.remote_candidates@.len(),
                forall|j: int| 0 <= j < i ==> !(#[trigger] self.remote_candidates@[j]).spec_equal(&c),
            decreases self.remote_candidates@.len() - i,
        {
            if self.remote_candidates[i].equal(&c) {
                return Ok(());
            }
            i = i + 1;
        }
        let ri = self.remote_candidates.len();
        self.remote_candidates.push(c);
        let n = self.local_candidates.len();
        let ghost base = self.checklist@;
        let mut j: usize = 0;
        while j < n
            invariant
                self.wf(),
                config_same(old(self), self),
                n == self.local_candidates@.len(),
                ri == self.remote_candidates@.len() - 1,
                self.local_candidates == old(self).local_candidates,
                self.remote_candidates@ == old(self).remote_candidates@.push(c),
                self.selected_pair == old(self).selected_pair,
                self.connection_state == old(self).connection_state,
                base == old(self).checklist@,
                j <= n,
                self.checklist@.len() == base.len() + j,
                self.checklist@.take(base.len() as int) == base,
                forall|k: int|
                    0 <= k < j ==> (#[trigger] self.checklist@[base.len() + k]).local == k && self.checklist@[base.len() + k].remote == ri && self.checklist@[base.len() + k].state == CandidatePairState::Waiting,
            decreases n - j,
        {
            let ghost prev = self.checklist@;
            self.add_pair(j, ri);
            proof {
                assert(self.checklist@[base.len() + j as int] == self.checklist@[prev.len() as int]);
                assert(self.checklist@[prev.len() as int].local == j);
                assert(self.checklist@[prev.len() as int].remote == ri);
                assert(self.checklist@.take(base.len() as int) =~= prev.take(base.len() as int));
                assert forall|k: int|
                    0 <= k < j + 1 implies (#[trigger] self.checklist@[base.len() + k]).local == k && self.checklist@[base.len() + k].remote == ri && self.checklist@[base.len() + k].state == CandidatePairState::Waiting by {
                    assert(self.checklist@ == prev.push(self.checklist@[prev.len() as int]));
                    if k < j {
                        assert(self.checklist@[base.len() + k] == prev[base.len() + k]);
                    } else {
                        assert(k == j);
                    }
                }
            }
            j = j + 1;
        }
        Ok(())
    }

    /// Cleans up the agent: drops every candidate and moves to Closed.
    pub fn close(&mut self) -> (r: Result<(), Error>)
        requires
            old(self).wf(),
        ensures
            final(self).wf(),
            r is Ok,
            final(self).connection_state == ConnectionState::Closed,
            final(self).local_candidates@.len() == 0,
            final(self).remote_candidates@.len() == 0,
            final(self).checklist@.len() == 0,
    {
        self.delete_all_candidates();
        self.update_connection_state(ConnectionState::Closed);
        Ok(())
    }

    /// Hands over the oldest STUN message waiting to be sent.
    pub fn poll_transmit(&mut self) -> (r: Option<Transmit>)
        ensures
            old(self).transmits@.len() == 0 ==> r is None && final(self).transmits == old(self).transmits,
            old(self).transmits@.len() > 0 ==> r == Some(old(self).transmits@[0])
                && final(self).transmits@ == old(self).transmits@.drop_first(),
            final(self).checklist == old(self).checklist,
            final(self).connection_state == old(self).connection_state,
            final(self).local_candidates == old(self).local_candidates,
            final(self).remote_candidates == old(self).remote_candidates,
            final(self).selected_pair == old(self).selected_pair,
            final(self).nominated_pair == old(self).nominated_pair,
            config_same(old(self), final(self)),
            final(self).pending_binding_requests == old(self).pending_binding_requests,
    {
        if self.transmits.len() == 0 {
            None
        } else {
            let t = self.transmits.remove(0);
            assert(self.transmits@ =~= old(self).transmits@.drop_first());
            Some(t)
        }
    }
}

/// The pending requests of `s` that are still awaited at `now`, in order.
pub open spec fn kept(s: Seq<BindingRequest>, now: u64) -> Seq<BindingRequest>
    decreases s.len(),
{
    if s.len() == 0 {
        Seq::empty()
    } else if still_pending(s.last().timestamp, now) {
        kept(s.drop_last(), now).push(s.last())
    } else {
        kept(s.drop_last(), now)
    }
}

/// What one round of checks does to a pair: a waiting pair starts; a pair
/// in progress that has used all its requests fails, else uses one more.
pub open spec fn ping_step(p: CandidatePair, max: u16) -> CandidatePair {
    if p.state == CandidatePairState::Waiting || p.state == CandidatePairState::InProgress {
        if p.binding_request_count >= max {
            CandidatePair { state: CandidatePairState::Failed, ..p }
        } else {
            CandidatePair {
                state: CandidatePairState::InProgress,
                binding_request_count: (p.binding_request_count + 1) as u16,
                ..p
            }
        }
    } else {
        p
    }
}

/// Whether a binding request from `m` may be acted on by an agent that is
/// controlling or not: a request claiming the same role is dropped, and a
/// controlling agent takes no nomination.
pub open spec fn role_conflict(m: StunMessage, controlling: bool) -> bool {
    if controlling {
        m.ice_controlling is Some || m.use_candidate
    } else {
        m.ice_controlled is Some
    }
}

pub open spec fn handled_class(c: StunClass) -> bool {
    c == StunClass::SuccessResponse || c == StunClass::Request || c == StunClass::Indication
}

/// The username `m` carries equals `expected`.
pub open spec fn username_is(m: StunMessage, expected: Seq<char>) -> bool {
    m.username matches Some(u) && u@ == expected
}

/// `ri` is the first remote candidate of `a` at this address.
pub open spec fn first_remote(a: Agent, address: Seq<char>, port: u16, ri: int) -> bool {
    &&& 0 <= ri < a.remote_candidates@.len()
    &&& a.remote_candidates@[ri].address@ == address && a.remote_candidates@[ri].port == port
    &&& forall|j: int| 0 <= j < ri ==> !((#[trigger] a.remote_candidates@[j]).address@ == address && a.remote_candidates@[j].port == port)
}

/// `pi` is the first pair of `a` of these candidates.
pub open spec fn first_pair(a: Agent, local: int, remote: int, pi: int) -> bool {
    &&& 0 <= pi < a.checklist@.len()
    &&& a.checklist@[pi].local == local && a.checklist@[pi].remote == remote
    &&& forall|j: int| 0 <= j < pi ==> !((#[trigger] a.checklist@[j]).local == local && a.checklist@[j].remote == remote)
}

/// `bi` is the first request in `live` with this transaction id.
pub open spec fn first_pending(live: Seq<BindingRequest>, id: Seq<u8>, bi: int) -> bool {
    &&& 0 <= bi < live.len() && live[bi].transaction_id@ == id
    &&& forall|j: int| 0 <= j < bi ==> (#[trigger] live[j]).transaction_id@ != id
}

/// What a valid success response for request `bi` of `live`, to pair `pi`,
/// does: the request leaves the list, the pair succeeds, and a nominating
/// request selects it if nothing is selected.
pub open spec fn success_effect(a: Agent, b: Agent, live: Seq<BindingRequest>, bi: int, pi: int) -> bool {
    &&& b.pending_binding_requests@ == live.remove(bi)
    &&& b.checklist@[pi].state == CandidatePairState::Succeeded
    &&& live[bi].is_use_candidate && a.selected_pair is None ==> b.selected_pair == Some(pi as usize)
        && b.connection_state == ConnectionState::Connected
}

/// The first message queued after `a`'s is a success response to `m`,
/// addressed to `address`:`port` and under the local password.
pub open spec fn request_answered(a: Agent, b: Agent, m: StunMessage, address: Seq<char>, port: u16) -> bool {
    &&& b.transmits@.len() > a.transmits@.len()
    &&& b.transmits@[a.transmits@.len() as int].message.class == StunClass::SuccessResponse
    &&& b.transmits@[a.transmits@.len() as int].message.transaction_id == m.transaction_id
    &&& b.transmits@[a.transmits@.len() as int].message.xor_mapped_address matches Some(x) && x.0@ == address && x.1 == port
    &&& b.transmits@[a.transmits@.len() as int].message.integrity_key matches Some(k) && k@ == a.ufrag_pwd.local_pwd@
    &&& b.transmits@[a.transmits@.len() as int].remote_address@ == address
    &&& b.transmits@[a.transmits@.len() as int].remote_port == port
    &&& b.transmits@.len() == a.transmits@.len() + if a.is_controlling { 1int } else { 2int }
}

/// A message that the agent acts on, before its credentials are checked.
pub open spec fn acted_on(a: Agent, m: StunMessage, local: usize) -> bool {
    local < a.local_candidates@.len() && m.method == METHOD_BINDING && handled_class(m.class) && !role_conflict(m, a.is_controlling)
}

/// Whether one round of checks sends a request on pair `p`.
pub open spec fn pinged(p: CandidatePair, max: u16) -> bool {
    (p.state == CandidatePairState::Waiting || p.state == CandidatePairState::InProgress) && p.binding_request_count < max
}

/// `t` is a binding request without nomination on pair `p` of `a`.
pub open spec fn request_on(a: Agent, p: CandidatePair, t: Transmit) -> bool {
    &&& t.message.class == StunClass::Request
    &&& !t.message.use_candidate
    &&& t.local == p.local
    &&& t.remote_address@ == a.remote_candidates@[p.remote as int].address@
    &&& t.remote_port == a.remote_candidates@[p.remote as int].port
}

/// Time from `t` to `now`, zero if `t` is later.
pub open spec fn elapsed(now: u64, t: u64) -> int {
    if now > t { now - t } else { 0 }
}

/// `t` is a request on a pair of `a` that a round of checks sends on.
pub open spec fn sent_on_pinged(a: Agent, t: Transmit) -> bool {
    exists|i: int| 0 <= i < a.checklist@.len() && pinged(a.checklist@[i], a.max_binding_requests)
        && #[trigger] request_on(a, a.checklist@[i], t)
}

/// Number of pairs in `s` that a round of checks sends a request on.
pub open spec fn count_pinged(s: Seq<CandidatePair>, max: u16) -> nat
    decreases s.len(),
{
    if s.len() == 0 {
        0
    } else {
        count_pinged(s.drop_last(), max) + if pinged(s.last(), max) { 1nat } else { 0nat }
    }
}

impl Agent {
    /// Drops the pending binding requests that are too old to be answered at `now`.
    pub fn invalidate_pending_binding_requests(&mut self, now: u64)
        requires
            old(self).wf(),
        ensures
            final(self).wf(),
            config_same(old(self), final(self)),
            final(self).pending_binding_requests@ == kept(old(self).pending_binding_requests@, now),
            final(self).checklist == old(self).checklist,
            final(self).local_candidates == old(self).local_candidates,
            final(self).remote_candidates == old(self).remote_candidates,
            final(self).selected_pair == old(self).selected_pair,
            final(self).nominated_pair == old(self).nominated_pair,
            final(self).connection_state == old(self).connection_state,
            final(self).transmits == old(self).transmits,
    {
        let mut old_list: Vec<BindingRequest> = Vec::new();
        std::mem::swap(&mut old_list, &mut self.pending_binding_requests);
        let ghost all = old_list@;
        let mut temp: Vec<BindingRequest> = Vec::new();
        let mut rev: Vec<BindingRequest> = Vec::new();
        while old_list.len() > 0
            invariant
                all == old(self).pending_binding_requests@,
                old_list@.len() + rev@.len() == all.len(),
                old_list@ == all.take(old_list@.len() as int),
                forall|k: int| 0 <= k < rev@.len() ==> #[trigger] rev@[k] == all[all.len() - 1 - k],
            decreases old_list@.len(),
        {
            let b = old_list.pop().unwrap();
            proof {
                assert(all.take(old_list@.len() as int) =~= all.take(old_list@.len() as int + 1).drop_last());
            }
            rev.push(b);
        }
        assert(all.take(0) =~= Seq::<BindingRequest>::empty());
        while rev.len() > 0
            invariant
                rev@.len() <= all.len(),
                forall|k: int| 0 <= k < rev@.len() ==> #[trigger] rev@[k] == all[all.len() - 1 - k],
                temp@ == kept(all.take(all.len() - rev@.len()), now),
            decreases rev@.len(),
        {
            let b = rev.pop().unwrap();
            let ghost i = all.len() - rev@.len() - 1;
            proof {
                assert(b == all[i]);
                assert(all.take(i + 1).drop_last() =~= all.take(i));
                assert(all.take(i + 1).last() == b);
            }
            if now < b.timestamp || now - b.timestamp < MAX_BINDING_REQUEST_TIMEOUT {
                temp.push(b);
            }
        }
        assert(all.take(all.len() as int) =~= all);
        self.pending_binding_requests = temp;
    }

    /// Queues `message` from local candidate `local` to remote `remote` and
    /// notes that the local candidate sent at `now`.
    fn send_stun(&mut self, message: StunMessage, local: usize, remote: usize, now: u64)
        requires
            old(self).wf(),
            local < old(self).local_candidates@.len(),
            remote < old(self).remote_candidates@.len(),
        ensures
            final(self).wf(),
            config_same(old(self), final(self)),
            final(self).transmits@.len() == old(self).transmits@.len() + 1,
            final(self).transmits@.take(old(self).transmits@.len() as int) == old(self).transmits@,
            final(self).transmits@.last().message == message,
            final(self).transmits@.last().local == local,
            final(self).transmits@.last().remote_address@ == old(self).remote_candidates@[remote as int].address@,
            final(self).transmits@.last().remote_port == old(self).remote_candidates@[remote as int].port,
            final(self).checklist == old(self).checklist,
            final(self).remote_candidates == old(self).remote_candidates,
            final(self).local_candidates@.len() == old(self).local_candidates@.len(),
            final(self).selected_pair == old(self).selected_pair,
            final(self).nominated_pair == old(self).nominated_pair,
            final(self).connection_state == old(self).connection_state,
            final(self).pending_binding_requests == old(self).pending_binding_requests,
    {
        let remote_address = self.remote_candidates[remote].address.clone();
        let remote_port = self.remote_candidates[remote].port;
        let ghost before = self.transmits@;
        self.transmits.push(Transmit { local, remote_address, remote_port, message });
        assert(self.transmits@.take(before.len() as int) =~= before);
        let ghost lc = self.local_candidates@;
        let mut c = self.local_candidates.remove(local);
        c.seen(true, now);
        self.local_candidates.insert(local, c);
        proof {
            assert(self.local_candidates@ =~= lc.update(local as int, c));
            assert forall|i: int| 0 <= i < self.local_candidates@.len() implies (#[trigger] self.local_candidates@[i]).wf() by {
                if i != local {
                    assert(self.local_candidates@[i] == lc[i]);
                }
            }
        }
    }

    /// Sends binding request `m` and remembers it, after dropping the
    /// pending requests that expired.
    fn send_binding_request(&mut self, m: StunMessage, local: usize, remote: usize, now: u64)
        requires
            old(self).wf(),
            local < old(self).local_candidates@.len(),
            remote < old(self).remote_candidates@.len(),
        ensures
            final(self).wf(),
            config_same(old(self), final(self)),
            final(self).transmits@.len() == old(self).transmits@.len() + 1,
            final(self).transmits@.take(old(self).transmits@.len() as int) == old(self).transmits@,
            final(self).transmits@.last().message == m,
            final(self).transmits@.last().local == local,
            final(self).transmits@.last().remote_address@ == old(self).remote_candidates@[remote as int].address@,
            final(self).transmits@.last().remote_port == old(self).remote_candidates@[remote as int].port,
            final(self).checklist == old(self).checklist,
            final(self).remote_candidates == old(self).remote_candidates,
            final(self).local_candidates@.len() == old(self).local_candidates@.len(),
            final(self).selected_pair == old(self).selected_pair,
            final(self).nominated_pair == old(self).nominated_pair,
            final(self).connection_state == old(self).connection_state,
            final(self).pending_binding_requests@.len() > 0,
            final(self).pending_binding_requests@.last().transaction_id == m.transaction_id,
            final(self).pending_binding_requests@.last().is_use_candidate == m.use_candidate,
            final(self).pending_binding_requests@.last().timestamp == now,
    {
        self.invalidate_pending_binding_requests(now);
        let destination_address = self.remote_candidates[remote].address.clone();
        let destination_port = self.remote_candidates[remote].port;
        self.pending_binding_requests.push(
            BindingRequest {
                timestamp: now,
                transaction_id: m.transaction_id,
                destination_address,
                destination_port,
                is_use_candidate: m.use_candidate,
            },
        );
        self.send_stun(m, local, remote, now);
    }

    /// Sends a binding request on the pair of `local` and `remote`, with
    /// USE-CANDIDATE when `use_candidate` is set.
    pub fn ping_candidate(&mut self, local: usize, remote: usize, use_candidate: bool, now: u64)
        requires
            old(self).wf(),
            local < old(self).local_candidates@.len(),
            remote < old(self).remote_candidates@.len(),
        ensures
            final(self).wf(),
            config_same(old(self), final(self)),
            final(self).transmits@.len() == old(self).transmits@.len() + 1,
            final(self).transmits@.take(old(self).transmits@.len() as int) == old(self).transmits@,
            final(self).transmits@.last().message.class == StunClass::Request,
            final(self).pending_binding_requests@.len() > 0,
            final(self).pending_binding_requests@.last().transaction_id == final(self).transmits@.last().message.transaction_id,
            final(self).pending_binding_requests@.last().timestamp == now,
            final(self).transmits@.last().message.username matches Some(u) && u@ == old(self).ufrag_pwd.remote_ufrag@ + ":"@
                + old(self).ufrag_pwd.local_ufrag@,
            final(self).transmits@.last().message.integrity_key matches Some(k) && k@ == old(self).ufrag_pwd.remote_pwd@,
            final(self).transmits@.last().message.use_candidate == use_candidate,
            final(self).transmits@.last().local == local,
            final(self).transmits@.last().remote_address@ == old(self).remote_candidates@[remote as int].address@,
            final(self).transmits@.last().remote_port == old(self).remote_candidates@[remote as int].port,
            final(self).checklist == old(self).checklist,
            final(self).remote_candidates == old(self).remote_candidates,
            final(self).local_candidates@.len() == old(self).local_candidates@.len(),
            final(self).selected_pair == old(self).selected_pair,
            final(self).nominated_pair == old(self).nominated_pair,
            final(self).connection_state == old(self).connection_state,
    {
        let username = self.ufrag_pwd.remote_ufrag.clone().concat(":").concat(
            self.ufrag_pwd.local_ufrag.as_str(),
        );
        let (controlling, controlled) = if self.is_controlling {
            (Some(self.tie_breaker), None)
        } else {
            (None, Some(self.tie_breaker))
        };
        let m = StunMessage {
            method: METHOD_BINDING,
            class: StunClass::Request,
            transaction_id: random_transaction_id(),
            username: Some(username),
            use_candidate,
            ice_controlling: controlling,
            ice_controlled: controlled,
            priority: Some(self.local_candidates[local].priority()),
            xor_mapped_address: None,
            integrity_key: Some(self.ufrag_pwd.remote_pwd.clone()),
            raw: Vec::new(),
        };
        self.send_binding_request(m, local, remote, now);
    }

    /// Runs one round of checks: every waiting pair starts, every pair in
    /// progress that has requests left sends one more binding request, and
    /// one that has used them all fails.
    pub fn ping_all_candidates(&mut self, now: u64)
        requires
            old(self).wf(),
        ensures
            final(self).wf(),
            final(self).requests_bounded(),
            config_same(old(self), final(self)),
            final(self).checklist@.len() == old(self).checklist@.len(),
            forall|i: int|
                0 <= i < final(self).checklist@.len() ==> #[trigger] final(self).checklist@[i]
                    == ping_step(old(self).checklist@[i], old(self).max_binding_requests),
            final(self).remote_candidates == old(self).remote_candidates,
            final(self).local_candidates@.len() == old(self).local_candidates@.len(),
            final(self).selected_pair == old(self).selected_pair,
            final(self).connection_state == old(self).connection_state,
            final(self).transmits@.len() == old(self).transmits@.len() + count_pinged(old(self).checklist@, old(self).max_binding_requests),
            final(self).transmits@.take(old(self).transmits@.len() as int) == old(self).transmits@,
            forall|k: int| old(self).transmits@.len() <= k < final(self).transmits@.len() ==> #[trigger] sent_on_pinged(*old(self), final(self).transmits@[k]),
            forall|j: int| 0 <= j < old(self).checklist@.len() && pinged(#[trigger] old(self).checklist@[j], old(self).max_binding_requests)
                ==> request_on(*old(self), old(self).checklist@[j], final(self).transmits@[(old(self).transmits@.len()
                + count_pinged(old(self).checklist@.take(j), old(self).max_binding_requests)) as int]),
            count_pinged(old(self).checklist@, old(self).max_binding_requests) > 0 ==> final(self).pending_binding_requests@.len() > 0
                && final(self).pending_binding_requests@.last().transaction_id == final(self).transmits@.last().message.transaction_id
                && final(self).pending_binding_requests@.last().timestamp == now,
    {
        let n = self.checklist.len();
        assert(old(self).checklist@.take(0) =~= Seq::<CandidatePair>::empty());
        assert(self.transmits@.take(self.transmits@.len() as int) =~= self.transmits@);
        let mut i: usize = 0;
        while i < n
            invariant
                self.wf(),
                config_same(old(self), self),
                n == self.checklist@.len(),
                n == old(self).checklist@.len(),
                i <= n,
                forall|j: int| 0 <= j < i ==> #[trigger] self.checklist@[j] == ping_step(old(self).checklist@[j], old(self).max_binding_requests),
                forall|j: int| i <= j < n ==> #[trigger] self.checklist@[j] == old(self).checklist@[j],
                self.remote_candidates == old(self).remote_candidates,
                self.local_candidates@.len() == old(self).local_candidates@.len(),
                self.selected_pair == old(self).selected_pair,
                self.connection_state == old(self).connection_state,
                self.transmits@.len() == old(self).transmits@.len() + count_pinged(old(self).checklist@.take(i as int), old(self).max_binding_requests),
                self.transmits@.take(old(self).transmits@.len() as int) == old(self).transmits@,
                forall|k: int| old(self).transmits@.len() <= k < self.transmits@.len() ==> #[trigger] sent_on_pinged(*old(self), self.transmits@[k]),
                forall|j: int| 0 <= j < i && pinged(#[trigger] old(self).checklist@[j], old(self).max_binding_requests)
                    ==> request_on(*old(self), old(self).checklist@[j], self.transmits@[(old(self).transmits@.len()
                    + count_pinged(old(self).checklist@.take(j), old(self).max_binding_requests)) as int]),
                count_pinged(old(self).checklist@.take(i as int), old(self).max_binding_requests) > 0 ==> self.pending_binding_requests@.len() > 0
                    && self.pending_binding_requests@.last().transaction_id == self.transmits@.last().message.transaction_id
                    && self.pending_binding_requests@.last().timestamp == now,
            decreases n - i,
        {
            proof {
                assert(old(self).checklist@.take(i + 1).drop_last() =~= old(self).checklist@.take(i as int));
                assert(old(self).checklist@.take(i + 1).last() == old(self).checklist@[i as int]);
            }
            let ghost t0 = self.transmits@;
            let mut p = self.checklist[i];
            if p.state == CandidatePairState::Waiting || p.state == CandidatePairState::InProgress {
                let ghost before = self.checklist@;
                if p.binding_request_count >= self.max_binding_requests {
                    p.state = CandidatePairState::Failed;
                    self.checklist.set(i, p);
                    assert(!pinged(old(self).checklist@[i as int], old(self).max_binding_requests));
                } else {
                    p.state = CandidatePairState::InProgress;
                    p.binding_request_count = p.binding_request_count + 1;
                    self.checklist.set(i, p);
                    proof {
                        assert forall|j: int| 0 <= j < self.checklist@.len() implies (#[trigger] self.checklist@[j]).local
                            < self.local_candidates@.len() && self.checklist@[j].remote
                            < self.remote_candidates@.len()
                            && self.checklist@[j].binding_request_count <= self.max_binding_requests by {
                            if j != i {
                                assert(self.checklist@[j] == before[j]);
                            }
                        }
                    }
                    self.ping_candidate(p.local, p.remote, false, now);
                    proof {
                        assert(p.local == old(self).checklist@[i as int].local && p.remote == old(self).checklist@[i as int].remote);
                        assert(request_on(*old(self), old(self).checklist@[i as int], self.transmits@[t0.len() as int]));
                        assert(self.transmits@.take(old(self).transmits@.len() as int) =~= t0.take(old(self).transmits@.len() as int));
                        assert forall|j: int| 0 <= j < i + 1 && pinged(#[trigger] old(self).checklist@[j], old(self).max_binding_requests)
                            implies request_on(*old(self), old(self).checklist@[j], self.transmits@[(old(self).transmits@.len()
                            + count_pinged(old(self).checklist@.take(j), old(self).max_binding_requests)) as int]) by {
                            if j < i {
                                lemma_count_pinged_prefix(old(self).checklist@, old(self).max_binding_requests, j, i as int);
                                assert(self.transmits@[(old(self).transmits@.len() + count_pinged(old(self).checklist@.take(j), old(self).max_binding_requests)) as int]
                                    == t0[(old(self).transmits@.len() + count_pinged(old(self).checklist@.take(j), old(self).max_binding_requests)) as int]);
                            }
                        }
                        assert forall|k: int| old(self).transmits@.len() <= k < self.transmits@.len() implies #[trigger] sent_on_pinged(*old(self), self.transmits@[k]) by {
                            if k < t0.len() {
                                assert(self.transmits@[k] == t0[k]);
                                assert(sent_on_pinged(*old(self), t0[k]));
                            } else {
                                assert(k == t0.len());
                                assert(pinged(old(self).checklist@[i as int], old(self).max_binding_requests));
                                assert(request_on(*old(self), old(self).checklist@[i as int], self.transmits@[k]));
                            }
                        }
                    }
                }
                proof {
                    assert forall|j: int| 0 <= j < i + 1 implies #[trigger] self.checklist@[j] == ping_step(old(self).checklist@[j], old(self).max_binding_requests) by {
                        if j < i {
                            assert(self.checklist@[j] == before[j]);
                        }
                    }
                    assert forall|j: int| i + 1 <= j < n implies #[trigger] self.checklist@[j] == old(self).checklist@[j] by {
                        assert(self.checklist@[j] == before[j]);
                    }
                }
            }
            i = i + 1;
        }
        assert(old(self).checklist@.take(n as int) =~= old(self).checklist@);
    }
}

impl Agent {
    /// Answers binding request `m` from remote candidate `remote` with a
    /// success response carrying its address, under the local password.
    pub fn send_binding_success(&mut self, m: &StunMessage, local: usize, remote: usize, now: u64)
        requires
            old(self).wf(),
            local < old(self).local_candidates@.len(),
            remote < old(self).remote_candidates@.len(),
        ensures
            final(self).wf(),
            config_same(old(self), final(self)),
            final(self).transmits@.len() == old(self).transmits@.len() + 1,
            final(self).transmits@.last().message.class == StunClass::SuccessResponse,
            final(self).transmits@.take(old(self).transmits@.len() as int) == old(self).transmits@,
            final(self).transmits@.last().local == local,
            final(self).transmits@.last().remote_address@ == old(self).remote_candidates@[remote as int].address@,
            final(self).transmits@.last().remote_port == old(self).remote_candidates@[remote as int].port,
            final(self).transmits@.last().message.transaction_id == m.transaction_id,
            final(self).transmits@.last().message.xor_mapped_address matches Some(x) && x.0@
                == old(self).remote_candidates@[remote as int].address@ && x.1 == old(
                self,
            ).remote_candidates@[remote as int].port,
            final(self).transmits@.last().message.integrity_key matches Some(k) && k@ == old(
                self,
            ).ufrag_pwd.local_pwd@,
            final(self).checklist == old(self).checklist,
            final(self).remote_candidates == old(self).remote_candidates,
            final(self).local_candidates@.len() == old(self).local_candidates@.len(),
            final(self).selected_pair == old(self).selected_pair,
            final(self).nominated_pair == old(self).nominated_pair,
            final(self).connection_state == old(self).connection_state,
            final(self).pending_binding_requests == old(self).pending_binding_requests,
    {
        let out = StunMessage {
            method: METHOD_BINDING,
            class: StunClass::SuccessResponse,
            transaction_id: m.transaction_id,
            username: None,
            use_candidate: false,
            ice_controlling: None,
            ice_controlled: None,
            priority: None,
            xor_mapped_address: Some(
                (self.remote_candidates[remote].address.clone(), self.remote_candidates[remote].port),
            ),
            integrity_key: Some(self.ufrag_pwd.local_pwd.clone()),
            raw: Vec::new(),
        };
        self.send_stun(out, local, remote, now);
    }

    /// Takes the pending request with transaction id `id` out of the list,
    /// after dropping the expired ones.
    pub fn handle_inbound_binding_success(&mut self, id: [u8; 12], now: u64) -> (r: Option<
        BindingRequest,
    >)
        requires
            old(self).wf(),
        ensures
            final(self).wf(),
            config_same(old(self), final(self)),
            final(self).checklist == old(self).checklist,
            final(self).local_candidates == old(self).local_candidates,
            final(self).remote_candidates == old(self).remote_candidates,
            final(self).selected_pair == old(self).selected_pair,
            final(self).nominated_pair == old(self).nominated_pair,
            final(self).connection_state == old(self).connection_state,
            final(self).transmits == old(self).transmits,
            ({
                let live = kept(old(self).pending_binding_requests@, now);
                &&& r is None <==> forall|i: int|
                    0 <= i < live.len() ==> (#[trigger] live[i]).transaction_id@ != id@
                &&& r is None ==> final(self).pending_binding_requests@ == live
                &&& r matches Some(b) ==> exists|i: int|
                    0 <= i < live.len() && (forall|j: int|
                        0 <= j < i ==> (#[trigger] live[j]).transaction_id@ != id@) && live[i] == b
                        && b.transaction_id@ == id@ && final(self).pending_binding_requests@
                        == live.remove(i)
            }),
    {
        self.invalidate_pending_binding_requests(now);
        let mut i: usize = 0;
        while i < self.pending_binding_requests.len()
            invariant
                self.wf(),
                config_same(old(self), self),
                self.pending_binding_requests@ == kept(old(self).pending_binding_requests@, now),
                self.checklist == old(self).checklist,
                self.local_candidates == old(self).local_candidates,
                self.remote_candidates == old(self).remote_candidates,
                self.selected_pair == old(self).selected_pair,
                self.nominated_pair == old(self).nominated_pair,
                self.connection_state == old(self).connection_state,
                self.transmits == old(self).transmits,
                i <= self.pending_binding_requests@.len(),
                forall|j: int|
                    0 <= j < i ==> (#[trigger] self.pending_binding_requests@[j]).transaction_id@ != id@,
            decreases self.pending_binding_requests@.len() - i,
        {
            if same_id(&self.pending_binding_requests[i].transaction_id, &id) {
                let ghost live = self.pending_binding_requests@;
                let b = self.pending_binding_requests.remove(i);
                assert(live[i as int] == b);
                return Some(b);
            }
            i = i + 1;
        }
        None
    }

    /// Notes that remote candidate `i` was heard from at `now`.
    fn touch_remote(&mut self, i: usize, now: u64)
        requires
            old(self).wf(),
            i < old(self).remote_candidates@.len(),
        ensures
            final(self).wf(),
            config_same(old(self), final(self)),
            final(self).remote_candidates@.len() == old(self).remote_candidates@.len(),
            final(self).remote_candidates@[i as int].last_received == now,
            final(self).checklist == old(self).checklist,
            final(self).local_candidates == old(self).local_candidates,
            final(self).selected_pair == old(self).selected_pair,
            final(self).nominated_pair == old(self).nominated_pair,
            final(self).connection_state == old(self).connection_state,
            final(self).transmits == old(self).transmits,
            final(self).pending_binding_requests == old(self).pending_binding_requests,
    {
        let ghost rc = self.remote_candidates@;
        let mut c = self.remote_candidates.remove(i);
        c.seen(false, now);
        self.remote_candidates.insert(i, c);
        proof {
            assert(self.remote_candidates@ =~= rc.update(i as int, c));
            assert forall|j: int| 0 <= j < self.remote_candidates@.len() implies (#[trigger] self.remote_candidates@[j]).wf() by {
                if j != i {
                    assert(self.remote_candidates@[j] == rc[j]);
                }
            }
        }
    }

    /// A success response from remote candidate `remote` to local `local`:
    /// if it answers a pending request sent to that address, the pair
    /// succeeds, and is selected if the request nominated it (or the peer
    /// nominated it before) and nothing is selected yet.
    fn handle_success_response(&mut self, m: &StunMessage, local: usize, remote: usize, now: u64)
        requires
            old(self).wf(),
            local < old(self).local_candidates@.len(),
            remote < old(self).remote_candidates@.len(),
        ensures
            final(self).wf(),
            config_same(old(self), final(self)),
            final(self).transmits == old(self).transmits,
            final(self).local_candidates == old(self).local_candidates,
            final(self).remote_candidates == old(self).remote_candidates,
            (forall|i: int| 0 <= i < kept(old(self).pending_binding_requests@, now).len()
                ==> (#[trigger] kept(old(self).pending_binding_requests@, now)[i]).transaction_id@ != m.transaction_id@)
                ==> final(self).checklist == old(self).checklist && final(self).selected_pair == old(self).selected_pair
                && final(self).connection_state == old(self).connection_state,
            forall|bi: int, pi: int|
                #[trigger] first_pending(kept(old(self).pending_binding_requests@, now), m.transaction_id@, bi)
                && kept(old(self).pending_binding_requests@, now)[bi].destination_address@ == old(self).remote_candidates@[remote as int].address@
                && kept(old(self).pending_binding_requests@, now)[bi].destination_port == old(self).remote_candidates@[remote as int].port
                && #[trigger] first_pair(*old(self), local as int, remote as int, pi) ==> success_effect(
                    *old(self), *final(self), kept(old(self).pending_binding_requests@, now), bi, pi),
    {
        let ghost live = kept(self.pending_binding_requests@, now);
        let req = match self.handle_inbound_binding_success(m.transaction_id, now) {
            Some(b) => b,
            None => {
                return;
            },
        };
        if req.destination_address != self.remote_candidates[remote].address
            || req.destination_port != self.remote_candidates[remote].port {
            return;
        }
        let pi = match self.find_pair(local, remote) {
            Some(p) => p,
            None => {
                return;
            },
        };
        let mut p = self.checklist[pi];
        p.state = CandidatePairState::Succeeded;
        let select = req.is_use_candidate || p.nominate_on_binding_success;
        self.checklist.set(pi, p);
        if select && self.selected_pair.is_none() {
            self.set_selected_pair(Some(pi));
        }
        proof {
            assert forall|bi: int, pj: int|
                #[trigger] first_pending(live, m.transaction_id@, bi)
                && live[bi].destination_address@ == old(self).remote_candidates@[remote as int].address@
                && live[bi].destination_port == old(self).remote_candidates@[remote as int].port
                && #[trigger] first_pair(*old(self), local as int, remote as int, pj) implies success_effect(
                    *old(self), *self, live, bi, pj) by {
                assert(pj == pi as int);
            }
        }
    }

    /// A binding request from remote candidate `remote` to local `local`:
    /// the pair is found or formed; a nomination by the controlling peer
    /// selects a pair that has succeeded, or marks it to be selected when it
    /// does; the request is answered and, when controlled, checked back.
    fn handle_binding_request(&mut self, m: &StunMessage, local: usize, remote: usize, now: u64)
        requires
            old(self).wf(),
            local < old(self).local_candidates@.len(),
            remote < old(self).remote_candidates@.len(),
        ensures
            final(self).wf(),
            config_same(old(self), final(self)),
            final(self).remote_candidates == old(self).remote_candidates,
            final(self).local_candidates@.len() == old(self).local_candidates@.len(),
            request_answered(*old(self), *final(self), *m, old(self).remote_candidates@[remote as int].address@,
                old(self).remote_candidates@[remote as int].port),
            final(self).transmits@[old(self).transmits@.len() as int].local == local,
            final(self).transmits@.len() == old(self).transmits@.len() + if old(self).is_controlling { 1int } else { 2int },
            !old(self).is_controlling ==> final(self).transmits@.last().message.class == StunClass::Request
                && final(self).transmits@.last().local == local
                && final(self).transmits@.last().remote_address@ == old(self).remote_candidates@[remote as int].address@,
            m.use_candidate && !old(self).is_controlling ==> exists|i: int| 0 <= i < final(self).checklist@.len()
                && (#[trigger] final(self).checklist@[i]).local == local && final(self).checklist@[i].remote == remote
                && final(self).checklist@[i].nominated && (old(self).selected_pair is None ==> final(self).selected_pair
                == Some(i as usize) && final(self).connection_state == ConnectionState::Connected),
            !(m.use_candidate && !old(self).is_controlling) ==> final(self).selected_pair == old(self).selected_pair
                && final(self).connection_state == old(self).connection_state,
    {
        let pi = match self.find_pair(local, remote) {
            Some(p) => p,
            None => self.add_pair(local, remote),
        };
        if m.use_candidate && !self.is_controlling {
            let mut p = self.checklist[pi];
            p.nominated = true;
            self.checklist.set(pi, p);
            if self.selected_pair.is_none() {
                self.set_selected_pair(Some(pi));
            }
        }
        let ghost nominated_state = self.checklist@;
        let ghost t0 = self.transmits@.len();
        self.send_binding_success(m, local, remote, now);
        if !self.is_controlling {
            let ghost t1 = self.transmits@;
            self.ping_candidate(local, remote, false, now);
            proof {
                assert(self.transmits@.take(t1.len() as int)[t0 as int] == self.transmits@[t0 as int]);
            }
        }
        proof {
            if m.use_candidate && !old(self).is_controlling {
                assert(self.checklist@[pi as int].local == local && self.checklist@[pi as int].remote == remote);
                assert(self.checklist@[pi as int].nominated);
            }
        }
    }
}

impl Agent {
    /// Processes a STUN message from `remote_address`:`remote_port` to local
    /// candidate `local`, given whether its MESSAGE-INTEGRITY checks out
    /// under the key its class calls for (the remote password for a success
    /// response, the local one for a request). Only binding requests,
    /// success responses and indications are handled; a request claiming
    /// this agent's role, or a nomination sent to a controlling agent, is
    /// dropped; a request must carry `local_ufrag:remote_ufrag` as its
    /// username; anything that fails a check is dropped without an answer.
    pub fn handle_inbound_checked(
        &mut self,
        m: &StunMessage,
        local: usize,
        remote_address: &String,
        remote_port: u16,
        now: u64,
        integrity_ok: bool,
    )
        requires
            old(self).wf(),
        ensures
            final(self).wf(),
            config_same(old(self), final(self)),
            local >= old(self).local_candidates@.len() || m.method != METHOD_BINDING
                || !handled_class(m.class) || role_conflict(*m, old(self).is_controlling) ==> *final(self)
                == *old(self),
            m.class != StunClass::Indication && !integrity_ok ==> *final(self) == *old(self),
            m.class == StunClass::Request && !username_is(*m, expected_username(old(self).ufrag_pwd))
                ==> *final(self) == *old(self),
            m.class == StunClass::Indication ==> final(self).transmits == old(self).transmits
                && final(self).checklist == old(self).checklist && final(self).connection_state
                == old(self).connection_state,
            acted_on(*old(self), *m, local) && m.class == StunClass::Request && username_is(*m, expected_username(old(self).ufrag_pwd))
                && integrity_ok && (exists|ri: int| first_remote(*old(self), remote_address@, remote_port, ri)) ==> request_answered(
                *old(self), *final(self), *m, remote_address@, remote_port),
            forall|ri: int|
                acted_on(*old(self), *m, local) && m.class == StunClass::Request && username_is(*m, expected_username(old(self).ufrag_pwd))
                && integrity_ok && #[trigger] first_remote(*old(self), remote_address@, remote_port, ri)
                && m.use_candidate && !old(self).is_controlling ==> exists|i: int| 0 <= i < final(self).checklist@.len()
                && (#[trigger] final(self).checklist@[i]).local == local && final(self).checklist@[i].remote == ri
                && final(self).checklist@[i].nominated && (old(self).selected_pair is None ==> final(self).selected_pair
                == Some(i as usize) && final(self).connection_state == ConnectionState::Connected),
            forall|ri: int|
                acted_on(*old(self), *m, local) && (m.class == StunClass::SuccessResponse ==> integrity_ok)
                && m.class != StunClass::Request && #[trigger] first_remote(*old(self), remote_address@, remote_port, ri)
                ==> final(self).remote_candidates@[ri].last_received == now,
            acted_on(*old(self), *m, local) && m.class == StunClass::SuccessResponse && integrity_ok
                && (forall|i: int| 0 <= i < kept(old(self).pending_binding_requests@, now).len()
                ==> (#[trigger] kept(old(self).pending_binding_requests@, now)[i]).transaction_id@ != m.transaction_id@)
                ==> final(self).checklist == old(self).checklist && final(self).selected_pair == old(self).selected_pair
                && final(self).connection_state == old(self).connection_state && final(self).transmits == old(self).transmits,
            forall|ri: int, bi: int, pi: int|
                acted_on(*old(self), *m, local) && m.class == StunClass::SuccessResponse && integrity_ok
                && #[trigger] first_remote(*old(self), remote_address@, remote_port, ri)
                && #[trigger] first_pending(kept(old(self).pending_binding_requests@, now), m.transaction_id@, bi)
                && kept(old(self).pending_binding_requests@, now)[bi].destination_address@ == remote_address@
                && kept(old(self).pending_binding_requests@, now)[bi].destination_port == remote_port
                && #[trigger] first_pair(*old(self), local as int, ri, pi) ==> success_effect(
                    *old(self), *final(self), kept(old(self).pending_binding_requests@, now), bi, pi),
    {
        if local >= self.local_candidates.len() {
            return;
        }
        if m.method != METHOD_BINDING || !(m.class == StunClass::SuccessResponse || m.class
            == StunClass::Request || m.class == StunClass::Indication) {
            return;
        }
        if self.is_controlling {
            if m.ice_controlling.is_some() {
                return;
            } else if m.use_candidate {
                return;
            }
        } else if m.ice_controlled.is_some() {
            return;
        }
        let rc = self.find_remote_candidate(remote_address, remote_port);
        if m.class == StunClass::SuccessResponse {
            if !integrity_ok {
                return;
            }
            match rc {
                Some(ri) => self.handle_success_response(m, local, ri, now),
                None => {
                    return;
                },
            }
        } else if m.class == StunClass::Request {
            let expected = self.ufrag_pwd.local_ufrag.clone().concat(":").concat(
                self.ufrag_pwd.remote_ufrag.as_str(),
            );
            let matches = match &m.username {
                Some(u) => *u == expected,
                None => false,
            };
            if !matches {
                return;
            }
            if !integrity_ok {
                return;
            }
            if let Some(ri) = rc {
                self.handle_binding_request(m, local, ri, now);
            }
        }
        if let Some(ri) = rc {
            self.touch_remote(ri, now);
        }
    }

    /// Processes a STUN message as `handle_inbound_checked` does, checking
    /// its MESSAGE-INTEGRITY here.
    pub fn handle_inbound(&mut self, m: &StunMessage, local: usize, remote_address: &String, remote_port: u16, now: u64)
        requires
            old(self).wf(),
        ensures
            final(self).wf(),
            config_same(old(self), final(self)),
            local >= old(self).local_candidates@.len() || m.method != METHOD_BINDING
                || !handled_class(m.class) || role_conflict(*m, old(self).is_controlling) ==> *final(self)
                == *old(self),
            m.class == StunClass::Request && !username_is(*m, expected_username(old(self).ufrag_pwd))
                ==> *final(self) == *old(self),
            m.class == StunClass::Request && !integrity_valid(m.raw@, vstd::utf8::encode_utf8(old(self).ufrag_pwd.local_pwd@))
                ==> *final(self) == *old(self),
            m.class == StunClass::SuccessResponse && !integrity_valid(m.raw@, vstd::utf8::encode_utf8(old(self).ufrag_pwd.remote_pwd@))
                ==> *final(self) == *old(self),
            acted_on(*old(self), *m, local) && m.class == StunClass::Request && username_is(*m, expected_username(old(self).ufrag_pwd))
                && integrity_valid(m.raw@, vstd::utf8::encode_utf8(old(self).ufrag_pwd.local_pwd@)) && (exists|ri: int| first_remote(*old(self), remote_address@, remote_port, ri)) ==> request_answered(
                *old(self), *final(self), *m, remote_address@, remote_port),
            forall|ri: int|
                acted_on(*old(self), *m, local) && m.class == StunClass::Request && username_is(*m, expected_username(old(self).ufrag_pwd))
                && integrity_valid(m.raw@, vstd::utf8::encode_utf8(old(self).ufrag_pwd.local_pwd@)) && #[trigger] first_remote(*old(self), remote_address@, remote_port, ri)
                && m.use_candidate && !old(self).is_controlling ==> exists|i: int| 0 <= i < final(self).checklist@.len()
                && (#[trigger] final(self).checklist@[i]).local == local && final(self).checklist@[i].remote == ri
                && final(self).checklist@[i].nominated && (old(self).selected_pair is None ==> final(self).selected_pair
                == Some(i as usize) && final(self).connection_state == ConnectionState::Connected),
            forall|ri: int|
                acted_on(*old(self), *m, local) && (m.class == StunClass::SuccessResponse ==> integrity_valid(m.raw@, vstd::utf8::encode_utf8(old(self).ufrag_pwd.remote_pwd@)))
                && m.class != StunClass::Request && #[trigger] first_remote(*old(self), remote_address@, remote_port, ri)
                ==> final(self).remote_candidates@[ri].last_received == now,
            acted_on(*old(self), *m, local) && m.class == StunClass::SuccessResponse && integrity_valid(m.raw@, vstd::utf8::encode_utf8(old(self).ufrag_pwd.remote_pwd@))
                && (forall|i: int| 0 <= i < kept(old(self).pending_binding_requests@, now).len()
                ==> (#[trigger] kept(old(self).pending_binding_requests@, now)[i]).transaction_id@ != m.transaction_id@)
                ==> final(self).checklist == old(self).checklist && final(self).selected_pair == old(self).selected_pair
                && final(self).connection_state == old(self).connection_state && final(self).transmits == old(self).transmits,
            forall|ri: int, bi: int, pi: int|
                acted_on(*old(self), *m, local) && m.class == StunClass::SuccessResponse && integrity_valid(m.raw@, vstd::utf8::encode_utf8(old(self).ufrag_pwd.remote_pwd@))
                && #[trigger] first_remote(*old(self), remote_address@, remote_port, ri)
                && #[trigger] first_pending(kept(old(self).pending_binding_requests@, now), m.transaction_id@, bi)
                && kept(old(self).pending_binding_requests@, now)[bi].destination_address@ == remote_address@
                && kept(old(self).pending_binding_requests@, now)[bi].destination_port == remote_port
                && #[trigger] first_pair(*old(self), local as int, ri, pi) ==> success_effect(
                    *old(self), *final(self), kept(old(self).pending_binding_requests@, now), bi, pi),
    {
        let ok = if m.class == StunClass::SuccessResponse {
            check_message_integrity(m.raw.as_slice(), self.ufrag_pwd.remote_pwd.as_str().as_bytes())
        } else {
            check_message_integrity(m.raw.as_slice(), self.ufrag_pwd.local_pwd.as_str().as_bytes())
        };
        assert(m.class == StunClass::SuccessResponse ==> ok == integrity_valid(m.raw@, vstd::utf8::encode_utf8(self.ufrag_pwd.remote_pwd@)));
        self.handle_inbound_checked(m, local, remote_address, remote_port, now, ok);
    }

    /// A datagram arrived on local candidate `local` from
    /// `remote_address`:`remote_port`. A STUN datagram is handled as
    /// `handle_inbound` says if it decoded, and is taken exactly then; any
    /// other datagram is taken only from a known remote candidate.
    pub fn handle_inbound_candidate_msg(
        &mut self,
        is_stun: bool,
        decoded: Option<StunMessage>,
        local: usize,
        remote_address: &String,
        remote_port: u16,
        now: u64,
    ) -> (r: bool)
        requires
            old(self).wf(),
        ensures
            final(self).wf(),
            is_stun ==> r == decoded is Some,
            is_stun && decoded is None ==> *final(self) == *old(self),
            !is_stun ==> r == exists|i: int|
                0 <= i < old(self).remote_candidates@.len() && (#[trigger] old(self).remote_candidates@[i]).address@
                    == remote_address@ && old(self).remote_candidates@[i].port == remote_port,
            !is_stun ==> final(self).checklist == old(self).checklist && final(self).transmits == old(self).transmits,
            is_stun && decoded is Some && role_conflict(decoded->Some_0, old(self).is_controlling) ==> *final(self) == *old(self),
            is_stun && decoded is Some && decoded->Some_0.class == StunClass::Request && !username_is(decoded->Some_0,
                expected_username(old(self).ufrag_pwd)) ==> *final(self) == *old(self),
    {
        if is_stun {
            match decoded {
                Some(m) => {
                    self.handle_inbound(&m, local, remote_address, remote_port, now);
                    true
                },
                None => false,
            }
        } else {
            self.validate_non_stun_traffic(remote_address, remote_port, now)
        }
    }

    /// Whether non-STUN traffic from this address comes from a known remote
    /// candidate; if so, that candidate was heard from at `now`.
    pub fn validate_non_stun_traffic(&mut self, remote_address: &String, remote_port: u16, now: u64) -> (r: bool)
        requires
            old(self).wf(),
        ensures
            final(self).wf(),
            r == exists|i: int|
                0 <= i < old(self).remote_candidates@.len() && (#[trigger] old(self).remote_candidates@[i]).address@
                    == remote_address@ && old(self).remote_candidates@[i].port == remote_port,
            final(self).checklist == old(self).checklist,
            final(self).transmits == old(self).transmits,
            final(self).connection_state == old(self).connection_state,
    {
        match self.find_remote_candidate(remote_address, remote_port) {
            Some(i) => {
                self.touch_remote(i, now);
                true
            },
            None => false,
        }
    }

    /// Time since the selected pair's remote candidate was last heard from.
    pub open spec fn silence(&self, now: u64) -> int {
        let last = self.remote_candidates@[self.checklist@[self.selected_pair->Some_0 as int].remote as int].last_received;
        if now > last {
            now - last
        } else {
            0
        }
    }

    /// Checks that the selected pair is still alive: silent for longer than
    /// the disconnected timeout it is Disconnected, and for longer than that
    /// and the failed timeout together it is Failed (a zero timeout turns its
    /// check off); otherwise Connected. Returns whether a pair is selected.
    pub fn validate_selected_pair(&mut self, now: u64) -> (r: bool)
        requires
            old(self).wf(),
        ensures
            final(self).wf(),
            config_same(old(self), final(self)),
            r == old(self).selected_pair is Some,
            old(self).selected_pair is None ==> *final(self) == *old(self),
            old(self).selected_pair is Some ==> final(self).connection_state == if old(self).failed_timeout != 0
                && old(self).silence(now) > old(self).disconnected_timeout + old(self).failed_timeout {
                ConnectionState::Failed
            } else if old(self).disconnected_timeout != 0 && old(self).silence(now) > old(self).disconnected_timeout {
                ConnectionState::Disconnected
            } else {
                ConnectionState::Connected
            },
    {
        let sel = match self.selected_pair {
            Some(i) => i,
            None => {
                return false;
            },
        };
        let remote = self.checklist[sel].remote;
        let last = self.remote_candidates[remote].last_received;
        let silence: u64 = if now > last {
            now - last
        } else {
            0
        };
        let limit: u128 = self.disconnected_timeout as u128 + self.failed_timeout as u128;
        if self.failed_timeout != 0 && silence as u128 > limit {
            self.update_connection_state(ConnectionState::Failed);
        } else if self.disconnected_timeout != 0 && silence > self.disconnected_timeout {
            self.update_connection_state(ConnectionState::Disconnected);
        } else {
            self.update_connection_state(ConnectionState::Connected);
        }
        true
    }

    /// Sends a binding request on the selected pair when nothing was sent on
    /// it and nothing heard from it for longer than the keepalive interval
    /// (zero turns keepalives off).
    pub fn check_keepalive(&mut self, now: u64)
        requires
            old(self).wf(),
        ensures
            final(self).wf(),
            config_same(old(self), final(self)),
            final(self).checklist == old(self).checklist,
            final(self).connection_state == old(self).connection_state,
            final(self).selected_pair == old(self).selected_pair,
            old(self).selected_pair is None || old(self).keepalive_interval == 0 ==> final(self).transmits
                == old(self).transmits,
            old(self).selected_pair matches Some(i) ==> {
                let p = old(self).checklist@[i as int];
                let due = old(self).keepalive_interval != 0 && elapsed(now, old(self).local_candidates@[p.local as int].last_sent)
                    > old(self).keepalive_interval && elapsed(now, old(self).remote_candidates@[p.remote as int].last_received)
                    > old(self).keepalive_interval;
                &&& due ==> final(self).transmits@.len() == old(self).transmits@.len() + 1
                    && final(self).transmits@.take(old(self).transmits@.len() as int) == old(self).transmits@
                    && request_on(*old(self), p, final(self).transmits@.last())
                &&& !due ==> final(self).transmits == old(self).transmits
            },
    {
        let sel = match self.selected_pair {
            Some(i) => i,
            None => {
                return;
            },
        };
        if self.keepalive_interval == 0 {
            return;
        }
        let local = self.checklist[sel].local;
        let remote = self.checklist[sel].remote;
        let last_sent = self.local_candidates[local].last_sent;
        let last_received = self.remote_candidates[remote].last_received;
        let since_sent: u64 = if now > last_sent {
            now - last_sent
        } else {
            0
        };
        let since_received: u64 = if now > last_received {
            now - last_received
        } else {
            0
        };
        if since_sent > self.keepalive_interval && since_received > self.keepalive_interval {
            self.ping_candidate(local, remote, false, now);
        }
    }

    /// The succeeded pair of highest priority, if any.
    pub fn get_best_valid_candidate_pair(&self) -> (r: Option<usize>)
        requires
            self.wf(),
        ensures
            r matches Some(i) ==> i < self.checklist@.len() && self.checklist@[i as int].state
                == CandidatePairState::Succeeded,
            r is None ==> forall|i: int|
                0 <= i < self.checklist@.len() ==> (#[trigger] self.checklist@[i]).state
                    != CandidatePairState::Succeeded,
    {
        let mut best: Option<usize> = None;
        let mut best_priority: u128 = 0;
        let mut i: usize = 0;
        while i < self.checklist.len()
            invariant
                self.wf(),
                i <= self.checklist@.len(),
                best matches Some(b) ==> b < i && self.checklist@[b as int].state == CandidatePairState::Succeeded,
                best is None ==> forall|j: int|
                    0 <= j < i ==> (#[trigger] self.checklist@[j]).state != CandidatePairState::Succeeded,
            decreases self.checklist@.len() - i,
        {
            let p = self.checklist[i];
            if p.state == CandidatePairState::Succeeded {
                let prio = crate::candidate::pair_priority(
                    self.local_candidates[p.local].priority(),
                    self.remote_candidates[p.remote].priority(),
                    self.is_controlling,
                );
                if best.is_none() || prio > best_priority {
                    best = Some(i);
                    best_priority = prio;
                }
            }
            i = i + 1;
        }
        best
    }

    /// Runs the checks that the current state calls for: a controlling
    /// agent nominates its best succeeded pair once it has one, and either
    /// side keeps checking until a pair is selected, then watches it.
    pub fn contact_candidates(&mut self, now: u64)
        requires
            old(self).wf(),
        ensures
            final(self).wf(),
            final(self).requests_bounded(),
            config_same(old(self), final(self)),
            old(self).selected_pair is None && (!old(self).is_controlling || (old(self).nominated_pair is None
                && forall|i: int| 0 <= i < old(self).checklist@.len() ==> (#[trigger] old(self).checklist@[i]).state
                != CandidatePairState::Succeeded)) ==> final(self).transmits@.len() == old(self).transmits@.len()
                + count_pinged(old(self).checklist@, old(self).max_binding_requests) && forall|k: int|
                old(self).transmits@.len() <= k < final(self).transmits@.len() ==> #[trigger] sent_on_pinged(*old(self), final(self).transmits@[k]),
            old(self).selected_pair is None && old(self).is_controlling && old(self).nominated_pair is Some
                ==> final(self).transmits@.len() == old(self).transmits@.len() + 1
                && final(self).transmits@.last().message.class == StunClass::Request
                && final(self).transmits@.last().message.use_candidate
                && final(self).transmits@.last().local == old(self).checklist@[old(self).nominated_pair->Some_0 as int].local
                && final(self).transmits@.last().remote_address@ == old(self).remote_candidates@[old(self).checklist@[old(self).nominated_pair->Some_0 as int].remote as int].address@
                && final(self).nominated_pair == old(self).nominated_pair,
            old(self).selected_pair is None && old(self).is_controlling && old(self).nominated_pair is None
                && (exists|i: int| 0 <= i < old(self).checklist@.len() && (#[trigger] old(self).checklist@[i]).state
                == CandidatePairState::Succeeded) ==> final(self).transmits@.len() == old(self).transmits@.len() + 1
                && final(self).transmits@.last().message.class == StunClass::Request
                && final(self).transmits@.last().message.use_candidate
                && (final(self).nominated_pair matches Some(p) && old(self).checklist@[p as int].state == CandidatePairState::Succeeded),
    {
        if self.selected_pair.is_some() {
            if self.validate_selected_pair(now) {
                self.check_keepalive(now);
            }
        } else if self.is_controlling {
            let nominated = match self.nominated_pair {
                Some(p) => Some(p),
                None => self.get_best_valid_candidate_pair(),
            };
            match nominated {
                Some(p) => {
                    self.nominated_pair = Some(p);
                    let local = self.checklist[p].local;
                    let remote = self.checklist[p].remote;
                    self.ping_candidate(local, remote, true, now);
                },
                None => self.ping_all_candidates(now),
            }
        } else {
            self.ping_all_candidates(now);
        }
    }

    /// One tick of the agent's supervision: a failed agent does nothing; an
    /// agent that has been checking for longer than the disconnected and
    /// failed timeouts together fails; otherwise it contacts its candidates.
    pub fn contact(&mut self, now: u64)
        requires
            old(self).wf(),
        ensures
            final(self).wf(),
            config_same(old(self), final(self)),
            old(self).connection_state == ConnectionState::Failed ==> *final(self) == *old(self),
            old(self).checking_too_long(now) ==> final(self).connection_state == ConnectionState::Failed
                && final(self).remote_candidates@.len() == 0 && final(self).transmits == old(self).transmits,
            old(self).connection_state != ConnectionState::Failed && !old(self).checking_too_long(now)
                && old(self).selected_pair is None && old(self).is_controlling && old(self).nominated_pair is None
                && (exists|i: int| 0 <= i < old(self).checklist@.len() && (#[trigger] old(self).checklist@[i]).state
                == CandidatePairState::Succeeded) ==> final(self).transmits@.len() == old(self).transmits@.len() + 1
                && final(self).transmits@.last().message.class == StunClass::Request
                && final(self).transmits@.last().message.use_candidate,
            old(self).connection_state != ConnectionState::Failed && !old(self).checking_too_long(now)
                && old(self).selected_pair is None && !old(self).is_controlling ==> final(self).transmits@.len()
                == old(self).transmits@.len() + count_pinged(old(self).checklist@, old(self).max_binding_requests),
    {
        if self.connection_state == ConnectionState::Failed {
            return;
        }
        if self.connection_state == ConnectionState::Checking {
            let since = match self.checking_since {
                Some(t) => t,
                None => {
                    self.checking_since = Some(now);
                    now
                },
            };
            let elapsed: u64 = if now > since {
                now - since
            } else {
                0
            };
            if elapsed as u128 > self.disconnected_timeout as u128 + self.failed_timeout as u128 {
                self.update_connection_state(ConnectionState::Failed);
                return;
            }
        }
        self.contact_candidates(now);
    }

    /// Whether the agent has been checking since before `now` for longer
    /// than the disconnected and failed timeouts together.
    pub open spec fn checking_too_long(&self, now: u64) -> bool {
        &&& self.connection_state == ConnectionState::Checking
        &&& self.checking_since matches Some(t)
        &&& now > t
        &&& now - t > self.disconnected_timeout + self.failed_timeout
    }

    /// The timer of the agent fired at `now`.
    pub fn handle_timeout(&mut self, now: u64)
        requires
            old(self).wf(),
        ensures
            final(self).wf(),
            config_same(old(self), final(self)),
            old(self).connection_state == ConnectionState::Failed ==> *final(self) == *old(self),
            old(self).checking_too_long(now) ==> final(self).connection_state == ConnectionState::Failed
                && final(self).remote_candidates@.len() == 0,
            old(self).connection_state != ConnectionState::Failed && !old(self).checking_too_long(now)
                && old(self).selected_pair is None && old(self).is_controlling && old(self).nominated_pair is None
                && (exists|i: int| 0 <= i < old(self).checklist@.len() && (#[trigger] old(self).checklist@[i]).state
                == CandidatePairState::Succeeded) ==> final(self).transmits@.len() == old(self).transmits@.len() + 1
                && final(self).transmits@.last().message.class == StunClass::Request
                && final(self).transmits@.last().message.use_candidate,
            old(self).connection_state != ConnectionState::Failed && !old(self).checking_too_long(now)
                && old(self).selected_pair is None && !old(self).is_controlling ==> final(self).transmits@.len()
                == old(self).transmits@.len() + count_pinged(old(self).checklist@, old(self).max_binding_requests),
    {
        self.contact(now);
    }

    /// Starts checking connectivity with the remote agent's credentials, in
    /// the given role.
    pub fn start_connectivity_checks(&mut self, is_controlling: bool, remote_ufrag: String, remote_pwd: String, now: u64) -> (r: Result<(), Error>)
        requires
            old(self).wf(),
        ensures
            final(self).wf(),
            remote_ufrag@.len() == 0 ==> r == Err::<(), Error>(Error::RemoteUfragEmpty),
            remote_ufrag@.len() > 0 && remote_pwd@.len() == 0 ==> r == Err::<(), Error>(Error::RemotePwdEmpty),
            remote_ufrag@.len() > 0 && remote_pwd@.len() > 0 ==> r is Ok
                && final(self).connection_state == ConnectionState::Checking
                && final(self).is_controlling == is_controlling
                && final(self).ufrag_pwd.remote_ufrag@ == remote_ufrag@
                && final(self).ufrag_pwd.remote_pwd@ == remote_pwd@
                && final(self).checking_since == Some(now),
    {
        match self.set_remote_credentials(remote_ufrag, remote_pwd) {
            Ok(()) => {},
            Err(e) => {
                return Err(e);
            },
        }
        self.is_controlling = is_controlling;
        self.update_connection_state(ConnectionState::Checking);
        self.start_time = now;
        self.checking_since = Some(now);
        Ok(())
    }
}

/// The agent's state and logic under the name that the multi-network
/// variant of the agent goes by.
pub type AgentInternal = Agent;

proof fn lemma_count_pinged_prefix(s: Seq<CandidatePair>, max: u16, j: int, i: int)
    requires
        0 <= j < i <= s.len(),
        pinged(s[j], max),
    ensures
        count_pinged(s.take(j), max) < count_pinged(s.take(i), max),
    decreases i - j,
{
    assert(s.take(j + 1).drop_last() =~= s.take(j));
    assert(s.take(j + 1).last() == s[j]);
    if j + 1 < i {
        lemma_count_pinged_mono(s, max, j + 1, i);
    }
}

proof fn lemma_count_pinged_mono(s: Seq<CandidatePair>, max: u16, j: int, i: int)
    requires
        0 <= j <= i <= s.len(),
    ensures
        count_pinged(s.take(j), max) <= count_pinged(s.take(i), max),
    decreases i - j,
{
    if j < i {
        lemma_count_pinged_mono(s, max, j, i - 1);
        assert(s.take(i).drop_last() =~= s.take(i - 1));
    }
}

/// Every pair that an agent checks stays within its budget of binding
/// requests, however often the checks run.
pub proof fn lemma_binding_requests_bounded(a: Agent)
    requires
        a.wf(),
    ensures
        a.requests_bounded(),
{
}
} // verus!
