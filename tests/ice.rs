use rtc_transport::agent::{Agent, AgentConfig, ConnectionState, StunClass, StunMessage, Transmit, METHOD_BINDING};
use rtc_transport::candidate::{
    pair_priority, CandidateBase, CandidateBaseConfig, CandidateHostConfig, CandidatePairState,
    CandidateType, TcpType,
};
use rtc_transport::error::Error;
use stun::agent::TransactionId;
use stun::attributes::{ATTR_ICE_CONTROLLED, ATTR_ICE_CONTROLLING, ATTR_PRIORITY, ATTR_USERNAME, ATTR_USE_CANDIDATE};
use stun::fingerprint::FINGERPRINT;
use stun::integrity::MessageIntegrity;
use stun::message::{
    Message, MessageType, Setter, CLASS_ERROR_RESPONSE, CLASS_INDICATION, CLASS_REQUEST,
    CLASS_SUCCESS_RESPONSE,
};
use stun::textattrs::TextAttribute;
use stun::xoraddr::XorMappedAddress;

fn encode(msg: &StunMessage) -> Vec<u8> {
    let mut m = Message::new();
    let class = match msg.class {
        StunClass::Request => CLASS_REQUEST,
        StunClass::Indication => CLASS_INDICATION,
        StunClass::SuccessResponse => CLASS_SUCCESS_RESPONSE,
        StunClass::ErrorResponse => CLASS_ERROR_RESPONSE,
    };
    m.typ = MessageType { method: stun::message::METHOD_BINDING, class };
    m.transaction_id = TransactionId(msg.transaction_id);
    m.write_header();
    if let Some(u) = &msg.username {
        TextAttribute::new(ATTR_USERNAME, u.clone()).add_to(&mut m).unwrap();
    }
    if msg.use_candidate {
        m.add(ATTR_USE_CANDIDATE, &[]);
    }
    if let Some(t) = msg.ice_controlling {
        m.add(ATTR_ICE_CONTROLLING, &t.to_be_bytes());
    }
    if let Some(t) = msg.ice_controlled {
        m.add(ATTR_ICE_CONTROLLED, &t.to_be_bytes());
    }
    if let Some(p) = msg.priority {
        m.add(ATTR_PRIORITY, &p.to_be_bytes());
    }
    if let Some((ip, port)) = &msg.xor_mapped_address {
        XorMappedAddress { ip: ip.parse().unwrap(), port: *port }.add_to(&mut m).unwrap();
    }
    if let Some(k) = &msg.integrity_key {
        MessageIntegrity::new_short_term_integrity(k.clone()).add_to(&mut m).unwrap();
    }
    FINGERPRINT.add_to(&mut m).unwrap();
    m.raw.clone()
}

fn eight(v: Vec<u8>) -> u64 {
    let mut b = [0u8; 8];
    b.copy_from_slice(&v[..8]);
    u64::from_be_bytes(b)
}

fn decode(raw: &[u8]) -> StunMessage {
    let mut m = Message::new();
    m.write(raw).unwrap();
    let class = if m.typ.class == CLASS_REQUEST {
        StunClass::Request
    } else if m.typ.class == CLASS_INDICATION {
        StunClass::Indication
    } else if m.typ.class == CLASS_SUCCESS_RESPONSE {
        StunClass::SuccessResponse
    } else {
        StunClass::ErrorResponse
    };
    StunMessage {
        method: if m.typ.method == stun::message::METHOD_BINDING { METHOD_BINDING } else { 0xffff },
        class,
        transaction_id: m.transaction_id.0,
        username: TextAttribute::get_from_as(&m, ATTR_USERNAME).ok().map(|t| t.text),
        use_candidate: m.contains(ATTR_USE_CANDIDATE),
        ice_controlling: m.get(ATTR_ICE_CONTROLLING).ok().map(eight),
        ice_controlled: m.get(ATTR_ICE_CONTROLLED).ok().map(eight),
        priority: None,
        xor_mapped_address: None,
        integrity_key: None,
        raw: raw.to_vec(),
    }
}

fn host(address: &str, port: u16) -> CandidateBase {
    CandidateHostConfig {
        base_config: CandidateBaseConfig {
            candidate_id: String::new(),
            network: "udp".to_string(),
            address: address.to_string(),
            port,
            component: 1,
            priority: 0,
            foundation: String::new(),
        },
        tcp_type: TcpType::Unspecified,
    }
    .new_candidate_host()
    .unwrap()
}

fn config(controlling: bool, ufrag: &str, pwd: &str) -> AgentConfig {
    AgentConfig {
        urls: vec![],
        local_ufrag: ufrag.to_string(),
        local_pwd: pwd.to_string(),
        is_controlling: controlling,
        lite: false,
        candidate_types: vec![],
        max_binding_requests: None,
        host_acceptance_min_wait: None,
        disconnected_timeout: None,
        failed_timeout: None,
        keepalive_interval: None,
        check_interval: 0,
        insecure_skip_verify: false,
    }
}

const PWD_A: &str = "aaaaaaaaaaaaaaaaaaaaaaaa";
const PWD_B: &str = "bbbbbbbbbbbbbbbbbbbbbbbb";

fn deliver(from: &mut Agent, to: &mut Agent, now: u64) -> Vec<StunMessage> {
    let mut seen = vec![];
    while let Some(t) = from.poll_transmit() {
        let Transmit { local, message, .. } = t;
        let raw = encode(&message);
        let m = decode(&raw);
        let src = &from.local_candidates[local];
        let (addr, port) = (src.address.clone(), src.port);
        to.handle_inbound(&m, 0, &addr, port, now);
        seen.push(m);
    }
    seen
}

#[test]
fn host_candidate_keeps_its_fields() {
    let c = host("127.0.0.1", 40000);
    assert_eq!(c.candidate_type, CandidateType::Host);
    assert_eq!(c.address, "127.0.0.1");
    assert_eq!(c.port, 40000);
    assert!(c.id.starts_with("candidate:"));
    assert_eq!(c.id.len(), 42);
    assert_eq!(c.priority(), 2130706431);
}

#[test]
fn pair_priority_follows_the_formula() {
    let g: u128 = 2130706431;
    let d: u128 = 1694498815;
    assert_eq!(pair_priority(2130706431, 1694498815, true), (1u128 << 32) * d + 2 * g + 1);
    assert_eq!(pair_priority(2130706431, 1694498815, false), (1u128 << 32) * d + 2 * g);
}

#[test]
fn lite_agent_must_gather_host_candidates_only() {
    let mut cfg = config(false, "ufrag", PWD_A);
    cfg.lite = true;
    assert_eq!(Agent::new(cfg).err(), Some(Error::LiteUsingNonHostCandidates));
    let mut cfg = config(false, "ufrag", PWD_A);
    cfg.lite = true;
    cfg.candidate_types = vec![CandidateType::Host];
    assert!(Agent::new(cfg).is_ok());
}

#[test]
fn urls_without_reflexive_or_relay_types_are_useless() {
    let mut cfg = config(false, "ufrag", PWD_A);
    cfg.urls = vec!["stun:example.org".to_string()];
    cfg.candidate_types = vec![CandidateType::Host];
    assert_eq!(Agent::new(cfg).err(), Some(Error::UselessUrlsProvided));
}

#[test]
fn short_credentials_are_refused() {
    assert_eq!(Agent::new(config(false, "ab", PWD_A)).err(), Some(Error::LocalUfragInsufficientBits));
    assert_eq!(Agent::new(config(false, "abc", "short")).err(), Some(Error::LocalPwdInsufficientBits));
    let a = Agent::new(config(false, "", "")).unwrap();
    let (u, p) = a.get_local_user_credentials();
    assert_eq!(u.len(), 16);
    assert_eq!(p.len(), 32);
    assert_eq!(a.connection_state, ConnectionState::New);
}

#[test]
fn remote_credentials_must_not_be_empty() {
    let mut a = Agent::new(config(false, "ufrag", PWD_A)).unwrap();
    assert_eq!(a.set_remote_credentials(String::new(), "p".to_string()), Err(Error::RemoteUfragEmpty));
    assert_eq!(a.set_remote_credentials("u".to_string(), String::new()), Err(Error::RemotePwdEmpty));
    assert_eq!(a.set_remote_credentials("u".to_string(), "p".to_string()), Ok(()));
    assert_eq!(a.get_remote_user_credentials(), ("u".to_string(), "p".to_string()));
}

#[test]
fn candidates_form_pairs_once() {
    let mut a = Agent::new(config(true, "ufragA", PWD_A)).unwrap();
    a.add_local_candidate(host("127.0.0.1", 40000)).unwrap();
    a.add_remote_candidate(host("127.0.0.1", 40001)).unwrap();
    a.add_remote_candidate(host("127.0.0.1", 40002)).unwrap();
    a.add_remote_candidate(host("127.0.0.1", 40001)).unwrap();
    assert_eq!(a.checklist.len(), 2);
    assert_eq!(a.checklist[1].remote, 1);
    assert_eq!(a.checklist[0].state, CandidatePairState::Waiting);
}

#[test]
fn mdns_remote_candidate_is_refused() {
    let mut a = Agent::new(config(true, "ufragA", PWD_A)).unwrap();
    assert_eq!(a.add_remote_candidate(host("peer.local", 5000)), Err(Error::MulticastDnsNotSupported));
    assert_eq!(a.remote_candidates.len(), 0);
}

#[test]
fn binding_requests_stop_at_the_maximum() {
    let mut cfg = config(true, "ufragA", PWD_A);
    cfg.max_binding_requests = Some(2);
    let mut a = Agent::new(cfg).unwrap();
    a.add_local_candidate(host("127.0.0.1", 40000)).unwrap();
    a.add_remote_candidate(host("127.0.0.1", 40001)).unwrap();
    a.start_connectivity_checks(true, "ufragB".to_string(), PWD_B.to_string(), 0).unwrap();
    for t in 0..5u64 {
        a.ping_all_candidates(t);
        assert!(a.checklist[0].binding_request_count <= 2);
    }
    assert_eq!(a.checklist[0].state, CandidatePairState::Failed);
    let mut sent = 0;
    while a.poll_transmit().is_some() {
        sent += 1;
    }
    assert_eq!(sent, 2);
}

#[test]
fn expired_binding_requests_are_dropped() {
    let mut a = Agent::new(config(true, "ufragA", PWD_A)).unwrap();
    a.add_local_candidate(host("127.0.0.1", 40000)).unwrap();
    a.add_remote_candidate(host("127.0.0.1", 40001)).unwrap();
    a.start_connectivity_checks(true, "ufragB".to_string(), PWD_B.to_string(), 0).unwrap();
    a.ping_all_candidates(0);
    assert_eq!(a.pending_binding_requests.len(), 1);
    let id = a.pending_binding_requests[0].transaction_id;
    a.invalidate_pending_binding_requests(499);
    assert_eq!(a.pending_binding_requests.len(), 1);
    assert!(a.handle_inbound_binding_success(id, 600).is_none());
    assert_eq!(a.pending_binding_requests.len(), 0);
}

fn pair_of_agents() -> (Agent, Agent) {
    let mut a = Agent::new(config(true, "ufragA", PWD_A)).unwrap();
    let mut b = Agent::new(config(false, "ufragB", PWD_B)).unwrap();
    a.add_local_candidate(host("127.0.0.1", 40000)).unwrap();
    a.add_remote_candidate(host("127.0.0.1", 40001)).unwrap();
    b.add_local_candidate(host("127.0.0.1", 40001)).unwrap();
    b.add_remote_candidate(host("127.0.0.1", 40000)).unwrap();
    a.start_connectivity_checks(true, "ufragB".to_string(), PWD_B.to_string(), 0).unwrap();
    b.start_connectivity_checks(false, "ufragA".to_string(), PWD_A.to_string(), 0).unwrap();
    (a, b)
}

#[test]
fn ice_connectivity_between_two_agents() {
    let (mut a, mut b) = pair_of_agents();
    let check_interval = a.check_interval;
    let mut saw_nomination = false;
    let mut t = 0;
    while t <= check_interval {
        a.handle_timeout(t);
        b.handle_timeout(t);
        let to_b = deliver(&mut a, &mut b, t);
        if to_b.iter().any(|m| m.class == StunClass::Request && m.use_candidate) {
            saw_nomination = true;
            assert_eq!(b.connection_state, ConnectionState::Connected);
        }
        let to_a = deliver(&mut b, &mut a, t);
        if saw_nomination {
            assert!(to_a.iter().any(|m| m.class == StunClass::SuccessResponse));
        }
        deliver(&mut a, &mut b, t);
        t += check_interval;
    }
    assert!(saw_nomination);
    assert_eq!(a.connection_state, ConnectionState::Connected);
    assert_eq!(b.connection_state, ConnectionState::Connected);
    assert!(a.get_selected_candidate_pair().unwrap().nominated);
    assert!(b.get_selected_candidate_pair().is_some());
}

#[test]
fn username_mismatch_is_discarded_without_response() {
    let (_, mut b) = pair_of_agents();
    let before = b.checklist[0].state;
    let msg = StunMessage {
        method: METHOD_BINDING,
        class: StunClass::Request,
        transaction_id: [7u8; 12],
        username: Some("wrong:remote".to_string()),
        use_candidate: false,
        ice_controlling: Some(1),
        ice_controlled: None,
        priority: Some(1),
        xor_mapped_address: None,
        integrity_key: Some(PWD_B.to_string()),
        raw: vec![],
    };
    let m = decode(&encode(&msg));
    b.handle_inbound(&m, 0, &"127.0.0.1".to_string(), 40000, 5);
    assert!(b.poll_transmit().is_none());
    assert_eq!(b.checklist[0].state, before);
    assert_eq!(b.connection_state, ConnectionState::Checking);
}

#[test]
fn bad_integrity_is_discarded_and_good_integrity_answered() {
    let (_, mut b) = pair_of_agents();
    let mut msg = StunMessage {
        method: METHOD_BINDING,
        class: StunClass::Request,
        transaction_id: [9u8; 12],
        username: Some("ufragB:ufragA".to_string()),
        use_candidate: false,
        ice_controlling: Some(1),
        ice_controlled: None,
        priority: Some(1),
        xor_mapped_address: None,
        integrity_key: Some("not-the-password-at-all".to_string()),
        raw: vec![],
    };
    let m = decode(&encode(&msg));
    b.handle_inbound(&m, 0, &"127.0.0.1".to_string(), 40000, 5);
    assert!(b.poll_transmit().is_none());
    msg.integrity_key = Some(PWD_B.to_string());
    let m = decode(&encode(&msg));
    b.handle_inbound(&m, 0, &"127.0.0.1".to_string(), 40000, 5);
    let resp = b.poll_transmit().unwrap();
    assert_eq!(resp.message.class, StunClass::SuccessResponse);
    assert_eq!(resp.message.transaction_id, [9u8; 12]);
    assert_eq!(resp.message.xor_mapped_address, Some(("127.0.0.1".to_string(), 40000)));
}

#[test]
fn role_conflict_is_discarded() {
    let (mut a, _) = pair_of_agents();
    let msg = StunMessage {
        method: METHOD_BINDING,
        class: StunClass::Request,
        transaction_id: [3u8; 12],
        username: Some("ufragA:ufragB".to_string()),
        use_candidate: false,
        ice_controlling: Some(5),
        ice_controlled: None,
        priority: Some(1),
        xor_mapped_address: None,
        integrity_key: Some(PWD_A.to_string()),
        raw: vec![],
    };
    let m = decode(&encode(&msg));
    a.handle_inbound(&m, 0, &"127.0.0.1".to_string(), 40001, 5);
    assert!(a.poll_transmit().is_none());
}

#[test]
fn close_moves_to_closed_and_drops_candidates() {
    let (mut a, _) = pair_of_agents();
    assert_eq!(a.close(), Ok(()));
    assert_eq!(a.connection_state, ConnectionState::Closed);
    assert_eq!(a.local_candidates.len(), 0);
    assert!(a.get_selected_candidate_pair().is_none());
}

#[test]
fn checking_too_long_fails_the_agent() {
    let (mut a, _) = pair_of_agents();
    a.handle_timeout(0);
    a.handle_timeout(30001);
    assert_eq!(a.connection_state, ConnectionState::Failed);
    assert_eq!(a.remote_candidates.len(), 0);
}
