use vstd::prelude::*;
use crate::config::HandshakeConfig;
use crate::content::{Alert, AlertLevel, Content, OutgoingRecord, Packet, content_bytes};
use crate::content::{content_type_of, record_bytes, record_header, seal_record, ALERT_CLOSE_NOTIFY};
use crate::error::Error;
use crate::flight::{Flight, FlightError};
use crate::fragment::{fragment_bytes, fragment_handshake, is_fragment_count};
use crate::handshake::{Handshake, HandshakeHeader};
use crate::handshake_cache::{CachedMessage, HandshakeCache, has_message};
use crate::record_layer::{RecordLayerHeader, MAX_SEQUENCE_NUMBER, CONTENT_TYPE_HANDSHAKE, RECORD_LAYER_HEADER_SIZE};
use crate::replay_detector::SlidingWindowDetector;
use crate::srtp::SrtpProtectionProfile;
use crate::record_layer::{header_decodes, header_of};
use vstd::slice::{slice_subrange, slice_to_vec};

verus! {

#[derive(Clone, Copy, Debug, PartialEq, Eq, Structural)]
pub enum HandshakeState {
    Errored,
    Preparing,
    Sending,
    Waiting,
    Finished,
}

/// What the handshake engine needs from its caller before it can go on.
#[derive(Clone, Copy, Debug, PartialEq, Eq, Structural)]
pub enum HandshakeAction {
    /// Generate the current flight's packets and hand them to `prepare`.
    Generate,
    /// Parse the buffered handshake messages with the current flight and hand
    /// the result to `parsed`.
    Parse,
    /// The handshake has just completed.
    Completed,
    /// Nothing to do until a datagram arrives or the timer fires.
    Idle,
}

/// The connection's cryptographic state as far as the record layer and the
/// handshake engine read it.
#[derive(Debug)]
pub struct State {
    pub is_client: bool,
    pub local_epoch: u16,
    pub remote_epoch: u16,
    /// Next record sequence number to use, per epoch.
    pub local_sequence_number: Vec<u64>,
    /// Message sequence of the next handshake message this side sends.
    pub handshake_send_sequence: u16,
    /// Whether the negotiated cipher suite holds its keys.
    pub cipher_suite_initialized: bool,
    pub srtp_protection_profile: SrtpProtectionProfile,
}

impl State {
    /// A copy of the state.
    pub fn duplicate(&self) -> (r: State)
        ensures
            r.is_client == self.is_client,
            r.local_epoch == self.local_epoch,
            r.remote_epoch == self.remote_epoch,
            r.local_sequence_number@ == self.local_sequence_number@,
            r.handshake_send_sequence == self.handshake_send_sequence,
            r.cipher_suite_initialized == self.cipher_suite_initialized,
            r.srtp_protection_profile == self.srtp_protection_profile,
    {
        let mut lsn: Vec<u64> = Vec::new();
        lsn.extend_from_slice(self.local_sequence_number.as_slice());
        assert(lsn@ =~= self.local_sequence_number@);
        State {
            is_client: self.is_client,
            local_epoch: self.local_epoch,
            remote_epoch: self.remote_epoch,
            local_sequence_number: lsn,
            handshake_send_sequence: self.handshake_send_sequence,
            cipher_suite_initialized: self.cipher_suite_initialized,
            srtp_protection_profile: self.srtp_protection_profile,
        }
    }
}

/// Which side a connection is, in words.
pub fn srv_cli_str(is_client: bool) -> (r: String)
    ensures
        is_client ==> r@ == "client"@,
        !is_client ==> r@ == "server"@,
{
    if is_client {
        String::from_str("client")
    } else {
        String::from_str("server")
    }
}

/// Next sequence number of `epoch` when the per-epoch counters are `lsn`.
pub open spec fn next_seq(lsn: Seq<u64>, epoch: int) -> u64 {
    if 0 <= epoch < lsn.len() {
        lsn[epoch]
    } else {
        0
    }
}

/// The plain values of an outgoing record: header, clear bytes, and whether
/// it is to be encrypted.
pub open spec fn record_view(r: OutgoingRecord) -> (RecordLayerHeader, Seq<u8>, bool) {
    (r.header, r.raw@, r.should_encrypt)
}

/// The clear bytes of each record.
pub open spec fn raw_views(v: Seq<OutgoingRecord>) -> Seq<Seq<u8>> {
    v.map_values(|r: OutgoingRecord| r.raw@)
}

pub open spec fn records_view(v: Seq<OutgoingRecord>) -> Seq<(RecordLayerHeader, Seq<u8>, bool)> {
    v.map_values(|r: OutgoingRecord| record_view(r))
}

/// The message sequence of a handshake packet.
pub open spec fn message_sequence_of(p: Packet) -> Option<u16> {
    match p.content {
        Content::Handshake(h) => Some(h.header.message_sequence),
        _ => None,
    }
}

/// Two packets carry the same record.
pub open spec fn same_packet(a: Packet, b: Packet) -> bool {
    &&& a.epoch == b.epoch
    &&& a.should_encrypt == b.should_encrypt
    &&& content_type_of(a.content) == content_type_of(b.content)
    &&& content_bytes(a.content) == content_bytes(b.content)
    &&& message_sequence_of(a) == message_sequence_of(b)
    &&& a.content.wf() == b.content.wf()
    &&& (a.content matches Content::Handshake(ha) ==> b.content matches Content::Handshake(hb)
        && ha.header == hb.header && ha.body@ == hb.body@)
}

pub fn duplicate_packet(p: &Packet) -> (r: Packet)
    ensures
        same_packet(*p, r),
{
    let content = match &p.content {
        Content::ChangeCipherSpec => Content::ChangeCipherSpec,
        Content::Alert(a) => Content::Alert(*a),
        Content::Handshake(h) => {
            let mut body: Vec<u8> = Vec::new();
            body.extend_from_slice(h.body.as_slice());
            assert(body@ =~= h.body@);
            Content::Handshake(Handshake { header: h.header, body })
        },
        Content::ApplicationData(d) => {
            let mut data: Vec<u8> = Vec::new();
            data.extend_from_slice(d.as_slice());
            assert(data@ =~= d@);
            Content::ApplicationData(data)
        },
    };
    Packet { epoch: p.epoch, content, should_encrypt: p.should_encrypt }
}

/// One DTLS connection, driven step by step by its owner: datagrams and timer
/// ticks go in, records come out, and flight generation and parsing are
/// asked for through `HandshakeAction`.
pub struct DTLSConn {
    pub is_client: bool,
    pub replay_protection_window: usize,
    pub replay_detector: Vec<SlidingWindowDetector>,
    pub incoming_decrypted_packets: Vec<Vec<u8>>,
    pub incoming_encrypted_packets: Vec<Vec<u8>>,
    pub fragment_buffer: crate::fragment_buffer::FragmentBuffer,
    pub cache: HandshakeCache,
    pub outgoing_records: Vec<OutgoingRecord>,
    pub state: State,
    pub handshake_completed: bool,
    pub closed: bool,
    pub current_handshake_state: HandshakeState,
    /// Instant (in milliseconds) at which the retransmit timer fires.
    pub current_retransmit_timer: Option<u64>,
    pub current_flight: Flight,
    /// The packets of the current flight, kept for retransmission.
    pub flights: Option<Vec<Packet>>,
    pub cfg: HandshakeConfig,
    pub retransmit: bool,
    /// Set when reassembled handshake messages are waiting to be parsed.
    pub handshake_rx: bool,
    /// Every record this side has numbered: its epoch and sequence number.
    pub sent_records: Ghost<Seq<(u16, u64)>>,
    /// The message sequence of every handshake message this side has numbered.
    pub sent_messages: Ghost<Seq<u16>>,
}

impl DTLSConn {
    pub open spec fn spec_next_seq(&self, epoch: u16) -> u64 {
        next_seq(self.state.local_sequence_number@, epoch as int)
    }

    pub open spec fn flights_wf(&self) -> bool {
        self.flights matches Some(pkts) ==> forall|i: int|
            0 <= i < pkts@.len() ==> (#[trigger] pkts@[i]).content.wf() && (
            message_sequence_of(pkts@[i]) matches Some(s) ==> s < self.state.handshake_send_sequence)
    }

    pub open spec fn wf(&self) -> bool {
        &&& self.cfg.wf()
        &&& forall|i: int|
            0 <= i < self.state.local_sequence_number@.len() ==> #[trigger] self.state.local_sequence_number@[i]
                <= MAX_SEQUENCE_NUMBER + 1
        &&& forall|i: int|
            0 <= i < self.sent_records@.len() ==> (#[trigger] self.sent_records@[i]).1
                < self.spec_next_seq(self.sent_records@[i].0)
        &&& forall|i: int, j: int|
            0 <= i < j < self.sent_records@.len() && (#[trigger] self.sent_records@[i]).0
                == (#[trigger] self.sent_records@[j]).0 ==> self.sent_records@[i].1
                < self.sent_records@[j].1
        &&& self.sent_messages@.len() == self.state.handshake_send_sequence
        &&& forall|i: int|
            0 <= i < self.sent_messages@.len() ==> #[trigger] self.sent_messages@[i] == i
        &&& forall|i: int|
            0 <= i < self.replay_detector@.len() ==> (#[trigger] self.replay_detector@[i]).wf()
        &&& self.fragment_buffer.wf()
        &&& self.flights_wf()
    }

    /// A connection in its first state: a client about to send its first
    /// flight, or a server waiting for one; with `initial_state`, a connection
    /// resumed from a completed handshake.
    pub fn new(handshake_config: HandshakeConfig, is_client: bool, initial_state: Option<State>) -> (r:
        Self)
        requires
            handshake_config.wf(),
            initial_state matches Some(s) ==> forall|i: int|
                0 <= i < s.local_sequence_number@.len()
                    ==> #[trigger] s.local_sequence_number@[i] <= MAX_SEQUENCE_NUMBER + 1,
        ensures
            r.wf(),
            r.is_client == is_client,
            r.cfg == handshake_config,
            r.replay_protection_window == handshake_config.replay_protection_window,
            r.replay_detector@.len() == 0,
            r.fragment_buffer.cache@.len() == 0,
            r.fragment_buffer.current_message_sequence_number == 0,
            r.cache@.len() == 0,
            r.incoming_decrypted_packets@.len() == 0,
            r.incoming_encrypted_packets@.len() == 0,
            r.flights is None,
            r.current_retransmit_timer is None,
            !r.handshake_rx,
            initial_state matches Some(s) ==> r.state == s,
            !r.handshake_completed,
            !r.closed,
            r.outgoing_records@.len() == 0,
            r.current_handshake_state == (if initial_state is Some {
                HandshakeState::Finished
            } else {
                HandshakeState::Preparing
            }),
            r.current_flight == (match (initial_state is Some, is_client) {
                (true, true) => Flight::Flight5,
                (true, false) => Flight::Flight6,
                (false, true) => Flight::Flight1,
                (false, false) => Flight::Flight0,
            }),
            initial_state is None ==> r.state.local_epoch == 0 && r.state.remote_epoch == 0
                && r.state.is_client == is_client && r.state.handshake_send_sequence == 0
                && forall|e: u16| r.spec_next_seq(e) == 0,
    {
        let (state, flight, fsm) = match initial_state {
            Some(s) => (s, if is_client {
                Flight::Flight5
            } else {
                Flight::Flight6
            }, HandshakeState::Finished),
            None => (
                State {
                    is_client,
                    local_epoch: 0,
                    remote_epoch: 0,
                    local_sequence_number: Vec::new(),
                    handshake_send_sequence: 0,
                    cipher_suite_initialized: false,
                    srtp_protection_profile: SrtpProtectionProfile::Unsupported,
                },
                if is_client {
                    Flight::Flight1
                } else {
                    Flight::Flight0
                },
                HandshakeState::Preparing,
            ),
        };
        let window = handshake_config.replay_protection_window;
        let hs = state.handshake_send_sequence;
        let r = DTLSConn {
            is_client,
            replay_protection_window: window,
            replay_detector: Vec::new(),
            incoming_decrypted_packets: Vec::new(),
            incoming_encrypted_packets: Vec::new(),
            fragment_buffer: crate::fragment_buffer::FragmentBuffer::new(),
            cache: HandshakeCache::new(),
            outgoing_records: Vec::new(),
            state,
            handshake_completed: false,
            closed: false,
            current_handshake_state: fsm,
            current_retransmit_timer: None,
            current_flight: flight,
            flights: None,
            cfg: handshake_config,
            retransmit: false,
            handshake_rx: false,
            sent_records: Ghost(Seq::empty()),
            sent_messages: Ghost(Seq::new(hs as nat, |i: int| i as u16)),
        };
        assert(r.sent_messages@.len() == r.state.handshake_send_sequence);
        r
    }

    pub fn is_handshake_completed(&self) -> (r: bool)
        ensures
            r == self.handshake_completed,
    {
        self.handshake_completed
    }

    pub fn is_connection_closed(&self) -> (r: bool)
        ensures
            r == self.closed,
    {
        self.closed
    }

    pub fn get_local_epoch(&self) -> (r: u16)
        ensures
            r == self.state.local_epoch,
    {
        self.state.local_epoch
    }

    pub fn set_local_epoch(&mut self, epoch: u16)
        requires
            old(self).wf(),
        ensures
            final(self).wf(),
            final(self).state.local_epoch == epoch,
            final(self).outgoing_records@ == old(self).outgoing_records@,
            forall|e: u16| final(self).spec_next_seq(e) == old(self).spec_next_seq(e),
    {
        self.state.local_epoch = epoch;
    }

    /// Basic facts of the connection: a copy of its state.
    pub fn connection_state(&self) -> (r: State)
        ensures
            r.local_epoch == self.state.local_epoch,
            r.remote_epoch == self.state.remote_epoch,
            r.local_sequence_number@ == self.state.local_sequence_number@,
            r.is_client == self.state.is_client,
            r.srtp_protection_profile == self.state.srtp_protection_profile,
    {
        self.state.duplicate()
    }

    /// The SRTP protection profile that the handshake selected.
    pub fn selected_srtpprotection_profile(&self) -> (r: SrtpProtectionProfile)
        ensures
            r == self.state.srtp_protection_profile,
    {
        self.state.srtp_protection_profile
    }

    /// Sets the next sequence number of `epoch`.
    pub fn set_local_sequence_number(&mut self, epoch: u16, next: u64)
        requires
            old(self).wf(),
            next <= MAX_SEQUENCE_NUMBER + 1,
            forall|i: int|
                0 <= i < old(self).sent_records@.len() && (#[trigger] old(self).sent_records@[i]).0
                    == epoch ==> old(self).sent_records@[i].1 < next,
        ensures
            final(self).wf(),
            final(self).spec_next_seq(epoch) == next,
            forall|e: u16| e != epoch ==> final(self).spec_next_seq(e) == old(self).spec_next_seq(e),
            final(self).handshake_completed == old(self).handshake_completed,
            final(self).closed == old(self).closed,
            final(self).state.local_epoch == old(self).state.local_epoch,
            final(self).outgoing_records@ == old(self).outgoing_records@,
    {
        self.grow_sequence_numbers(epoch);
        self.state.local_sequence_number.set(epoch as usize, next);
        assert forall|i: int|
            0 <= i < self.sent_records@.len() implies (#[trigger] self.sent_records@[i]).1
            < self.spec_next_seq(self.sent_records@[i].0) by {
            if self.sent_records@[i].0 != epoch {
                assert(self.spec_next_seq(self.sent_records@[i].0) == old(self).spec_next_seq(
                    self.sent_records@[i].0,
                ));
            }
        }
    }

    /// Makes room for the counter of `epoch` without changing any counter's value.
    fn grow_sequence_numbers(&mut self, epoch: u16)
        requires
            old(self).wf(),
        ensures
            final(self).wf(),
            final(self).state.local_sequence_number@.len() > epoch,
            forall|e: u16| final(self).spec_next_seq(e) == old(self).spec_next_seq(e),
            final(self).sent_records@ == old(self).sent_records@,
            final(self).handshake_completed == old(self).handshake_completed,
            final(self).closed == old(self).closed,
            final(self).state.local_epoch == old(self).state.local_epoch,
            final(self).state.handshake_send_sequence == old(self).state.handshake_send_sequence,
            final(self).outgoing_records@ == old(self).outgoing_records@,
            final(self).cache@ == old(self).cache@,
            final(self).current_handshake_state == old(self).current_handshake_state,
            final(self).flights == old(self).flights,
            final(self).sent_messages == old(self).sent_messages,
            final(self).current_flight == old(self).current_flight,
            final(self).cfg == old(self).cfg,
            final(self).incoming_decrypted_packets == old(self).incoming_decrypted_packets,
            final(self).replay_detector == old(self).replay_detector,
            final(self).state.remote_epoch == old(self).state.remote_epoch,
            final(self).state.cipher_suite_initialized == old(self).state.cipher_suite_initialized,
            final(self).handshake_rx == old(self).handshake_rx,
            final(self).current_retransmit_timer == old(self).current_retransmit_timer,
            final(self).retransmit == old(self).retransmit,
            final(self).is_client == old(self).is_client,
            final(self).state.is_client == old(self).state.is_client,
            final(self).incoming_encrypted_packets == old(self).incoming_encrypted_packets,
            final(self).fragment_buffer == old(self).fragment_buffer,
            final(self).replay_protection_window == old(self).replay_protection_window,
    {
        while self.state.local_sequence_number.len() <= epoch as usize
            invariant
                self.wf(),
                forall|e: u16| self.spec_next_seq(e) == old(self).spec_next_seq(e),
                self.sent_records@ == old(self).sent_records@,
                self.handshake_completed == old(self).handshake_completed,
                self.closed == old(self).closed,
                self.state.local_epoch == old(self).state.local_epoch,
                self.state.handshake_send_sequence == old(self).state.handshake_send_sequence,
                self.outgoing_records@ == old(self).outgoing_records@,
                self.cache@ == old(self).cache@,
                self.current_handshake_state == old(self).current_handshake_state,
                self.flights == old(self).flights,
                self.sent_messages == old(self).sent_messages,
                self.current_flight == old(self).current_flight,
                self.cfg == old(self).cfg,
                self.incoming_decrypted_packets == old(self).incoming_decrypted_packets,
                self.replay_detector == old(self).replay_detector,
                self.state.remote_epoch == old(self).state.remote_epoch,
                self.state.cipher_suite_initialized == old(self).state.cipher_suite_initialized,
                self.handshake_rx == old(self).handshake_rx,
                self.current_retransmit_timer == old(self).current_retransmit_timer,
                self.retransmit == old(self).retransmit,
                self.is_client == old(self).is_client,
                self.state.is_client == old(self).state.is_client,
                self.incoming_encrypted_packets == old(self).incoming_encrypted_packets,
                self.fragment_buffer == old(self).fragment_buffer,
                self.replay_protection_window == old(self).replay_protection_window,
            decreases epoch as int + 1 - self.state.local_sequence_number@.len(),
        {
            self.state.local_sequence_number.push(0);
            assert forall|i: int|
                0 <= i < self.sent_records@.len() implies (#[trigger] self.sent_records@[i]).1
                < self.spec_next_seq(self.sent_records@[i].0) by {
                assert(self.spec_next_seq(self.sent_records@[i].0) == old(self).spec_next_seq(
                    self.sent_records@[i].0,
                ));
            }
        }
    }

    /// Takes `count` consecutive sequence numbers of `epoch`, or none if they
    /// would pass 2^48 - 1, and returns the first.
    pub fn allocate_sequence_numbers(&mut self, epoch: u16, count: u64) -> (r: Result<u64, Error>)
        requires
            old(self).wf(),
            count >= 1,
        ensures
            final(self).wf(),
            old(self).spec_next_seq(epoch) + count - 1 > MAX_SEQUENCE_NUMBER ==> r == Err::<
                u64,
                Error,
            >(Error::SequenceNumberOverflow) && final(self).sent_records@ == old(self).sent_records@ && final(self).spec_next_seq(epoch) == old(self).spec_next_seq(epoch),
            old(self).spec_next_seq(epoch) + count - 1 <= MAX_SEQUENCE_NUMBER ==> r == Ok::<
                u64,
                Error,
            >(old(self).spec_next_seq(epoch)) && final(self).spec_next_seq(epoch) == old(self).spec_next_seq(epoch) + count && final(self).sent_records@.len() == old(self).sent_records@.len() + count && final(self).sent_records@.take(
                old(self).sent_records@.len() as int,
            ) == old(self).sent_records@ && (forall|k: int|
                0 <= k < count ==> #[trigger] final(self).sent_records@[old(self).sent_records@.len() + k] == (epoch, (old(self).spec_next_seq(epoch) + k) as u64)),
            forall|e: u16| e != epoch ==> final(self).spec_next_seq(e) == old(self).spec_next_seq(e),
            final(self).handshake_completed == old(self).handshake_completed,
            final(self).closed == old(self).closed,
            final(self).state.local_epoch == old(self).state.local_epoch,
            final(self).state.handshake_send_sequence == old(self).state.handshake_send_sequence,
            final(self).outgoing_records@ == old(self).outgoing_records@,
            final(self).cache@ == old(self).cache@,
            final(self).current_handshake_state == old(self).current_handshake_state,
            final(self).flights == old(self).flights,
            final(self).sent_messages == old(self).sent_messages,
            final(self).current_flight == old(self).current_flight,
            final(self).cfg == old(self).cfg,
            final(self).incoming_decrypted_packets == old(self).incoming_decrypted_packets,
            final(self).replay_detector == old(self).replay_detector,
            final(self).state.remote_epoch == old(self).state.remote_epoch,
            final(self).state.cipher_suite_initialized == old(self).state.cipher_suite_initialized,
            final(self).handshake_rx == old(self).handshake_rx,
            final(self).current_retransmit_timer == old(self).current_retransmit_timer,
            final(self).retransmit == old(self).retransmit,
            final(self).is_client == old(self).is_client,
            final(self).state.is_client == old(self).state.is_client,
            final(self).incoming_encrypted_packets == old(self).incoming_encrypted_packets,
            final(self).fragment_buffer == old(self).fragment_buffer,
            final(self).replay_protection_window == old(self).replay_protection_window,
    {
        self.grow_sequence_numbers(epoch);
        let seq = self.state.local_sequence_number[epoch as usize];
        if count - 1 > MAX_SEQUENCE_NUMBER || seq > MAX_SEQUENCE_NUMBER - (count - 1) {
            return Err(Error::SequenceNumberOverflow);
        }
        let ghost old_sent = self.sent_records@;
        let ghost added = Seq::new(count as nat, |k: int| (epoch, (seq + k) as u64));
        self.state.local_sequence_number.set(epoch as usize, seq + count);
        self.sent_records = Ghost(old_sent + added);
        proof {
            assert(self.sent_records@.take(old_sent.len() as int) =~= old_sent);
            assert forall|i: int|
                0 <= i < self.sent_records@.len() implies (#[trigger] self.sent_records@[i]).1
                < self.spec_next_seq(self.sent_records@[i].0) by {
                if i < old_sent.len() {
                    assert(self.sent_records@[i] == old_sent[i]);
                    if old_sent[i].0 != epoch {
                        assert(self.spec_next_seq(old_sent[i].0) == old(self).spec_next_seq(
                            old_sent[i].0,
                        ));
                    }
                } else {
                    assert(self.sent_records@[i] == added[i - old_sent.len()]);
                }
            }
            assert forall|i: int, j: int|
                0 <= i < j < self.sent_records@.len() && (#[trigger] self.sent_records@[i]).0
                    == (#[trigger] self.sent_records@[j]).0 implies self.sent_records@[i].1
                < self.sent_records@[j].1 by {
                if j < old_sent.len() {
                    assert(self.sent_records@[i] == old_sent[i]);
                    assert(self.sent_records@[j] == old_sent[j]);
                } else if i < old_sent.len() {
                    assert(self.sent_records@[i] == old_sent[i]);
                    assert(self.sent_records@[j] == added[j - old_sent.len()]);
                } else {
                    assert(self.sent_records@[i] == added[i - old_sent.len()]);
                    assert(self.sent_records@[j] == added[j - old_sent.len()]);
                }
            }
            assert forall|k: int| 0 <= k < count implies #[trigger] self.sent_records@[old_sent.len()
                + k] == (epoch, (seq + k) as u64) by {
                assert(self.sent_records@[old_sent.len() + k] == added[k]);
            }
        }
        Ok(seq)
    }
}

/// Sequence numbers that a connection gives out within one epoch strictly
/// increase: of two records numbered in turn, the later has the larger number.
pub proof fn lemma_outbound_sequence_increasing(c: DTLSConn, i: int, j: int)
    requires
        c.wf(),
        0 <= i < j < c.sent_records@.len(),
        c.sent_records@[i].0 == c.sent_records@[j].0,
    ensures
        c.sent_records@[i].1 < c.sent_records@[j].1,
        c.sent_records@[j].1 <= MAX_SEQUENCE_NUMBER,
{
    let e = c.sent_records@[j].0;
    assert(c.sent_records@[j].1 < c.spec_next_seq(e));
    if (e as int) < c.state.local_sequence_number@.len() {
        assert(c.state.local_sequence_number@[e as int] <= MAX_SEQUENCE_NUMBER + 1);
    }
}

/// Every handshake message that a connection numbers carries the count of
/// the messages it numbered before it.
pub proof fn lemma_message_sequence_counts(c: DTLSConn, i: int)
    requires
        c.wf(),
        0 <= i < c.sent_messages@.len(),
    ensures
        c.sent_messages@[i] == i,
        c.sent_messages@.len() == c.state.handshake_send_sequence,
{
}


/// The fields of the handshake engine that sending records leaves alone.
pub open spec fn engine_same(a: DTLSConn, b: DTLSConn) -> bool {
    &&& a.handshake_completed == b.handshake_completed
    &&& a.closed == b.closed
    &&& a.state.local_epoch == b.state.local_epoch
    &&& a.state.remote_epoch == b.state.remote_epoch
    &&& a.state.handshake_send_sequence == b.state.handshake_send_sequence
    &&& a.state.cipher_suite_initialized == b.state.cipher_suite_initialized
    &&& a.state.is_client == b.state.is_client
    &&& a.is_client == b.is_client
    &&& a.current_handshake_state == b.current_handshake_state
    &&& a.flights == b.flights
    &&& a.sent_messages == b.sent_messages
    &&& a.current_flight == b.current_flight
    &&& a.cfg == b.cfg
    &&& a.handshake_rx == b.handshake_rx
    &&& a.current_retransmit_timer == b.current_retransmit_timer
    &&& a.retransmit == b.retransmit
    &&& a.replay_detector == b.replay_detector
    &&& a.incoming_decrypted_packets == b.incoming_decrypted_packets
    &&& a.incoming_encrypted_packets == b.incoming_encrypted_packets
    &&& a.fragment_buffer == b.fragment_buffer
    &&& a.replay_protection_window == b.replay_protection_window
}

/// The record that carries `body` of `content_type` as number `seq` of `epoch`.
pub open spec fn sealed(content_type: u8, epoch: u16, seq: u64, body: Seq<u8>, enc: bool) -> (
    RecordLayerHeader,
    Seq<u8>,
    bool,
) {
    (record_header(content_type, epoch, seq, body.len() as u16), record_bytes(content_type, epoch, seq, body), enc)
}

/// The cache entry of a handshake message sent by this side.
pub open spec fn cached_sent(h: Handshake, epoch: u16, is_client: bool) -> CachedMessage {
    CachedMessage {
        typ: h.header.handshake_type,
        is_client,
        epoch,
        message_sequence: h.header.message_sequence,
        data: content_bytes(Content::Handshake(h)),
    }
}

/// Number of `mtu`-byte pieces a body of `len` bytes is cut into; an empty
/// body still makes one.
pub open spec fn piece_count(len: int, mtu: int) -> int
    decreases len,
{
    if len <= mtu || mtu <= 0 {
        1
    } else {
        1 + piece_count(len - mtu, mtu)
    }
}

proof fn lemma_piece_count(c: int, len: int, mtu: int)
    requires
        mtu > 0,
        len >= 0,
        is_fragment_count(c, len, mtu),
    ensures
        c == piece_count(len, mtu),
    decreases len,
{
    if len == 0 {
    } else if len <= mtu {
        assert(c > 0) by (nonlinear_arith)
            requires c * mtu >= len, len > 0, mtu > 0;
        assert(c < 2) by (nonlinear_arith)
            requires (c - 1) * mtu < len, len <= mtu, mtu > 0, c > 0;
    } else {
        assert(c > 1) by (nonlinear_arith)
            requires c * mtu >= len, len > mtu, mtu > 0;
        assert((c - 1) * mtu == c * mtu - mtu) by (nonlinear_arith);
        assert((c - 2) * mtu == (c - 1) * mtu - mtu) by (nonlinear_arith);
        lemma_piece_count(c - 1, len - mtu, mtu);
    }
}

proof fn lemma_piece_count_is_count(len: int, mtu: int)
    requires
        mtu > 0,
        len >= 0,
    ensures
        is_fragment_count(piece_count(len, mtu), len, mtu),
        piece_count(len, mtu) >= 1,
    decreases len,
{
    if len <= mtu {
    } else {
        lemma_piece_count_is_count(len - mtu, mtu);
        let c = piece_count(len - mtu, mtu);
        assert((c + 1) * mtu == c * mtu + mtu) by (nonlinear_arith);
        assert(c * mtu == (c - 1) * mtu + mtu) by (nonlinear_arith);
    }
}

/// Two packet lists carry the same records, one for one.
pub open spec fn same_packets(a: Seq<Packet>, b: Seq<Packet>) -> bool {
    a.len() == b.len() && forall|i: int| 0 <= i < a.len() ==> same_packet(#[trigger] a[i], b[i])
}

/// Counters of next sequence numbers, one per epoch.
pub open spec fn counters(c: DTLSConn) -> spec_fn(u16) -> u64 {
    |e: u16| c.spec_next_seq(e)
}

pub open spec fn bumped(cnt: spec_fn(u16) -> u64, epoch: u16, n: int) -> spec_fn(u16) -> u64 {
    |e: u16| if e == epoch {
        (cnt(epoch) + n) as u64
    } else {
        cnt(e)
    }
}

/// How many records a packet takes.
pub open spec fn packet_count(p: Packet, mtu: int) -> int {
    match p.content {
        Content::Handshake(h) => piece_count(h.body@.len() as int, mtu),
        _ => 1,
    }
}

/// The error that sending `p` with `first` as its epoch's next number gives, if any.
pub open spec fn packet_error(p: Packet, first: u64, mtu: int) -> Option<Error> {
    if !(p.content is Handshake) && content_bytes(p.content).len() > u16::MAX {
        Some(Error::PacketTooLarge)
    } else if first + packet_count(p, mtu) - 1 > MAX_SEQUENCE_NUMBER {
        Some(Error::SequenceNumberOverflow)
    } else {
        None
    }
}

/// The records of `p` numbered from `first`.
pub open spec fn packet_records(p: Packet, first: u64, mtu: int) -> Seq<(RecordLayerHeader, Seq<u8>, bool)> {
    match p.content {
        Content::Handshake(h) => Seq::new(
            piece_count(h.body@.len() as int, mtu) as nat,
            |k: int| sealed(CONTENT_TYPE_HANDSHAKE, p.epoch, (first + k) as u64, fragment_bytes(h, mtu, k), p.should_encrypt),
        ),
        _ => seq![sealed(content_type_of(p.content), p.epoch, first, content_bytes(p.content), p.should_encrypt)],
    }
}

/// The cache after sending `p` is tried: a handshake message is logged
/// unless one of its sequence and origin is there.
pub open spec fn cache_step(cache: Seq<CachedMessage>, p: Packet, is_client: bool) -> Seq<CachedMessage> {
    match p.content {
        Content::Handshake(h) => if has_message(cache, h.header.message_sequence, is_client) {
            cache
        } else {
            cache.push(cached_sent(h, p.epoch, is_client))
        },
        _ => cache,
    }
}

/// Records queued when `pkts` are sent in turn from counters `cnt`, up to
/// the first that fails.
pub open spec fn run_records(cnt: spec_fn(u16) -> u64, pkts: Seq<Packet>, mtu: int) -> Seq<(RecordLayerHeader, Seq<u8>, bool)>
    decreases pkts.len(),
{
    if pkts.len() == 0 {
        Seq::empty()
    } else {
        let p = pkts[0];
        if packet_error(p, cnt(p.epoch), mtu) is Some {
            Seq::empty()
        } else {
            packet_records(p, cnt(p.epoch), mtu) + run_records(bumped(cnt, p.epoch, packet_count(p, mtu)), pkts.drop_first(), mtu)
        }
    }
}

/// The kept flight can be sent again without running out of sequence numbers.
pub open spec fn flight_sendable(c: DTLSConn) -> bool {
    match c.flights {
        Some(f) => run_error(counters(c), f@, c.cfg.maximum_transmission_unit as int) is None,
        None => true,
    }
}

/// When a timer armed at `now` for `interval` fires.
pub open spec fn deadline(now: u64, interval: u64) -> u64 {
    if now + interval > u64::MAX {
        u64::MAX
    } else {
        (now + interval) as u64
    }
}

/// Records queued when the batch `pkts` is sent from counters `cnt`: all
/// of them, or none if one fails.
pub open spec fn run_queued(cnt: spec_fn(u16) -> u64, pkts: Seq<Packet>, mtu: int) -> Seq<(RecordLayerHeader, Seq<u8>, bool)> {
    if run_error(cnt, pkts, mtu) is None {
        run_records(cnt, pkts, mtu)
    } else {
        Seq::empty()
    }
}

/// The counters after sending `pkts` in turn, up to the first that fails.
pub open spec fn run_counters(cnt: spec_fn(u16) -> u64, pkts: Seq<Packet>, mtu: int) -> spec_fn(u16) -> u64
    decreases pkts.len(),
{
    if pkts.len() == 0 {
        cnt
    } else {
        let p = pkts[0];
        if packet_error(p, cnt(p.epoch), mtu) is Some {
            cnt
        } else {
            run_counters(bumped(cnt, p.epoch, packet_count(p, mtu)), pkts.drop_first(), mtu)
        }
    }
}

/// The first error met when sending `pkts` in turn.
pub open spec fn run_error(cnt: spec_fn(u16) -> u64, pkts: Seq<Packet>, mtu: int) -> Option<Error>
    decreases pkts.len(),
{
    if pkts.len() == 0 {
        None
    } else {
        let p = pkts[0];
        match packet_error(p, cnt(p.epoch), mtu) {
            Some(e) => Some(e),
            None => run_error(bumped(cnt, p.epoch, packet_count(p, mtu)), pkts.drop_first(), mtu),
        }
    }
}

/// The cache after sending `pkts` in turn; a failing handshake message is
/// logged before its numbering fails.
pub open spec fn run_cache(cache: Seq<CachedMessage>, cnt: spec_fn(u16) -> u64, pkts: Seq<Packet>, mtu: int, is_client: bool) -> Seq<CachedMessage>
    decreases pkts.len(),
{
    if pkts.len() == 0 {
        cache
    } else {
        let p = pkts[0];
        let c2 = cache_step(cache, p, is_client);
        if packet_error(p, cnt(p.epoch), mtu) is Some {
            if p.content is Handshake { c2 } else { cache }
        } else {
            run_cache(c2, bumped(cnt, p.epoch, packet_count(p, mtu)), pkts.drop_first(), mtu, is_client)
        }
    }
}

impl DTLSConn {
    /// Numbers a packet's records and queues them to be sent: a handshake
    /// message is logged in the cache and cut into fragments of at most the
    /// MTU, each in a record of its own; anything else is one record.
    pub fn process_packet(&mut self, p: Packet) -> (r: Result<(), Error>)
        requires
            old(self).wf(),
            p.content.wf(),
        ensures
            final(self).wf(),
            engine_same(*old(self), *final(self)),
            final(self).outgoing_records@.len() >= old(self).outgoing_records@.len(),
            records_view(final(self).outgoing_records@).take(old(self).outgoing_records@.len() as int)
                == records_view(old(self).outgoing_records@),
            forall|e: u16| e != p.epoch ==> #[trigger] final(self).spec_next_seq(e) == old(self).spec_next_seq(e),
            r is Ok ==> final(self).spec_next_seq(p.epoch) == old(self).spec_next_seq(p.epoch)
                + (final(self).outgoing_records@.len() - old(self).outgoing_records@.len()),
            r is Err ==> final(self).spec_next_seq(p.epoch) == old(self).spec_next_seq(p.epoch)
                && final(self).sent_records == old(self).sent_records,
            p.content matches Content::Handshake(h) ==> forall|n: int|
                is_fragment_count(n, h.body@.len() as int, old(self).cfg.maximum_transmission_unit as int)
                    ==> (r is Ok <==> old(self).spec_next_seq(p.epoch) + n - 1 <= MAX_SEQUENCE_NUMBER),
            p.content matches Content::Handshake(h) ==> {
                let c = final(self).cfg.maximum_transmission_unit as int;
                &&& has_message(old(self).cache@, h.header.message_sequence, old(self).is_client)
                    ==> final(self).cache@ == old(self).cache@
                &&& !has_message(old(self).cache@, h.header.message_sequence, old(self).is_client)
                    ==> final(self).cache@ == old(self).cache@.push(
                    cached_sent(h, p.epoch, old(self).is_client),
                )
                &&& r is Ok ==> {
                    let n = final(self).outgoing_records@.len() - old(self).outgoing_records@.len();
                    &&& is_fragment_count(n, h.body@.len() as int, c)
                    &&& records_view(final(self).outgoing_records@).take(
                        old(self).outgoing_records@.len() as int,
                    ) == records_view(old(self).outgoing_records@)
                    &&& forall|k: int|
                        0 <= k < n ==> #[trigger] records_view(final(self).outgoing_records@)[old(self).outgoing_records@.len() + k] == sealed(
                            CONTENT_TYPE_HANDSHAKE,
                            p.epoch,
                            (old(self).spec_next_seq(p.epoch) + k) as u64,
                            fragment_bytes(h, c, k),
                            p.should_encrypt,
                        )
                }
                &&& r is Err ==> r == Err::<(), Error>(Error::SequenceNumberOverflow)
                    && final(self).outgoing_records@ == old(self).outgoing_records@
            },
            !(p.content is Handshake) ==> {
                let body = content_bytes(p.content);
                &&& final(self).cache@ == old(self).cache@
                &&& body.len() > u16::MAX ==> r == Err::<(), Error>(Error::PacketTooLarge)
                &&& body.len() <= u16::MAX && old(self).spec_next_seq(p.epoch) > MAX_SEQUENCE_NUMBER
                    ==> r == Err::<(), Error>(Error::SequenceNumberOverflow)
                &&& r is Err ==> final(self).outgoing_records@ == old(self).outgoing_records@
                &&& body.len() <= u16::MAX && old(self).spec_next_seq(p.epoch)
                    <= MAX_SEQUENCE_NUMBER ==> r is Ok && records_view(final(self).outgoing_records@)
                    == records_view(old(self).outgoing_records@).push(
                    sealed(
                        content_type_of(p.content),
                        p.epoch,
                        old(self).spec_next_seq(p.epoch),
                        body,
                        p.should_encrypt,
                    ),
                )
            },
    {
        let epoch = p.epoch;
        let should_encrypt = p.should_encrypt;
        let content_type = p.content.content_type();
        match p.content {
            Content::Handshake(h) => {
                let mut data = h.header.marshal();
                data.extend_from_slice(h.body.as_slice());
                assert(data@ =~= content_bytes(Content::Handshake(h)));
                let is_client = self.is_client;
                self.cache.push(data, epoch, h.header.message_sequence, h.header.handshake_type, is_client);
                let fragments = fragment_handshake(self.cfg.maximum_transmission_unit, &h);
                let n = fragments.len();
                proof {
                    assert forall|m: int| is_fragment_count(m, h.body@.len() as int, self.cfg.maximum_transmission_unit as int)
                        implies m == n by {
                        lemma_fragment_count_unique(m, n as int, h.body@.len() as int, self.cfg.maximum_transmission_unit as int);
                    }
                }
                proof {
                    if n == 0 {
                        assert(n as int * self.cfg.maximum_transmission_unit as int == 0)
                            by (nonlinear_arith)
                            requires
                                n == 0,
                        ;
                    }
                }
                let first = match self.allocate_sequence_numbers(epoch, n as u64) {
                    Ok(s) => s,
                    Err(e) => {
                        assert(records_view(self.outgoing_records@).take(self.outgoing_records@.len() as int) =~= records_view(self.outgoing_records@));
                        return Err(e);
                    },
                };
                let ghost before = records_view(self.outgoing_records@);
                let ghost before_len = self.outgoing_records@.len();
                let ghost cache_after = self.cache@;
                let ghost lsn_after = self.state.local_sequence_number@;
                let ghost alloc_state = *self;
                let ghost sent_after = self.sent_records@;
                let mut k: usize = 0;
                while k < n
                    invariant
                        self.wf(),
                        engine_same(*old(self), *self),
                        self.cache@ == cache_after,
                        self.state.local_sequence_number@ == lsn_after,
                        self.sent_records == sent_after,
                        n == fragments@.len(),
                        k <= n,
                        first + n - 1 <= MAX_SEQUENCE_NUMBER,
                        self.cfg.maximum_transmission_unit > 0,
                        self.cfg.maximum_transmission_unit <= crate::config::MAX_MTU,
                        h.wf(),
                        is_fragment_count(n as int, h.body@.len() as int, self.cfg.maximum_transmission_unit as int),
                        forall|j: int|
                            0 <= j < n ==> #[trigger] fragments@[j]@ == fragment_bytes(
                                h,
                                self.cfg.maximum_transmission_unit as int,
                                j,
                            ),
                        self.outgoing_records@.len() == before_len + k,
                        records_view(self.outgoing_records@).take(before_len as int) == before,
                        forall|j: int|
                            0 <= j < k ==> #[trigger] records_view(self.outgoing_records@)[before_len
                                + j] == sealed(
                                CONTENT_TYPE_HANDSHAKE,
                                epoch,
                                (first + j) as u64,
                                fragment_bytes(h, self.cfg.maximum_transmission_unit as int, j),
                                should_encrypt,
                            ),
                    decreases n - k,
                {
                    let frag = &fragments[k];
                    proof {
                        lemma_fragment_len(h, self.cfg.maximum_transmission_unit as int, k as int, n as int);
                    }
                    let rec = seal_record(CONTENT_TYPE_HANDSHAKE, epoch, first + k as u64, frag.as_slice(), should_encrypt);
                    let ghost prev = records_view(self.outgoing_records@);
                    self.outgoing_records.push(rec);
                    proof {
                        assert(records_view(self.outgoing_records@) =~= prev.push(record_view(rec)));
                        assert(records_view(self.outgoing_records@).take(before_len as int) =~= prev.take(before_len as int));
                    }
                    k = k + 1;
                }
                assert forall|e: u16| e != epoch implies #[trigger] self.spec_next_seq(e) == old(self).spec_next_seq(e) by {
                    assert(self.spec_next_seq(e) == alloc_state.spec_next_seq(e));
                }
                assert(self.spec_next_seq(epoch) == alloc_state.spec_next_seq(epoch));
                Ok(())
            },
            _ => {
                let body = p.content.marshal();
                if body.len() > 65535 {
                    assert(records_view(self.outgoing_records@).take(self.outgoing_records@.len() as int) =~= records_view(self.outgoing_records@));
                    return Err(Error::PacketTooLarge);
                }
                let seq = match self.allocate_sequence_numbers(epoch, 1) {
                    Ok(s) => s,
                    Err(e) => {
                        assert(records_view(self.outgoing_records@).take(self.outgoing_records@.len() as int) =~= records_view(self.outgoing_records@));
                        return Err(e);
                    },
                };
                let rec = seal_record(content_type, epoch, seq, body.as_slice(), should_encrypt);
                let ghost prev = records_view(self.outgoing_records@);
                self.outgoing_records.push(rec);
                assert(records_view(self.outgoing_records@) =~= prev.push(record_view(rec)));
                assert(records_view(self.outgoing_records@).take(prev.len() as int) =~= prev);
                Ok(())
            },
        }
    }
}

impl DTLSConn {
    /// Numbers and queues each packet in turn, stopping at the first failure,
    /// whose error it reports; what was queued before the failure stays.
    fn number_packets(&mut self, pkts: Vec<Packet>) -> (r: Result<(), Error>)
        requires
            old(self).wf(),
            forall|i: int| 0 <= i < pkts@.len() ==> (#[trigger] pkts@[i]).content.wf(),
        ensures
            final(self).wf(),
            engine_same(*old(self), *final(self)),
            records_view(final(self).outgoing_records@) == records_view(old(self).outgoing_records@)
                + run_records(counters(*old(self)), pkts@, old(self).cfg.maximum_transmission_unit as int),
            forall|e: u16| #[trigger] final(self).spec_next_seq(e) == run_counters(counters(*old(self)), pkts@, old(self).cfg.maximum_transmission_unit as int)(e),
            final(self).cache@ == run_cache(old(self).cache@, counters(*old(self)), pkts@, old(self).cfg.maximum_transmission_unit as int, old(self).is_client),
            r is Ok <==> run_error(counters(*old(self)), pkts@, old(self).cfg.maximum_transmission_unit as int) is None,
            r matches Err(e) ==> run_error(counters(*old(self)), pkts@, old(self).cfg.maximum_transmission_unit as int) == Some(e),
            records_view(final(self).outgoing_records@).take(
                old(self).outgoing_records@.len() as int,
            ) == records_view(old(self).outgoing_records@),
            final(self).outgoing_records@.len() >= old(self).outgoing_records@.len(),
    {
        let ghost mtu = self.cfg.maximum_transmission_unit as int;
        let ghost cnt0 = counters(*self);
        let ghost out0 = records_view(self.outgoing_records@);
        let ghost cache0 = self.cache@;
        let mut i: usize = 0;
        proof {
            assert(pkts@.skip(0) =~= pkts@);
            assert(out0 + Seq::<(RecordLayerHeader, Seq<u8>, bool)>::empty() =~= out0);
        }
        while i < pkts.len()
            invariant
                self.wf(),
                engine_same(*old(self), *self),
                mtu == self.cfg.maximum_transmission_unit,
                cnt0 == counters(*old(self)),
                out0 == records_view(old(self).outgoing_records@),
                cache0 == old(self).cache@,
                forall|j: int| 0 <= j < pkts@.len() ==> (#[trigger] pkts@[j]).content.wf(),
                i <= pkts@.len(),
                records_view(self.outgoing_records@) + run_records(counters(*self), pkts@.skip(i as int), mtu)
                    == out0 + run_records(cnt0, pkts@, mtu),
                run_counters(counters(*self), pkts@.skip(i as int), mtu) == run_counters(cnt0, pkts@, mtu),
                run_error(counters(*self), pkts@.skip(i as int), mtu) == run_error(cnt0, pkts@, mtu),
                run_cache(self.cache@, counters(*self), pkts@.skip(i as int), mtu, self.is_client) == run_cache(cache0, cnt0, pkts@, mtu, self.is_client),
                records_view(self.outgoing_records@).take(out0.len() as int) == out0,
                self.outgoing_records@.len() >= out0.len(),
            decreases pkts@.len() - i,
        {
            let p = duplicate_packet(&pkts[i]);
            let ghost pre = *self;
            let ghost q = pkts@[i as int];
            let ghost rest = pkts@.skip(i as int);
            assert(rest[0] == q);
            assert(rest.drop_first() =~= pkts@.skip(i + 1));
            let res = self.process_packet(p);
            proof {
                let ol = records_view(pre.outgoing_records@);
                let now = records_view(self.outgoing_records@);
                assert(now.take(ol.len() as int) == ol);
                assert(now.take(out0.len() as int) =~= ol.take(out0.len() as int));
                let first = pre.spec_next_seq(q.epoch);
                assert(counters(pre)(q.epoch) == first);
                let cnt1 = bumped(counters(pre), q.epoch, packet_count(q, mtu));
                match q.content {
                    Content::Handshake(hq) => {
                        let hp = p.content->Handshake_0;
                        let len = hq.body@.len() as int;
                        lemma_piece_count_is_count(len, mtu);
                        let n = piece_count(len, mtu);
                        assert(packet_count(q, mtu) == n);
                        if res is Ok {
                            let got = now.len() - ol.len();
                            lemma_piece_count(got, len, mtu);
                            assert(now =~= ol + packet_records(q, first, mtu)) by {
                                assert(got == n);
                                assert(now.len() == ol.len() + n);
                                assert forall|j: int| 0 <= j < ol.len() implies now[j] == ol[j] by {
                                    assert(now.take(ol.len() as int)[j] == now[j]);
                                }
                                assert forall|i: int| ol.len() <= i < now.len() implies #[trigger] now[i] == (ol + packet_records(q, first, mtu))[i] by {
                                    let k = i - ol.len();
                                    assert(fragment_bytes(hp, mtu, k) == fragment_bytes(hq, mtu, k));
                                    assert(now[ol.len() + k] == packet_records(q, first, mtu)[k]);
                                }
                            }
                            assert(counters(*self) =~= cnt1);
                        } else {
                            assert(now =~= ol);
                            assert(counters(*self) =~= counters(pre));
                        }
                        assert(cached_sent(hp, p.epoch, pre.is_client) == cached_sent(hq, q.epoch, pre.is_client));
                    },
                    _ => {
                        assert(packet_count(q, mtu) == 1);
                        if res is Ok {
                            assert(now =~= ol + packet_records(q, first, mtu));
                            assert(counters(*self) =~= cnt1);
                        } else {
                            assert(now =~= ol);
                            assert(counters(*self) =~= counters(pre));
                        }
                    },
                }
                assert(res is Ok <==> packet_error(q, first, mtu) is None);
                if res is Ok {
                    assert(out0 + run_records(cnt0, pkts@, mtu) == ol + (packet_records(q, first, mtu) + run_records(cnt1, pkts@.skip(i + 1), mtu)));
                    assert(ol + (packet_records(q, first, mtu) + run_records(cnt1, pkts@.skip(i + 1), mtu)) =~= now + run_records(cnt1, pkts@.skip(i + 1), mtu));
                } else {
                    assert(now + Seq::<(RecordLayerHeader, Seq<u8>, bool)>::empty() =~= now);
                }
            }
            if res.is_err() {
                proof {
                    assert(self.outgoing_records@ == pre.outgoing_records@);
                    assert forall|e: u16| #[trigger] self.spec_next_seq(e) == run_counters(cnt0, pkts@, mtu)(e) by {
                        assert(counters(*self)(e) == self.spec_next_seq(e));
                    }
                }
                return res;
            }
            i = i + 1;
        }
        proof {
            assert(pkts@.skip(i as int) =~= Seq::<Packet>::empty());
            assert(records_view(self.outgoing_records@) + Seq::<(RecordLayerHeader, Seq<u8>, bool)>::empty() =~= records_view(self.outgoing_records@));
            assert forall|e: u16| #[trigger] self.spec_next_seq(e) == run_counters(cnt0, pkts@, mtu)(e) by {
                assert(counters(*self)(e) == self.spec_next_seq(e));
            }
        }
        Ok(())
    }

    /// Numbers and queues a batch of packets; if one of them fails, nothing
    /// of the batch is queued and the first error is reported. Sequence
    /// numbers taken before the failure stay taken.
    pub fn write_packets(&mut self, pkts: Vec<Packet>) -> (r: Result<(), Error>)
        requires
            old(self).wf(),
            forall|i: int| 0 <= i < pkts@.len() ==> (#[trigger] pkts@[i]).content.wf(),
        ensures
            final(self).wf(),
            engine_same(*old(self), *final(self)),
            records_view(final(self).outgoing_records@) == records_view(old(self).outgoing_records@)
                + run_queued(counters(*old(self)), pkts@, old(self).cfg.maximum_transmission_unit as int),
            r is Err ==> records_view(final(self).outgoing_records@) == records_view(old(self).outgoing_records@),
            forall|e: u16| #[trigger] final(self).spec_next_seq(e) == run_counters(counters(*old(self)), pkts@, old(self).cfg.maximum_transmission_unit as int)(e),
            final(self).cache@ == run_cache(old(self).cache@, counters(*old(self)), pkts@, old(self).cfg.maximum_transmission_unit as int, old(self).is_client),
            r is Ok <==> run_error(counters(*old(self)), pkts@, old(self).cfg.maximum_transmission_unit as int) is None,
            r matches Err(e) ==> run_error(counters(*old(self)), pkts@, old(self).cfg.maximum_transmission_unit as int) == Some(e),
    {
        let n0 = self.outgoing_records.len();
        let r = self.number_packets(pkts);
        if r.is_err() {
            let ghost mid = *self;
            self.outgoing_records.truncate(n0);
            proof {
                let ol = records_view(old(self).outgoing_records@);
                assert(records_view(self.outgoing_records@) =~= records_view(mid.outgoing_records@).take(n0 as int));
                assert(records_view(self.outgoing_records@) + Seq::<(RecordLayerHeader, Seq<u8>, bool)>::empty() =~= ol);
                assert forall|e: u16| #[trigger] self.spec_next_seq(e) == mid.spec_next_seq(e) by {}
            }
        }
        r
    }

    /// Sends `p` as application data: fails with `ConnClosed` once closed and
    /// with `HandshakeInProgress` before the handshake completes; otherwise
    /// queues one record of the current epoch, to be encrypted, and returns
    /// the number of bytes written.
    pub fn write(&mut self, p: &[u8]) -> (r: Result<usize, Error>)
        requires
            old(self).wf(),
        ensures
            final(self).wf(),
            engine_same(*old(self), *final(self)),
            old(self).closed ==> r == Err::<usize, Error>(Error::ConnClosed),
            !old(self).closed && !old(self).handshake_completed ==> r == Err::<usize, Error>(
                Error::HandshakeInProgress,
            ),
            !old(self).closed && old(self).handshake_completed && p@.len() > u16::MAX ==> r == Err::<
                usize,
                Error,
            >(Error::PacketTooLarge),
            !old(self).closed && old(self).handshake_completed && p@.len() <= u16::MAX
                && old(self).spec_next_seq(old(self).state.local_epoch) > MAX_SEQUENCE_NUMBER ==> r
                == Err::<usize, Error>(Error::SequenceNumberOverflow),
            r is Err ==> final(self).outgoing_records@ == old(self).outgoing_records@,
            !old(self).closed && old(self).handshake_completed && p@.len() <= u16::MAX
                && old(self).spec_next_seq(old(self).state.local_epoch) <= MAX_SEQUENCE_NUMBER ==> r
                == Ok::<usize, Error>(p@.len() as usize) && records_view(
                final(self).outgoing_records@,
            ) == records_view(old(self).outgoing_records@).push(
                sealed(
                    crate::record_layer::CONTENT_TYPE_APPLICATION_DATA,
                    old(self).state.local_epoch,
                    old(self).spec_next_seq(old(self).state.local_epoch),
                    p@,
                    true,
                ),
            ),
    {
        if self.is_connection_closed() {
            return Err(Error::ConnClosed);
        }
        if !self.is_handshake_completed() {
            return Err(Error::HandshakeInProgress);
        }
        let mut data: Vec<u8> = Vec::new();
        data.extend_from_slice(p);
        assert(data@ =~= p@);
        let pkt = Packet {
            epoch: self.get_local_epoch(),
            content: Content::ApplicationData(data),
            should_encrypt: true,
        };
        match self.process_packet(pkt) {
            Ok(()) => Ok(p.len()),
            Err(e) => Err(e),
        }
    }

    /// Queues an alert of the current epoch, encrypted once the handshake
    /// has completed.
    pub fn notify(&mut self, level: AlertLevel, desc: u8) -> (r: Result<(), Error>)
        requires
            old(self).wf(),
        ensures
            final(self).wf(),
            engine_same(*old(self), *final(self)),
            final(self).cache@ == old(self).cache@,
            old(self).spec_next_seq(old(self).state.local_epoch) > MAX_SEQUENCE_NUMBER ==> r is Err,
            r is Err ==> r == Err::<(), Error>(Error::SequenceNumberOverflow)
                && final(self).outgoing_records@ == old(self).outgoing_records@,
            old(self).spec_next_seq(old(self).state.local_epoch) <= MAX_SEQUENCE_NUMBER ==> r is Ok
                && records_view(final(self).outgoing_records@) == records_view(
                old(self).outgoing_records@,
            ).push(
                sealed(
                    crate::record_layer::CONTENT_TYPE_ALERT,
                    old(self).state.local_epoch,
                    old(self).spec_next_seq(old(self).state.local_epoch),
                    content_bytes(Content::Alert(Alert { alert_level: level, alert_description: desc })),
                    old(self).handshake_completed,
                ),
            ),
    {
        let pkt = Packet {
            epoch: self.get_local_epoch(),
            content: Content::Alert(Alert { alert_level: level, alert_description: desc }),
            should_encrypt: self.is_handshake_completed(),
        };
        self.process_packet(pkt)
    }

    /// Closes the connection; the first call queues a warning-level
    /// close_notify, later calls do nothing.
    pub fn close(&mut self) -> (r: Result<(), Error>)
        requires
            old(self).wf(),
        ensures
            final(self).wf(),
            r is Ok,
            final(self).closed,
            final(self).handshake_completed == old(self).handshake_completed,
            old(self).closed ==> final(self).outgoing_records@ == old(self).outgoing_records@,
            !old(self).closed && old(self).spec_next_seq(old(self).state.local_epoch)
                <= MAX_SEQUENCE_NUMBER ==> records_view(final(self).outgoing_records@) == records_view(
                old(self).outgoing_records@,
            ).push(
                sealed(
                    crate::record_layer::CONTENT_TYPE_ALERT,
                    old(self).state.local_epoch,
                    old(self).spec_next_seq(old(self).state.local_epoch),
                    seq![1u8, ALERT_CLOSE_NOTIFY],
                    old(self).handshake_completed,
                ),
            ),
    {
        if !self.closed {
            self.closed = true;
            let _ = self.notify(AlertLevel::Warning, ALERT_CLOSE_NOTIFY);
        }
        Ok(())
    }

    /// The next application data received, once the handshake has completed.
    pub fn read(&mut self) -> (r: Option<Vec<u8>>)
        requires
            old(self).wf(),
        ensures
            final(self).wf(),
            !old(self).handshake_completed || old(self).incoming_decrypted_packets@.len() == 0
                ==> r is None && final(self).incoming_decrypted_packets@ == old(self).incoming_decrypted_packets@,
            old(self).handshake_completed && old(self).incoming_decrypted_packets@.len() > 0 ==> r
                == Some(old(self).incoming_decrypted_packets@[0]) && final(self).incoming_decrypted_packets@ == old(self).incoming_decrypted_packets@.drop_first(),
            final(self).outgoing_records@ == old(self).outgoing_records@,
            final(self).handshake_completed == old(self).handshake_completed,
    {
        if !self.is_handshake_completed() || self.incoming_decrypted_packets.len() == 0 {
            None
        } else {
            let first = self.incoming_decrypted_packets.remove(0);
            assert(self.incoming_decrypted_packets@ =~= old(self).incoming_decrypted_packets@.drop_first());
            Some(first)
        }
    }

    /// Hands over every record queued so far, oldest first, and empties the queue.
    pub fn poll_outgoing_records(&mut self) -> (r: Vec<OutgoingRecord>)
        requires
            old(self).wf(),
        ensures
            final(self).wf(),
            engine_same(*old(self), *final(self)),
            records_view(r@) == records_view(old(self).outgoing_records@),
            final(self).outgoing_records@.len() == 0,
    {
        let mut out: Vec<OutgoingRecord> = Vec::new();
        std::mem::swap(&mut out, &mut self.outgoing_records);
        out
    }

    /// Hands over every queued record packed into datagrams: a record that
    /// goes out encrypted under an initialized cipher is first passed
    /// through `encrypt`, and consecutive records share a datagram while
    /// together they stay below the MTU.
    pub fn poll_datagrams<F: Fn(RecordLayerHeader, Vec<u8>) -> Vec<u8>>(&mut self, encrypt: &F) -> (r: Vec<Vec<u8>>)
        requires
            old(self).wf(),
            forall|h: RecordLayerHeader, v: Vec<u8>| encrypt.requires((h, v)),
        ensures
            final(self).wf(),
            engine_same(*old(self), *final(self)),
            final(self).outgoing_records@.len() == 0,
            (forall|i: int| 0 <= i < old(self).outgoing_records@.len() ==> !(#[trigger] old(self).outgoing_records@[i]).should_encrypt
                || !old(self).state.cipher_suite_initialized) ==> crate::record_layer::views(r@) == crate::fragment::compacted(
                raw_views(old(self).outgoing_records@),
                old(self).cfg.maximum_transmission_unit as int,
            ),
    {
        let recs = self.poll_outgoing_records();
        let mut raws: Vec<Vec<u8>> = Vec::new();
        let mut i: usize = 0;
        while i < recs.len()
            invariant
                i <= recs@.len(),
                raws@.len() == i,
                records_view(recs@) == records_view(old(self).outgoing_records@),
                self.state.cipher_suite_initialized == old(self).state.cipher_suite_initialized,
                forall|h: RecordLayerHeader, v: Vec<u8>| encrypt.requires((h, v)),
                forall|j: int| 0 <= j < i && !(recs@[j].should_encrypt && self.state.cipher_suite_initialized)
                    ==> (#[trigger] raws@[j])@ == recs@[j].raw@,
            decreases recs@.len() - i,
        {
            let mut raw: Vec<u8> = Vec::new();
            raw.extend_from_slice(recs[i].raw.as_slice());
            assert(raw@ =~= recs@[i as int].raw@);
            if recs[i].should_encrypt && self.state.cipher_suite_initialized {
                raw = encrypt(recs[i].header, raw);
            }
            raws.push(raw);
            i = i + 1;
        }
        proof {
            assert(raws@.len() == old(self).outgoing_records@.len()) by {
                assert(records_view(recs@).len() == recs@.len());
                assert(records_view(old(self).outgoing_records@).len() == old(self).outgoing_records@.len());
            }
            if forall|j: int| 0 <= j < old(self).outgoing_records@.len() ==> !(#[trigger] old(self).outgoing_records@[j]).should_encrypt
                || !old(self).state.cipher_suite_initialized {
                assert forall|j: int| 0 <= j < raws@.len() implies (#[trigger] crate::record_layer::views(raws@)[j]) == raw_views(old(self).outgoing_records@)[j] by {
                    assert(records_view(recs@)[j] == records_view(old(self).outgoing_records@)[j]);
                    assert(records_view(recs@)[j] == record_view(recs@[j]));
                    assert(records_view(old(self).outgoing_records@)[j] == record_view(old(self).outgoing_records@[j]));
                    assert(!old(self).outgoing_records@[j].should_encrypt || !old(self).state.cipher_suite_initialized);
                    assert(raws@[j]@ == recs@[j].raw@);
                }
                assert(crate::record_layer::views(raws@) =~= raw_views(old(self).outgoing_records@));
            }
        }
        crate::fragment::compact_raw_packets(&raws, self.cfg.maximum_transmission_unit)
    }
}

/// Number of handshake packets in `s`.
pub open spec fn count_handshakes(s: Seq<Packet>) -> nat
    decreases s.len(),
{
    if s.len() == 0 {
        0
    } else {
        count_handshakes(s.drop_last()) + if s.last().content is Handshake {
            1nat
        } else {
            0nat
        }
    }
}

/// The largest epoch of `s` once each is raised by `base`, and at least `base`.
pub open spec fn max_epoch(s: Seq<Packet>, base: u16) -> int
    decreases s.len(),
{
    if s.len() == 0 {
        base as int
    } else {
        let m = max_epoch(s.drop_last(), base);
        let e = s.last().epoch + base;
        if e > m {
            e
        } else {
            m
        }
    }
}

/// `new` is `orig` moved up by `base` epochs and, if it is a handshake
/// message, given message sequence `seq`.
pub open spec fn stamped(orig: Packet, new: Packet, base: u16, seq: int) -> bool {
    &&& new.epoch == orig.epoch + base
    &&& new.should_encrypt == orig.should_encrypt
    &&& new.content.wf() == orig.content.wf()
    &&& match orig.content {
        Content::Handshake(h) => new.content matches Content::Handshake(h2) && h2.header == (
        HandshakeHeader { message_sequence: seq as u16, ..h.header }) && h2.body@ == h.body@,
        _ => !(new.content is Handshake) && content_type_of(new.content) == content_type_of(
            orig.content,
        ) && content_bytes(new.content) == content_bytes(orig.content),
    }
}

proof fn lemma_count_push(s: Seq<Packet>, p: Packet)
    ensures
        count_handshakes(s.push(p)) == count_handshakes(s) + if p.content is Handshake {
            1nat
        } else {
            0nat
        },
{
    assert(s.push(p).drop_last() =~= s);
}

proof fn lemma_max_epoch_push(s: Seq<Packet>, p: Packet, base: u16)
    ensures
        max_epoch(s.push(p), base) == if p.epoch + base > max_epoch(s, base) {
            p.epoch + base
        } else {
            max_epoch(s, base)
        },
{
    assert(s.push(p).drop_last() =~= s);
}

impl DTLSConn {
    /// Takes what the current flight generated: moves each packet up by the
    /// configured initial epoch, gives each handshake message the next message
    /// sequence, raises the local epoch if the flight does, keeps the packets
    /// for (re)sending and moves on to Sending. A failure sends its alert and
    /// reports its error.
    pub fn prepare(&mut self, generated: Result<Vec<Packet>, FlightError>) -> (r: Result<(), Error>)
        requires
            old(self).wf(),
            old(self).current_handshake_state == HandshakeState::Preparing,
            generated matches Ok(pkts) ==> forall|i: int|
                0 <= i < pkts@.len() ==> (#[trigger] pkts@[i]).content.wf(),
        ensures
            final(self).wf(),
            final(self).retransmit == old(self).current_flight.spec_has_retransmit(),
            final(self).current_flight == old(self).current_flight,
            final(self).handshake_completed == old(self).handshake_completed,
            final(self).sent_messages@.take(old(self).sent_messages@.len() as int) == old(self).sent_messages@,
            generated is Err && generated->Err_0.alert is Some && old(self).spec_next_seq(old(self).state.local_epoch) <= MAX_SEQUENCE_NUMBER
                ==> records_view(final(self).outgoing_records@) == records_view(old(self).outgoing_records@).push(
                sealed(
                    crate::record_layer::CONTENT_TYPE_ALERT,
                    old(self).state.local_epoch,
                    old(self).spec_next_seq(old(self).state.local_epoch),
                    content_bytes(Content::Alert(generated->Err_0.alert->Some_0)),
                    old(self).handshake_completed,
                ),
            ),
            generated is Err && generated->Err_0.alert is None ==> final(self).outgoing_records == old(self).outgoing_records,
            generated matches Err(fe) ==> (fe.error matches Some(e) ==> r == Err::<(), Error>(e))
                && (fe.error is None ==> r is Ok && final(self).current_handshake_state
                == HandshakeState::Sending && final(self).flights is None),
            generated matches Ok(pkts) ==> {
                let base = old(self).cfg.initial_epoch;
                let hs = old(self).state.handshake_send_sequence;
                &&& r == Err::<(), Error>(Error::EpochOverflow) ==> max_epoch(pkts@, base) > u16::MAX
                &&& r == Err::<(), Error>(Error::SequenceNumberOverflow) ==> hs + count_handshakes(pkts@) > u16::MAX
                &&& max_epoch(pkts@, base) > u16::MAX || hs + count_handshakes(pkts@) > u16::MAX
                    ==> r == Err::<(), Error>(Error::EpochOverflow) || r == Err::<(), Error>(Error::SequenceNumberOverflow)
                &&& r is Err ==> final(self).state.handshake_send_sequence == hs
                &&& max_epoch(pkts@, base) <= u16::MAX && hs + count_handshakes(pkts@) <= u16::MAX
                    ==> {
                    &&& r is Ok
                    &&& final(self).current_handshake_state == HandshakeState::Sending
                    &&& final(self).state.handshake_send_sequence == hs + count_handshakes(pkts@)
                    &&& final(self).state.local_epoch == if max_epoch(pkts@, base) != base {
                        max_epoch(pkts@, base) as u16
                    } else {
                        old(self).state.local_epoch
                    }
                    &&& final(self).flights matches Some(q) && q@.len() == pkts@.len() && forall|
                        i: int,
                    |
                        0 <= i < q@.len() ==> stamped(
                            pkts@[i],
                            #[trigger] q@[i],
                            base,
                            hs + count_handshakes(pkts@.take(i)),
                        )
                }
            },
    {
        assert(self.sent_messages@.take(self.sent_messages@.len() as int) =~= self.sent_messages@);
        let ghost gen = generated;
        self.flights = None;
        self.retransmit = self.current_flight.has_retransmit();
        let pkts = match generated {
            Err(fe) => {
                if let Some(a) = fe.alert {
                    let _ = self.notify(a.alert_level, a.alert_description);
                }
                if let Some(e) = fe.error {
                    return Err(e);
                }
                self.current_handshake_state = HandshakeState::Sending;
                return Ok(());
            },
            Ok(pkts) => pkts,
        };
        let base = self.cfg.initial_epoch;
        let hs = self.state.handshake_send_sequence;
        let mut next_epoch: u16 = base;
        let mut next_seq: u16 = hs;
        let mut out: Vec<Packet> = Vec::new();
        let mut i: usize = 0;
        assert(pkts@.take(0) =~= Seq::<Packet>::empty());
        while i < pkts.len()
            invariant
                self.wf(),
                self.sent_messages == old(self).sent_messages,
                self.sent_messages@.take(self.sent_messages@.len() as int) == self.sent_messages@,
                gen is Ok && gen->Ok_0 == pkts,
                gen == generated,
                self.state.handshake_send_sequence == hs,
                hs == old(self).state.handshake_send_sequence,
                base == old(self).cfg.initial_epoch,
                self.retransmit == old(self).current_flight.spec_has_retransmit(),
                self.current_flight == old(self).current_flight,
                self.handshake_completed == old(self).handshake_completed,
                i <= pkts@.len(),
                out@.len() == i,
                next_epoch == max_epoch(pkts@.take(i as int), base),
                next_seq == hs + count_handshakes(pkts@.take(i as int)),
                forall|j: int| 0 <= j < pkts@.len() ==> (#[trigger] pkts@[j]).content.wf(),
                forall|j: int|
                    0 <= j < i ==> stamped(
                        pkts@[j],
                        #[trigger] out@[j],
                        base,
                        hs + count_handshakes(pkts@.take(j)),
                    ),
                forall|j: int|
                    0 <= j < i ==> (#[trigger] out@[j]).content.wf() && (message_sequence_of(
                        out@[j],
                    ) matches Some(s) ==> s < next_seq),
            decreases pkts@.len() - i,
        {
            let p = duplicate_packet(&pkts[i]);
            proof {
                assert(pkts@.take(i + 1) =~= pkts@.take(i as int).push(pkts@[i as int]));
                lemma_count_push(pkts@.take(i as int), pkts@[i as int]);
                lemma_max_epoch_push(pkts@.take(i as int), pkts@[i as int], base);
            }
            if p.epoch as u32 + base as u32 > 65535 {
                proof {
                    lemma_max_epoch_grows(pkts@, base, i as int + 1);
                }
                return Err(Error::EpochOverflow);
            }
            let epoch = p.epoch + base;
            if epoch > next_epoch {
                next_epoch = epoch;
            }
            let content = match p.content {
                Content::Handshake(h) => {
                    if next_seq == 65535 {
                        proof {
                            lemma_epoch_and_count_bounds(pkts@, base, i as int + 1);
                        }
                        return Err(Error::SequenceNumberOverflow);
                    }
                    let header = HandshakeHeader { message_sequence: next_seq, ..h.header };
                    next_seq = next_seq + 1;
                    Content::Handshake(Handshake { header, body: h.body })
                },
                other => other,
            };
            let ghost prev_out = out@;
            out.push(Packet { epoch, content, should_encrypt: p.should_encrypt });
            proof {
                assert forall|j: int|
                    0 <= j < i + 1 implies (#[trigger] out@[j]).content.wf() && (
                message_sequence_of(out@[j]) matches Some(s) ==> s < next_seq) by {
                    if j < i {
                        assert(out@[j] == prev_out[j]);
                    }
                }
                assert forall|j: int|
                    0 <= j < i + 1 implies stamped(
                    pkts@[j],
                    #[trigger] out@[j],
                    base,
                    hs + count_handshakes(pkts@.take(j)),
                ) by {
                    if j < i {
                        assert(out@[j] == prev_out[j]);
                    }
                }
            }
            i = i + 1;
        }
        proof {
            assert(pkts@.take(i as int) =~= pkts@);
        }
        let ghost old_msgs = self.sent_messages@;
        let ghost added = Seq::new((next_seq - hs) as nat, |k: int| (hs + k) as u16);
        self.state.handshake_send_sequence = next_seq;
        self.sent_messages = Ghost(old_msgs + added);
        proof {
            assert(self.sent_messages@.take(old_msgs.len() as int) =~= old_msgs);
            assert forall|k: int|
                0 <= k < self.sent_messages@.len() implies #[trigger] self.sent_messages@[k] == k by {
                if k >= old_msgs.len() {
                    assert(self.sent_messages@[k] == added[k - old_msgs.len()]);
                }
            }
        }
        if next_epoch != base {
            self.state.local_epoch = next_epoch;
        }
        self.flights = Some(out);
        self.current_handshake_state = HandshakeState::Sending;
        Ok(())
    }

    /// Queues the current flight and, unless it is the last one this side
    /// sends, arms the retransmit timer and waits; otherwise finishes.
    pub fn send(&mut self, now: u64) -> (r: Result<(), Error>)
        requires
            old(self).wf(),
            old(self).current_handshake_state == HandshakeState::Sending,
        ensures
            final(self).wf(),
            final(self).flights == old(self).flights,
            final(self).current_flight == old(self).current_flight,
            final(self).handshake_completed == old(self).handshake_completed,
            final(self).state.handshake_send_sequence == old(self).state.handshake_send_sequence,
            final(self).sent_messages == old(self).sent_messages,
            final(self).state.local_epoch == old(self).state.local_epoch,
            final(self).cfg == old(self).cfg,
            records_view(final(self).outgoing_records@) == records_view(old(self).outgoing_records@)
                + match old(self).flights {
                Some(f) => run_queued(counters(*old(self)), f@, old(self).cfg.maximum_transmission_unit as int),
                None => Seq::empty(),
            },
            r is Err ==> (old(self).flights matches Some(f) && run_error(counters(*old(self)), f@, old(self).cfg.maximum_transmission_unit as int) == Some(r->Err_0)),
            r is Ok ==> final(self).current_handshake_state == if old(self).current_flight.spec_is_last_send_flight() {
                HandshakeState::Finished
            } else {
                HandshakeState::Waiting
            },
            r is Ok && !old(self).current_flight.spec_is_last_send_flight() ==> final(self).current_retransmit_timer == Some(
                if now + old(self).cfg.retransmit_interval > u64::MAX {
                    u64::MAX
                } else {
                    (now + old(self).cfg.retransmit_interval) as u64
                },
            ),
            r is Err ==> final(self).current_handshake_state == old(self).current_handshake_state,
    {
        let mut pkts: Vec<Packet> = Vec::new();
        match &self.flights {
            Some(f) => {
                let mut i: usize = 0;
                while i < f.len()
                    invariant
                        i <= f@.len(),
                        pkts@.len() == i,
                        forall|j: int| 0 <= j < f@.len() ==> (#[trigger] f@[j]).content.wf(),
                        forall|j: int| 0 <= j < i ==> (#[trigger] pkts@[j]).content.wf() && same_packet(f@[j], pkts@[j]),
                    decreases f@.len() - i,
                {
                    pkts.push(duplicate_packet(&f[i]));
                    i = i + 1;
                }
                proof {
                    lemma_run_same(counters(*self), f@, pkts@, self.cfg.maximum_transmission_unit as int);
                }
            },
            None => {},
        }
        let ghost before = records_view(self.outgoing_records@);
        match self.write_packets(pkts) {
            Ok(()) => {},
            Err(e) => {
                return Err(e);
            },
        }
        if self.current_flight.is_last_send_flight() {
            self.current_handshake_state = HandshakeState::Finished;
        } else {
            let interval = self.cfg.retransmit_interval;
            let at = if now > u64::MAX - interval {
                u64::MAX
            } else {
                now + interval
            };
            self.current_retransmit_timer = Some(at);
            self.current_handshake_state = HandshakeState::Waiting;
        }
        Ok(())
    }

    /// Runs the engine until it needs its caller: the first time it reaches
    /// Finished it marks the handshake complete and says so.
    pub fn handshake(&mut self, now: u64) -> (r: Result<HandshakeAction, Error>)
        requires
            old(self).wf(),
        ensures
            final(self).wf(),
            final(self).current_flight == old(self).current_flight,
            final(self).state.handshake_send_sequence == old(self).state.handshake_send_sequence,
            final(self).sent_messages == old(self).sent_messages,
            final(self).flights == old(self).flights,
            final(self).cfg == old(self).cfg,
            old(self).current_handshake_state == HandshakeState::Sending && flight_sendable(*old(self)) ==> r is Ok
                && (!old(self).current_flight.spec_is_last_send_flight() ==> final(self).current_handshake_state
                == HandshakeState::Waiting && final(self).current_retransmit_timer == Some(deadline(now, old(self).cfg.retransmit_interval))),
            old(self).current_handshake_state != HandshakeState::Sending ==> final(self).outgoing_records == old(self).outgoing_records
                && final(self).current_retransmit_timer == old(self).current_retransmit_timer,
            old(self).current_handshake_state == HandshakeState::Sending ==> records_view(final(self).outgoing_records@)
                == records_view(old(self).outgoing_records@) + match old(self).flights {
                Some(f) => run_queued(counters(*old(self)), f@, old(self).cfg.maximum_transmission_unit as int),
                None => Seq::empty(),
            },
            old(self).current_handshake_state == HandshakeState::Preparing ==> r == Ok::<
                HandshakeAction,
                Error,
            >(HandshakeAction::Generate) && final(self).current_handshake_state
                == HandshakeState::Preparing,
            old(self).current_handshake_state == HandshakeState::Errored ==> r == Err::<
                HandshakeAction,
                Error,
            >(Error::InvalidFsmTransition),
            r == Ok::<HandshakeAction, Error>(HandshakeAction::Completed) <==> (!old(self).handshake_completed && final(self).handshake_completed),
            final(self).handshake_completed <==> (old(self).handshake_completed || (r is Ok
                && final(self).current_handshake_state == HandshakeState::Finished)),
            r == Ok::<HandshakeAction, Error>(HandshakeAction::Parse) ==> final(self).handshake_rx
                && (final(self).current_handshake_state == HandshakeState::Waiting || final(self).current_handshake_state == HandshakeState::Finished),
            r == Ok::<HandshakeAction, Error>(HandshakeAction::Idle) ==> !final(self).handshake_rx
                && (final(self).current_handshake_state == HandshakeState::Waiting || final(self).current_handshake_state == HandshakeState::Finished),
    {
        if self.current_handshake_state == HandshakeState::Sending {
            match self.send(now) {
                Ok(()) => {},
                Err(e) => {
                    return Err(e);
                },
            }
        }
        if self.current_handshake_state == HandshakeState::Finished && !self.handshake_completed {
            self.handshake_completed = true;
            return Ok(HandshakeAction::Completed);
        }
        match self.current_handshake_state {
            HandshakeState::Preparing => Ok(HandshakeAction::Generate),
            HandshakeState::Waiting | HandshakeState::Finished => {
                if self.handshake_rx {
                    Ok(HandshakeAction::Parse)
                } else {
                    Ok(HandshakeAction::Idle)
                }
            },
            _ => Err(Error::InvalidFsmTransition),
        }
    }

    /// Takes what the current flight made of the buffered handshake messages.
    /// While waiting, a next flight moves the engine to Preparing it, unless
    /// the peer's answer to the last flight came, which finishes; once
    /// finished, a parse only answers the peer's retransmissions. A failure
    /// sends its alert and reports its error.
    pub fn parsed(&mut self, result: Result<Flight, FlightError>) -> (r: Result<(), Error>)
        requires
            old(self).wf(),
            old(self).current_handshake_state == HandshakeState::Waiting || old(self).current_handshake_state == HandshakeState::Finished,
        ensures
            final(self).wf(),
            !final(self).handshake_rx,
            final(self).handshake_completed == old(self).handshake_completed,
            final(self).state.handshake_send_sequence == old(self).state.handshake_send_sequence,
            result is Err && result->Err_0.alert is Some && old(self).spec_next_seq(old(self).state.local_epoch) <= MAX_SEQUENCE_NUMBER
                ==> records_view(final(self).outgoing_records@) == records_view(old(self).outgoing_records@).push(
                sealed(
                    crate::record_layer::CONTENT_TYPE_ALERT,
                    old(self).state.local_epoch,
                    old(self).spec_next_seq(old(self).state.local_epoch),
                    content_bytes(Content::Alert(result->Err_0.alert->Some_0)),
                    old(self).handshake_completed,
                ),
            ),
            result is Err && result->Err_0.alert is None ==> final(self).outgoing_records == old(self).outgoing_records,
            result matches Err(fe) ==> (fe.error matches Some(e) ==> r == Err::<(), Error>(e)) && (
            fe.error is None ==> r is Ok) && final(self).current_handshake_state == old(self).current_handshake_state && final(self).current_flight == old(self).current_flight,
            result matches Ok(next) ==> r is Ok && if old(self).current_handshake_state
                == HandshakeState::Finished {
                final(self).current_handshake_state == HandshakeState::Finished
                    && final(self).current_flight == old(self).current_flight
            } else if next.spec_is_last_recv_flight() && next == old(self).current_flight {
                final(self).current_handshake_state == HandshakeState::Finished
                    && final(self).current_flight == old(self).current_flight
            } else {
                final(self).current_handshake_state == HandshakeState::Preparing
                    && final(self).current_flight == next
            },
    {
        self.handshake_rx = false;
        match result {
            Err(fe) => {
                if let Some(a) = fe.alert {
                    let _ = self.notify(a.alert_level, a.alert_description);
                }
                match fe.error {
                    Some(e) => Err(e),
                    None => Ok(()),
                }
            },
            Ok(next) => {
                if self.current_handshake_state == HandshakeState::Waiting {
                    if next.is_last_recv_flight() && next == self.current_flight {
                        self.current_handshake_state = HandshakeState::Finished;
                    } else {
                        self.current_flight = next;
                        self.current_handshake_state = HandshakeState::Preparing;
                    }
                }
                Ok(())
            },
        }
    }

    /// The retransmit timer fired: while waiting, resend the flight if it is
    /// one that is resent, else rearm the timer; once finished, resend the
    /// last flight. Then run the engine.
    pub fn handshake_timeout(&mut self, now: u64) -> (r: Result<HandshakeAction, Error>)
        requires
            old(self).wf(),
        ensures
            final(self).wf(),
            final(self).current_flight == old(self).current_flight,
            final(self).state.handshake_send_sequence == old(self).state.handshake_send_sequence,
            final(self).flights == old(self).flights,
            (old(self).current_handshake_state == HandshakeState::Waiting && old(self).retransmit
                || old(self).current_handshake_state == HandshakeState::Finished) && flight_sendable(*old(self)) ==> r is Ok
                && (!old(self).current_flight.spec_is_last_send_flight() ==> final(self).current_handshake_state
                == HandshakeState::Waiting && final(self).current_retransmit_timer == Some(deadline(now, old(self).cfg.retransmit_interval))),
            (old(self).current_handshake_state == HandshakeState::Waiting && old(self).retransmit)
                || old(self).current_handshake_state == HandshakeState::Finished ==> records_view(final(self).outgoing_records@)
                == records_view(old(self).outgoing_records@) + match old(self).flights {
                Some(f) => run_queued(counters(*old(self)), f@, old(self).cfg.maximum_transmission_unit as int),
                None => Seq::empty(),
            },
            old(self).current_handshake_state == HandshakeState::Waiting && !old(self).retransmit ==> final(self).outgoing_records
                == old(self).outgoing_records && final(self).current_retransmit_timer == Some(
                if now + old(self).cfg.retransmit_interval > u64::MAX {
                    u64::MAX
                } else {
                    (now + old(self).cfg.retransmit_interval) as u64
                },
            ),
            old(self).current_handshake_state != HandshakeState::Waiting && old(self).current_handshake_state != HandshakeState::Finished ==> r == Ok::<
                HandshakeAction,
                Error,
            >(HandshakeAction::Idle) && final(self).outgoing_records@ == old(self).outgoing_records@,
    {
        if self.current_handshake_state == HandshakeState::Waiting {
            if self.retransmit {
                self.current_handshake_state = HandshakeState::Sending;
            } else {
                let interval = self.cfg.retransmit_interval;
                let at = if now > u64::MAX - interval {
                    u64::MAX
                } else {
                    now + interval
                };
                self.current_retransmit_timer = Some(at);
            }
        } else if self.current_handshake_state == HandshakeState::Finished {
            self.current_handshake_state = HandshakeState::Sending;
        } else {
            return Ok(HandshakeAction::Idle);
        }
        assert(counters(*self) =~= counters(*old(self)));
        self.handshake(now)
    }

    /// Fires the retransmit timer if it is due at `now` and the handshake has
    /// not completed.
    pub fn handle_timeout(&mut self, now: u64) -> (r: Result<HandshakeAction, Error>)
        requires
            old(self).wf(),
        ensures
            final(self).wf(),
            (old(self).current_retransmit_timer matches Some(t) && t <= now) && !old(self).handshake_completed
                && ((old(self).current_handshake_state == HandshakeState::Waiting && old(self).retransmit)
                || old(self).current_handshake_state == HandshakeState::Finished) ==> records_view(final(self).outgoing_records@)
                == records_view(old(self).outgoing_records@) + match old(self).flights {
                Some(f) => run_queued(counters(*old(self)), f@, old(self).cfg.maximum_transmission_unit as int),
                None => Seq::empty(),
            },
            !(old(self).current_retransmit_timer matches Some(t) && t <= now) ==> *final(self) == *old(self),
            !(old(self).current_retransmit_timer matches Some(t) && t <= now) ==> r == Ok::<
                HandshakeAction,
                Error,
            >(HandshakeAction::Idle) && final(self).outgoing_records@ == old(self).outgoing_records@,
    {
        match self.current_retransmit_timer {
            Some(t) => {
                if t <= now {
                    self.current_retransmit_timer = None;
                    assert(counters(*self) =~= counters(*old(self)));
                    if !self.handshake_completed {
                        return self.handshake_timeout(now);
                    }
                }
                Ok(HandshakeAction::Idle)
            },
            None => Ok(HandshakeAction::Idle),
        }
    }

    /// Lowers `eto` to the retransmit deadline if that comes first.
    pub fn poll_timeout(&self, eto: &mut u64)
        ensures
            *final(eto) == match self.current_retransmit_timer {
                Some(t) => if t < *old(eto) {
                    t
                } else {
                    *old(eto)
                },
                None => *old(eto),
            },
    {
        if let Some(t) = self.current_retransmit_timer {
            if t < *eto {
                *eto = t;
            }
        }
    }
}

proof fn lemma_max_epoch_grows(s: Seq<Packet>, base: u16, n: int)
    requires
        0 <= n <= s.len(),
    ensures
        max_epoch(s, base) >= max_epoch(s.take(n), base),
    decreases s.len() - n,
{
    if n < s.len() {
        lemma_max_epoch_grows(s, base, n + 1);
        assert(s.take(n + 1).drop_last() =~= s.take(n));
    } else {
        assert(s.take(n) =~= s);
    }
}

proof fn lemma_count_grows(s: Seq<Packet>, n: int)
    requires
        0 <= n <= s.len(),
    ensures
        count_handshakes(s) >= count_handshakes(s.take(n)),
    decreases s.len() - n,
{
    if n < s.len() {
        lemma_count_grows(s, n + 1);
        assert(s.take(n + 1).drop_last() =~= s.take(n));
    } else {
        assert(s.take(n) =~= s);
    }
}

proof fn lemma_epoch_and_count_bounds(s: Seq<Packet>, base: u16, n: int)
    requires
        0 <= n <= s.len(),
    ensures
        max_epoch(s, base) >= max_epoch(s.take(n), base),
        count_handshakes(s) >= count_handshakes(s.take(n)),
{
    lemma_max_epoch_grows(s, base, n);
    lemma_count_grows(s, n);
}

/// Whether the detector of `epoch` among `dets` has accepted `seq`.
pub open spec fn received_in(dets: Seq<SlidingWindowDetector>, epoch: u16, seq: u64) -> bool {
    (epoch as int) < dets.len() && dets[epoch as int].received@.contains(seq)
}

/// What became of one incoming record.
#[derive(Clone, Copy, Debug)]
pub struct IncomingResult {
    /// The record carried handshake fragments.
    pub is_handshake: bool,
    /// An alert to send back.
    pub alert: Option<Alert>,
    /// An error to report.
    pub error: Option<Error>,
}

pub open spec fn discarded(r: IncomingResult) -> bool {
    !r.is_handshake && r.alert is None && r.error is None
}

/// A fatal alert of the given description.
pub open spec fn fatal(desc: u8) -> Option<Alert> {
    Some(Alert { alert_level: AlertLevel::Fatal, alert_description: desc })
}

/// What `handle_incoming_packet` does to a connection in state `a`, ending
/// in state `b` with result `r`, for record `pkt`.
pub open spec fn incoming_effect<F: Fn(Vec<u8>) -> Option<Vec<u8>>>(a: DTLSConn, b: DTLSConn, pkt: Vec<u8>, enqueue: bool, decrypt: &F, r: IncomingResult) -> bool {
    &&& (send_side_same(a, b))
    &&& (!header_decodes(pkt@) ==> discarded(r) && b.incoming_decrypted_packets
                == a.incoming_decrypted_packets && b.incoming_encrypted_packets
                == a.incoming_encrypted_packets)
    &&& (header_decodes(pkt@) ==> {
                let h = header_of(pkt@);
                let e = a.state.remote_epoch;
                &&& (h.epoch > e + 1 || h.epoch < e) ==> discarded(r)
                    && b.incoming_decrypted_packets == a.incoming_decrypted_packets
                    && b.incoming_encrypted_packets == a.incoming_encrypted_packets
                &&& h.epoch == e + 1 ==> discarded(r) && b.incoming_decrypted_packets
                    == a.incoming_decrypted_packets && b.incoming_encrypted_packets@
                    == if enqueue {
                    a.incoming_encrypted_packets@.push(pkt)
                } else {
                    a.incoming_encrypted_packets@
                }
                &&& h.epoch == e && !a.spec_fresh(h.epoch, h.sequence_number) ==> discarded(r)
                    && b.incoming_decrypted_packets == a.incoming_decrypted_packets
                    && b.state.remote_epoch == e
                &&& h.epoch == e && a.spec_received(h.epoch, h.sequence_number) ==> discarded(r)
                    && b.incoming_decrypted_packets == a.incoming_decrypted_packets
                &&& h.epoch == 0 && e == 0 && a.spec_fresh(0, h.sequence_number)
                    && h.content_type == crate::record_layer::CONTENT_TYPE_APPLICATION_DATA
                    ==> r.alert == fatal(crate::content::ALERT_UNEXPECTED_MESSAGE) && r.error == Some(
                    Error::ApplicationDataEpochZero,
                ) && !r.is_handshake
                &&& b.state.remote_epoch == e || b.state.remote_epoch == e + 1
            })
    &&& (!enqueue ==> b.incoming_encrypted_packets == a.incoming_encrypted_packets)
    &&& (!header_decodes(pkt@) || header_of(pkt@).epoch > a.state.remote_epoch + 1 || header_of(pkt@).epoch
                < a.state.remote_epoch ==> discarded(r) && b == a)
    &&& (header_decodes(pkt@) && header_of(pkt@).epoch == a.state.remote_epoch + 1 ==> discarded(r)
                && same_but_queue(a, b))
    &&& (forall|k: int| a.cache@.len() <= k < b.cache@.len() ==> (#[trigger] b.cache@[k]).is_client
                == !a.is_client)
    &&& (forall|e: u16, s: u64| #[trigger] b.spec_received(e, s) ==> a.spec_received(e, s)
                || (header_decodes(pkt@) && e == header_of(pkt@).epoch && s == header_of(pkt@).sequence_number))
    &&& (b.cache@.len() >= a.cache@.len())
    &&& (b.cache@.take(a.cache@.len() as int) == a.cache@)
    &&& (forall|e: u16, s: u64| #[trigger] received_in(a.replay_detector@, e, s) ==> received_in(b.replay_detector@, e, s))
    &&& (header_decodes(pkt@) && header_of(pkt@).epoch <= a.state.remote_epoch && a.spec_received(
                header_of(pkt@).epoch,
                header_of(pkt@).sequence_number,
            ) ==> replay_dropped(a, b, r))
    &&& (!header_decodes(pkt@) || header_of(pkt@).epoch != a.state.remote_epoch
                || !a.spec_fresh(header_of(pkt@).epoch, header_of(pkt@).sequence_number) ==> b.cache@
                == a.cache@ && b.state.remote_epoch == a.state.remote_epoch)
    &&& (header_decodes(pkt@) && header_of(pkt@).epoch == a.state.remote_epoch && a.spec_fresh(
                header_of(pkt@).epoch,
                header_of(pkt@).sequence_number,
            ) ==> {
                let h = header_of(pkt@);
                &&& h.epoch == 0 ==> plain_effect(a, b, r, h, pkt@, enqueue)
                &&& h.epoch != 0 && !a.state.cipher_suite_initialized ==> discarded(r) && !b.spec_received(
                    h.epoch,
                    h.sequence_number,
                ) && b.incoming_decrypted_packets == a.incoming_decrypted_packets
                    && b.cache@ == a.cache@ && b.spec_fresh(h.epoch, h.sequence_number)
                &&& h.epoch != 0 && a.state.cipher_suite_initialized ==> exists|o: Option<Vec<u8>>|
                    #[trigger] decrypt.ensures((pkt,), o) && match o {
                        None => discarded(r) && !b.spec_received(h.epoch, h.sequence_number)
                            && b.spec_fresh(h.epoch, h.sequence_number) && b.state == a.state
                            && b.incoming_decrypted_packets == a.incoming_decrypted_packets
                            && b.cache@ == a.cache@,
                        Some(p) => plain_effect(a, b, r, h, p@, enqueue),
                    }
            })
}

/// `b` is `a` but for the queue of records kept for later.
pub open spec fn same_but_queue(a: DTLSConn, b: DTLSConn) -> bool {
    b == DTLSConn { incoming_encrypted_packets: b.incoming_encrypted_packets, ..a }
}

/// Every record of `recs` is one that `a` has already accepted, of an
/// epoch not after its current one.
pub open spec fn all_replays(a: DTLSConn, recs: Seq<Seq<u8>>) -> bool {
    forall|i: int| 0 <= i < recs.len() ==> header_decodes(#[trigger] recs[i]) && header_of(recs[i]).epoch
        <= a.state.remote_epoch && a.spec_received(header_of(recs[i]).epoch, header_of(recs[i]).sequence_number)
}

/// A replayed record was dropped: nothing but the replay windows' pending
/// marks changed.
pub open spec fn replay_dropped(a: DTLSConn, b: DTLSConn, r: IncomingResult) -> bool {
    &&& discarded(r)
    &&& b.incoming_decrypted_packets == a.incoming_decrypted_packets
    &&& b.incoming_encrypted_packets == a.incoming_encrypted_packets
    &&& b.cache == a.cache
    &&& b.state.remote_epoch == a.state.remote_epoch
    &&& b.handshake_rx == a.handshake_rx
    &&& b.fragment_buffer == a.fragment_buffer
    &&& b.state == a.state
    &&& b.outgoing_records == a.outgoing_records
}

/// The alert that an incoming alert record with level byte `l` and
/// description `d` is answered with: a close_notify is answered in kind.
pub open spec fn alert_of(l: u8, d: u8) -> Alert {
    if d == ALERT_CLOSE_NOTIFY {
        Alert { alert_level: AlertLevel::Warning, alert_description: ALERT_CLOSE_NOTIFY }
    } else {
        Alert { alert_level: if l == 1 { AlertLevel::Warning } else { AlertLevel::Fatal }, alert_description: d }
    }
}

/// What a fresh record of header `h` whose clear bytes are `q` does, from
/// state `a` to state `b` with result `r`.
pub open spec fn plain_effect(a: DTLSConn, b: DTLSConn, r: IncomingResult, h: RecordLayerHeader, q: Seq<u8>, enq: bool) -> bool {
    let accepted = b.spec_received(h.epoch, h.sequence_number);
    let queued = if header_decodes(q) && q[0] == crate::record_layer::CONTENT_TYPE_CHANGE_CIPHER_SPEC
        && !a.state.cipher_suite_initialized && enq {
        b.incoming_encrypted_packets@.len() == a.incoming_encrypted_packets@.len() + 1
            && b.incoming_encrypted_packets@.drop_last() == a.incoming_encrypted_packets@
            && b.incoming_encrypted_packets@.last()@ == q
    } else {
        b.incoming_encrypted_packets == a.incoming_encrypted_packets
    };
    let from_peer = forall|k: int| a.cache@.len() <= k < b.cache@.len() ==> (#[trigger] b.cache@[k]).is_client == !a.is_client;
    queued && from_peer && plain_effect_body(a, b, r, h, q)
}

pub open spec fn plain_effect_body(a: DTLSConn, b: DTLSConn, r: IncomingResult, h: RecordLayerHeader, q: Seq<u8>) -> bool {
    let accepted = b.spec_received(h.epoch, h.sequence_number);
    let same_rx = b.incoming_decrypted_packets == a.incoming_decrypted_packets;
    let same_cache = b.cache@ == a.cache@;
    let epoch_kept = b.state.remote_epoch == a.state.remote_epoch;
    if !header_decodes(q) {
        discarded(r) && !accepted && same_rx && same_cache && epoch_kept
    } else if q[0] == CONTENT_TYPE_HANDSHAKE {
        &&& same_rx && epoch_kept
        &&& b.cache@.len() >= a.cache@.len() && b.cache@.take(a.cache@.len() as int) == a.cache@
        &&& (r.is_handshake && r.alert is None && r.error is None && accepted) || (discarded(r) && !accepted && same_cache)
    } else if q[0] == crate::record_layer::CONTENT_TYPE_APPLICATION_DATA {
        &&& same_cache && epoch_kept
        &&& if h.epoch == 0 {
            r.alert == fatal(crate::content::ALERT_UNEXPECTED_MESSAGE) && r.error == Some(Error::ApplicationDataEpochZero)
                && !r.is_handshake && !accepted && same_rx
        } else {
            discarded(r) && accepted && b.incoming_decrypted_packets@.len() == a.incoming_decrypted_packets@.len() + 1
                && b.incoming_decrypted_packets@.drop_last() == a.incoming_decrypted_packets@
                && b.incoming_decrypted_packets@.last()@ == q.subrange(13, q.len() as int)
        }
    } else if q[0] == crate::record_layer::CONTENT_TYPE_CHANGE_CIPHER_SPEC {
        &&& same_rx && same_cache && discarded(r)
        &&& if a.state.cipher_suite_initialized && a.state.remote_epoch < 65535 {
            b.state.remote_epoch == a.state.remote_epoch + 1 && accepted
        } else {
            epoch_kept && !accepted
        }
    } else if q[0] == crate::record_layer::CONTENT_TYPE_ALERT {
        &&& same_rx && same_cache && epoch_kept && !r.is_handshake
        &&& if q.len() == 15 && (q[13] == 1 || q[13] == 2) {
            r.error == Some(Error::AlertReceived) && accepted && r.alert == Some(alert_of(q[13], q[14]))
        } else {
            r.alert == fatal(crate::content::ALERT_DECODE_ERROR) && r.error == Some(Error::BufferTooSmall) && !accepted
        }
    } else {
        same_rx && same_cache && epoch_kept && !accepted && !r.is_handshake && r.alert == fatal(
            crate::content::ALERT_UNEXPECTED_MESSAGE,
        ) && r.error == Some(Error::UnhandledContextType)
    }
}

/// The state that incoming records change: the receive side's fields.
pub open spec fn send_side_same(a: DTLSConn, b: DTLSConn) -> bool {
    &&& a.outgoing_records == b.outgoing_records
    &&& a.sent_records == b.sent_records
    &&& a.sent_messages == b.sent_messages
    &&& a.state.local_sequence_number == b.state.local_sequence_number
    &&& a.state.local_epoch == b.state.local_epoch
    &&& a.state.handshake_send_sequence == b.state.handshake_send_sequence
    &&& a.handshake_completed == b.handshake_completed
    &&& a.closed == b.closed
    &&& a.current_handshake_state == b.current_handshake_state
    &&& a.current_flight == b.current_flight
    &&& a.flights == b.flights
    &&& a.cfg == b.cfg
    &&& a.is_client == b.is_client
    &&& a.state.cipher_suite_initialized == b.state.cipher_suite_initialized
}

impl DTLSConn {
    /// Whether the replay detector of `epoch` would let `seq` through.
    pub open spec fn spec_fresh(&self, epoch: u16, seq: u64) -> bool {
        if (epoch as int) < self.replay_detector@.len() {
            self.replay_detector@[epoch as int].spec_is_fresh(seq)
        } else {
            seq <= MAX_SEQUENCE_NUMBER
        }
    }

    /// Whether a record of `epoch` and `seq` was accepted before.
    pub open spec fn spec_received(&self, epoch: u16, seq: u64) -> bool {
        received_in(self.replay_detector@, epoch, seq)
    }

    /// Makes sure a replay detector exists for every epoch up to `epoch`.
    fn grow_detectors(&mut self, epoch: u16)
        requires
            old(self).wf(),
        ensures
            final(self).wf(),
            send_side_same(*old(self), *final(self)),
            final(self).replay_detector@.len() > epoch,
            final(self).replay_protection_window == old(self).replay_protection_window,
            final(self).state.remote_epoch == old(self).state.remote_epoch,
            final(self).incoming_decrypted_packets == old(self).incoming_decrypted_packets,
            final(self).incoming_encrypted_packets == old(self).incoming_encrypted_packets,
            final(self).cache == old(self).cache,
            final(self).fragment_buffer == old(self).fragment_buffer,
            final(self).handshake_rx == old(self).handshake_rx,
            final(self).state == old(self).state,
            final(self).outgoing_records == old(self).outgoing_records,
            forall|e: u16, s: u64| #[trigger] final(self).spec_fresh(e, s) == old(self).spec_fresh(e, s),
            forall|e: u16, s: u64| #[trigger] received_in(final(self).replay_detector@, e, s) == received_in(old(self).replay_detector@, e, s),
            forall|e: int| 0 <= e < old(self).replay_detector@.len() ==> #[trigger] final(self).replay_detector@[e] == old(self).replay_detector@[e],
    {
        while self.replay_detector.len() <= epoch as usize
            invariant
                self.wf(),
                send_side_same(*old(self), *self),
                self.replay_protection_window == old(self).replay_protection_window,
                self.state.remote_epoch == old(self).state.remote_epoch,
                self.incoming_decrypted_packets == old(self).incoming_decrypted_packets,
                self.incoming_encrypted_packets == old(self).incoming_encrypted_packets,
                self.cache == old(self).cache,
                self.fragment_buffer == old(self).fragment_buffer,
                self.handshake_rx == old(self).handshake_rx,
                self.state == old(self).state,
                self.outgoing_records == old(self).outgoing_records,
                self.replay_detector@.len() >= old(self).replay_detector@.len(),
                forall|e: int| 0 <= e < old(self).replay_detector@.len() ==> #[trigger] self.replay_detector@[e] == old(self).replay_detector@[e],
                forall|e: int| old(self).replay_detector@.len() <= e < self.replay_detector@.len() ==> {
                    &&& (#[trigger] self.replay_detector@[e]).latest_seq == 0
                    &&& !self.replay_detector@[e].any_accepted
                    &&& self.replay_detector@[e].received@ == Set::<u64>::empty()
                    &&& self.replay_detector@[e].window_size == self.replay_protection_window
                    &&& self.replay_detector@[e].max_seq == MAX_SEQUENCE_NUMBER
                    &&& forall|i: int| 0 <= i < self.replay_detector@[e].mask@.len() ==> !#[trigger] self.replay_detector@[e].mask@[i]
                },
            decreases epoch as int + 1 - self.replay_detector@.len(),
        {
            let d = SlidingWindowDetector::new(self.replay_protection_window, MAX_SEQUENCE_NUMBER);
            proof {
                assert forall|i: int| 0 <= i < d.mask@.len() implies !#[trigger] d.mask@[i] by {
                    assert(d.mask@[i] <==> (i <= d.latest_seq && d.received@.contains((d.latest_seq - i) as u64)));
                }
            }
            self.replay_detector.push(d);
        }
        assert forall|e: u16, s: u64| #[trigger] self.spec_fresh(e, s) == old(self).spec_fresh(e, s) by {}
    }

    /// Processes one record of a datagram. Broken records, records of an
    /// epoch before the current one or more than one ahead, replays and
    /// records that fail to decrypt are dropped without a word; a record of
    /// the next epoch, or an encrypted one before the cipher is ready, is
    /// queued for later when `enqueue` is set. Handshake fragments go to the
    /// fragment buffer and completed messages into the handshake cache; an
    /// alert, application data at epoch 0 or an unknown content type come
    /// back as an alert and an error.
    pub fn handle_incoming_packet<F: Fn(Vec<u8>) -> Option<Vec<u8>>>(
        &mut self,
        pkt: Vec<u8>,
        enqueue: bool,
        decrypt: &F,
    ) -> (r: IncomingResult)
        requires
            old(self).wf(),
            forall|v: Vec<u8>| decrypt.requires((v,)),
        ensures
            final(self).wf(),
            incoming_effect(*old(self), *final(self), pkt, enqueue, decrypt, r),
    {
        let ghost p0 = pkt;
        let r = self.process_record(pkt, enqueue, decrypt);
        assert(incoming_effect(*old(self), *self, p0, enqueue, decrypt, r));
        r
    }

    fn process_record<F: Fn(Vec<u8>) -> Option<Vec<u8>>>(
        &mut self,
        pkt: Vec<u8>,
        enqueue: bool,
        decrypt: &F,
    ) -> (r: IncomingResult)
        requires
            old(self).wf(),
            forall|v: Vec<u8>| decrypt.requires((v,)),
        ensures
            final(self).wf(),
            send_side_same(*old(self), *final(self)),
            !header_decodes(pkt@) ==> discarded(r) && final(self).incoming_decrypted_packets
                == old(self).incoming_decrypted_packets && final(self).incoming_encrypted_packets
                == old(self).incoming_encrypted_packets,
            header_decodes(pkt@) ==> {
                let h = header_of(pkt@);
                let e = old(self).state.remote_epoch;
                &&& (h.epoch > e + 1 || h.epoch < e) ==> discarded(r)
                    && final(self).incoming_decrypted_packets == old(self).incoming_decrypted_packets
                    && final(self).incoming_encrypted_packets == old(self).incoming_encrypted_packets
                &&& h.epoch == e + 1 ==> discarded(r) && final(self).incoming_decrypted_packets
                    == old(self).incoming_decrypted_packets && final(self).incoming_encrypted_packets@
                    == if enqueue {
                    old(self).incoming_encrypted_packets@.push(pkt)
                } else {
                    old(self).incoming_encrypted_packets@
                }
                &&& h.epoch == e && !old(self).spec_fresh(h.epoch, h.sequence_number) ==> discarded(r)
                    && final(self).incoming_decrypted_packets == old(self).incoming_decrypted_packets
                    && final(self).state.remote_epoch == e
                &&& h.epoch == e && old(self).spec_received(h.epoch, h.sequence_number) ==> discarded(r)
                    && final(self).incoming_decrypted_packets == old(self).incoming_decrypted_packets
                &&& h.epoch == 0 && e == 0 && old(self).spec_fresh(0, h.sequence_number)
                    && h.content_type == crate::record_layer::CONTENT_TYPE_APPLICATION_DATA
                    ==> r.alert == fatal(crate::content::ALERT_UNEXPECTED_MESSAGE) && r.error == Some(
                    Error::ApplicationDataEpochZero,
                ) && !r.is_handshake
                &&& final(self).state.remote_epoch == e || final(self).state.remote_epoch == e + 1
            },
            !enqueue ==> final(self).incoming_encrypted_packets == old(self).incoming_encrypted_packets,
            !header_decodes(pkt@) || header_of(pkt@).epoch > old(self).state.remote_epoch + 1 || header_of(pkt@).epoch
                < old(self).state.remote_epoch ==> discarded(r) && *final(self) == *old(self),
            header_decodes(pkt@) && header_of(pkt@).epoch == old(self).state.remote_epoch + 1 ==> discarded(r)
                && same_but_queue(*old(self), *final(self)),
            forall|k: int| old(self).cache@.len() <= k < final(self).cache@.len() ==> (#[trigger] final(self).cache@[k]).is_client
                == !old(self).is_client,
            forall|e: u16, s: u64| #[trigger] final(self).spec_received(e, s) ==> old(self).spec_received(e, s)
                || (header_decodes(pkt@) && e == header_of(pkt@).epoch && s == header_of(pkt@).sequence_number),
            final(self).cache@.len() >= old(self).cache@.len(),
            final(self).cache@.take(old(self).cache@.len() as int) == old(self).cache@,
            forall|e: u16, s: u64| #[trigger] received_in(old(self).replay_detector@, e, s) ==> received_in(final(self).replay_detector@, e, s),
            header_decodes(pkt@) && header_of(pkt@).epoch <= old(self).state.remote_epoch && old(self).spec_received(
                header_of(pkt@).epoch,
                header_of(pkt@).sequence_number,
            ) ==> replay_dropped(*old(self), *final(self), r),
            !header_decodes(pkt@) || header_of(pkt@).epoch != old(self).state.remote_epoch
                || !old(self).spec_fresh(header_of(pkt@).epoch, header_of(pkt@).sequence_number) ==> final(self).cache@
                == old(self).cache@ && final(self).state.remote_epoch == old(self).state.remote_epoch,
            header_decodes(pkt@) && header_of(pkt@).epoch == old(self).state.remote_epoch && old(self).spec_fresh(
                header_of(pkt@).epoch,
                header_of(pkt@).sequence_number,
            ) ==> {
                let h = header_of(pkt@);
                &&& h.epoch == 0 ==> plain_effect(*old(self), *final(self), r, h, pkt@, enqueue)
                &&& h.epoch != 0 && !old(self).state.cipher_suite_initialized ==> discarded(r) && !final(self).spec_received(
                    h.epoch,
                    h.sequence_number,
                ) && final(self).incoming_decrypted_packets == old(self).incoming_decrypted_packets
                    && final(self).cache@ == old(self).cache@ && final(self).spec_fresh(h.epoch, h.sequence_number)
                &&& h.epoch != 0 && old(self).state.cipher_suite_initialized ==> exists|o: Option<Vec<u8>>|
                    #[trigger] decrypt.ensures((pkt,), o) && match o {
                        None => discarded(r) && !final(self).spec_received(h.epoch, h.sequence_number)
                            && final(self).spec_fresh(h.epoch, h.sequence_number) && final(self).state == old(self).state
                            && final(self).incoming_decrypted_packets == old(self).incoming_decrypted_packets
                            && final(self).cache@ == old(self).cache@,
                        Some(p) => plain_effect(*old(self), *final(self), r, h, p@, enqueue),
                    }
            },
    {
        let ghost pkt0 = pkt;
        let none = IncomingResult { is_handshake: false, alert: None, error: None };
        let h = match RecordLayerHeader::unmarshal(pkt.as_slice()) {
            Ok(h) => h,
            Err(_) => {
                return none;
            },
        };
        let epoch = self.state.remote_epoch;
        if h.epoch > epoch {
            if h.epoch - epoch > 1 {
                return none;
            }
            if enqueue {
                self.incoming_encrypted_packets.push(pkt);
            }
            return none;
        }
        if h.epoch < epoch {
            return none;
        }
        self.grow_detectors(h.epoch);
        let ep = h.epoch as usize;
        let ghost g = self.replay_detector@;
        proof {
            if old(self).spec_received(h.epoch, h.sequence_number) {
                assert(self.spec_received(h.epoch, h.sequence_number));
                crate::replay_detector::lemma_accepted_never_fresh(g[ep as int], h.sequence_number);
            }
            assert(self.spec_fresh(h.epoch, h.sequence_number) == g[ep as int].spec_is_fresh(h.sequence_number));
        }
        let mut det = self.replay_detector.remove(ep);
        assert(det == g[ep as int]);
        let ok = det.check(h.sequence_number);
        self.replay_detector.insert(ep, det);
        proof {
            assert(self.replay_detector@ =~= g.update(ep as int, det));
            assert(det.pending is None || det.pending == Some(h.sequence_number));
            assert forall|e: u16, s: u64| #[trigger] received_in(old(self).replay_detector@, e, s) implies received_in(self.replay_detector@, e, s) by {
                assert(received_in(g, e, s) == received_in(old(self).replay_detector@, e, s));
                if (e as int) < self.replay_detector@.len() && e != ep {
                    assert(self.replay_detector@[e as int] == g[e as int]);
                }
            }
            assert forall|e: u16, s: u64| #[trigger] received_in(self.replay_detector@, e, s) ==> received_in(old(self).replay_detector@, e, s) by {
                if (e as int) < self.replay_detector@.len() && e != ep {
                    assert(self.replay_detector@[e as int] == g[e as int]);
                }
                assert(received_in(g, e, s) == received_in(old(self).replay_detector@, e, s));
            }
            assert forall|i: int| 0 <= i < self.replay_detector@.len() implies (#[trigger] self.replay_detector@[i]).wf() by {
                if i != ep {
                    assert(self.replay_detector@[i] == g[i]);
                }
            }
        }
        if !ok {
            return none;
        }
        proof {
            assert(!self.spec_received(h.epoch, h.sequence_number));
        }
        let mut pkt = pkt;
        if h.epoch != 0 {
            if !self.state.cipher_suite_initialized {
                if enqueue {
                    self.incoming_encrypted_packets.push(pkt);
                }
                return none;
            }
            let o = decrypt(pkt);
            let ghost og = o;
            assert(decrypt.ensures((pkt0,), og));
            pkt = match o {
                Some(p) => p,
                None => {
                    return none;
                },
            };
            assert(og == Some(pkt));
        }
        let ghost mid = *self;
        let r = self.process_plaintext(pkt, h, ep, enqueue);
        proof {
            assert(mid.state.remote_epoch == old(self).state.remote_epoch);
            assert(mid.cache == old(self).cache);
            assert(mid.incoming_decrypted_packets == old(self).incoming_decrypted_packets);
        }
        r
    }

    /// Acts on a record that passed the epoch and replay checks, given in
    /// clear as `pkt`.
    fn process_plaintext(&mut self, pkt: Vec<u8>, h: RecordLayerHeader, ep: usize, enqueue: bool) -> (r: IncomingResult)
        requires
            old(self).wf(),
            ep < old(self).replay_detector@.len(),
            ep == h.epoch,
            h.epoch == old(self).state.remote_epoch,
            old(self).replay_detector@[ep as int].pending == Some(h.sequence_number),
            !old(self).spec_received(h.epoch, h.sequence_number),
        ensures
            final(self).wf(),
            send_side_same(*old(self), *final(self)),
            !enqueue ==> final(self).incoming_encrypted_packets == old(self).incoming_encrypted_packets,
            forall|e: u16, s: u64| #[trigger] received_in(final(self).replay_detector@, e, s) ==> received_in(old(self).replay_detector@, e, s)
                || (e == h.epoch && s == h.sequence_number),
            plain_effect(*old(self), *final(self), r, h, pkt@, enqueue),
            forall|e: u16, s: u64| #[trigger] received_in(old(self).replay_detector@, e, s) ==> received_in(final(self).replay_detector@, e, s),
            final(self).cache@.len() >= old(self).cache@.len(),
            final(self).cache@.take(old(self).cache@.len() as int) == old(self).cache@,
    {
        let none = IncomingResult { is_handshake: false, alert: None, error: None };
        let epoch = self.state.remote_epoch;
        match self.fragment_buffer.push(pkt.as_slice()) {
            Err(_) => {
                assert(self.cache@.take(self.cache@.len() as int) =~= self.cache@);
                return none;
            },
            Ok(true) => {
                self.accept_record(ep);
                self.drain_fragments();
                return IncomingResult { is_handshake: true, alert: None, error: None };
            },
            Ok(false) => {},
        }
        if pkt.len() < RECORD_LAYER_HEADER_SIZE {
            return IncomingResult {
                is_handshake: false,
                alert: Some(Alert { alert_level: AlertLevel::Fatal, alert_description: crate::content::ALERT_DECODE_ERROR }),
                error: Some(Error::BufferTooSmall),
            };
        }
        let content_type = pkt[0];
        if content_type == crate::record_layer::CONTENT_TYPE_ALERT {
            if pkt.len() != RECORD_LAYER_HEADER_SIZE + 2 || (pkt[13] != 1 && pkt[13] != 2) {
                return IncomingResult {
                    is_handshake: false,
                    alert: Some(Alert { alert_level: AlertLevel::Fatal, alert_description: crate::content::ALERT_DECODE_ERROR }),
                    error: Some(Error::BufferTooSmall),
                };
            }
            let level = if pkt[13] == 1 { AlertLevel::Warning } else { AlertLevel::Fatal };
            let mut a = Alert { alert_level: level, alert_description: pkt[14] };
            if a.alert_description == ALERT_CLOSE_NOTIFY {
                a = Alert { alert_level: AlertLevel::Warning, alert_description: ALERT_CLOSE_NOTIFY };
            }
            self.accept_record(ep);
            return IncomingResult { is_handshake: false, alert: Some(a), error: Some(Error::AlertReceived) };
        } else if content_type == crate::record_layer::CONTENT_TYPE_CHANGE_CIPHER_SPEC {
            if !self.state.cipher_suite_initialized {
                if enqueue {
                    let ghost before = self.incoming_encrypted_packets@;
                    let ghost q = pkt@;
                    self.incoming_encrypted_packets.push(pkt);
                    assert(self.incoming_encrypted_packets@.drop_last() =~= before);
                    assert(self.incoming_encrypted_packets@.last()@ == q);
                }
                return none;
            }
            if epoch < 65535 && h.epoch == epoch {
                self.state.remote_epoch = epoch + 1;
                self.accept_record(ep);
            }
            return none;
        } else if content_type == crate::record_layer::CONTENT_TYPE_APPLICATION_DATA {
            if h.epoch == 0 {
                return IncomingResult {
                    is_handshake: false,
                    alert: Some(Alert { alert_level: AlertLevel::Fatal, alert_description: crate::content::ALERT_UNEXPECTED_MESSAGE }),
                    error: Some(Error::ApplicationDataEpochZero),
                };
            }
            self.accept_record(ep);
            let data = slice_to_vec(slice_subrange(pkt.as_slice(), RECORD_LAYER_HEADER_SIZE, pkt.len()));
            let ghost rx = self.incoming_decrypted_packets@;
            self.incoming_decrypted_packets.push(data);
            assert(self.incoming_decrypted_packets@.drop_last() =~= rx);
            assert(self.incoming_decrypted_packets@.last()@ == pkt@.subrange(13, pkt@.len() as int));
            return none;
        }
        IncomingResult {
            is_handshake: false,
            alert: Some(Alert { alert_level: AlertLevel::Fatal, alert_description: crate::content::ALERT_UNEXPECTED_MESSAGE }),
            error: Some(Error::UnhandledContextType),
        }
    }

    /// Commits the sequence number that the detector of epoch `ep` just let through.
    fn accept_record(&mut self, ep: usize)
        requires
            old(self).wf(),
            ep < old(self).replay_detector@.len(),
            ep <= u16::MAX,
        ensures
            final(self).wf(),
            send_side_same(*old(self), *final(self)),
            final(self).state.remote_epoch == old(self).state.remote_epoch,
            final(self).incoming_decrypted_packets == old(self).incoming_decrypted_packets,
            final(self).incoming_encrypted_packets == old(self).incoming_encrypted_packets,
            final(self).replay_detector@.len() == old(self).replay_detector@.len(),
            forall|e: u16, s: u64| #[trigger] received_in(final(self).replay_detector@, e, s) ==> received_in(old(self).replay_detector@, e, s)
                || (e == ep && old(self).replay_detector@[ep as int].pending == Some(s)),
            old(self).replay_detector@[ep as int].pending matches Some(s) ==> received_in(final(self).replay_detector@, ep as u16, s),
            forall|e: u16, s: u64| #[trigger] received_in(old(self).replay_detector@, e, s) ==> received_in(final(self).replay_detector@, e, s),
            final(self).cache == old(self).cache,
            final(self).fragment_buffer == old(self).fragment_buffer,
    {
        let ghost g = self.replay_detector@;
        let mut det = self.replay_detector.remove(ep);
        assert(det == g[ep as int]);
        det.accept();
        self.replay_detector.insert(ep, det);
        proof {
            assert(self.replay_detector@ =~= g.update(ep as int, det));
            assert(self.replay_detector@[ep as int] == det);
            assert forall|e: u16, s: u64| #[trigger] received_in(old(self).replay_detector@, e, s) implies received_in(self.replay_detector@, e, s) by {
                if (e as int) < g.len() && e as int != ep as int {
                    assert(self.replay_detector@[e as int] == g[e as int]);
                }
            }
            assert((ep as u16) as int == ep as int);
            assert forall|i: int| 0 <= i < self.replay_detector@.len() implies (#[trigger] self.replay_detector@[i]).wf() by {
                if i != ep {
                    assert(self.replay_detector@[i] == g[i]);
                }
            }
        }
    }

    /// Moves every completed handshake message into the cache, as received
    /// from the peer.
    fn drain_fragments(&mut self)
        requires
            old(self).wf(),
        ensures
            final(self).wf(),
            send_side_same(*old(self), *final(self)),
            final(self).state.remote_epoch == old(self).state.remote_epoch,
            final(self).incoming_decrypted_packets == old(self).incoming_decrypted_packets,
            final(self).incoming_encrypted_packets == old(self).incoming_encrypted_packets,
            final(self).replay_detector == old(self).replay_detector,
            final(self).cache@.len() >= old(self).cache@.len(),
            final(self).cache@.take(old(self).cache@.len() as int) == old(self).cache@,
            forall|k: int| old(self).cache@.len() <= k < final(self).cache@.len() ==> (#[trigger] final(self).cache@[k]).is_client
                == !old(self).is_client,
    {
        let mut budget: u32 = 65536;
        assert(self.cache@.take(self.cache@.len() as int) =~= self.cache@);
        while budget > 0
            invariant
                self.wf(),
                send_side_same(*old(self), *self),
                self.state.remote_epoch == old(self).state.remote_epoch,
                self.incoming_decrypted_packets == old(self).incoming_decrypted_packets,
                self.incoming_encrypted_packets == old(self).incoming_encrypted_packets,
                self.replay_detector == old(self).replay_detector,
                self.cache@.len() >= old(self).cache@.len(),
                self.cache@.take(old(self).cache@.len() as int) == old(self).cache@,
                self.is_client == old(self).is_client,
                forall|k: int| old(self).cache@.len() <= k < self.cache@.len() ==> (#[trigger] self.cache@[k]).is_client
                    == !old(self).is_client,
            decreases budget,
        {
            budget = budget - 1;
            match self.fragment_buffer.pop() {
                None => {
                    return;
                },
                Some((out, epoch)) => {
                    if out.len() >= 12 {
                        let hh = match HandshakeHeader::unmarshal(out.as_slice()) {
                            Ok(hh) => hh,
                            Err(_) => {
                                return;
                            },
                        };
                        let from_client = !self.is_client;
                        let ghost cb = self.cache@;
                        self.cache.push(out, epoch, hh.message_sequence, hh.handshake_type, from_client);
                        proof {
                            if self.cache@ != cb {
                                assert(self.cache@.take(old(self).cache@.len() as int) =~= cb.take(old(self).cache@.len() as int));
                                assert forall|k: int| old(self).cache@.len() <= k < self.cache@.len() implies (#[trigger] self.cache@[k]).is_client
                                    == !old(self).is_client by {
                                    if k < cb.len() {
                                        assert(self.cache@[k] == cb[k]);
                                    }
                                }
                            }
                        }
                    }
                },
            }
        }
    }

    /// Processes every record of a datagram in turn. An alert to send is
    /// queued; one that ends the connection fails with `AlertFatalOrClose`,
    /// and any other error is reported; a record with handshake content
    /// flags the engine to parse.
    pub fn read_and_buffer<F: Fn(Vec<u8>) -> Option<Vec<u8>>>(&mut self, buf: &[u8], decrypt: &F) -> (r: Result<(), Error>)
        requires
            old(self).wf(),
            forall|v: Vec<u8>| decrypt.requires((v,)),
        ensures
            final(self).wf(),
            crate::record_layer::datagram_records(buf@) is None ==> r == Err::<(), Error>(Error::InvalidPacketLength),
            final(self).cache@.len() >= old(self).cache@.len(),
            final(self).cache@.take(old(self).cache@.len() as int) == old(self).cache@,
            forall|e: u16, s: u64| #[trigger] received_in(old(self).replay_detector@, e, s) ==> received_in(final(self).replay_detector@, e, s),
            crate::record_layer::datagram_records(buf@) matches Some(recs) && all_replays(*old(self), recs) ==> r is Ok
                && final(self).incoming_decrypted_packets == old(self).incoming_decrypted_packets
                && final(self).outgoing_records == old(self).outgoing_records && final(self).cache == old(self).cache
                && final(self).state.remote_epoch == old(self).state.remote_epoch && final(self).handshake_rx == old(self).handshake_rx,
    {
        let pkts = match crate::record_layer::unpack_datagram(buf) {
            Ok(p) => p,
            Err(e) => {
                return Err(e);
            },
        };
        let mut i: usize = 0;
        while i < pkts.len()
            invariant
                self.wf(),
                forall|v: Vec<u8>| decrypt.requires((v,)),
                i <= pkts@.len(),
                crate::record_layer::datagram_records(buf@) == Some(crate::record_layer::views(pkts@)),
                self.cache@.len() >= old(self).cache@.len(),
                self.cache@.take(old(self).cache@.len() as int) == old(self).cache@,
                forall|e: u16, s: u64| #[trigger] received_in(old(self).replay_detector@, e, s) ==> received_in(self.replay_detector@, e, s),
                all_replays(*old(self), crate::record_layer::views(pkts@)) ==> self.incoming_decrypted_packets == old(self).incoming_decrypted_packets
                    && self.outgoing_records == old(self).outgoing_records && self.cache == old(self).cache
                    && self.state.remote_epoch == old(self).state.remote_epoch && self.handshake_rx == old(self).handshake_rx,
            decreases pkts@.len() - i,
        {
            let mut raw: Vec<u8> = Vec::new();
            raw.extend_from_slice(pkts[i].as_slice());
            let ghost pre = *self;
            proof {
                assert(raw@ == pkts@[i as int]@);
                assert(crate::record_layer::views(pkts@)[i as int] == pkts@[i as int]@);
                assert(pre.cache@.take(pre.cache@.len() as int) =~= pre.cache@);
            }
            let ghost raw0 = raw;
            let res = self.handle_incoming_packet(raw, true, decrypt);
            let ghost mid = *self;
            proof {
                assert(self.cache@.take(old(self).cache@.len() as int) =~= self.cache@.take(pre.cache@.len() as int).take(old(self).cache@.len() as int));
                if all_replays(*old(self), crate::record_layer::views(pkts@)) {
                    let q = pkts@[i as int]@;
                    assert(old(self).spec_received(header_of(q).epoch, header_of(q).sequence_number));
                    assert(pre.spec_received(header_of(q).epoch, header_of(q).sequence_number));
                }
            }
            let mut stop: Option<Error> = None;
            if let Some(a) = res.alert {
                let _ = self.notify(a.alert_level, a.alert_description);
                if a.ends_connection() {
                    stop = Some(Error::AlertFatalOrClose);
                }
            }
            if stop.is_none() {
                stop = res.error;
            }
            if stop.is_none() && res.is_handshake {
                self.handshake_rx = true;
            }
            match stop {
                Some(e) => {
                    return Err(e);
                },
                None => {},
            }
            i = i + 1;
        }
        Ok(())
    }

    /// Once the handshake has completed, processes the records that were
    /// queued for a later epoch or a cipher not yet ready, without queueing
    /// them again.
    pub fn handle_queued_packets<F: Fn(Vec<u8>) -> Option<Vec<u8>>>(&mut self, decrypt: &F) -> (r: Result<(), Error>)
        requires
            old(self).wf(),
            forall|v: Vec<u8>| decrypt.requires((v,)),
        ensures
            final(self).wf(),
            !old(self).handshake_completed ==> r is Ok && final(self).incoming_encrypted_packets == old(self).incoming_encrypted_packets,
            old(self).handshake_completed && r is Ok ==> final(self).incoming_encrypted_packets@.len() == 0,
            !old(self).handshake_completed ==> final(self).incoming_decrypted_packets == old(self).incoming_decrypted_packets
                && final(self).outgoing_records == old(self).outgoing_records && final(self).cache == old(self).cache,
            final(self).cache@.len() >= old(self).cache@.len(),
            final(self).cache@.take(old(self).cache@.len() as int) == old(self).cache@,
            forall|e: u16, s: u64| #[trigger] received_in(old(self).replay_detector@, e, s) ==> received_in(final(self).replay_detector@, e, s),
    {
        assert(self.cache@.take(self.cache@.len() as int) =~= self.cache@);
        if !self.handshake_completed {
            return Ok(());
        }
        let mut queued: Vec<Vec<u8>> = Vec::new();
        std::mem::swap(&mut queued, &mut self.incoming_encrypted_packets);
        let mut i: usize = 0;
        while i < queued.len()
            invariant
                self.wf(),
                forall|v: Vec<u8>| decrypt.requires((v,)),
                i <= queued@.len(),
                self.incoming_encrypted_packets@.len() == 0,
                old(self).handshake_completed,
                self.cache@.len() >= old(self).cache@.len(),
                self.cache@.take(old(self).cache@.len() as int) == old(self).cache@,
                forall|e: u16, s: u64| #[trigger] received_in(old(self).replay_detector@, e, s) ==> received_in(self.replay_detector@, e, s),
            decreases queued@.len() - i,
        {
            let mut raw: Vec<u8> = Vec::new();
            raw.extend_from_slice(queued[i].as_slice());
            let ghost pre = *self;
            proof {
                assert(pre.cache@.take(pre.cache@.len() as int) =~= pre.cache@);
            }
            let res = self.handle_incoming_packet(raw, false, decrypt);
            proof {
                assert(self.cache@.take(old(self).cache@.len() as int) =~= self.cache@.take(pre.cache@.len() as int).take(old(self).cache@.len() as int));
            }
            if let Some(a) = res.alert {
                let _ = self.notify(a.alert_level, a.alert_description);
                if a.ends_connection() {
                    return Err(Error::AlertFatalOrClose);
                }
            }
            if let Some(e) = res.error {
                return Err(e);
            }
            i = i + 1;
        }
        Ok(())
    }
}

/// Where a connection's datagrams come from and go to.
#[derive(Clone, Copy, Debug, PartialEq, Eq, Structural)]
pub struct TransportContext {
    pub local_port: u16,
    pub peer_port: u16,
}

/// A connection with the transport it talks over, once known.
pub struct DtlsConnectionHandler {
    pub transport: Option<TransportContext>,
    pub conn: DTLSConn,
}

impl DtlsConnectionHandler {
    pub fn new(
        handshake_config: HandshakeConfig,
        is_client: bool,
        client_transport: Option<TransportContext>,
        initial_state: Option<State>,
    ) -> (r: Self)
        requires
            handshake_config.wf(),
            initial_state matches Some(s) ==> forall|i: int|
                0 <= i < s.local_sequence_number@.len()
                    ==> #[trigger] s.local_sequence_number@[i] <= MAX_SEQUENCE_NUMBER + 1,
        ensures
            r.conn.wf(),
            r.transport == client_transport,
            r.conn.is_client == is_client,
    {
        DtlsConnectionHandler {
            transport: client_transport,
            conn: DTLSConn::new(handshake_config, is_client, initial_state),
        }
    }

    /// The transport became active: start the handshake.
    pub fn transport_active(&mut self, now: u64) -> (r: Result<HandshakeAction, Error>)
        requires
            old(self).conn.wf(),
        ensures
            final(self).conn.wf(),
            old(self).conn.current_handshake_state == HandshakeState::Preparing ==> r == Ok::<HandshakeAction, Error>(HandshakeAction::Generate),
            old(self).conn.current_handshake_state != HandshakeState::Sending ==> final(self).conn.outgoing_records == old(self).conn.outgoing_records,
    {
        self.conn.handshake(now)
    }

    /// A datagram arrived: buffer its records, run the handshake while it is
    /// not complete, and hand back the application data now readable.
    pub fn read<F: Fn(Vec<u8>) -> Option<Vec<u8>>>(
        &mut self,
        transport: TransportContext,
        msg: &[u8],
        decrypt: &F,
        now: u64,
    ) -> (r: Result<(Vec<Vec<u8>>, HandshakeAction), Error>)
        requires
            old(self).conn.wf(),
            forall|v: Vec<u8>| decrypt.requires((v,)),
        ensures
            final(self).conn.wf(),
            final(self).transport is Some,
            crate::record_layer::datagram_records(msg@) is None ==> r is Err,
    {
        if self.transport.is_none() {
            self.transport = Some(transport);
        }
        match self.conn.read_and_buffer(msg, decrypt) {
            Ok(()) => {},
            Err(e) => {
                return Err(e);
            },
        }
        let mut action = HandshakeAction::Idle;
        if !self.conn.is_handshake_completed() {
            action = match self.conn.handshake(now) {
                Ok(a) => a,
                Err(e) => {
                    return Err(e);
                },
            };
            match self.conn.handle_queued_packets(decrypt) {
                Ok(()) => {},
                Err(e) => {
                    return Err(e);
                },
            }
        }
        let mut messages: Vec<Vec<u8>> = Vec::new();
        while self.conn.incoming_decrypted_packets.len() > 0
            invariant
                self.conn.wf(),
                self.transport is Some,
            decreases self.conn.incoming_decrypted_packets@.len(),
        {
            match self.conn.read() {
                Some(m) => messages.push(m),
                None => {
                    break;
                },
            }
        }
        Ok((messages, action))
    }

    /// Application data to send.
    pub fn write(&mut self, transport: TransportContext, msg: &[u8]) -> (r: Result<usize, Error>)
        requires
            old(self).conn.wf(),
        ensures
            final(self).conn.wf(),
            final(self).transport is Some,
            old(self).conn.closed ==> r == Err::<usize, Error>(Error::ConnClosed),
            !old(self).conn.closed && !old(self).conn.handshake_completed ==> r == Err::<usize, Error>(Error::HandshakeInProgress),
            r is Err ==> final(self).conn.outgoing_records@ == old(self).conn.outgoing_records@,
            !old(self).conn.closed && old(self).conn.handshake_completed && msg@.len() <= u16::MAX
                && old(self).conn.spec_next_seq(old(self).conn.state.local_epoch) <= MAX_SEQUENCE_NUMBER ==> r
                == Ok::<usize, Error>(msg@.len() as usize) && records_view(final(self).conn.outgoing_records@) == records_view(
                old(self).conn.outgoing_records@,
            ).push(
                sealed(
                    crate::record_layer::CONTENT_TYPE_APPLICATION_DATA,
                    old(self).conn.state.local_epoch,
                    old(self).conn.spec_next_seq(old(self).conn.state.local_epoch),
                    msg@,
                    true,
                ),
            ),
    {
        if self.transport.is_none() {
            self.transport = Some(transport);
        }
        self.conn.write(msg)
    }

    /// The retransmit timer may have fired.
    pub fn handle_timeout(&mut self, now: u64) -> (r: Result<HandshakeAction, Error>)
        requires
            old(self).conn.wf(),
        ensures
            final(self).conn.wf(),
            (old(self).conn.current_retransmit_timer matches Some(t) && t <= now) && !old(self).conn.handshake_completed
                && ((old(self).conn.current_handshake_state == HandshakeState::Waiting && old(self).conn.retransmit)
                || old(self).conn.current_handshake_state == HandshakeState::Finished) ==> records_view(final(self).conn.outgoing_records@)
                == records_view(old(self).conn.outgoing_records@) + match old(self).conn.flights {
                Some(f) => run_queued(counters(old(self).conn), f@, old(self).conn.cfg.maximum_transmission_unit as int),
                None => Seq::empty(),
            },
            !(old(self).conn.current_retransmit_timer matches Some(t) && t <= now) ==> r == Ok::<HandshakeAction, Error>(HandshakeAction::Idle)
                && final(self).conn == old(self).conn,
    {
        self.conn.handle_timeout(now)
    }

    /// Lowers `eto` to the retransmit deadline if that comes first.
    pub fn poll_timeout(&self, eto: &mut u64)
        ensures
            *final(eto) == match self.conn.current_retransmit_timer {
                Some(t) => if t < *old(eto) { t } else { *old(eto) },
                None => *old(eto),
            },
    {
        self.conn.poll_timeout(eto)
    }

    pub fn close(&mut self) -> (r: Result<(), Error>)
        requires
            old(self).conn.wf(),
        ensures
            final(self).conn.wf(),
            final(self).conn.closed,
            r is Ok,
            old(self).conn.closed ==> final(self).conn.outgoing_records@ == old(self).conn.outgoing_records@,
            !old(self).conn.closed && old(self).conn.spec_next_seq(old(self).conn.state.local_epoch)
                <= MAX_SEQUENCE_NUMBER ==> records_view(final(self).conn.outgoing_records@) == records_view(
                old(self).conn.outgoing_records@,
            ).push(
                sealed(
                    crate::record_layer::CONTENT_TYPE_ALERT,
                    old(self).conn.state.local_epoch,
                    old(self).conn.spec_next_seq(old(self).conn.state.local_epoch),
                    seq![1u8, ALERT_CLOSE_NOTIFY],
                    old(self).conn.handshake_completed,
                ),
            ),
    {
        self.conn.close()
    }

    /// The records to send, once the transport is known.
    pub fn poll_outgoing(&mut self) -> (r: Vec<OutgoingRecord>)
        requires
            old(self).conn.wf(),
        ensures
            final(self).conn.wf(),
            old(self).transport is None ==> r@.len() == 0 && final(self).conn.outgoing_records == old(self).conn.outgoing_records,
            old(self).transport is Some ==> records_view(r@) == records_view(old(self).conn.outgoing_records@)
                && final(self).conn.outgoing_records@.len() == 0,
    {
        if self.transport.is_none() {
            return Vec::new();
        }
        self.conn.poll_outgoing_records()
    }
}

/// Sending lists of the same packets queues the same records.
proof fn lemma_run_same(cnt: spec_fn(u16) -> u64, a: Seq<Packet>, b: Seq<Packet>, mtu: int)
    requires
        same_packets(a, b),
    ensures
        run_records(cnt, a, mtu) == run_records(cnt, b, mtu),
        run_counters(cnt, a, mtu) == run_counters(cnt, b, mtu),
        run_error(cnt, a, mtu) == run_error(cnt, b, mtu),
    decreases a.len(),
{
    if a.len() > 0 {
        let (p, q) = (a[0], b[0]);
        assert(same_packet(p, q));
        assert(same_packets(a.drop_first(), b.drop_first())) by {
            assert forall|i: int| 0 <= i < a.drop_first().len() implies same_packet(#[trigger] a.drop_first()[i], b.drop_first()[i]) by {
                assert(same_packet(a[i + 1], b[i + 1]));
            }
        }
        assert(packet_count(p, mtu) == packet_count(q, mtu));
        assert(packet_records(p, cnt(p.epoch), mtu) =~= packet_records(q, cnt(q.epoch), mtu));
        let c1 = bumped(cnt, p.epoch, packet_count(p, mtu));
        lemma_run_same(c1, a.drop_first(), b.drop_first(), mtu);
    }
}

/// A message has one fragment count under a given MTU.
proof fn lemma_fragment_count_unique(a: int, b: int, len: int, mtu: int)
    requires
        mtu > 0,
        len >= 0,
        is_fragment_count(a, len, mtu),
        is_fragment_count(b, len, mtu),
    ensures
        a == b,
{
    if len > 0 {
        assert(a > 0) by (nonlinear_arith)
            requires a * mtu >= len, len > 0, mtu > 0;
        assert(b > 0) by (nonlinear_arith)
            requires b * mtu >= len, len > 0, mtu > 0;
        assert(a > b - 1) by (nonlinear_arith)
            requires a * mtu >= len, (b - 1) * mtu < len, mtu > 0;
        assert(b > a - 1) by (nonlinear_arith)
            requires b * mtu >= len, (a - 1) * mtu < len, mtu > 0;
    }
}

/// A fragment's wire bytes fit in one record.
proof fn lemma_fragment_len(h: Handshake, mtu: int, k: int, n: int)
    requires
        0 < mtu <= crate::config::MAX_MTU,
        h.wf(),
        0 <= k < n,
        is_fragment_count(n, h.body@.len() as int, mtu),
    ensures
        fragment_bytes(h, mtu, k).len() <= u16::MAX,
{
    if h.body@.len() > 0 {
        assert(k * mtu <= (n - 1) * mtu) by (nonlinear_arith)
            requires
                k <= n - 1,
                mtu > 0,
        ;
    } else {
        assert(k == 0);
    }
    let piece = crate::fragment::chunk(h.body@, mtu, k);
    assert((k + 1) * mtu == k * mtu + mtu) by (nonlinear_arith);
    assert(piece.len() <= mtu);
}

} // verus!
