use rtc_transport::config::HandshakeConfig;
use rtc_transport::conn::{DTLSConn, HandshakeAction, HandshakeState};
use rtc_transport::content::{Content, OutgoingRecord, Packet};
use rtc_transport::error::Error;
use rtc_transport::flight::{Flight, FlightError};
use rtc_transport::handshake::{Handshake, HANDSHAKE_TYPE_CLIENT_HELLO, HANDSHAKE_TYPE_FINISHED};
use rtc_transport::record_layer::{RecordLayerHeader, MAX_SEQUENCE_NUMBER};

fn handshake_packet(epoch: u16, typ: u8, body: Vec<u8>) -> Packet {
    Packet { epoch, content: Content::Handshake(Handshake::new(typ, body)), should_encrypt: false }
}

fn completed_client() -> DTLSConn {
    let mut c = DTLSConn::new(HandshakeConfig::default_config(), true, None);
    c.handshake_completed = true;
    c
}

fn message_sequence_of(r: &OutgoingRecord) -> u16 {
    u16::from_be_bytes([r.raw[13 + 4], r.raw[13 + 5]])
}

fn identity(v: Vec<u8>) -> Option<Vec<u8>> {
    Some(v)
}

#[test]
fn write_before_handshake_fails() {
    let mut c = DTLSConn::new(HandshakeConfig::default_config(), true, None);
    assert_eq!(c.write(b"x"), Err(Error::HandshakeInProgress));
    assert_eq!(c.read(), None);
}

#[test]
fn close_is_idempotent_and_sends_one_close_notify() {
    let mut c = completed_client();
    assert_eq!(c.close(), Ok(()));
    assert_eq!(c.close(), Ok(()));
    assert_eq!(c.write(b"x"), Err(Error::ConnClosed));
    let recs = c.poll_outgoing_records();
    assert_eq!(recs.len(), 1);
    assert_eq!(recs[0].raw[0], 21);
    assert_eq!(&recs[0].raw[13..], &[1u8, 0][..]);
}

#[test]
fn write_returns_length_and_queues_application_data() {
    let mut c = completed_client();
    assert_eq!(c.write(b"hello"), Ok(5));
    let recs = c.poll_outgoing_records();
    assert_eq!(recs.len(), 1);
    assert_eq!(recs[0].raw[0], 23);
    assert!(recs[0].should_encrypt);
    assert_eq!(&recs[0].raw[13..], b"hello");
    assert_eq!(recs[0].header.content_len, 5);
}

#[test]
fn outbound_sequence_numbers_increase_per_epoch() {
    let mut c = completed_client();
    for _ in 0..5 {
        c.write(b"a").unwrap();
    }
    let recs = c.poll_outgoing_records();
    let seqs: Vec<u64> = recs.iter().map(|r| r.header.sequence_number).collect();
    assert_eq!(seqs, vec![0, 1, 2, 3, 4]);
    for r in &recs {
        let h = RecordLayerHeader::unmarshal(&r.raw).unwrap();
        assert_eq!(h, r.header);
    }
}

#[test]
fn largest_sequence_number_is_used_then_overflow_is_fatal() {
    let mut c = completed_client();
    c.set_local_sequence_number(0, MAX_SEQUENCE_NUMBER);
    assert_eq!(c.write(b"x"), Ok(1));
    assert_eq!(c.write(b"x"), Err(Error::SequenceNumberOverflow));
    let recs = c.poll_outgoing_records();
    assert_eq!(recs.len(), 1);
    assert_eq!(recs[0].header.sequence_number, MAX_SEQUENCE_NUMBER);
}

#[test]
fn sequence_seeded_past_largest_makes_write_fail() {
    let mut c = completed_client();
    c.set_local_sequence_number(0, MAX_SEQUENCE_NUMBER + 1);
    assert_eq!(c.write(b"x"), Err(Error::SequenceNumberOverflow));
    assert_eq!(c.poll_outgoing_records().len(), 0);
}

#[test]
fn message_sequence_counts_messages_sent() {
    let mut c = DTLSConn::new(HandshakeConfig::default_config(), true, None);
    assert_eq!(c.handshake(0), Ok(HandshakeAction::Generate));
    let pkts = vec![
        handshake_packet(0, HANDSHAKE_TYPE_CLIENT_HELLO, vec![1, 2, 3]),
        handshake_packet(0, 2, vec![4]),
    ];
    assert_eq!(c.prepare(Ok(pkts)), Ok(()));
    assert_eq!(c.state.handshake_send_sequence, 2);
    assert_eq!(c.handshake(0), Ok(HandshakeAction::Idle));
    assert_eq!(c.current_handshake_state, HandshakeState::Waiting);
    let recs = c.poll_outgoing_records();
    assert_eq!(recs.len(), 2);
    assert_eq!(message_sequence_of(&recs[0]), 0);
    assert_eq!(message_sequence_of(&recs[1]), 1);
    assert_eq!(c.cache.cache.len(), 2);
}

#[test]
fn retransmit_resends_identical_message_sequences() {
    let mut cfg = HandshakeConfig::default_config();
    cfg.retransmit_interval = 100;
    let mut c = DTLSConn::new(cfg, true, None);
    assert_eq!(c.handshake(0), Ok(HandshakeAction::Generate));
    c.prepare(Ok(vec![handshake_packet(0, HANDSHAKE_TYPE_CLIENT_HELLO, vec![7; 10])])).unwrap();
    assert_eq!(c.handshake(0), Ok(HandshakeAction::Idle));
    let first = c.poll_outgoing_records();
    let mut eto = u64::MAX;
    c.poll_timeout(&mut eto);
    assert_eq!(eto, 100);
    assert_eq!(c.handle_timeout(50), Ok(HandshakeAction::Idle));
    assert_eq!(c.poll_outgoing_records().len(), 0);
    assert_eq!(c.handle_timeout(100), Ok(HandshakeAction::Idle));
    let again = c.poll_outgoing_records();
    assert_eq!(again.len(), first.len());
    assert_eq!(message_sequence_of(&again[0]), message_sequence_of(&first[0]));
    assert_eq!(&again[0].raw[13..], &first[0].raw[13..]);
    assert!(again[0].header.sequence_number > first[0].header.sequence_number);
    assert_eq!(c.state.handshake_send_sequence, 1);
}

#[test]
fn scripted_handshake_completes_and_raises_epoch() {
    let mut c = DTLSConn::new(HandshakeConfig::default_config(), true, None);
    assert_eq!(c.handshake(0), Ok(HandshakeAction::Generate));
    c.prepare(Ok(vec![handshake_packet(0, HANDSHAKE_TYPE_CLIENT_HELLO, vec![1])])).unwrap();
    assert_eq!(c.handshake(0), Ok(HandshakeAction::Idle));
    c.handshake_rx = true;
    assert_eq!(c.handshake(0), Ok(HandshakeAction::Parse));
    c.parsed(Ok(Flight::Flight5)).unwrap();
    assert_eq!(c.current_handshake_state, HandshakeState::Preparing);
    assert_eq!(c.handshake(0), Ok(HandshakeAction::Generate));
    let flight5 = vec![
        handshake_packet(0, 16, vec![2]),
        Packet { epoch: 0, content: Content::ChangeCipherSpec, should_encrypt: false },
        handshake_packet(1, HANDSHAKE_TYPE_FINISHED, vec![3; 12]),
    ];
    c.prepare(Ok(flight5)).unwrap();
    assert_eq!(c.state.local_epoch, 1);
    assert_eq!(c.handshake(0), Ok(HandshakeAction::Idle));
    c.handshake_rx = true;
    assert_eq!(c.handshake(0), Ok(HandshakeAction::Parse));
    c.parsed(Ok(Flight::Flight5)).unwrap();
    assert_eq!(c.current_handshake_state, HandshakeState::Finished);
    assert_eq!(c.handshake(0), Ok(HandshakeAction::Completed));
    assert!(c.is_handshake_completed());
    assert_eq!(c.handshake(0), Ok(HandshakeAction::Idle));
}

#[test]
fn flight_failure_sends_alert_and_reports_error() {
    let mut c = DTLSConn::new(HandshakeConfig::default_config(), false, None);
    assert_eq!(c.handshake(0), Ok(HandshakeAction::Generate));
    let fe = FlightError {
        alert: Some(rtc_transport::content::Alert {
            alert_level: rtc_transport::content::AlertLevel::Fatal,
            alert_description: 40,
        }),
        error: Some(Error::NoCertificates),
    };
    assert_eq!(c.prepare(Err(fe)), Err(Error::NoCertificates));
    let recs = c.poll_outgoing_records();
    assert_eq!(recs.len(), 1);
    assert_eq!(&recs[0].raw[13..], &[2u8, 40][..]);
}

#[test]
fn flights_answer_their_queries() {
    assert!(!Flight::Flight0.has_retransmit());
    assert!(Flight::Flight1.has_retransmit());
    assert!(!Flight::Flight2.has_retransmit());
    assert!(Flight::Flight6.is_last_send_flight());
    assert!(!Flight::Flight5.is_last_send_flight());
    assert!(Flight::Flight5.is_last_recv_flight());
    assert!(Flight::Flight4b.is_last_recv_flight());
    assert!(!Flight::Flight3.is_last_recv_flight());
}

fn app_record(epoch: u16, seq: u8, payload: &[u8]) -> Vec<u8> {
    let mut r = vec![23u8, 0xfe, 0xfd, (epoch >> 8) as u8, epoch as u8, 0, 0, 0, 0, 0, seq, 0, payload.len() as u8];
    r.extend_from_slice(payload);
    r
}

#[test]
fn replayed_record_is_silently_discarded() {
    let mut c = completed_client();
    c.state.remote_epoch = 1;
    c.state.cipher_suite_initialized = true;
    let rec = app_record(1, 5, b"hi");
    assert_eq!(c.read_and_buffer(&rec, &identity), Ok(()));
    assert_eq!(c.read(), Some(b"hi".to_vec()));
    assert_eq!(c.read_and_buffer(&rec, &identity), Ok(()));
    assert_eq!(c.read(), None);
    let next = app_record(1, 6, b"yo");
    assert_eq!(c.read_and_buffer(&next, &identity), Ok(()));
    assert_eq!(c.read(), Some(b"yo".to_vec()));
}

#[test]
fn application_data_at_epoch_zero_is_fatal() {
    let mut c = completed_client();
    let rec = app_record(0, 1, b"x");
    assert_eq!(c.read_and_buffer(&rec, &identity), Err(Error::AlertFatalOrClose));
    let recs = c.poll_outgoing_records();
    assert_eq!(recs.len(), 1);
    assert_eq!(&recs[0].raw[13..], &[2u8, 10][..]);
}

#[test]
fn records_of_the_next_epoch_are_queued() {
    let mut c = DTLSConn::new(HandshakeConfig::default_config(), true, None);
    let rec = app_record(1, 0, b"later");
    assert_eq!(c.read_and_buffer(&rec, &identity), Ok(()));
    assert_eq!(c.incoming_encrypted_packets.len(), 1);
    let far = app_record(2, 0, b"never");
    assert_eq!(c.read_and_buffer(&far, &identity), Ok(()));
    assert_eq!(c.incoming_encrypted_packets.len(), 1);
}

#[test]
fn broken_record_is_silently_discarded() {
    let mut c = completed_client();
    let mut rec = app_record(0, 0, b"x");
    rec[1] = 3;
    assert_eq!(c.read_and_buffer(&rec, &identity), Ok(()));
    assert_eq!(c.poll_outgoing_records().len(), 0);
}

#[test]
fn fragments_are_reassembled_into_the_cache() {
    let mut c = DTLSConn::new(HandshakeConfig::default_config(), false, None);
    let frag = |off: u8, bytes: &[u8]| {
        let mut r = vec![22u8, 0xfe, 0xfd, 0, 0, 0, 0, 0, 0, 0, off, 0, 12 + bytes.len() as u8];
        r.extend_from_slice(&[1u8, 0, 0, 4, 0, 0, 0, 0, off, 0, 0, bytes.len() as u8]);
        r.extend_from_slice(bytes);
        r
    };
    c.read_and_buffer(&frag(2, &[30, 40]), &identity).unwrap();
    assert_eq!(c.cache.cache.len(), 0);
    c.read_and_buffer(&frag(0, &[10, 20]), &identity).unwrap();
    assert_eq!(c.cache.cache.len(), 1);
    assert_eq!(c.cache.cache[0].data, vec![1u8, 0, 0, 4, 0, 0, 0, 0, 0, 0, 0, 4, 10, 20, 30, 40]);
    assert!(c.cache.cache[0].is_client);
    assert!(c.handshake_rx);
}

#[test]
fn oversized_write_is_refused() {
    let mut c = completed_client();
    let big = vec![0u8; 70000];
    assert_eq!(c.write(&big), Err(Error::PacketTooLarge));
    assert_eq!(c.poll_outgoing_records().len(), 0);
}

#[test]
fn epoch_overflow_in_a_flight_is_refused() {
    let mut cfg = HandshakeConfig::default_config();
    cfg.initial_epoch = u16::MAX;
    let mut c = DTLSConn::new(cfg, true, None);
    assert_eq!(c.handshake(0), Ok(HandshakeAction::Generate));
    let pkts = vec![handshake_packet(1, HANDSHAKE_TYPE_FINISHED, vec![1])];
    assert_eq!(c.prepare(Ok(pkts)), Err(Error::EpochOverflow));
    assert_eq!(c.state.handshake_send_sequence, 0);
}

#[test]
fn errored_engine_reports_invalid_transition() {
    let mut c = DTLSConn::new(HandshakeConfig::default_config(), true, None);
    c.current_handshake_state = HandshakeState::Errored;
    assert_eq!(c.handshake(0), Err(Error::InvalidFsmTransition));
}

#[test]
fn warning_alert_is_reported_and_close_notify_ends_the_connection() {
    let mut c = completed_client();
    let warning = vec![21u8, 0xfe, 0xfd, 0, 0, 0, 0, 0, 0, 0, 1, 0, 2, 1, 90];
    assert_eq!(c.read_and_buffer(&warning, &identity), Err(Error::AlertReceived));
    let close = vec![21u8, 0xfe, 0xfd, 0, 0, 0, 0, 0, 0, 0, 2, 0, 2, 1, 0];
    assert_eq!(c.read_and_buffer(&close, &identity), Err(Error::AlertFatalOrClose));
    let recs = c.poll_outgoing_records();
    assert_eq!(recs.len(), 2);
    assert_eq!(&recs[1].raw[13..], &[1u8, 0][..]);
}

#[test]
fn unknown_content_type_is_fatal() {
    let mut c = completed_client();
    let rec = vec![99u8, 0xfe, 0xfd, 0, 0, 0, 0, 0, 0, 0, 1, 0, 1, 0];
    assert_eq!(c.read_and_buffer(&rec, &identity), Err(Error::AlertFatalOrClose));
}

#[test]
fn connection_state_copies_the_state() {
    let mut c = completed_client();
    c.write(b"a").unwrap();
    let s = c.connection_state();
    assert!(s.is_client);
    assert_eq!(s.local_sequence_number, vec![1]);
    assert_eq!(c.selected_srtpprotection_profile(), rtc_transport::srtp::SrtpProtectionProfile::Unsupported);
}

fn no_cipher(_h: RecordLayerHeader, v: Vec<u8>) -> Vec<u8> {
    v
}

#[test]
fn queued_records_are_packed_into_datagrams() {
    let mut c = completed_client();
    c.write(b"abc").unwrap();
    c.write(b"def").unwrap();
    let datagrams = c.poll_datagrams(&no_cipher);
    assert_eq!(datagrams.len(), 1);
    assert_eq!(datagrams[0].len(), 2 * (13 + 3));
    assert_eq!(&datagrams[0][13..16], b"abc");
    assert_eq!(c.poll_outgoing_records().len(), 0);
}

#[test]
fn encrypted_records_pass_through_the_cipher() {
    let mut c = completed_client();
    c.state.cipher_suite_initialized = true;
    c.write(b"abc").unwrap();
    let mark = |_h: RecordLayerHeader, mut v: Vec<u8>| {
        v.push(0xee);
        v
    };
    let datagrams = c.poll_datagrams(&mark);
    assert_eq!(datagrams.len(), 1);
    assert_eq!(*datagrams[0].last().unwrap(), 0xee);
}
