use rtc_transport::error::Error;
use rtc_transport::fragment::{compact_raw_packets, fragment_handshake, split_bytes};
use rtc_transport::handshake::{Handshake, HandshakeHeader, HANDSHAKE_TYPE_CLIENT_HELLO};
use rtc_transport::handshake_cache::{HandshakeCache, HandshakeCachePullRule};
use rtc_transport::record_layer::{unpack_datagram, RecordLayerHeader, MAX_SEQUENCE_NUMBER};
use rtc_transport::replay_detector::SlidingWindowDetector;
use rtc_transport::sctp_param::{build_param, ParamType};
use rtc_transport::srtp::{
    check_keying_label, extract_session_keys, srtp_session_config, ProtectionProfile,
    ReplayProtection, SrtpProtectionProfile,
};

#[test]
fn record_header_round_trip() {
    let b = [22u8, 0xfe, 0xfd, 0x00, 0x01, 0, 0, 0, 0, 0x01, 0x02, 0x00, 0x10];
    let h = RecordLayerHeader::unmarshal(&b).unwrap();
    assert_eq!(h.content_type, 22);
    assert_eq!(h.epoch, 1);
    assert_eq!(h.sequence_number, 0x0102);
    assert_eq!(h.content_len, 16);
    assert_eq!(h.marshal(), b.to_vec());
}

#[test]
fn record_header_largest_sequence_round_trip() {
    let b = [23u8, 0xfe, 0xff, 0xff, 0xff, 0xff, 0xff, 0xff, 0xff, 0xff, 0xff, 0x00, 0x00];
    let h = RecordLayerHeader::unmarshal(&b).unwrap();
    assert_eq!(h.sequence_number, MAX_SEQUENCE_NUMBER);
    assert_eq!(h.epoch, 0xffff);
    assert_eq!(h.marshal(), b.to_vec());
}

#[test]
fn record_header_errors() {
    assert_eq!(RecordLayerHeader::unmarshal(&[22u8, 0xfe, 0xfd]), Err(Error::BufferTooSmall));
    let b = [22u8, 3, 3, 0, 0, 0, 0, 0, 0, 0, 0, 0, 0];
    assert_eq!(RecordLayerHeader::unmarshal(&b), Err(Error::UnsupportedProtocolVersion));
}

#[test]
fn datagram_splits_on_declared_lengths() {
    let mut d = vec![21u8, 0xfe, 0xfd, 0, 0, 0, 0, 0, 0, 0, 1, 0, 2, 1, 0];
    d.extend_from_slice(&[23u8, 0xfe, 0xfd, 0, 1, 0, 0, 0, 0, 0, 2, 0, 1, 9]);
    let recs = unpack_datagram(&d).unwrap();
    assert_eq!(recs.len(), 2);
    assert_eq!(recs[0], d[..15].to_vec());
    assert_eq!(recs[1], d[15..].to_vec());
    assert_eq!(unpack_datagram(&[]).unwrap().len(), 0);
}

#[test]
fn datagram_with_bad_length_is_refused() {
    let d = vec![21u8, 0xfe, 0xfd, 0, 0, 0, 0, 0, 0, 0, 1, 0, 5, 1, 0];
    assert_eq!(unpack_datagram(&d), Err(Error::InvalidPacketLength));
    assert_eq!(unpack_datagram(&d[..13]), Err(Error::InvalidPacketLength));
}

#[test]
fn handshake_header_round_trip() {
    let b = [1u8, 0, 0x0f, 0xa0, 0, 3, 0, 0, 0x10, 0, 0, 0x20];
    let h = HandshakeHeader::unmarshal(&b).unwrap();
    assert_eq!(h.handshake_type, 1);
    assert_eq!(h.length, 4000);
    assert_eq!(h.message_sequence, 3);
    assert_eq!(h.fragment_offset, 16);
    assert_eq!(h.fragment_length, 32);
    assert_eq!(h.marshal(), b.to_vec());
    assert_eq!(HandshakeHeader::unmarshal(&b[..11]), Err(Error::BufferTooSmall));
}

#[test]
fn split_bytes_cuts_pieces() {
    let pieces = split_bytes(&[1, 2, 3, 4, 5], 2);
    assert_eq!(pieces, vec![vec![1, 2], vec![3, 4], vec![5]]);
    assert_eq!(split_bytes(&[], 3).len(), 0);
}

#[test]
fn mtu_one_fragments_client_hello_byte_by_byte() {
    let body: Vec<u8> = (0..4000u32).map(|i| (i % 251) as u8).collect();
    let mut h = Handshake::new(HANDSHAKE_TYPE_CLIENT_HELLO, body.clone());
    h.header.message_sequence = 7;
    let frags = fragment_handshake(1, &h);
    assert_eq!(frags.len(), 4000);
    for (k, f) in frags.iter().enumerate() {
        assert_eq!(f.len(), 13);
        let hh = HandshakeHeader::unmarshal(f).unwrap();
        assert_eq!(hh.handshake_type, HANDSHAKE_TYPE_CLIENT_HELLO);
        assert_eq!(hh.length, 4000);
        assert_eq!(hh.message_sequence, 7);
        assert_eq!(hh.fragment_offset, k as u32);
        assert_eq!(hh.fragment_length, 1);
        assert_eq!(f[12], body[k]);
    }
}

#[test]
fn empty_message_makes_one_empty_fragment() {
    let h = Handshake::new(14, vec![]);
    let frags = fragment_handshake(1200, &h);
    assert_eq!(frags.len(), 1);
    assert_eq!(frags[0], vec![14u8, 0, 0, 0, 0, 0, 0, 0, 0, 0, 0, 0]);
}

#[test]
fn fragments_cover_body_in_mtu_pieces() {
    let h = Handshake::new(11, vec![5u8; 10]);
    let frags = fragment_handshake(4, &h);
    assert_eq!(frags.len(), 3);
    let offsets: Vec<u32> = frags.iter().map(|f| HandshakeHeader::unmarshal(f).unwrap().fragment_offset).collect();
    assert_eq!(offsets, vec![0, 4, 8]);
    assert_eq!(frags[2].len(), 12 + 2);
}

#[test]
fn compaction_packs_records_below_mtu() {
    let raw = vec![vec![1u8; 3], vec![2u8; 3], vec![3u8; 3]];
    let out = compact_raw_packets(&raw, 7);
    assert_eq!(out, vec![vec![1, 1, 1, 2, 2, 2], vec![3, 3, 3]]);
    let single = compact_raw_packets(&vec![vec![9u8; 20]], 7);
    assert_eq!(single, vec![vec![9u8; 20]]);
}

#[test]
fn replay_detector_rejects_duplicates() {
    let mut d = SlidingWindowDetector::new(64, MAX_SEQUENCE_NUMBER);
    assert!(d.check(5));
    d.accept();
    assert!(!d.check(5));
    assert!(d.check(4));
    d.accept();
    assert!(!d.check(4));
    assert!(d.check(6));
}

#[test]
fn replay_window_zero_accepts_every_non_duplicate() {
    let mut d = SlidingWindowDetector::new(0, MAX_SEQUENCE_NUMBER);
    for s in 0..20u64 {
        assert!(d.check(s));
        d.accept();
        assert!(!d.check(s));
    }
}

#[test]
fn replay_detector_drops_records_behind_the_window() {
    let mut d = SlidingWindowDetector::new(4, MAX_SEQUENCE_NUMBER);
    assert!(d.check(10));
    d.accept();
    assert!(!d.check(6));
    assert!(d.check(7));
    assert!(!d.check(MAX_SEQUENCE_NUMBER + 1));
}

#[test]
fn handshake_cache_is_append_only() {
    let mut c = HandshakeCache::new();
    c.push(vec![1, 2, 3], 0, 0, 1, true);
    c.push(vec![9, 9], 0, 0, 1, true);
    assert_eq!(c.cache.len(), 1);
    assert_eq!(c.cache[0].data, vec![1, 2, 3]);
    c.push(vec![4], 0, 1, 2, false);
    assert_eq!(c.cache.len(), 2);
    assert_eq!(c.cache[0].data, vec![1, 2, 3]);
    let rules = vec![
        HandshakeCachePullRule { typ: 1, epoch: 0, is_client: true, optional: false },
        HandshakeCachePullRule { typ: 2, epoch: 0, is_client: false, optional: false },
    ];
    assert_eq!(c.pull_and_merge(&rules), Some(vec![1, 2, 3, 4]));
    let missing = vec![HandshakeCachePullRule { typ: 11, epoch: 0, is_client: true, optional: false }];
    assert_eq!(c.pull_and_merge(&missing), None);
}

#[test]
fn sctp_param_round_trip() {
    let raw = [0x80u8, 0x02, 0x00, 0x08, 1, 2, 3, 4];
    let p = build_param(&raw).unwrap();
    assert_eq!(p.typ, ParamType::Random);
    assert_eq!(p.value, vec![1, 2, 3, 4]);
    assert_eq!(p.marshal().unwrap(), raw.to_vec());
}

#[test]
fn sctp_param_errors() {
    assert_eq!(build_param(&[0x80, 0x02, 0x00]).err(), Some(Error::ParamHeaderTooShort));
    assert_eq!(build_param(&[0x12, 0x34, 0x00, 0x04]).err(), Some(Error::ParamTypeUnhandled));
    assert_eq!(build_param(&[0x00, 0x01, 0x00, 0x09, 0, 0, 0, 0]).err(), Some(Error::ParamHeaderTooShort));
}

#[test]
fn srtp_profile_selection() {
    let c = srtp_session_config(SrtpProtectionProfile::Srtp_Aead_Aes_128_Gcm, 0, false).unwrap();
    assert_eq!(c.profile, ProtectionProfile::AeadAes128Gcm);
    assert_eq!(c.remote_rtp, ReplayProtection::Window(64));
    let c = srtp_session_config(SrtpProtectionProfile::Srtp_Aes128_Cm_Hmac_Sha1_80, 128, true).unwrap();
    assert_eq!(c.remote_rtp, ReplayProtection::Window(128));
    let c = srtp_session_config(SrtpProtectionProfile::Srtp_Aes128_Cm_Hmac_Sha1_80, 0, true).unwrap();
    assert_eq!(c.remote_rtp, ReplayProtection::Disabled);
    assert_eq!(
        srtp_session_config(SrtpProtectionProfile::Srtp_Aes128_Cm_Hmac_Sha1_32, 0, false).err(),
        Some(Error::NoSuchSrtpProfile)
    );
}

#[test]
fn session_keys_split_per_direction() {
    let material: Vec<u8> = (0..60u8).collect();
    let k = extract_session_keys(&material, ProtectionProfile::Aes128CmHmacSha1_80, true).unwrap();
    assert_eq!(k.local_master_key, (0..16u8).collect::<Vec<u8>>());
    assert_eq!(k.remote_master_key, (16..32u8).collect::<Vec<u8>>());
    assert_eq!(k.local_master_salt, (32..46u8).collect::<Vec<u8>>());
    assert_eq!(k.remote_master_salt, (46..60u8).collect::<Vec<u8>>());
    let s = extract_session_keys(&material, ProtectionProfile::Aes128CmHmacSha1_80, false).unwrap();
    assert_eq!(s.local_master_key, k.remote_master_key);
    assert_eq!(s.local_master_salt, k.remote_master_salt);
    assert_eq!(
        extract_session_keys(&material[..59], ProtectionProfile::Aes128CmHmacSha1_80, true).err().map(|_| 0),
        Some(0)
    );
}

#[test]
fn reserved_keying_labels_are_refused() {
    assert_eq!(check_keying_label(&"master secret".to_string()), Err(Error::InvalidKeyingLabel));
    assert_eq!(check_keying_label(&"key expansion".to_string()), Err(Error::InvalidKeyingLabel));
    assert_eq!(check_keying_label(&"EXTRACTOR-dtls_srtp".to_string()), Ok(()));
}
