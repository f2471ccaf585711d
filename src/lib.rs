//! Sans-I/O transport core: the DTLS record layer and handshake engine, and the
//! ICE agent's checklist and binding-request logic.
pub mod codec;
pub mod error;
pub mod record_layer;
pub mod handshake;
pub mod fragment;
pub mod replay_detector;
pub mod content;
pub mod handshake_cache;
pub mod flight;
pub mod config;
pub mod srtp;
pub mod fragment_buffer;
pub mod conn;
pub mod random;
pub mod stun_check;
pub mod candidate;
pub mod agent;
pub mod sctp_param;
