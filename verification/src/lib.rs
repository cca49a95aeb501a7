//! Wire-level core of a WebRTC peer: a verified SDP codec, a verified STUN
//! codec with MESSAGE-INTEGRITY and FINGERPRINT support, an ICE-lite agent,
//! and a typed peer-connection facade that ties them together.

pub mod addr;
pub mod crypto;
pub mod entropy;
pub mod ice;
pub mod peer;
pub mod sdp;
pub mod stun;
pub mod text;
pub mod wire;
