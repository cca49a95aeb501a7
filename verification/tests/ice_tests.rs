use crypto::hmac::Hmac;
use crypto::mac::Mac;
use crypto::sha1::Sha1;

use webrtc::addr::{Ip4Addr, Sock4Addr};
use webrtc::ice::{binding_response, Agent, CandidateType, Error, RemoteCandidate};
use webrtc::sdp::attribute::Attribute;
use webrtc::stun::attribute::Attribute as StunAttribute;
use webrtc::stun::{message, Class, Header, Message, Method, TransactionId};

#[test]
fn remote_candidate_from_attribute() {
    let candidate_attribute = Attribute::Value(
        "candidate".to_string(),
        "1853887674 2 udp 1518280447 47.61.61.61 36768 typ srflx raddr 192.168.0.196 rport 36768 generation 0"
            .to_string(),
    );
    let candidate = RemoteCandidate::try_from_attribute(&candidate_attribute).unwrap();
    assert_eq!(
        candidate.address,
        Sock4Addr { ip: Ip4Addr::new(47, 61, 61, 61), port: 36768 }
    );
    assert_eq!(candidate.ty, CandidateType::ServerReflexive);
}

#[test]
fn remote_candidate_from_attribute_with_caps_transport() {
    let candidate_attribute = Attribute::Value(
        "candidate".to_string(),
        "3 2 UDP 1686052862 47.61.61.61 64346 typ srflx raddr 192.168.0.196 rport 64346"
            .to_string(),
    );
    let _candidate = RemoteCandidate::try_from_attribute(&candidate_attribute).unwrap();
}

#[test]
fn remote_candidate_from_str() {
    let candidate_string = "4 2 TCP 2105458942 10.10.10.10 9 typ host tcptype active";
    let candidate = RemoteCandidate::from_str(candidate_string).unwrap();
    assert_eq!(candidate.ty, CandidateType::Host);
    assert_eq!(candidate.address, Sock4Addr { ip: Ip4Addr::new(10, 10, 10, 10), port: 9 });
}

#[test]
fn unsupported_transport_is_reported() {
    let err = RemoteCandidate::from_str("4 2 sctp 1 10.10.10.10 9 typ host").unwrap_err();
    assert_eq!(err, Error::UnsupportedTransport("sctp".to_string()));
}

#[test]
fn unsupported_candidate_type_is_reported() {
    let err = RemoteCandidate::from_str("4 2 udp 1 10.10.10.10 9 typ wat").unwrap_err();
    assert_eq!(err, Error::UnsupportedCandidateType("wat".to_string()));
}

#[test]
fn malformed_candidate_is_reported() {
    let err = RemoteCandidate::from_str("not a candidate at all").unwrap_err();
    assert_eq!(err, Error::InvalidCandidate("not a candidate at all".to_string()));
}

#[test]
fn agent_credentials_use_the_ice_character_set() {
    let agent = Agent::new();
    let ufrag = agent.username();
    let pwd = agent.password();
    assert_eq!(ufrag.chars().count(), 4);
    assert_eq!(pwd.chars().count(), 22);
    let ok = |c: char| c.is_ascii_alphanumeric() || c == '+' || c == '/';
    assert!(ufrag.chars().all(ok));
    assert!(pwd.chars().all(ok));
}

#[test]
fn agent_stores_accepted_remote_candidates() {
    let mut agent = Agent::new();
    agent
        .add_remote_candidate(Attribute::value(
            "candidate",
            "0 1 udp 2130706431 10.0.0.9 41000 typ host",
        ))
        .unwrap();
    assert_eq!(agent.remote_candidates.len(), 1);
    assert_eq!(
        agent.remote_candidates[0].address,
        Sock4Addr { ip: Ip4Addr::new(10, 0, 0, 9), port: 41000 }
    );
    let err = agent.add_remote_candidate(Attribute::property("recvonly"));
    assert!(err.is_err());
    assert_eq!(agent.remote_candidates.len(), 1);
}

#[test]
fn candidate_attributes_use_positional_foundations() {
    let mut agent = Agent::new();
    agent.add_local_candidate(Sock4Addr { ip: Ip4Addr::new(192, 168, 0, 5), port: 50000 });
    agent.add_local_candidate(Sock4Addr { ip: Ip4Addr::new(10, 1, 2, 3), port: 50001 });
    let attrs = agent.candidate_attributes();
    assert_eq!(attrs.len(), 2);
    assert_eq!(
        attrs[0],
        Attribute::value("candidate", "0 1 udp 2130706431 192.168.0.5 50000 typ host")
    );
    assert_eq!(
        attrs[1],
        Attribute::value("candidate", "1 1 udp 2130706431 10.1.2.3 50001 typ host")
    );
}

#[test]
fn emitted_candidates_parse_back() {
    let mut agent = Agent::new();
    agent.add_local_candidate(Sock4Addr { ip: Ip4Addr::new(172, 16, 0, 1), port: 3478 });
    let attrs = agent.candidate_attributes();
    let c = RemoteCandidate::try_from_attribute(&attrs[0]).unwrap();
    assert_eq!(c.address, Sock4Addr { ip: Ip4Addr::new(172, 16, 0, 1), port: 3478 });
    assert_eq!(c.ty, CandidateType::Host);
}

fn binding_request(username: &str) -> Vec<u8> {
    Message::base(Header::new(
        Method::Binding,
        Class::Request,
        TransactionId::from_bytes([9, 8, 7, 6, 5, 4, 3, 2, 1, 0, 1, 2]),
    ))
    .with_attributes(vec![StunAttribute::username(username)])
    .to_bytes()
}

#[test]
fn responder_answers_a_binding_request() {
    let src = Sock4Addr { ip: Ip4Addr::new(203, 0, 113, 7), port: 61000 };
    let key = b"the ice password";
    let datagram = binding_request("remote:local");
    let reply_bytes = binding_response(&datagram, src, key).unwrap();
    let (reply, consumed) = message(&reply_bytes).unwrap();
    assert_eq!(consumed, reply_bytes.len());
    assert_eq!(reply.header.method, Method::Binding);
    assert_eq!(reply.header.class, Class::Success);
    assert_eq!(
        reply.header.transaction_id,
        TransactionId::from_bytes([9, 8, 7, 6, 5, 4, 3, 2, 1, 0, 1, 2])
    );
    assert_eq!(reply.attributes.len(), 4);
    assert_eq!(reply.attributes[0], StunAttribute::username("remote:local"));
    assert_eq!(
        reply.attributes[1],
        StunAttribute::xor_mapped_address(Ip4Addr::new(203, 0, 113, 7), 61000)
    );
    assert!(matches!(reply.attributes[2], StunAttribute::MessageIntegrity(_)));
    assert!(matches!(reply.attributes[3], StunAttribute::Fingerprint(_)));
}

#[test]
fn responder_ignores_non_binding_traffic() {
    let src = Sock4Addr { ip: Ip4Addr::new(203, 0, 113, 7), port: 61000 };
    let key = b"k";
    // Not a STUN message at all.
    assert!(binding_response(b"junk", src, key).is_none());
    // A success response rather than a request.
    let not_request = Message::base(Header::new(
        Method::Binding,
        Class::Success,
        TransactionId::from_bytes([0; 12]),
    ))
    .with_attributes(vec![StunAttribute::username("u")])
    .to_bytes();
    assert!(binding_response(&not_request, src, key).is_none());
    // A binding request without a username.
    let no_username = Message::base(Header::new(
        Method::Binding,
        Class::Request,
        TransactionId::from_bytes([0; 12]),
    ))
    .to_bytes();
    assert!(binding_response(&no_username, src, key).is_none());
}

#[test]
fn responder_reply_authenticates_with_the_key() {
    let src = Sock4Addr { ip: Ip4Addr::new(10, 0, 0, 1), port: 4000 };
    let key = b"secret";
    let datagram = binding_request("u");
    let reply_bytes = binding_response(&datagram, src, key).unwrap();
    let (reply, _) = message(&reply_bytes).unwrap();
    // Recompute the HMAC over the reply prefix: header and the first two
    // attributes, with the length field as it was when the code was made
    // (fingerprint not yet counted).
    let mut prefix = Message {
        header: Header {
            length: reply.header.length - 8,
            ..reply.header
        },
        attributes: reply.attributes[..2].to_vec(),
    };
    let mut mac = Hmac::new(Sha1::new(), key);
    mac.input(&prefix.to_bytes());
    let expected = mac.result().code().to_vec();
    match &reply.attributes[2] {
        StunAttribute::MessageIntegrity(mi) => assert_eq!(mi.0.to_vec(), expected),
        other => panic!("expected MESSAGE-INTEGRITY, got {:?}", other),
    }
    prefix.attributes = reply.attributes[..3].to_vec();
    prefix.header.length += 8;
    let crc = crc::crc32::checksum_ieee(&prefix.to_bytes());
    match &reply.attributes[3] {
        StunAttribute::Fingerprint(fp) => assert_eq!(fp.0, crc),
        other => panic!("expected FINGERPRINT, got {:?}", other),
    }
}
