use webrtc::addr::{Ip4Addr, Sock4Addr};
use webrtc::sdp::attribute::Attribute;
use webrtc::sdp::media_description::{Media, MediaDescription, MediaType};
use webrtc::sdp::session_description::SessionDescription;
use webrtc::peer::PeerConnection;

fn offer_with_candidate() -> SessionDescription {
    let text = "v=0\r\no=- 1 1 IN IP4 127.0.0.1\r\ns=-\r\nt=0 0\r\nm=video 7 RTP/SAVPF 96\r\na=candidate:0 1 udp 2130706431 198.51.100.4 40000 typ host\r\n";
    SessionDescription::from_str(text).unwrap()
}

#[test]
fn set_remote_description_feeds_the_agent() {
    let pc = PeerConnection::new();
    let pc = pc.set_remote_description(offer_with_candidate());
    assert_eq!(pc.ice_agent.remote_candidates.len(), 1);
    assert_eq!(
        pc.ice_agent.remote_candidates[0].address,
        Sock4Addr { ip: Ip4Addr::new(198, 51, 100, 4), port: 40000 }
    );
}

#[test]
fn bad_candidates_are_skipped() {
    let text = "v=0\r\no=- 1 1 IN IP4 127.0.0.1\r\ns=-\r\nt=0 0\r\nm=video 7 RTP/SAVPF 96\r\na=candidate:nonsense\r\na=candidate:0 1 udp 2130706431 198.51.100.4 40000 typ host\r\n";
    let offer = SessionDescription::from_str(text).unwrap();
    let pc = PeerConnection::new().set_remote_description(offer);
    assert_eq!(pc.ice_agent.remote_candidates.len(), 1);
}

#[test]
fn create_answer_carries_the_credentials() {
    let pc = PeerConnection::new().set_remote_description(offer_with_candidate());
    let ufrag = pc.ice_agent.username();
    let pwd = pc.ice_agent.password();
    let answer = pc.create_answer();
    assert_eq!(answer.version.0, 0);
    assert_eq!(answer.origin.username, "rtcrs");
    assert_eq!(answer.session_name.0, "-");
    assert_eq!(answer.attributes[0], Attribute::property("ice-lite"));
    assert_eq!(answer.media_descriptions.len(), 1);
    let md = &answer.media_descriptions[0];
    assert_eq!(md.media.typ, MediaType::Video);
    assert!(md.attributes.contains(&Attribute::value("ice-ufrag", &ufrag)));
    assert!(md.attributes.contains(&Attribute::value("ice-pwd", &pwd)));
    // The drafted answer is itself a well-formed description: it round
    // trips through its own text.
    let back = SessionDescription::from_str(answer.to_string().as_str()).unwrap();
    assert_eq!(answer, back);
}

#[test]
fn set_local_description_appends_gathered_candidates() {
    let mut pc = PeerConnection::new().set_remote_description(offer_with_candidate());
    pc.ice_agent.add_local_candidate(Sock4Addr { ip: Ip4Addr::new(192, 0, 2, 1), port: 51000 });
    let answer = pc.create_answer();
    let pc = pc.set_local_description(answer);
    let ld = pc.local_description();
    let md = &ld.media_descriptions[0];
    assert_eq!(
        md.attributes.last().unwrap(),
        &Attribute::value("candidate", "0 1 udp 2130706431 192.0.2.1 51000 typ host")
    );
}

#[test]
fn set_local_description_without_media_uses_session_attributes() {
    let mut pc = PeerConnection::new().set_remote_description(offer_with_candidate());
    pc.ice_agent.add_local_candidate(Sock4Addr { ip: Ip4Addr::new(192, 0, 2, 1), port: 51000 });
    let bare = SessionDescription::from_str("v=0\r\no=- 1 1 IN IP4 127.0.0.1\r\ns=-\r\nt=0 0\r\n")
        .unwrap();
    let pc = pc.set_local_description(bare);
    let ld = pc.local_description();
    assert_eq!(
        ld.attributes.last().unwrap(),
        &Attribute::value("candidate", "0 1 udp 2130706431 192.0.2.1 51000 typ host")
    );
}

#[test]
fn answer_candidates_survive_serialization() {
    let mut pc = PeerConnection::new().set_remote_description(offer_with_candidate());
    pc.ice_agent.add_local_candidate(Sock4Addr { ip: Ip4Addr::new(192, 0, 2, 1), port: 51000 });
    let answer = pc.create_answer().and_media_description(MediaDescription::base(Media {
        typ: MediaType::Audio,
        port: 9,
        protocol: "RTP/AVP".to_owned(),
        format: "0".to_owned(),
    }));
    let pc = pc.set_local_description(answer);
    let text = pc.local_description().to_string();
    let back = SessionDescription::from_str(text.as_str()).unwrap();
    assert_eq!(&back, pc.local_description());
    assert_eq!(back.candidates().len(), 1);
}
