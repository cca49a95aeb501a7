use webrtc::sdp::attribute::Attribute;
use webrtc::sdp::bandwidth::{Bandwidth, BandwidthType};
use webrtc::sdp::connection::Connection;
use webrtc::sdp::email_address::EmailAddress;
use webrtc::sdp::encryption_key::{EncryptionKey, RetrievalMethod};
use webrtc::sdp::media_description::{Media, MediaDescription, MediaType};
use webrtc::sdp::origin::Origin;
use webrtc::sdp::phone_number::PhoneNumber;
use webrtc::sdp::session_description::SessionDescription;
use webrtc::sdp::session_information::SessionInformation;
use webrtc::sdp::session_name::SessionName;
use webrtc::sdp::time_description::{Repeat, TimeDescription, Timing};
use webrtc::sdp::time_zone::{Adjustment, TimeZone};
use webrtc::sdp::uri::URI;
use webrtc::sdp::version::Version;
use webrtc::text::str_to_chars;

fn chars(s: &str) -> Vec<char> {
    str_to_chars(s)
}

#[test]
fn display_version() {
    let version = Version(0);
    let expected = "v=0\r\n";
    let actual = version.to_string();
    assert_eq!(expected, actual);
}

#[test]
fn parse_version() {
    let input = chars("v=0\r\n");
    let expected = Version(0);
    let actual = webrtc::sdp::version::version(&input, 0).unwrap().0;
    assert_eq!(expected, actual);
}

#[test]
fn display_origin() {
    let origin = Origin {
        username: "-".to_owned(),
        session_id: 1433832402044130222,
        session_version: 3,
        network_type: "IN".to_owned(),
        address_type: "IP4".to_owned(),
        unicast_address: "127.0.0.1".to_owned(),
    };
    let expected = "o=- 1433832402044130222 3 IN IP4 127.0.0.1\r\n";
    let actual = origin.to_string();
    assert_eq!(expected, actual);
}

#[test]
fn parse_origin() {
    let input = chars("o=- 1433832402044130222 3 IN IP4 127.0.0.1\r\n");
    let expected = Origin {
        username: "-".to_owned(),
        session_id: 1433832402044130222,
        session_version: 3,
        network_type: "IN".to_owned(),
        address_type: "IP4".to_owned(),
        unicast_address: "127.0.0.1".to_owned(),
    };
    let actual = webrtc::sdp::origin::origin(&input, 0).unwrap().0;
    assert_eq!(expected, actual);
}

#[test]
fn display_session_name() {
    let session_name = SessionName::new("-");
    let expected = "s=-\r\n";
    let actual = session_name.to_string();
    assert_eq!(expected, actual);
}

#[test]
fn parse_session_name() {
    let input = chars("s=-\r\n");
    let expected = SessionName::new("-");
    let actual = webrtc::sdp::session_name::session_name(&input, 0).unwrap().0;
    assert_eq!(expected, actual);
}

#[test]
fn display_session_information() {
    let session_information =
        SessionInformation("A Seminar on the session description protocol".to_owned());
    let expected = "i=A Seminar on the session description protocol\r\n";
    let actual = session_information.to_string();
    assert_eq!(expected, actual);
}

#[test]
fn parse_session_information() {
    let input = chars("i=A Seminar on the session description protocol\r\n");
    let expected = SessionInformation("A Seminar on the session description protocol".to_owned());
    let actual = webrtc::sdp::session_information::session_information(&input, 0).unwrap().0;
    assert_eq!(expected, actual);
}

#[test]
fn display_uri() {
    let uri = URI("http://www.example.com/seminars/sdp.pdf".to_owned());
    let expected = "u=http://www.example.com/seminars/sdp.pdf\r\n";
    let actual = uri.to_string();
    assert_eq!(expected, actual);
}

#[test]
fn parse_uri() {
    let input = chars("u=http://www.example.com/seminars/sdp.pdf\r\n");
    let expected = URI("http://www.example.com/seminars/sdp.pdf".to_owned());
    let actual = webrtc::sdp::uri::uri(&input, 0).unwrap().0;
    assert_eq!(expected, actual);
}

#[test]
fn display_email_address() {
    let email_address = EmailAddress("j.doe@example.com (Jane Doe)".to_string());
    let expected = "e=j.doe@example.com (Jane Doe)\r\n";
    let actual = email_address.to_string();
    assert_eq!(expected, actual);
}

#[test]
fn parse_email_address() {
    let input = chars("e=j.doe@example.com (Jane Doe)\r\n");
    let expected = EmailAddress("j.doe@example.com (Jane Doe)".to_string());
    let actual = webrtc::sdp::email_address::email_address(&input, 0).unwrap().0;
    assert_eq!(expected, actual);
}

#[test]
fn display_phone_number() {
    let phone_number = PhoneNumber("+1 617 555-6011".to_owned());
    let expected = "p=+1 617 555-6011\r\n";
    let actual = phone_number.to_string();
    assert_eq!(expected, actual);
}

#[test]
fn parse_phone_number() {
    let input = chars("p=+1 617 555-6011\r\n");
    let expected = PhoneNumber("+1 617 555-6011".to_owned());
    let actual = webrtc::sdp::phone_number::phone_number(&input, 0).unwrap().0;
    assert_eq!(expected, actual);
}

#[test]
fn display_connection() {
    let connection = Connection {
        network_type: "IN".to_string(),
        address_type: "IP4".to_string(),
        connection_address: "127.0.0.1".to_string(),
    };
    let expected = "c=IN IP4 127.0.0.1\r\n";
    let actual = connection.to_string();
    assert_eq!(expected, actual);
}

#[test]
fn parse_connection() {
    let input = chars("c=IN IP4 127.0.0.1\r\n");
    let expected = Connection {
        network_type: "IN".to_string(),
        address_type: "IP4".to_string(),
        connection_address: "127.0.0.1".to_string(),
    };
    let actual = webrtc::sdp::connection::connection(&input, 0).unwrap().0;
    assert_eq!(expected, actual);
}

#[test]
fn display_bandwidth() {
    let bandwidth = Bandwidth { typ: BandwidthType::CT, value: 42 };
    let expected = "b=CT:42\r\n";
    let actual = bandwidth.to_string();
    assert_eq!(expected, actual);
}

#[test]
fn parse_bandwidth() {
    let input = chars("b=X-YZ:128\r\n");
    let expected = Bandwidth { typ: BandwidthType::Experimental("YZ".to_owned()), value: 128 };
    let actual = webrtc::sdp::bandwidth::bandwidth(&input, 0).unwrap().0;
    assert_eq!(expected, actual);
}

#[test]
fn display_encryption_key_with_data() {
    let encryption_key = EncryptionKey {
        method: RetrievalMethod::Clear,
        data: Some("encryption_key".to_owned()),
    };
    let expected = "k=clear:encryption_key\r\n";
    let actual = encryption_key.to_string();
    assert_eq!(expected, actual);
}

#[test]
fn display_encryption_key_without_data() {
    let encryption_key = EncryptionKey { method: RetrievalMethod::Prompt, data: None };
    let expected = "k=prompt\r\n";
    let actual = encryption_key.to_string();
    assert_eq!(expected, actual);
}

#[test]
fn parse_encryption_key_with_data() {
    let input = chars("k=clear:encryption_key\r\n");
    let expected = EncryptionKey {
        method: RetrievalMethod::Clear,
        data: Some("encryption_key".to_owned()),
    };
    let actual = webrtc::sdp::encryption_key::encryption_key(&input, 0).unwrap().0;
    assert_eq!(expected, actual);
}

#[test]
fn parse_encryption_key_without_data() {
    let input = chars("k=prompt\r\n");
    let expected = EncryptionKey { method: RetrievalMethod::Prompt, data: None };
    let actual = webrtc::sdp::encryption_key::encryption_key(&input, 0).unwrap().0;
    assert_eq!(expected, actual);
}

#[test]
fn display_property_attribute() {
    let attribute = Attribute::property("recvonly");
    let expected = "a=recvonly\r\n";
    let actual = attribute.to_string();
    assert_eq!(expected, actual);
}

#[test]
fn display_value_attribute() {
    let attribute = Attribute::value("msid-semantic", " WMS stream");
    let expected = "a=msid-semantic: WMS stream\r\n";
    let actual = attribute.to_string();
    assert_eq!(expected, actual);
}

#[test]
fn parse_value_attribute() {
    let input = chars("a=msid-semantic: WMS stream\r\n");
    let expected = Attribute::value("msid-semantic", " WMS stream");
    let actual = webrtc::sdp::attribute::attribute(&input, 0).unwrap().0;
    assert_eq!(expected, actual);
}

#[test]
fn parse_property_attribute() {
    let input = chars("a=recvonly\r\n");
    let expected = Attribute::property("recvonly");
    let actual = webrtc::sdp::attribute::attribute(&input, 0).unwrap().0;
    assert_eq!(expected, actual);
}

#[test]
fn parse_attribute() {
    let input = chars("a=msid-semantic: WMS stream\r\n");
    let expected = Attribute::value("msid-semantic", " WMS stream");
    let actual = webrtc::sdp::attribute::attribute(&input, 0).unwrap().0;
    assert_eq!(expected, actual);
}

#[test]
fn display_timing() {
    let timing = Timing { start_time: 0, stop_time: 0 };
    let expected = "t=0 0\r\n";
    let actual = timing.to_string();
    assert_eq!(expected, actual);
}

#[test]
fn parse_timing() {
    let input = chars("t=0 0\r\n");
    let expected = Timing { start_time: 0, stop_time: 0 };
    let actual = webrtc::sdp::time_description::timing(&input, 0).unwrap().0;
    assert_eq!(expected, actual);
}

#[test]
fn display_repeat() {
    let repeat = Repeat { interval: 604800, active_duration: 3600, offsets: vec![0, 90000] };
    let expected = "r=604800 3600 0 90000\r\n";
    let actual = repeat.to_string();
    assert_eq!(expected, actual);
}

#[test]
fn parse_repeat() {
    let input = chars("r=604800 3600 0 90000\r\n");
    let expected = Repeat { interval: 604800, active_duration: 3600, offsets: vec![0, 90000] };
    let actual = webrtc::sdp::time_description::repeat(&input, 0).unwrap().0;
    assert_eq!(expected, actual);
}

#[test]
fn display_time_description() {
    let time_description =
        TimeDescription::base(Timing { start_time: 3034423619, stop_time: 3042462419 });
    let expected = "t=3034423619 3042462419\r\n";
    let actual = time_description.to_string();
    assert_eq!(expected, actual);
}

#[test]
fn display_time_description_with_repeat_times() {
    let time_description =
        TimeDescription::base(Timing { start_time: 3034423619, stop_time: 3042462419 })
            .and_repeat_time(Repeat {
                interval: 604800,
                active_duration: 3600,
                offsets: vec![0, 90000],
            });
    let expected = "t=3034423619 3042462419\r\nr=604800 3600 0 90000\r\n";
    let actual = time_description.to_string();
    assert_eq!(expected, actual);
}

#[test]
fn parse_time_description() {
    let input = chars("t=3034423619 3042462419\r\n");
    let expected = TimeDescription::base(Timing { start_time: 3034423619, stop_time: 3042462419 });
    let actual = webrtc::sdp::time_description::time_description(&input, 0).unwrap().0;
    assert_eq!(expected, actual);
}

#[test]
fn parse_time_description_with_repeat_times() {
    let input = chars("t=3034423619 3042462419\r\nr=604800 3600 0 90000\r\n");
    let expected = TimeDescription::base(Timing { start_time: 3034423619, stop_time: 3042462419 })
        .and_repeat_time(Repeat {
            interval: 604800,
            active_duration: 3600,
            offsets: vec![0, 90000],
        });
    let actual = webrtc::sdp::time_description::time_description(&input, 0).unwrap().0;
    assert_eq!(expected, actual);
}

#[test]
fn display_time_zone() {
    let time_zone = TimeZone {
        adjustments: vec![
            Adjustment { time: 2882844526, offset: -3600 },
            Adjustment { time: 2898848070, offset: 0 },
        ],
    };
    let expected = "z=2882844526 -1h 2898848070 0\r\n";
    let actual = time_zone.to_string();
    assert_eq!(expected, actual);
}

#[test]
fn parse_time_zone() {
    let input = chars("z=2882844526 -1h 2898848070 0\r\n");
    let expected = TimeZone {
        adjustments: vec![
            Adjustment { time: 2882844526, offset: -3600 },
            Adjustment { time: 2898848070, offset: 0 },
        ],
    };
    let actual = webrtc::sdp::time_zone::time_zone(&input, 0).unwrap().0;
    assert_eq!(expected, actual);
}

#[test]
fn display_media() {
    let media = Media {
        typ: MediaType::Audio,
        port: 51596,
        protocol: "UDP/TLS/RTP/SAVPF".to_string(),
        format: "111 103 104 9 102 0 8 106 105 13 110 112 113 126".to_string(),
    };
    let expected =
        "m=audio 51596 UDP/TLS/RTP/SAVPF 111 103 104 9 102 0 8 106 105 13 110 112 113 126\r\n";
    let actual = media.to_string();
    assert_eq!(expected, actual);
}

#[test]
fn parse_media() {
    let input = chars(
        "m=audio 51596 UDP/TLS/RTP/SAVPF 111 103 104 9 102 0 8 106 105 13 110 112 113 126\r\n",
    );
    let expected = Media {
        typ: MediaType::Audio,
        port: 51596,
        protocol: "UDP/TLS/RTP/SAVPF".to_string(),
        format: "111 103 104 9 102 0 8 106 105 13 110 112 113 126".to_string(),
    };
    let actual = webrtc::sdp::media_description::media(&input, 0).unwrap().0;
    assert_eq!(expected, actual);
}

#[test]
fn display_media_description() {
    let media_description = MediaDescription::base(Media {
        typ: MediaType::Audio,
        port: 51596,
        protocol: "UDP/TLS/RTP/SAVPF".to_string(),
        format: "111 103 104 9 102 0 8 106 105 13 110 112 113 126".to_string(),
    })
    .and_attribute(Attribute::value("rtcp", "9 IN IP4 0.0.0.0"));

    let expected = "m=audio 51596 UDP/TLS/RTP/SAVPF 111 103 104 9 102 0 8 106 105 13 110 112 113 126\r\na=rtcp:9 IN IP4 0.0.0.0\r\n";
    let actual = media_description.to_string();
    assert_eq!(expected, actual);
}

#[test]
fn parse_media_description() {
    let input = chars("m=audio 51596 UDP/TLS/RTP/SAVPF 111 103 104 9 102 0 8 106 105 13 110 112 113 126\r\na=rtcp:9 IN IP4 0.0.0.0\r\n");
    let expected = MediaDescription::base(Media {
        typ: MediaType::Audio,
        port: 51596,
        protocol: "UDP/TLS/RTP/SAVPF".to_string(),
        format: "111 103 104 9 102 0 8 106 105 13 110 112 113 126".to_string(),
    })
    .and_attribute(Attribute::value("rtcp", "9 IN IP4 0.0.0.0"));
    let actual = webrtc::sdp::media_description::media_description(&input, 0).unwrap().0;
    assert_eq!(expected, actual);
}

fn canonical_session_description() -> SessionDescription {
    SessionDescription::base(
        Version(0),
        Origin {
            username: "-".to_owned(),
            session_id: 1433832402044130222,
            session_version: 3,
            network_type: "IN".to_owned(),
            address_type: "IP4".to_owned(),
            unicast_address: "127.0.0.1".to_owned(),
        },
        SessionName::new("-"),
        TimeDescription::base(Timing { start_time: 0, stop_time: 0 }),
    )
    .with_connection(Connection {
        network_type: "IN".to_owned(),
        address_type: "IP4".to_owned(),
        connection_address: "127.0.0.1".to_owned(),
    })
    .with_attributes(vec![
        Attribute::property("recvonly"),
        Attribute::value("group", "BUNDLE 0 1"),
        Attribute::value("msid-semantic", " WMS stream"),
    ])
    .with_media_descriptions(vec![
        MediaDescription::base(Media {
            typ: MediaType::Audio,
            port: 49170,
            protocol: "RTP/AVP".to_owned(),
            format: "0".to_owned(),
        }),
        MediaDescription::base(Media {
            typ: MediaType::Video,
            port: 51372,
            protocol: "RTP/AVP".to_owned(),
            format: "99".to_owned(),
        })
        .and_attribute(Attribute::value("rtpmap", "99 h263-1998/90000")),
    ])
}

#[test]
fn display_session_description() {
    let expected = "v=0\r\no=- 1433832402044130222 3 IN IP4 127.0.0.1\r\ns=-\r\nc=IN IP4 127.0.0.1\r\nt=0 0\r\na=recvonly\r\na=group:BUNDLE 0 1\r\na=msid-semantic: WMS stream\r\nm=audio 49170 RTP/AVP 0\r\nm=video 51372 RTP/AVP 99\r\na=rtpmap:99 h263-1998/90000\r\n";
    let actual = canonical_session_description().to_string();
    assert_eq!(expected, actual);
}

#[test]
fn parse_session_description() {
    let sdp = "v=0
o=- 1433832402044130222 3 IN IP4 127.0.0.1
s=-
c=IN IP4 127.0.0.1
t=0 0
a=recvonly
a=group:BUNDLE 0 1
a=msid-semantic: WMS stream
m=audio 49170 RTP/AVP 0
m=video 51372 RTP/AVP 99
a=rtpmap:99 h263-1998/90000
";
    let expected = canonical_session_description();
    let actual = SessionDescription::from_str(sdp).unwrap();
    assert_eq!(expected, actual);
}

#[test]
fn test_serialize_version() {
    let version = Version(0);
    assert_eq!(version.to_string(), "v=0\r\n");
}

#[test]
fn session_description_round_trips_through_text() {
    let sd = canonical_session_description();
    let text = sd.to_string();
    let back = SessionDescription::from_str(text.as_str()).unwrap();
    assert_eq!(sd, back);
}

#[test]
fn session_description_with_every_section_round_trips() {
    let sd = SessionDescription {
        version: Version(0),
        origin: Origin {
            username: "alice".to_owned(),
            session_id: 1,
            session_version: 2,
            network_type: "IN".to_owned(),
            address_type: "IP4".to_owned(),
            unicast_address: "10.0.0.1".to_owned(),
        },
        session_name: SessionName::new("call"),
        session_information: Some(SessionInformation("about".to_owned())),
        uri: Some(URI("http://example.com/".to_owned())),
        email_addresses: vec![EmailAddress("a@example.com".to_owned())],
        phone_numbers: vec![PhoneNumber("+1 555".to_owned())],
        connection: Some(Connection {
            network_type: "IN".to_owned(),
            address_type: "IP4".to_owned(),
            connection_address: "10.0.0.1".to_owned(),
        }),
        bandwidths: vec![
            Bandwidth { typ: BandwidthType::AS, value: 64 },
            Bandwidth { typ: BandwidthType::Experimental("YZ".to_owned()), value: 9 },
        ],
        time_description: TimeDescription::base(Timing { start_time: 1, stop_time: 2 })
            .and_repeat_time(Repeat { interval: 7, active_duration: 8, offsets: vec![9] }),
        time_zone: Some(TimeZone {
            adjustments: vec![
                Adjustment { time: 5, offset: 7200 },
                Adjustment { time: 6, offset: -60 },
            ],
        }),
        encryption_key: Some(EncryptionKey {
            method: RetrievalMethod::Base64,
            data: Some("c2VjcmV0".to_owned()),
        }),
        attributes: vec![Attribute::property("sendrecv")],
        media_descriptions: vec![MediaDescription::base(Media {
            typ: MediaType::Application,
            port: 9,
            protocol: "UDP/DTLS/SCTP".to_owned(),
            format: "webrtc-datachannel".to_owned(),
        })],
    };
    let text = sd.to_string();
    let back = SessionDescription::from_str(text.as_str()).unwrap();
    assert_eq!(sd, back);
}

#[test]
fn from_str_refuses_trailing_garbage() {
    let err = SessionDescription::from_str("nonsense");
    assert!(err.is_err());
    assert_eq!(err.unwrap_err(), webrtc::sdp::Error::InvalidSessionDescription);
}

#[test]
fn candidates_lists_nested_candidate_attributes() {
    let sd = canonical_session_description().with_media_descriptions(vec![
        MediaDescription::base(Media {
            typ: MediaType::Video,
            port: 7,
            protocol: "RTP/SAVPF".to_owned(),
            format: "96".to_owned(),
        })
        .with_attributes(vec![
            Attribute::value("mid", "0"),
            Attribute::value("candidate", "0 1 udp 2130706431 10.0.0.1 40000 typ host"),
            Attribute::value("candidate", "1 1 udp 2130706431 10.0.0.2 40001 typ host"),
        ]),
    ]);
    let cands = sd.candidates();
    assert_eq!(cands.len(), 2);
    assert_eq!(
        cands[0],
        Attribute::value("candidate", "0 1 udp 2130706431 10.0.0.1 40000 typ host")
    );
}

#[test]
fn offset_units_parse_back_to_seconds() {
    let input = chars("z=1 1d 2 -2h 3 3m 4 4s 5 5\r\n");
    let tz = webrtc::sdp::time_zone::time_zone(&input, 0).unwrap().0;
    assert_eq!(
        tz.adjustments,
        vec![
            Adjustment { time: 1, offset: 86400 },
            Adjustment { time: 2, offset: -7200 },
            Adjustment { time: 3, offset: 180 },
            Adjustment { time: 4, offset: 4 },
            Adjustment { time: 5, offset: 5 },
        ]
    );
}
