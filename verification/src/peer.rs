//! The peer-connection facade: a typed state machine that installs the
//! remote offer, drafts a local answer, and folds the agent's candidates
//! into it. Socket work stays outside; the surrounding program records
//! bound addresses on the agent before sealing the local description.

use vstd::prelude::*;

use crate::ice::{candidate_of_attribute_s, Agent, RemoteCandidateV};
use crate::sdp::attribute::{Attribute, AttributeV};
use crate::sdp::connection::Connection;
use crate::sdp::media_description::{
    Media, MediaDescription, MediaDescriptionV, MediaType, MediaV,
};
use crate::sdp::origin::{Origin, OriginV};
use crate::sdp::session_description::{
    candidates_of, SessionDescription, SessionDescriptionV,
};
use crate::sdp::session_name::SessionName;
use crate::sdp::time_description::{TimeDescription, TimeDescriptionV, Timing};
use crate::sdp::version::Version;

verus! {

/// A phase of the peer connection.
pub trait State {

}

/// No descriptions installed yet.
pub struct New;

impl State for New {

}

/// The remote offer is installed.
pub struct HasRemoteDescription {
    pub remote_description: SessionDescription,
}

impl State for HasRemoteDescription {

}

/// Both descriptions are installed.
pub struct HasLocalAndRemoteDescriptions {
    pub local_description: SessionDescription,
    pub remote_description: SessionDescription,
}

impl State for HasLocalAndRemoteDescriptions {

}

/// The peer connection: the ICE agent and the current phase.
pub struct PeerConnection<S: State> {
    pub ice_agent: Agent,
    pub state: S,
}

/// The remote candidates a list of candidate attributes contributes: each
/// attribute that parses with a supported transport and type, in order.
pub open spec fn accepted_candidates(cands: Seq<AttributeV>) -> Seq<RemoteCandidateV>
    decreases cands.len(),
{
    if cands.len() == 0 {
        Seq::empty()
    } else {
        (match candidate_of_attribute_s(cands[0]) {
            Ok(c) => seq![c],
            Err(_) => Seq::empty(),
        }) + accepted_candidates(cands.drop_first())
    }
}

impl PeerConnection<New> {
    /// A fresh peer connection with a fresh agent.
    pub fn new() -> (r: PeerConnection<New>)
        ensures
            r.ice_agent@.local_candidates.len() == 0,
            r.ice_agent@.remote_candidates.len() == 0,
            r.ice_agent@.username.len() == 4,
            r.ice_agent@.password.len() == 22,
    {
        PeerConnection { ice_agent: Agent::new(), state: New }
    }

    /// Install the remote offer: every candidate attribute nested in its
    /// media descriptions is handed to the agent; ones that do not parse
    /// are skipped.
    pub fn set_remote_description(self, remote_description: SessionDescription) -> (r:
        PeerConnection<HasRemoteDescription>)
        ensures
            r.state.remote_description == remote_description,
            r.ice_agent@.remote_candidates == self.ice_agent@.remote_candidates
                + accepted_candidates(candidates_of(remote_description@.media_descriptions)),
            r.ice_agent@.username == self.ice_agent@.username,
            r.ice_agent@.password == self.ice_agent@.password,
            r.ice_agent@.local_candidates == self.ice_agent@.local_candidates,
    {
        let mut agent = self.ice_agent;
        let cands = remote_description.candidates();
        let ghost cvs = cands@.map_values(|a: Attribute| a@);
        let ghost base = agent@.remote_candidates;
        let mut k: usize = 0;
        proof {
            assert(accepted_candidates(cvs.take(0)) =~= Seq::<RemoteCandidateV>::empty());
            assert(base + accepted_candidates(cvs.take(0)) =~= base);
        }
        while k < cands.len()
            invariant
                k <= cvs.len(),
                cvs.len() == cands@.len(),
                forall|m: int| 0 <= m < cvs.len() ==> cvs[m] == cands@[m]@,
                agent@.remote_candidates == base + accepted_candidates(cvs.take(k as int)),
                agent@.username == self.ice_agent@.username,
                agent@.password == self.ice_agent@.password,
                agent@.local_candidates == self.ice_agent@.local_candidates,
            decreases cvs.len() - k,
        {
            let a = cands[k].duplicate();
            let ghost av = a@;
            let res = agent.add_remote_candidate(a);
            proof {
                lemma_accepted_candidates_concat(cvs.take(k as int), seq![av]);
                assert(cvs.take(k + 1) =~= cvs.take(k as int) + seq![av]);
                assert(seq![av].drop_first() =~= Seq::<AttributeV>::empty());
                assert(accepted_candidates(Seq::<AttributeV>::empty()) =~= Seq::<
                    RemoteCandidateV,
                >::empty());
                match candidate_of_attribute_s(av) {
                    Ok(c) => {
                        assert(accepted_candidates(seq![av]) =~= seq![c]);
                        assert(agent@.remote_candidates =~= base + accepted_candidates(
                            cvs.take(k + 1),
                        ));
                    },
                    Err(_) => {
                        assert(accepted_candidates(seq![av]) =~= Seq::<
                            RemoteCandidateV,
                        >::empty());
                        assert(agent@.remote_candidates =~= base + accepted_candidates(
                            cvs.take(k + 1),
                        ));
                    },
                }
            }
            k = k + 1;
        }
        proof {
            assert(cvs.take(cvs.len() as int) =~= cvs);
        }
        PeerConnection { ice_agent: agent, state: HasRemoteDescription { remote_description } }
    }
}

/// Splitting a list of candidate attributes splits the accepted candidates.
pub proof fn lemma_accepted_candidates_concat(s1: Seq<AttributeV>, s2: Seq<AttributeV>)
    ensures
        accepted_candidates(s1 + s2) == accepted_candidates(s1) + accepted_candidates(s2),
    decreases s1.len(),
{
    if s1.len() == 0 {
        assert(s1 + s2 =~= s2);
        assert(accepted_candidates(s1) + accepted_candidates(s2) =~= accepted_candidates(s2));
    } else {
        assert((s1 + s2).drop_first() =~= s1.drop_first() + s2);
        lemma_accepted_candidates_concat(s1.drop_first(), s2);
        assert(accepted_candidates(s1 + s2) =~= accepted_candidates(s1) + accepted_candidates(
            s2,
        ));
    }
}

/// The static answer template: version 0, a fixed origin, a single video
/// media description with placeholder transport parameters, ice-lite, a
/// bundle group, and the agent's credentials on the media section.
pub open spec fn answer_template_v(ufrag: Seq<char>, pwd: Seq<char>) -> SessionDescriptionV {
    SessionDescriptionV {
        version: 0,
        origin: OriginV {
            username: "rtcrs"@,
            session_id: 1433832402044130222u64,
            session_version: 1u64,
            network_type: "IN"@,
            address_type: "IP4"@,
            unicast_address: "127.0.0.1"@,
        },
        session_name: "-"@,
        session_information: None,
        uri: None,
        email_addresses: Seq::empty(),
        phone_numbers: Seq::empty(),
        connection: None,
        bandwidths: Seq::empty(),
        time_description: TimeDescriptionV {
            timing: Timing { start_time: 0, stop_time: 0 },
            repeat_times: Seq::empty(),
        },
        time_zone: None,
        encryption_key: None,
        attributes: seq![
            AttributeV::Property("ice-lite"@),
            AttributeV::Value(
                "fingerprint"@,
                "sha-512 4E:DD:25:41:95:51:85:B6:6A:29:42:FF:56:5B:41:47:2C:6C:67:36:7D:97:91:5A:65:C7:E1:76:1B:6E:D3:22:45:B4:9F:DF:EA:93:FF:20:F4:CB:A8:53:AF:50:DA:87:5A:C5:4C:5B:F6:4C:50:DC:D9:29:A3:C0:19:7A:17:48"@,
            ),
            AttributeV::Value("msid-semantic"@, " WMS *"@),
            AttributeV::Value("group"@, "BUNDLE 0"@),
        ],
        media_descriptions: seq![answer_video_v(ufrag, pwd)],
    }
}

/// The video media description of the answer template.
pub open spec fn answer_video_v(ufrag: Seq<char>, pwd: Seq<char>) -> MediaDescriptionV {
    MediaDescriptionV {
        media: MediaV {
            typ: MediaType::Video,
            port: 7,
            protocol: "RTP/SAVPF"@,
            format: "96 97"@,
        },
        title: None,
        connection: Some(
            crate::sdp::connection::ConnectionV {
                network_type: "IN"@,
                address_type: "IP4"@,
                connection_address: "127.0.0.1"@,
            },
        ),
        bandwidths: Seq::empty(),
        encryption_key: None,
        attributes: seq![
            AttributeV::Value("rtpmap"@, "96 VP8/90000"@),
            AttributeV::Value("rtpmap"@, "97 rtx/90000"@),
            AttributeV::Value("fmtp"@, "97 apt=96"@),
            AttributeV::Value("ftcp-fb"@, "96 goog-remb"@),
            AttributeV::Value("ftcp-fb"@, "96 ccm fir"@),
            AttributeV::Value("ftcp-fb"@, "96 nack"@),
            AttributeV::Value("ftcp-fb"@, "96 nack pli"@),
            AttributeV::Value("extmap"@, "2 urn:ietf:params:rtp-hdrext:toffset"@),
            AttributeV::Value(
                "extmap"@,
                "3 http://www.webrtc.org/experiments/rtp-hdrext/abs-send-time"@,
            ),
            AttributeV::Value("extmap"@, "4 urn:3gpp:video-orientation"@),
            AttributeV::Value("setup"@, "active"@),
            AttributeV::Value("mid"@, "0"@),
            AttributeV::Property("sendonly"@),
            AttributeV::Value("ice-ufrag"@, ufrag),
            AttributeV::Value("ice-pwd"@, pwd),
            AttributeV::Value("ice-options"@, "renomination"@),
            AttributeV::Property("rtcp-mux"@),
            AttributeV::Property("rtcp-rsize"@),
        ],
    }
}

impl PeerConnection<HasRemoteDescription> {
    /// Draft the static answer template, carrying the agent's credentials;
    /// the caller may edit it before sealing it as the local description.
    #[verifier::rlimit(100)]
    pub fn create_answer(&self) -> (r: SessionDescription)
        ensures
            r@ == answer_template_v(self.ice_agent@.username, self.ice_agent@.password),
    {
        let ice_ufrag = self.ice_agent.username();
        let ice_pwd = self.ice_agent.password();
        let mut video_attrs: Vec<Attribute> = Vec::new();
        video_attrs.push(Attribute::value("rtpmap", "96 VP8/90000"));
        video_attrs.push(Attribute::value("rtpmap", "97 rtx/90000"));
        video_attrs.push(Attribute::value("fmtp", "97 apt=96"));
        video_attrs.push(Attribute::value("ftcp-fb", "96 goog-remb"));
        video_attrs.push(Attribute::value("ftcp-fb", "96 ccm fir"));
        video_attrs.push(Attribute::value("ftcp-fb", "96 nack"));
        video_attrs.push(Attribute::value("ftcp-fb", "96 nack pli"));
        video_attrs.push(Attribute::value("extmap", "2 urn:ietf:params:rtp-hdrext:toffset"));
        video_attrs.push(
            Attribute::value(
                "extmap",
                "3 http://www.webrtc.org/experiments/rtp-hdrext/abs-send-time",
            ),
        );
        video_attrs.push(Attribute::value("extmap", "4 urn:3gpp:video-orientation"));
        video_attrs.push(Attribute::value("setup", "active"));
        video_attrs.push(Attribute::value("mid", "0"));
        video_attrs.push(Attribute::property("sendonly"));
        video_attrs.push(Attribute::value("ice-ufrag", ice_ufrag.as_str()));
        video_attrs.push(Attribute::value("ice-pwd", ice_pwd.as_str()));
        video_attrs.push(Attribute::value("ice-options", "renomination"));
        video_attrs.push(Attribute::property("rtcp-mux"));
        video_attrs.push(Attribute::property("rtcp-rsize"));
        let video_description = MediaDescription::base(
            Media {
                typ: MediaType::Video,
                port: 7,
                protocol: "RTP/SAVPF".to_owned(),
                format: "96 97".to_owned(),
            },
        ).with_connection(
            Connection {
                network_type: "IN".to_owned(),
                address_type: "IP4".to_owned(),
                connection_address: "127.0.0.1".to_owned(),
            },
        ).with_attributes(video_attrs);
        proof {
            assert(video_description@.attributes =~= answer_video_v(
                self.ice_agent@.username,
                self.ice_agent@.password,
            ).attributes);
        }
        let mut session_attrs: Vec<Attribute> = Vec::new();
        session_attrs.push(Attribute::property("ice-lite"));
        session_attrs.push(
            Attribute::value(
                "fingerprint",
                "sha-512 4E:DD:25:41:95:51:85:B6:6A:29:42:FF:56:5B:41:47:2C:6C:67:36:7D:97:91:5A:65:C7:E1:76:1B:6E:D3:22:45:B4:9F:DF:EA:93:FF:20:F4:CB:A8:53:AF:50:DA:87:5A:C5:4C:5B:F6:4C:50:DC:D9:29:A3:C0:19:7A:17:48",
            ),
        );
        session_attrs.push(Attribute::value("msid-semantic", " WMS *"));
        session_attrs.push(Attribute::value("group", "BUNDLE 0"));
        let r = SessionDescription::base(
            Version(0),
            Origin {
                username: "rtcrs".to_owned(),
                session_id: 1433832402044130222,
                session_version: 1,
                network_type: "IN".to_owned(),
                address_type: "IP4".to_owned(),
                unicast_address: "127.0.0.1".to_owned(),
            },
            SessionName::new("-"),
            TimeDescription::base(Timing { start_time: 0, stop_time: 0 }),
        ).with_attributes(session_attrs).and_media_description(video_description);
        proof {
            assert(r@.attributes =~= answer_template_v(
                self.ice_agent@.username,
                self.ice_agent@.password,
            ).attributes);
            assert(r@.media_descriptions =~= answer_template_v(
                self.ice_agent@.username,
                self.ice_agent@.password,
            ).media_descriptions);
            assert(r@.email_addresses =~= Seq::<Seq<char>>::empty());
            assert(r@.phone_numbers =~= Seq::<Seq<char>>::empty());
            assert(r@.bandwidths =~= Seq::<crate::sdp::bandwidth::BandwidthV>::empty());
            assert(r@.time_description.repeat_times =~= Seq::<
                crate::sdp::time_description::RepeatV,
            >::empty());
        }
        r
    }

    /// Seal the local description: every candidate attribute the agent
    /// offers is appended to the answer's first media description, or to
    /// the session attributes when it has no media description.
    pub fn set_local_description(self, local_description: SessionDescription) -> (r:
        PeerConnection<HasLocalAndRemoteDescriptions>)
        ensures
            r.ice_agent == self.ice_agent,
            r.state.remote_description == self.state.remote_description,
            ({
                let added = Seq::new(
                    self.ice_agent@.local_candidates.len(),
                    |i: int|
                        AttributeV::Value(
                            crate::ice::candidate_key(),
                            crate::ice::local_candidate_value(
                                i,
                                self.ice_agent@.local_candidates[i],
                            ),
                        ),
                );
                if local_description@.media_descriptions.len() > 0 {
                    r.state.local_description@ == (SessionDescriptionV {
                        media_descriptions: local_description@.media_descriptions.update(
                            0,
                            MediaDescriptionV {
                                attributes: local_description@.media_descriptions[0].attributes
                                    + added,
                                ..local_description@.media_descriptions[0]
                            },
                        ),
                        ..local_description@
                    })
                } else {
                    r.state.local_description@ == (SessionDescriptionV {
                        attributes: local_description@.attributes + added,
                        ..local_description@
                    })
                }
            }),
    {
        let cands = self.ice_agent.candidate_attributes();
        let ghost added = Seq::new(
            self.ice_agent@.local_candidates.len(),
            |i: int|
                AttributeV::Value(
                    crate::ice::candidate_key(),
                    crate::ice::local_candidate_value(i, self.ice_agent@.local_candidates[i]),
                ),
        );
        proof {
            assert(cands@.map_values(|a: Attribute| a@) =~= added);
        }
        let mut ld = local_description;
        if ld.media_descriptions.len() > 0 {
            let mut md0 = ld.media_descriptions.remove(0);
            let ghost md0v = md0@;
            let ghost rest = ld.media_descriptions@.map_values(|m: MediaDescription| m@);
            let ghost before_attrs = md0.attributes@.map_values(|a: Attribute| a@);
            let mut cands_mut = cands;
            md0.attributes.append(&mut cands_mut);
            proof {
                assert(md0.attributes@.map_values(|a: Attribute| a@) =~= before_attrs + added);
            }
            ld.media_descriptions.insert(0, md0);
            proof {
                assert(ld.media_descriptions@.map_values(|m: MediaDescription| m@)
                    =~= local_description@.media_descriptions.update(
                    0,
                    MediaDescriptionV {
                        attributes: local_description@.media_descriptions[0].attributes + added,
                        ..local_description@.media_descriptions[0]
                    },
                ));
            }
        } else {
            let ghost before_attrs = ld.attributes@.map_values(|a: Attribute| a@);
            let mut cands_mut = cands;
            ld.attributes.append(&mut cands_mut);
            proof {
                assert(ld.attributes@.map_values(|a: Attribute| a@) =~= before_attrs + added);
            }
        }
        PeerConnection {
            ice_agent: self.ice_agent,
            state: HasLocalAndRemoteDescriptions {
                local_description: ld,
                remote_description: self.state.remote_description,
            },
        }
    }
}

impl PeerConnection<HasLocalAndRemoteDescriptions> {
    /// Read-only access to the sealed local description.
    pub fn local_description(&self) -> (r: &SessionDescription)
        ensures
            r == self.state.local_description,
    {
        &self.state.local_description
    }
}

} // verus!
