//! The session description: the full RFC 4566 grammar, its serialization,
//! the all-consuming parser, and the round-trip law.

use vstd::prelude::*;

use crate::sdp::attribute::{
    attributes, attributes_text, parse_attributes_s,
    Attribute, AttributeV,
};
use crate::sdp::bandwidth::{
    bandwidths, bandwidths_text, parse_bandwidths_s,
    Bandwidth, BandwidthV,
};
use crate::sdp::connection::{
    connection, connection_text, parse_connection_s, Connection,
    ConnectionV,
};
use crate::sdp::email_address::{
    email_addresses, email_addresses_text, parse_email_addresses_s, EmailAddress,
};
use crate::sdp::encryption_key::{
    encryption_key, encryption_key_text, parse_encryption_key_s,
    EncryptionKey, EncryptionKeyV,
};
use crate::sdp::media_description::{
    media_descriptions,
    media_descriptions_text, parse_media_descriptions_s, MediaDescription,
    MediaDescriptionV,
};
use crate::sdp::origin::{origin, origin_text, parse_origin_s, Origin, OriginV};
use crate::sdp::phone_number::{
    parse_phone_numbers_s, phone_numbers,
    phone_numbers_text, PhoneNumber,
};
use crate::sdp::session_information::{
    parse_session_information_s, session_information,
    session_information_text, SessionInformation,
};
use crate::sdp::session_name::{
    parse_session_name_s, session_name, session_name_text,
    SessionName,
};
use crate::sdp::time_description::{
    parse_time_description_s, time_description,
    time_description_text, TimeDescription, TimeDescriptionV,
};
use crate::sdp::time_zone::{
    parse_time_zone_s, time_zone, time_zone_text, TimeZone, TimeZoneV,
};
use crate::sdp::uri::{parse_uri_s, uri, uri_text, URI};
use crate::sdp::version::{parse_version_s, version, version_text, Version};
use crate::sdp::{no_crlf, Error};
use crate::text::{chars_to_string, str_to_chars};

verus! {

/// A session description: every line of the RFC 4566 session-level grammar
/// and the media descriptions under it.
#[derive(Clone, Debug, PartialEq, Eq)]
pub struct SessionDescription {
    pub version: Version,
    pub origin: Origin,
    pub session_name: SessionName,
    pub session_information: Option<SessionInformation>,
    pub uri: Option<URI>,
    pub email_addresses: Vec<EmailAddress>,
    pub phone_numbers: Vec<PhoneNumber>,
    pub connection: Option<Connection>,
    pub bandwidths: Vec<Bandwidth>,
    pub time_description: TimeDescription,
    pub time_zone: Option<TimeZone>,
    pub encryption_key: Option<EncryptionKey>,
    pub attributes: Vec<Attribute>,
    pub media_descriptions: Vec<MediaDescription>,
}

/// Spec-level value of a [`SessionDescription`].
pub struct SessionDescriptionV {
    pub version: u8,
    pub origin: OriginV,
    pub session_name: Seq<char>,
    pub session_information: Option<Seq<char>>,
    pub uri: Option<Seq<char>>,
    pub email_addresses: Seq<Seq<char>>,
    pub phone_numbers: Seq<Seq<char>>,
    pub connection: Option<ConnectionV>,
    pub bandwidths: Seq<BandwidthV>,
    pub time_description: TimeDescriptionV,
    pub time_zone: Option<TimeZoneV>,
    pub encryption_key: Option<EncryptionKeyV>,
    pub attributes: Seq<AttributeV>,
    pub media_descriptions: Seq<MediaDescriptionV>,
}

impl View for SessionDescription {
    type V = SessionDescriptionV;

    open spec fn view(&self) -> SessionDescriptionV {
        SessionDescriptionV {
            version: self.version@,
            origin: self.origin@,
            session_name: self.session_name@,
            session_information: match &self.session_information {
                Some(x) => Some(x@),
                None => None,
            },
            uri: match &self.uri {
                Some(x) => Some(x@),
                None => None,
            },
            email_addresses: self.email_addresses@.map_values(|x: EmailAddress| x@),
            phone_numbers: self.phone_numbers@.map_values(|x: PhoneNumber| x@),
            connection: match &self.connection {
                Some(x) => Some(x@),
                None => None,
            },
            bandwidths: self.bandwidths@.map_values(|x: Bandwidth| x@),
            time_description: self.time_description@,
            time_zone: match &self.time_zone {
                Some(x) => Some(x@),
                None => None,
            },
            encryption_key: match &self.encryption_key {
                Some(x) => Some(x@),
                None => None,
            },
            attributes: self.attributes@.map_values(|x: Attribute| x@),
            media_descriptions: self.media_descriptions@.map_values(|x: MediaDescription| x@),
        }
    }
}

impl SessionDescriptionV {
    /// A well-formed session description: every component is well-formed.
    pub open spec fn wf(self) -> bool {
        &&& self.origin.wf()
        &&& no_crlf(self.session_name)
        &&& match self.session_information {
            Some(x) => no_crlf(x),
            None => true,
        }
        &&& match self.uri {
            Some(x) => no_crlf(x),
            None => true,
        }
        &&& forall|k: int|
            0 <= k < self.email_addresses.len() ==> no_crlf(#[trigger] self.email_addresses[k])
        &&& forall|k: int|
            0 <= k < self.phone_numbers.len() ==> no_crlf(#[trigger] self.phone_numbers[k])
        &&& match self.connection {
            Some(c) => c.wf(),
            None => true,
        }
        &&& forall|k: int| 0 <= k < self.bandwidths.len() ==> (#[trigger] self.bandwidths[k]).wf()
        &&& self.time_description.wf()
        &&& match self.time_zone {
            Some(z) => z.wf(),
            None => true,
        }
        &&& match self.encryption_key {
            Some(k) => k.wf(),
            None => true,
        }
        &&& forall|k: int| 0 <= k < self.attributes.len() ==> (#[trigger] self.attributes[k]).wf()
        &&& forall|k: int|
            0 <= k < self.media_descriptions.len() ==> (
            #[trigger] self.media_descriptions[k]).wf()
    }
}

/// The text of a session description: every section in grammar order.
pub open spec fn session_description_text(sd: SessionDescriptionV) -> Seq<char> {
    version_text(sd.version) + origin_text(sd.origin) + session_name_text(sd.session_name) + (
    match sd.session_information {
        Some(x) => session_information_text(x),
        None => Seq::empty(),
    }) + (match sd.uri {
        Some(x) => uri_text(x),
        None => Seq::empty(),
    }) + email_addresses_text(sd.email_addresses) + phone_numbers_text(sd.phone_numbers) + (
    match sd.connection {
        Some(c) => connection_text(c),
        None => Seq::empty(),
    }) + bandwidths_text(sd.bandwidths) + time_description_text(sd.time_description) + (
    match sd.time_zone {
        Some(z) => time_zone_text(z),
        None => Seq::empty(),
    }) + (match sd.encryption_key {
        Some(k) => encryption_key_text(k),
        None => Seq::empty(),
    }) + attributes_text(sd.attributes) + media_descriptions_text(sd.media_descriptions)
}

/// Parse a session description: the session-level lines in grammar order,
/// then the media descriptions.
pub open spec fn parse_session_description_s(s: Seq<char>, i: int) -> Option<
    (SessionDescriptionV, int),
> {
    match parse_version_s(s, i) {
        None => None,
        Some((version, p1)) => {
            if !(i < p1 <= s.len()) {
                None
            } else {
                match parse_origin_s(s, p1) {
                    None => None,
                    Some((origin, p2)) => {
                        if !(p1 < p2 <= s.len()) {
                            None
                        } else {
                            match parse_session_name_s(s, p2) {
                                None => None,
                                Some((session_name, p3)) => {
                                    if !(p2 < p3 <= s.len()) {
                                        None
                                    } else {
                                        parse_session_tail_s(s, i, version, origin, session_name, p3)
                                    }
                                },
                            }
                        }
                    },
                }
            }
        },
    }
}

/// The rest of the session grammar, after the three required opening lines.
pub open spec fn parse_session_tail_s(
    s: Seq<char>,
    i: int,
    version: u8,
    origin: OriginV,
    session_name: Seq<char>,
    p3: int,
) -> Option<(SessionDescriptionV, int)> {
    let (session_information, p4) = match parse_session_information_s(s, p3) {
        Some((x, j)) => if p3 < j <= s.len() {
            (Some(x), j)
        } else {
            (None, p3)
        },
        None => (None, p3),
    };
    let (uri, p5) = match parse_uri_s(s, p4) {
        Some((x, j)) => if p4 < j <= s.len() {
            (Some(x), j)
        } else {
            (None, p4)
        },
        None => (None, p4),
    };
    let (email_addresses, p6) = parse_email_addresses_s(s, p5);
    if !(p5 <= p6 <= s.len()) {
        None
    } else {
        let (phone_numbers, p7) = parse_phone_numbers_s(s, p6);
        if !(p6 <= p7 <= s.len()) {
            None
        } else {
            let (connection, p8) = match parse_connection_s(s, p7) {
                Some((c, j)) => if p7 < j <= s.len() {
                    (Some(c), j)
                } else {
                    (None, p7)
                },
                None => (None, p7),
            };
            let (bandwidths, p9) = parse_bandwidths_s(s, p8);
            if !(p8 <= p9 <= s.len()) {
                None
            } else {
                match parse_time_description_s(s, p9) {
                    None => None,
                    Some((time_description, p10)) => {
                        if !(p9 < p10 <= s.len()) {
                            None
                        } else {
                            let (time_zone, p11) = match parse_time_zone_s(s, p10) {
                                Some((z, j)) => if p10 < j <= s.len() {
                                    (Some(z), j)
                                } else {
                                    (None, p10)
                                },
                                None => (None, p10),
                            };
                            let (encryption_key, p12) = match parse_encryption_key_s(s, p11) {
                                Some((k, j)) => if p11 < j <= s.len() {
                                    (Some(k), j)
                                } else {
                                    (None, p11)
                                },
                                None => (None, p11),
                            };
                            let (attributes, p13) = parse_attributes_s(s, p12);
                            if !(p12 <= p13 <= s.len()) {
                                None
                            } else {
                                let (media_descriptions, p14) = parse_media_descriptions_s(
                                    s,
                                    p13,
                                );
                                Some(
                                    (
                                        SessionDescriptionV {
                                            version,
                                            origin,
                                            session_name,
                                            session_information,
                                            uri,
                                            email_addresses,
                                            phone_numbers,
                                            connection,
                                            bandwidths,
                                            time_description,
                                            time_zone,
                                            encryption_key,
                                            attributes,
                                            media_descriptions,
                                        },
                                        p14,
                                    ),
                                )
                            }
                        }
                    },
                }
            }
        }
    }
}

impl SessionDescription {
    /// A session description over the required lines, with nothing else.
    pub fn base(
        version: Version,
        origin: Origin,
        session_name: SessionName,
        time_description: TimeDescription,
    ) -> (r: SessionDescription)
        ensures
            r@.version == version@,
            r@.origin == origin@,
            r@.session_name == session_name@,
            r@.time_description == time_description@,
            r@.session_information is None,
            r@.uri is None,
            r@.email_addresses == Seq::<Seq<char>>::empty(),
            r@.phone_numbers == Seq::<Seq<char>>::empty(),
            r@.connection is None,
            r@.bandwidths == Seq::<BandwidthV>::empty(),
            r@.time_zone is None,
            r@.encryption_key is None,
            r@.attributes == Seq::<AttributeV>::empty(),
            r@.media_descriptions == Seq::<MediaDescriptionV>::empty(),
    {
        let r = SessionDescription {
            version,
            origin,
            session_name,
            session_information: None,
            uri: None,
            email_addresses: Vec::new(),
            phone_numbers: Vec::new(),
            connection: None,
            bandwidths: Vec::new(),
            time_description,
            time_zone: None,
            encryption_key: None,
            attributes: Vec::new(),
            media_descriptions: Vec::new(),
        };
        proof {
            assert(r@.email_addresses =~= Seq::<Seq<char>>::empty());
            assert(r@.phone_numbers =~= Seq::<Seq<char>>::empty());
            assert(r@.bandwidths =~= Seq::<BandwidthV>::empty());
            assert(r@.attributes =~= Seq::<AttributeV>::empty());
            assert(r@.media_descriptions =~= Seq::<MediaDescriptionV>::empty());
        }
        r
    }

    /// Set the session-level connection line.
    pub fn with_connection(self, connection: Connection) -> (r: SessionDescription)
        ensures
            r@ == (SessionDescriptionV { connection: Some(connection@), ..self@ }),
    {
        SessionDescription { connection: Some(connection), ..self }
    }

    /// Replace the session-level attributes.
    pub fn with_attributes(self, attributes: Vec<Attribute>) -> (r: SessionDescription)
        ensures
            r@ == (SessionDescriptionV {
                attributes: attributes@.map_values(|a: Attribute| a@),
                ..self@
            }),
    {
        SessionDescription { attributes, ..self }
    }

    /// Append one session-level attribute.
    pub fn and_attribute(self, attribute: Attribute) -> (r: SessionDescription)
        ensures
            r@ == (SessionDescriptionV { attributes: self@.attributes.push(attribute@), ..self@ }),
    {
        let mut sd = self;
        let ghost before = sd.attributes@.map_values(|a: Attribute| a@);
        let ghost av = attribute@;
        sd.attributes.push(attribute);
        proof {
            assert(sd.attributes@.map_values(|a: Attribute| a@) =~= before.push(av));
        }
        sd
    }

    /// Replace the media descriptions.
    pub fn with_media_descriptions(self, media_descriptions: Vec<MediaDescription>) -> (r:
        SessionDescription)
        ensures
            r@ == (SessionDescriptionV {
                media_descriptions: media_descriptions@.map_values(|m: MediaDescription| m@),
                ..self@
            }),
    {
        SessionDescription { media_descriptions, ..self }
    }

    /// Append one media description.
    pub fn and_media_description(self, media_description: MediaDescription) -> (r:
        SessionDescription)
        ensures
            r@ == (SessionDescriptionV {
                media_descriptions: self@.media_descriptions.push(media_description@),
                ..self@
            }),
    {
        let mut sd = self;
        let ghost before = sd.media_descriptions@.map_values(|m: MediaDescription| m@);
        let ghost mv = media_description@;
        sd.media_descriptions.push(media_description);
        proof {
            assert(sd.media_descriptions@.map_values(|m: MediaDescription| m@) =~= before.push(
                mv,
            ));
        }
        sd
    }

    /// Serialize the session description.
    #[verifier::rlimit(100)]
    pub fn to_string(&self) -> (r: String)
        ensures
            r@ == session_description_text(self@),
    {
        let mut out: Vec<char> = Vec::new();
        self.version.write(&mut out);
        self.origin.write(&mut out);
        self.session_name.write(&mut out);
        match &self.session_information {
            Some(x) => x.write(&mut out),
            None => {},
        }
        match &self.uri {
            Some(x) => x.write(&mut out),
            None => {},
        }
        let ghost base0 = out@;
        let ghost ems = self@.email_addresses;
        let mut k: usize = 0;
        proof {
            assert(email_addresses_text(ems.take(0)) =~= Seq::<char>::empty());
            assert(base0 + email_addresses_text(ems.take(0)) =~= base0);
        }
        while k < self.email_addresses.len()
            invariant
                k <= ems.len(),
                ems == self@.email_addresses,
                ems.len() == self.email_addresses@.len(),
                forall|m: int| 0 <= m < ems.len() ==> ems[m] == self.email_addresses@[m]@,
                out@ == base0 + email_addresses_text(ems.take(k as int)),
            decreases ems.len() - k,
        {
            self.email_addresses[k].write(&mut out);
            proof {
                crate::sdp::email_address::lemma_email_addresses_text_concat(
                    ems.take(k as int),
                    seq![ems[k as int]],
                );
                assert(ems.take(k + 1) =~= ems.take(k as int) + seq![ems[k as int]]);
                crate::sdp::email_address::lemma_email_addresses_text_singleton(ems[k as int]);
            }
            k = k + 1;
        }
        proof {
            assert(ems.take(ems.len() as int) =~= ems);
        }
        let ghost base1 = out@;
        let ghost phs = self@.phone_numbers;
        let mut k2: usize = 0;
        proof {
            assert(phone_numbers_text(phs.take(0)) =~= Seq::<char>::empty());
            assert(base1 + phone_numbers_text(phs.take(0)) =~= base1);
        }
        while k2 < self.phone_numbers.len()
            invariant
                k2 <= phs.len(),
                phs == self@.phone_numbers,
                phs.len() == self.phone_numbers@.len(),
                forall|m: int| 0 <= m < phs.len() ==> phs[m] == self.phone_numbers@[m]@,
                out@ == base1 + phone_numbers_text(phs.take(k2 as int)),
            decreases phs.len() - k2,
        {
            self.phone_numbers[k2].write(&mut out);
            proof {
                crate::sdp::phone_number::lemma_phone_numbers_text_concat(
                    phs.take(k2 as int),
                    seq![phs[k2 as int]],
                );
                assert(phs.take(k2 + 1) =~= phs.take(k2 as int) + seq![phs[k2 as int]]);
                crate::sdp::phone_number::lemma_phone_numbers_text_singleton(phs[k2 as int]);
            }
            k2 = k2 + 1;
        }
        proof {
            assert(phs.take(phs.len() as int) =~= phs);
        }
        match &self.connection {
            Some(c) => c.write(&mut out),
            None => {},
        }
        let ghost base2 = out@;
        let ghost bws = self@.bandwidths;
        let mut k3: usize = 0;
        proof {
            assert(bandwidths_text(bws.take(0)) =~= Seq::<char>::empty());
            assert(base2 + bandwidths_text(bws.take(0)) =~= base2);
        }
        while k3 < self.bandwidths.len()
            invariant
                k3 <= bws.len(),
                bws == self@.bandwidths,
                bws.len() == self.bandwidths@.len(),
                forall|m: int| 0 <= m < bws.len() ==> bws[m] == self.bandwidths@[m]@,
                out@ == base2 + bandwidths_text(bws.take(k3 as int)),
            decreases bws.len() - k3,
        {
            self.bandwidths[k3].write(&mut out);
            proof {
                crate::sdp::bandwidth::lemma_bandwidths_text_concat(
                    bws.take(k3 as int),
                    seq![bws[k3 as int]],
                );
                assert(bws.take(k3 + 1) =~= bws.take(k3 as int) + seq![bws[k3 as int]]);
                crate::sdp::bandwidth::lemma_bandwidths_text_singleton(bws[k3 as int]);
            }
            k3 = k3 + 1;
        }
        proof {
            assert(bws.take(bws.len() as int) =~= bws);
        }
        self.time_description.write(&mut out);
        match &self.time_zone {
            Some(z) => z.write(&mut out),
            None => {},
        }
        match &self.encryption_key {
            Some(x) => x.write(&mut out),
            None => {},
        }
        let ghost base3 = out@;
        let ghost ats = self@.attributes;
        let mut k4: usize = 0;
        proof {
            assert(attributes_text(ats.take(0)) =~= Seq::<char>::empty());
            assert(base3 + attributes_text(ats.take(0)) =~= base3);
        }
        while k4 < self.attributes.len()
            invariant
                k4 <= ats.len(),
                ats == self@.attributes,
                ats.len() == self.attributes@.len(),
                forall|m: int| 0 <= m < ats.len() ==> ats[m] == self.attributes@[m]@,
                out@ == base3 + attributes_text(ats.take(k4 as int)),
            decreases ats.len() - k4,
        {
            self.attributes[k4].write(&mut out);
            proof {
                crate::sdp::attribute::lemma_attributes_text_concat(
                    ats.take(k4 as int),
                    seq![ats[k4 as int]],
                );
                assert(ats.take(k4 + 1) =~= ats.take(k4 as int) + seq![ats[k4 as int]]);
                crate::sdp::attribute::lemma_attributes_text_singleton(ats[k4 as int]);
            }
            k4 = k4 + 1;
        }
        proof {
            assert(ats.take(ats.len() as int) =~= ats);
        }
        let ghost base4 = out@;
        let ghost mds = self@.media_descriptions;
        let mut k5: usize = 0;
        proof {
            assert(media_descriptions_text(mds.take(0)) =~= Seq::<char>::empty());
            assert(base4 + media_descriptions_text(mds.take(0)) =~= base4);
        }
        while k5 < self.media_descriptions.len()
            invariant
                k5 <= mds.len(),
                mds == self@.media_descriptions,
                mds.len() == self.media_descriptions@.len(),
                forall|m: int| 0 <= m < mds.len() ==> mds[m] == self.media_descriptions@[m]@,
                out@ == base4 + media_descriptions_text(mds.take(k5 as int)),
            decreases mds.len() - k5,
        {
            self.media_descriptions[k5].write(&mut out);
            proof {
                crate::sdp::media_description::lemma_media_descriptions_text_concat(
                    mds.take(k5 as int),
                    seq![mds[k5 as int]],
                );
                assert(mds.take(k5 + 1) =~= mds.take(k5 as int) + seq![mds[k5 as int]]);
                crate::sdp::media_description::lemma_media_descriptions_text_singleton(
                    mds[k5 as int],
                );
            }
            k5 = k5 + 1;
        }
        proof {
            assert(mds.take(mds.len() as int) =~= mds);
            assert(out@ =~= session_description_text(self@));
        }
        chars_to_string(&out)
    }

    /// Parse a session description from its full text; anything that the
    /// grammar does not consume whole is refused.
    pub fn from_str(text: &str) -> (r: Result<SessionDescription, Error>)
        ensures
            match r {
                Ok(sd) => parse_session_description_s(text@, 0) == Some(
                    (sd@, text@.len() as int),
                ),
                Err(e) => e == Error::InvalidSessionDescription && (match parse_session_description_s(
                    text@,
                    0,
                ) {
                    Some((x, n)) => n != text@.len(),
                    None => true,
                }),
            },
    {
        let cs = str_to_chars(text);
        match session_description(&cs, 0) {
            None => Err(Error::InvalidSessionDescription),
            Some((sd, k)) => {
                if k == cs.len() {
                    Ok(sd)
                } else {
                    Err(Error::InvalidSessionDescription)
                }
            },
        }
    }
}

/// Parse a session description: exactly what
/// [`parse_session_description_s`] says.
pub fn session_description(s: &Vec<char>, i: usize) -> (r: Option<(SessionDescription, usize)>)
    requires
        i <= s@.len(),
    ensures
        match r {
            Some((sd, j)) => parse_session_description_s(s@, i as int) == Some(
                (sd@, j as int),
            ) && i < j <= s@.len(),
            None => parse_session_description_s(s@, i as int) is None,
        },
{
    let (v, p1) = match version(s, i) {
        None => {
            return None;
        },
        Some(q) => q,
    };
    let (o, p2) = match origin(s, p1) {
        None => {
            return None;
        },
        Some(q) => q,
    };
    let (sn, p3) = match session_name(s, p2) {
        None => {
            return None;
        },
        Some(q) => q,
    };
    let (si, p4) = match session_information(s, p3) {
        Some((x, j)) => (Some(x), j),
        None => (None, p3),
    };
    let (u, p5) = match uri(s, p4) {
        Some((x, j)) => (Some(x), j),
        None => (None, p4),
    };
    let (ems, p6) = email_addresses(s, p5);
    let (phs, p7) = phone_numbers(s, p6);
    let (conn, p8) = match connection(s, p7) {
        Some((c, j)) => (Some(c), j),
        None => (None, p7),
    };
    let (bws, p9) = bandwidths(s, p8);
    let (td, p10) = match time_description(s, p9) {
        None => {
            return None;
        },
        Some(q) => q,
    };
    let (tz, p11) = match time_zone(s, p10) {
        Some((z, j)) => (Some(z), j),
        None => (None, p10),
    };
    let (ek, p12) = match encryption_key(s, p11) {
        Some((x, j)) => (Some(x), j),
        None => (None, p11),
    };
    let (ats, p13) = attributes(s, p12);
    let (mds, p14) = media_descriptions(s, p13);
    Some(
        (
            SessionDescription {
                version: v,
                origin: o,
                session_name: sn,
                session_information: si,
                uri: u,
                email_addresses: ems,
                phone_numbers: phs,
                connection: conn,
                bandwidths: bws,
                time_description: td,
                time_zone: tz,
                encryption_key: ek,
                attributes: ats,
                media_descriptions: mds,
            },
            p14,
        ),
    )
}

/// All `candidate` attributes of the media descriptions, in order.
pub open spec fn candidate_attrs(attrs: Seq<AttributeV>) -> Seq<AttributeV>
    decreases attrs.len(),
{
    if attrs.len() == 0 {
        Seq::empty()
    } else {
        (if attrs[0].is_candidate() {
            seq![attrs[0]]
        } else {
            Seq::empty()
        }) + candidate_attrs(attrs.drop_first())
    }
}

/// All `candidate` attributes nested in a list of media descriptions.
pub open spec fn candidates_of(mds: Seq<MediaDescriptionV>) -> Seq<AttributeV>
    decreases mds.len(),
{
    if mds.len() == 0 {
        Seq::empty()
    } else {
        candidate_attrs(mds[0].attributes) + candidates_of(mds.drop_first())
    }
}

pub proof fn lemma_candidate_attrs_concat(s1: Seq<AttributeV>, s2: Seq<AttributeV>)
    ensures
        candidate_attrs(s1 + s2) == candidate_attrs(s1) + candidate_attrs(s2),
    decreases s1.len(),
{
    if s1.len() == 0 {
        assert(s1 + s2 =~= s2);
        assert(candidate_attrs(s1) + candidate_attrs(s2) =~= candidate_attrs(s2));
    } else {
        assert((s1 + s2).drop_first() =~= s1.drop_first() + s2);
        lemma_candidate_attrs_concat(s1.drop_first(), s2);
        assert(candidate_attrs(s1 + s2) =~= candidate_attrs(s1) + candidate_attrs(s2));
    }
}

pub proof fn lemma_candidates_of_concat(s1: Seq<MediaDescriptionV>, s2: Seq<MediaDescriptionV>)
    ensures
        candidates_of(s1 + s2) == candidates_of(s1) + candidates_of(s2),
    decreases s1.len(),
{
    if s1.len() == 0 {
        assert(s1 + s2 =~= s2);
        assert(candidates_of(s1) + candidates_of(s2) =~= candidates_of(s2));
    } else {
        assert((s1 + s2).drop_first() =~= s1.drop_first() + s2);
        lemma_candidates_of_concat(s1.drop_first(), s2);
        assert(candidates_of(s1 + s2) =~= candidates_of(s1) + candidates_of(s2));
    }
}

impl SessionDescription {
    /// Every `candidate` attribute nested in any media description, in
    /// order: these seed the ICE agent.
    pub fn candidates(&self) -> (r: Vec<Attribute>)
        ensures
            r@.map_values(|a: Attribute| a@) == candidates_of(self@.media_descriptions),
    {
        let mut out: Vec<Attribute> = Vec::new();
        let ghost mds = self@.media_descriptions;
        let mut k: usize = 0;
        proof {
            assert(candidates_of(mds.take(0)) =~= Seq::<AttributeV>::empty());
            assert(out@.map_values(|a: Attribute| a@) =~= Seq::<AttributeV>::empty());
        }
        while k < self.media_descriptions.len()
            invariant
                k <= mds.len(),
                mds == self@.media_descriptions,
                mds.len() == self.media_descriptions@.len(),
                forall|m: int| 0 <= m < mds.len() ==> mds[m] == self.media_descriptions@[m]@,
                out@.map_values(|a: Attribute| a@) == candidates_of(mds.take(k as int)),
            decreases mds.len() - k,
        {
            let md = &self.media_descriptions[k];
            let ghost ats = mds[k as int].attributes;
            let mut k2: usize = 0;
            proof {
                assert(candidate_attrs(ats.take(0)) =~= Seq::<AttributeV>::empty());
                assert(out@.map_values(|a: Attribute| a@) + candidate_attrs(ats.take(0))
                    =~= out@.map_values(|a: Attribute| a@));
            }
            while k2 < md.attributes.len()
                invariant
                    k2 <= ats.len(),
                    md == &self.media_descriptions@[k as int],
                    0 <= k < mds.len(),
                    mds[k as int] == self.media_descriptions@[k as int]@,
                    ats == mds[k as int].attributes,
                    ats.len() == md.attributes@.len(),
                    forall|m: int| 0 <= m < ats.len() ==> ats[m] == md.attributes@[m]@,
                    out@.map_values(|a: Attribute| a@) == candidates_of(mds.take(k as int))
                        + candidate_attrs(ats.take(k2 as int)),
                decreases ats.len() - k2,
            {
                let ghost before = out@.map_values(|a: Attribute| a@);
                if md.attributes[k2].is_ice_candidate() {
                    let a = md.attributes[k2].duplicate();
                    proof {
                        assert(a@ == ats[k2 as int]);
                    }
                    out.push(a);
                    proof {
                        assert(out@.map_values(|x: Attribute| x@) =~= before.push(
                            ats[k2 as int],
                        ));
                    }
                }
                proof {
                    lemma_candidate_attrs_concat(ats.take(k2 as int), seq![ats[k2 as int]]);
                    assert(ats.take(k2 + 1) =~= ats.take(k2 as int) + seq![ats[k2 as int]]);
                    assert(seq![ats[k2 as int]].drop_first() =~= Seq::<AttributeV>::empty());
                    assert(candidate_attrs(Seq::<AttributeV>::empty()) =~= Seq::<
                        AttributeV,
                    >::empty());
                    if ats[k2 as int].is_candidate() {
                        assert(candidate_attrs(seq![ats[k2 as int]]) =~= seq![ats[k2 as int]]);
                        assert(out@.map_values(|x: Attribute| x@) =~= candidates_of(
                            mds.take(k as int),
                        ) + candidate_attrs(ats.take(k2 + 1)));
                    } else {
                        assert(candidate_attrs(seq![ats[k2 as int]]) =~= Seq::<
                            AttributeV,
                        >::empty());
                        assert(out@.map_values(|x: Attribute| x@) =~= candidates_of(
                            mds.take(k as int),
                        ) + candidate_attrs(ats.take(k2 + 1)));
                    }
                }
                k2 = k2 + 1;
            }
            proof {
                assert(ats.take(ats.len() as int) =~= ats);
                lemma_candidates_of_concat(mds.take(k as int), seq![mds[k as int]]);
                assert(mds.take(k + 1) =~= mds.take(k as int) + seq![mds[k as int]]);
                assert(seq![mds[k as int]].drop_first() =~= Seq::<MediaDescriptionV>::empty());
                assert(candidates_of(Seq::<MediaDescriptionV>::empty()) =~= Seq::<
                    AttributeV,
                >::empty());
                assert(candidates_of(seq![mds[k as int]]) =~= candidate_attrs(
                    mds[k as int].attributes,
                ));
            }
            k = k + 1;
        }
        proof {
            assert(mds.take(mds.len() as int) =~= mds);
        }
        out
    }
}

} // verus!
