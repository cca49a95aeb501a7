//! The `m=` media line and the media description section it opens.

use vstd::prelude::*;

use crate::sdp::attribute::{
    attribute, attribute_text, attributes, attributes_text, lemma_attributes_roundtrip,
    parse_attributes_s, Attribute, AttributeV,
};
use crate::sdp::bandwidth::{
    bandwidth, bandwidths, bandwidths_text, lemma_bandwidths_roundtrip, parse_bandwidths_s, Bandwidth, BandwidthV,
};
use crate::sdp::connection::{
    connection, connection_text, lemma_connection_roundtrip, parse_connection_s, Connection,
    ConnectionV,
};
use crate::sdp::encryption_key::{
    encryption_key, encryption_key_text, lemma_encryption_key_roundtrip, parse_encryption_key_s,
    spells, EncryptionKey, EncryptionKeyV,
};
use crate::sdp::session_information::{
    lemma_session_information_roundtrip, parse_session_information_s, session_information,
    session_information_text, SessionInformation,
};
use crate::sdp::{is_token, no_crlf, parse_line_rest, parse_line_rest_s, parse_token,
    parse_token_s};
use crate::text::{
    chars_to_string, dec_rep, digits_end, digits_val, push_dec_u64, push_str_chars, scan_u64,
};

verus! {

/// The media type of an `m=` line.
#[derive(Clone, Copy, Debug, PartialEq, Eq, Structural)]
pub enum MediaType {
    Application,
    Audio,
    Message,
    Text,
    Video,
}

/// The text of a media type.
pub open spec fn media_type_text(t: MediaType) -> Seq<char> {
    match t {
        MediaType::Application => seq!['a', 'p', 'p', 'l', 'i', 'c', 'a', 't', 'i', 'o', 'n'],
        MediaType::Audio => seq!['a', 'u', 'd', 'i', 'o'],
        MediaType::Message => seq!['m', 'e', 's', 's', 'a', 'g', 'e'],
        MediaType::Text => seq!['t', 'e', 'x', 't'],
        MediaType::Video => seq!['v', 'i', 'd', 'e', 'o'],
    }
}

/// The media header: type, port, protocol, formats.
#[derive(Clone, Debug, PartialEq, Eq)]
pub struct Media {
    pub typ: MediaType,
    pub port: u16,
    pub protocol: String,
    pub format: String,
}

/// Spec-level value of a [`Media`].
pub struct MediaV {
    pub typ: MediaType,
    pub port: u16,
    pub protocol: Seq<char>,
    pub format: Seq<char>,
}

impl View for Media {
    type V = MediaV;

    open spec fn view(&self) -> MediaV {
        MediaV {
            typ: self.typ,
            port: self.port,
            protocol: self.protocol@,
            format: self.format@,
        }
    }
}

impl MediaV {
    /// A well-formed media header: the protocol is a space-free token and
    /// the format list fits on the line.
    pub open spec fn wf(self) -> bool {
        &&& is_token(self.protocol)
        &&& no_crlf(self.format)
    }
}

/// The text of a media line.
pub open spec fn media_text(m: MediaV) -> Seq<char> {
    seq!['m', '='] + media_type_text(m.typ) + seq![' '] + dec_rep(m.port as int) + seq![' ']
        + m.protocol + seq![' '] + m.format + seq!['\r', '\n']
}

/// Parse a media line: `m=`, a media type word, port, protocol, formats.
pub open spec fn parse_media_s(s: Seq<char>, i: int) -> Option<(MediaV, int)> {
    if i + 2 <= s.len() && s[i] == 'm' && s[i + 1] == '=' {
        let p = i + 2;
        let tv: Option<(MediaType, int)> = if spells(s, p, media_type_text(
            MediaType::Application,
        )) {
            Some((MediaType::Application, p + 11))
        } else if spells(s, p, media_type_text(MediaType::Audio)) {
            Some((MediaType::Audio, p + 5))
        } else if spells(s, p, media_type_text(MediaType::Message)) {
            Some((MediaType::Message, p + 7))
        } else if spells(s, p, media_type_text(MediaType::Text)) {
            Some((MediaType::Text, p + 4))
        } else if spells(s, p, media_type_text(MediaType::Video)) {
            Some((MediaType::Video, p + 5))
        } else {
            None
        };
        match tv {
            None => None,
            Some((typ, j)) => {
                if j < s.len() && s[j] == ' ' {
                    let j2 = digits_end(s, j + 1);
                    if j2 == j + 1 || digits_val(s, j + 1, j2) > 65535 {
                        None
                    } else {
                        let port = digits_val(s, j + 1, j2) as u16;
                        if j2 < s.len() && s[j2] == ' ' {
                            match parse_token_s(s, j2 + 1) {
                                None => None,
                                Some((protocol, j3)) => {
                                    if j3 < s.len() && s[j3] == ' ' {
                                        match parse_line_rest_s(s, j3 + 1) {
                                            None => None,
                                            Some((format, k)) => Some(
                                                (MediaV { typ, port, protocol, format }, k),
                                            ),
                                        }
                                    } else {
                                        None
                                    }
                                },
                            }
                        } else {
                            None
                        }
                    }
                } else {
                    None
                }
            },
        }
    } else {
        None
    }
}

impl Media {
    /// Append the media line's text.
    pub fn write(&self, out: &mut Vec<char>)
        ensures
            final(out)@ == old(out)@ + media_text(self@),
    {
        out.push('m');
        out.push('=');
        match self.typ {
            MediaType::Application => push_str_chars(out, "application"),
            MediaType::Audio => push_str_chars(out, "audio"),
            MediaType::Message => push_str_chars(out, "message"),
            MediaType::Text => push_str_chars(out, "text"),
            MediaType::Video => push_str_chars(out, "video"),
        }
        proof {
            reveal_strlit("application");
            reveal_strlit("audio");
            reveal_strlit("message");
            reveal_strlit("text");
            reveal_strlit("video");
            assert(out@ =~= old(out)@ + seq!['m', '='] + media_type_text(self.typ));
        }
        out.push(' ');
        push_dec_u64(out, self.port as u64);
        out.push(' ');
        push_str_chars(out, self.protocol.as_str());
        out.push(' ');
        push_str_chars(out, self.format.as_str());
        out.push('\r');
        out.push('\n');
        assert(out@ =~= old(out)@ + media_text(self@));
    }

    /// The media line, serialized.
    pub fn to_string(&self) -> (r: String)
        ensures
            r@ == media_text(self@),
    {
        let mut out: Vec<char> = Vec::new();
        self.write(&mut out);
        chars_to_string(&out)
    }
}

/// Parse a media line: exactly what [`parse_media_s`] says.
pub fn media(s: &Vec<char>, i: usize) -> (r: Option<(Media, usize)>)
    requires
        i <= s@.len(),
    ensures
        match r {
            Some((m, j)) => parse_media_s(s@, i as int) == Some((m@, j as int)) && i < j
                <= s@.len(),
            None => parse_media_s(s@, i as int) is None,
        },
{
    if s.len() - i < 2 || s[i] != 'm' || s[i + 1] != '=' {
        return None;
    }
    let p = i + 2;
    let lit_application = ['a', 'p', 'p', 'l', 'i', 'c', 'a', 't', 'i', 'o', 'n'];
    let lit_audio = ['a', 'u', 'd', 'i', 'o'];
    let lit_message = ['m', 'e', 's', 's', 'a', 'g', 'e'];
    let lit_text = ['t', 'e', 'x', 't'];
    let lit_video = ['v', 'i', 'd', 'e', 'o'];
    proof {
        assert(lit_application@ =~= media_type_text(MediaType::Application));
        assert(lit_audio@ =~= media_type_text(MediaType::Audio));
        assert(lit_message@ =~= media_type_text(MediaType::Message));
        assert(lit_text@ =~= media_type_text(MediaType::Text));
        assert(lit_video@ =~= media_type_text(MediaType::Video));
    }
    let (typ, j) = if crate::sdp::encryption_key::spells_lit(s, p, &lit_application) {
        (MediaType::Application, p + 11)
    } else if crate::sdp::encryption_key::spells_lit(s, p, &lit_audio) {
        (MediaType::Audio, p + 5)
    } else if crate::sdp::encryption_key::spells_lit(s, p, &lit_message) {
        (MediaType::Message, p + 7)
    } else if crate::sdp::encryption_key::spells_lit(s, p, &lit_text) {
        (MediaType::Text, p + 4)
    } else if crate::sdp::encryption_key::spells_lit(s, p, &lit_video) {
        (MediaType::Video, p + 5)
    } else {
        return None;
    };
    if !(j < s.len() && s[j] == ' ') {
        return None;
    }
    let (port64, j2) = match scan_u64(s, j + 1) {
        None => {
            return None;
        },
        Some(q) => q,
    };
    if port64 > 65535 {
        return None;
    }
    let port = port64 as u16;
    if !(j2 < s.len() && s[j2] == ' ') {
        return None;
    }
    let (protocol, j3) = match parse_token(s, j2 + 1) {
        None => {
            return None;
        },
        Some(q) => q,
    };
    if !(j3 < s.len() && s[j3] == ' ') {
        return None;
    }
    let (format, k) = match parse_line_rest(s, j3 + 1) {
        None => {
            return None;
        },
        Some(q) => q,
    };
    Some((Media { typ, port, protocol, format }, k))
}

/// A media description: the media line and its optional and repeated
/// section lines.
#[derive(Clone, Debug, PartialEq, Eq)]
pub struct MediaDescription {
    pub media: Media,
    pub title: Option<SessionInformation>,
    pub connection: Option<Connection>,
    pub bandwidths: Vec<Bandwidth>,
    pub encryption_key: Option<EncryptionKey>,
    pub attributes: Vec<Attribute>,
}

/// Spec-level value of a [`MediaDescription`].
pub struct MediaDescriptionV {
    pub media: MediaV,
    pub title: Option<Seq<char>>,
    pub connection: Option<ConnectionV>,
    pub bandwidths: Seq<BandwidthV>,
    pub encryption_key: Option<EncryptionKeyV>,
    pub attributes: Seq<AttributeV>,
}

impl View for MediaDescription {
    type V = MediaDescriptionV;

    open spec fn view(&self) -> MediaDescriptionV {
        MediaDescriptionV {
            media: self.media@,
            title: match &self.title {
                Some(t) => Some(t@),
                None => None,
            },
            connection: match &self.connection {
                Some(c) => Some(c@),
                None => None,
            },
            bandwidths: self.bandwidths@.map_values(|b: Bandwidth| b@),
            encryption_key: match &self.encryption_key {
                Some(k) => Some(k@),
                None => None,
            },
            attributes: self.attributes@.map_values(|a: Attribute| a@),
        }
    }
}

impl MediaDescriptionV {
    /// A well-formed media description.
    pub open spec fn wf(self) -> bool {
        &&& self.media.wf()
        &&& match self.title {
            Some(t) => no_crlf(t),
            None => true,
        }
        &&& match self.connection {
            Some(c) => c.wf(),
            None => true,
        }
        &&& forall|k: int| 0 <= k < self.bandwidths.len() ==> (#[trigger] self.bandwidths[k]).wf()
        &&& match self.encryption_key {
            Some(k) => k.wf(),
            None => true,
        }
        &&& forall|k: int| 0 <= k < self.attributes.len() ==> (#[trigger] self.attributes[k]).wf()
    }
}

/// The text of a media description.
pub open spec fn media_description_text(md: MediaDescriptionV) -> Seq<char> {
    media_text(md.media) + (match md.title {
        Some(t) => session_information_text(t),
        None => Seq::empty(),
    }) + (match md.connection {
        Some(c) => connection_text(c),
        None => Seq::empty(),
    }) + bandwidths_text(md.bandwidths) + (match md.encryption_key {
        Some(k) => encryption_key_text(k),
        None => Seq::empty(),
    }) + attributes_text(md.attributes)
}

/// Parse a media description: the media line, then its optional title,
/// connection, bandwidths, key and attributes.
pub open spec fn parse_media_description_s(s: Seq<char>, i: int) -> Option<
    (MediaDescriptionV, int),
> {
    match parse_media_s(s, i) {
        None => None,
        Some((media, p1)) => {
            if !(i < p1 <= s.len()) {
                None
            } else {
                let (title, p2) = match parse_session_information_s(s, p1) {
                    Some((t, j)) => if p1 < j <= s.len() {
                        (Some(t), j)
                    } else {
                        (None, p1)
                    },
                    None => (None, p1),
                };
                let (conn, p3) = match parse_connection_s(s, p2) {
                    Some((c, j)) => if p2 < j <= s.len() {
                        (Some(c), j)
                    } else {
                        (None, p2)
                    },
                    None => (None, p2),
                };
                let (bws, p4) = parse_bandwidths_s(s, p3);
                if !(p3 <= p4 <= s.len()) {
                    None
                } else {
                    let (ek, p5) = match parse_encryption_key_s(s, p4) {
                        Some((k, j)) => if p4 < j <= s.len() {
                            (Some(k), j)
                        } else {
                            (None, p4)
                        },
                        None => (None, p4),
                    };
                    let (attrs, p6) = parse_attributes_s(s, p5);
                    Some(
                        (
                            MediaDescriptionV {
                                media,
                                title,
                                connection: conn,
                                bandwidths: bws,
                                encryption_key: ek,
                                attributes: attrs,
                            },
                            p6,
                        ),
                    )
                }
            }
        },
    }
}

impl MediaDescription {
    /// A media description over the given media line, with nothing else.
    pub fn base(media: Media) -> (r: MediaDescription)
        ensures
            r@.media == media@,
            r@.title is None,
            r@.connection is None,
            r@.bandwidths == Seq::<BandwidthV>::empty(),
            r@.encryption_key is None,
            r@.attributes == Seq::<AttributeV>::empty(),
    {
        let r = MediaDescription {
            media,
            title: None,
            connection: None,
            bandwidths: Vec::new(),
            encryption_key: None,
            attributes: Vec::new(),
        };
        proof {
            assert(r@.bandwidths =~= Seq::<BandwidthV>::empty());
            assert(r@.attributes =~= Seq::<AttributeV>::empty());
        }
        r
    }

    /// Set the media title.
    pub fn with_title(self, title: SessionInformation) -> (r: MediaDescription)
        ensures
            r@ == (MediaDescriptionV { title: Some(title@), ..self@ }),
    {
        MediaDescription { title: Some(title), ..self }
    }

    /// Set the connection line.
    pub fn with_connection(self, connection: Connection) -> (r: MediaDescription)
        ensures
            r@ == (MediaDescriptionV { connection: Some(connection@), ..self@ }),
    {
        MediaDescription { connection: Some(connection), ..self }
    }

    /// Replace the bandwidth lines.
    pub fn with_bandwidths(self, bandwidths: Vec<Bandwidth>) -> (r: MediaDescription)
        ensures
            r@ == (MediaDescriptionV {
                bandwidths: bandwidths@.map_values(|b: Bandwidth| b@),
                ..self@
            }),
    {
        MediaDescription { bandwidths, ..self }
    }

    /// Set the encryption key line.
    pub fn with_encryption_key(self, encryption_key: EncryptionKey) -> (r: MediaDescription)
        ensures
            r@ == (MediaDescriptionV { encryption_key: Some(encryption_key@), ..self@ }),
    {
        MediaDescription { encryption_key: Some(encryption_key), ..self }
    }

    /// Replace the attribute lines.
    pub fn with_attributes(self, attributes: Vec<Attribute>) -> (r: MediaDescription)
        ensures
            r@ == (MediaDescriptionV {
                attributes: attributes@.map_values(|a: Attribute| a@),
                ..self@
            }),
    {
        MediaDescription { attributes, ..self }
    }

    /// Append one attribute line.
    pub fn and_attribute(self, attribute: Attribute) -> (r: MediaDescription)
        ensures
            r@ == (MediaDescriptionV { attributes: self@.attributes.push(attribute@), ..self@ }),
    {
        let mut md = self;
        let ghost before = md.attributes@.map_values(|a: Attribute| a@);
        let ghost av = attribute@;
        md.attributes.push(attribute);
        proof {
            assert(md.attributes@.map_values(|a: Attribute| a@) =~= before.push(av));
        }
        md
    }

    /// Append the media description's text.
    #[verifier::rlimit(100)]
    pub fn write(&self, out: &mut Vec<char>)
        ensures
            final(out)@ == old(out)@ + media_description_text(self@),
    {
        self.media.write(out);
        match &self.title {
            Some(t) => t.write(out),
            None => {},
        }
        match &self.connection {
            Some(c) => c.write(out),
            None => {},
        }
        let ghost bws = self@.bandwidths;
        let mut k: usize = 0;
        proof {
            assert(bandwidths_text(bws.take(0)) =~= Seq::<char>::empty());
        }
        while k < self.bandwidths.len()
            invariant
                k <= bws.len(),
                bws == self@.bandwidths,
                bws.len() == self.bandwidths@.len(),
                forall|m: int| 0 <= m < bws.len() ==> bws[m] == self.bandwidths@[m]@,
                out@ == old(out)@ + media_text(self@.media) + (match self@.title {
                    Some(t) => session_information_text(t),
                    None => Seq::<char>::empty(),
                }) + (match self@.connection {
                    Some(c) => connection_text(c),
                    None => Seq::<char>::empty(),
                }) + bandwidths_text(bws.take(k as int)),
            decreases bws.len() - k,
        {
            self.bandwidths[k].write(out);
            proof {
                crate::sdp::bandwidth::lemma_bandwidths_text_concat(
                    bws.take(k as int),
                    seq![bws[k as int]],
                );
                assert(bws.take(k + 1) =~= bws.take(k as int) + seq![bws[k as int]]);
                crate::sdp::bandwidth::lemma_bandwidths_text_singleton(bws[k as int]);
            }
            k = k + 1;
        }
        proof {
            assert(bws.take(bws.len() as int) =~= bws);
        }
        match &self.encryption_key {
            Some(ek) => ek.write(out),
            None => {},
        }
        let ghost ats = self@.attributes;
        let ghost mid = out@;
        let mut k2: usize = 0;
        proof {
            assert(attributes_text(ats.take(0)) =~= Seq::<char>::empty());
            assert(mid + attributes_text(ats.take(0)) =~= mid);
        }
        while k2 < self.attributes.len()
            invariant
                k2 <= ats.len(),
                ats == self@.attributes,
                ats.len() == self.attributes@.len(),
                forall|m: int| 0 <= m < ats.len() ==> ats[m] == self.attributes@[m]@,
                out@ == mid + attributes_text(ats.take(k2 as int)),
            decreases ats.len() - k2,
        {
            self.attributes[k2].write(out);
            proof {
                crate::sdp::attribute::lemma_attributes_text_concat(
                    ats.take(k2 as int),
                    seq![ats[k2 as int]],
                );
                assert(ats.take(k2 + 1) =~= ats.take(k2 as int) + seq![ats[k2 as int]]);
                crate::sdp::attribute::lemma_attributes_text_singleton(ats[k2 as int]);
            }
            k2 = k2 + 1;
        }
        proof {
            assert(ats.take(ats.len() as int) =~= ats);
            assert(out@ =~= old(out)@ + media_description_text(self@));
        }
    }

    /// The media description, serialized.
    pub fn to_string(&self) -> (r: String)
        ensures
            r@ == media_description_text(self@),
    {
        let mut out: Vec<char> = Vec::new();
        self.write(&mut out);
        chars_to_string(&out)
    }
}

/// Parse a media description: exactly what [`parse_media_description_s`]
/// says.
pub fn media_description(s: &Vec<char>, i: usize) -> (r: Option<(MediaDescription, usize)>)
    requires
        i <= s@.len(),
    ensures
        match r {
            Some((md, j)) => parse_media_description_s(s@, i as int) == Some((md@, j as int)) && i
                < j <= s@.len(),
            None => parse_media_description_s(s@, i as int) is None,
        },
{
    let (m, p1) = match media(s, i) {
        None => {
            return None;
        },
        Some(q) => q,
    };
    let (title, p2) = match session_information(s, p1) {
        Some((t, j)) => (Some(t), j),
        None => (None, p1),
    };
    let (conn, p3) = match connection(s, p2) {
        Some((c, j)) => (Some(c), j),
        None => (None, p2),
    };
    let (bws, p4) = bandwidths(s, p3);
    let (ek, p5) = match encryption_key(s, p4) {
        Some((k, j)) => (Some(k), j),
        None => (None, p4),
    };
    let (attrs, p6) = attributes(s, p5);
    Some(
        (
            MediaDescription {
                media: m,
                title,
                connection: conn,
                bandwidths: bws,
                encryption_key: ek,
                attributes: attrs,
            },
            p6,
        ),
    )
}

} // verus!
// Round-trip laws for media lines and media descriptions.
verus! {

/// Parsing a serialized media line gives back the media header.
pub proof fn lemma_media_roundtrip(s: Seq<char>, i: int, m: MediaV)
    requires
        m.wf(),
        0 <= i,
        i + media_text(m).len() <= s.len(),
        s.subrange(i, i + media_text(m).len()) == media_text(m),
    ensures
        parse_media_s(s, i) == Some((m, i + media_text(m).len())),
{
    let t = media_text(m);
    let mt = media_type_text(m.typ);
    let n = mt.len() as int;
    let d = dec_rep(m.port as int);
    crate::sdp::lemma_char_at(s, i, t, 0);
    crate::sdp::lemma_char_at(s, i, t, 1);
    assert(t[0] == 'm' && t[1] == '=');
    let p = i + 2;
    assert(t.subrange(2, 2 + n) =~= mt);
    crate::sdp::lemma_piece(s, i, t, 2, mt);
    assert(spells(s, p, mt));
    crate::sdp::lemma_char_at(s, i, t, 2);
    match m.typ {
        MediaType::Application => {
            assert(mt[0] == 'a' && mt[1] == 'p');
        },
        MediaType::Audio => {
            assert(mt[0] == 'a' && mt[1] == 'u');
            assert(s[p] == 'a');
            crate::sdp::lemma_char_at(s, i, t, 3);
            assert(s[p + 1] == 'u');
            assert(!spells(s, p, media_type_text(MediaType::Application))) by {
                if spells(s, p, media_type_text(MediaType::Application)) {
                    assert(s.subrange(p, p + 11)[1] == s[p + 1]);
                }
            }
        },
        MediaType::Message => {
            assert(mt[0] == 'm');
            assert(s[p] == 'm');
            assert(!spells(s, p, media_type_text(MediaType::Application))) by {
                if spells(s, p, media_type_text(MediaType::Application)) {
                    assert(s.subrange(p, p + 11)[0] == s[p]);
                }
            }
            assert(!spells(s, p, media_type_text(MediaType::Audio))) by {
                if spells(s, p, media_type_text(MediaType::Audio)) {
                    assert(s.subrange(p, p + 5)[0] == s[p]);
                }
            }
        },
        MediaType::Text => {
            assert(mt[0] == 't');
            assert(s[p] == 't');
            assert(!spells(s, p, media_type_text(MediaType::Application))) by {
                if spells(s, p, media_type_text(MediaType::Application)) {
                    assert(s.subrange(p, p + 11)[0] == s[p]);
                }
            }
            assert(!spells(s, p, media_type_text(MediaType::Audio))) by {
                if spells(s, p, media_type_text(MediaType::Audio)) {
                    assert(s.subrange(p, p + 5)[0] == s[p]);
                }
            }
            assert(!spells(s, p, media_type_text(MediaType::Message))) by {
                if spells(s, p, media_type_text(MediaType::Message)) {
                    assert(s.subrange(p, p + 7)[0] == s[p]);
                }
            }
        },
        MediaType::Video => {
            assert(mt[0] == 'v');
            assert(s[p] == 'v');
            assert(!spells(s, p, media_type_text(MediaType::Application))) by {
                if spells(s, p, media_type_text(MediaType::Application)) {
                    assert(s.subrange(p, p + 11)[0] == s[p]);
                }
            }
            assert(!spells(s, p, media_type_text(MediaType::Audio))) by {
                if spells(s, p, media_type_text(MediaType::Audio)) {
                    assert(s.subrange(p, p + 5)[0] == s[p]);
                }
            }
            assert(!spells(s, p, media_type_text(MediaType::Message))) by {
                if spells(s, p, media_type_text(MediaType::Message)) {
                    assert(s.subrange(p, p + 7)[0] == s[p]);
                }
            }
            assert(!spells(s, p, media_type_text(MediaType::Text))) by {
                if spells(s, p, media_type_text(MediaType::Text)) {
                    assert(s.subrange(p, p + 4)[0] == s[p]);
                }
            }
        },
    }
    crate::sdp::lemma_char_at(s, i, t, 2 + n);
    assert(t[2 + n] == ' ');
    let a1 = 2 + n + 1;
    assert(t.subrange(a1, a1 + d.len() as int) =~= d);
    crate::sdp::lemma_piece(s, i, t, a1, d);
    crate::sdp::lemma_char_at(s, i, t, a1 + d.len() as int);
    assert(t[a1 + d.len() as int] == ' ');
    crate::sdp::time_description::lemma_number_here(s, i + a1, m.port as u64);
    let a2 = a1 + d.len() as int + 1;
    assert(t.subrange(a2, a2 + m.protocol.len() as int) =~= m.protocol);
    crate::sdp::lemma_piece(s, i, t, a2, m.protocol);
    crate::sdp::lemma_char_at(s, i, t, a2 + m.protocol.len() as int);
    assert(t[a2 + m.protocol.len() as int] == ' ');
    crate::sdp::lemma_token_roundtrip(s, i + a2, m.protocol);
    let a3 = a2 + m.protocol.len() as int + 1;
    assert(t.subrange(a3, a3 + m.format.len() as int) =~= m.format);
    crate::sdp::lemma_piece(s, i, t, a3, m.format);
    crate::sdp::lemma_char_at(s, i, t, a3 + m.format.len() as int);
    assert(t[a3 + m.format.len() as int] == '\r');
    crate::sdp::lemma_char_at(s, i, t, a3 + m.format.len() as int + 1);
    assert(t[a3 + m.format.len() as int + 1] == '\n');
    crate::sdp::lemma_line_rest_roundtrip(s, i + a3, m.format);
}

/// Parsing a serialized media description, followed by another media line
/// or the end of the input, gives it back.
pub proof fn lemma_media_description_roundtrip(s: Seq<char>, i: int, md: MediaDescriptionV)
    requires
        md.wf(),
        0 <= i,
        i + media_description_text(md).len() <= s.len(),
        s.subrange(i, i + media_description_text(md).len()) == media_description_text(md),
        i + media_description_text(md).len() == s.len() || s[i + media_description_text(md).len()]
            == 'm',
    ensures
        parse_media_description_s(s, i) == Some((md, i + media_description_text(md).len())),
{
    let t = media_description_text(md);
    let mt = media_text(md.media);
    let tt: Seq<char> = match md.title {
        Some(x) => session_information_text(x),
        None => Seq::empty(),
    };
    let ct: Seq<char> = match md.connection {
        Some(c) => connection_text(c),
        None => Seq::empty(),
    };
    let bt = bandwidths_text(md.bandwidths);
    let kt: Seq<char> = match md.encryption_key {
        Some(k) => encryption_key_text(k),
        None => Seq::empty(),
    };
    let at = attributes_text(md.attributes);
    let q1 = mt.len() as int;
    let q2 = q1 + tt.len() as int;
    let q3 = q2 + ct.len() as int;
    let q4 = q3 + bt.len() as int;
    let q5 = q4 + kt.len() as int;
    let q6 = q5 + at.len() as int;
    assert(t.len() == q6);
    // The first character of whatever piece follows an absent line is never
    // the absent line's own tag, so the parser skips it there.
    assert(q1 < q6 ==> (t[q1] == tt[0] || (tt.len() == 0 && t[q1] == ct[0]) || (tt.len() == 0
        && ct.len() == 0 && t[q1] == bt[0]) || (tt.len() == 0 && ct.len() == 0 && bt.len() == 0
        && t[q1] == kt[0]) || (tt.len() == 0 && ct.len() == 0 && bt.len() == 0 && kt.len() == 0
        && t[q1] == at[0])));
    lemma_md_stage_media(s, i, md);
    lemma_md_stage_title(s, i, md);
    lemma_md_stage_connection(s, i, md);
    lemma_md_stage_bandwidths(s, i, md);
    lemma_md_stage_key(s, i, md);
    lemma_md_stage_attributes(s, i, md);
}

/// The offsets of the pieces of a media description's text.
pub open spec fn md_offsets(md: MediaDescriptionV) -> (int, int, int, int, int, int) {
    let mt = media_text(md.media);
    let tt: Seq<char> = match md.title {
        Some(x) => session_information_text(x),
        None => Seq::empty(),
    };
    let ct: Seq<char> = match md.connection {
        Some(c) => connection_text(c),
        None => Seq::empty(),
    };
    let bt = bandwidths_text(md.bandwidths);
    let kt: Seq<char> = match md.encryption_key {
        Some(k) => encryption_key_text(k),
        None => Seq::empty(),
    };
    let at = attributes_text(md.attributes);
    let q1 = mt.len() as int;
    let q2 = q1 + tt.len() as int;
    let q3 = q2 + ct.len() as int;
    let q4 = q3 + bt.len() as int;
    let q5 = q4 + kt.len() as int;
    let q6 = q5 + at.len() as int;
    (q1, q2, q3, q4, q5, q6)
}

/// The premise the staged lemmas share.
pub open spec fn md_laid_out(s: Seq<char>, i: int, md: MediaDescriptionV) -> bool {
    &&& md.wf()
    &&& 0 <= i
    &&& i + media_description_text(md).len() <= s.len()
    &&& s.subrange(i, i + media_description_text(md).len()) == media_description_text(md)
    &&& (i + media_description_text(md).len() == s.len() || s[i + media_description_text(
        md,
    ).len()] == 'm')
}

/// The tag character that stands at a junction inside or right after the
/// media description's text.
proof fn lemma_md_char_after(s: Seq<char>, i: int, md: MediaDescriptionV, q: int)
    requires
        md_laid_out(s, i, md),
        0 <= q <= media_description_text(md).len(),
        i + q < s.len(),
    ensures
        q < media_description_text(md).len() ==> s[i + q] == media_description_text(md)[q],
        q == media_description_text(md).len() ==> s[i + q] == 'm',
{
    let t = media_description_text(md);
    if q < t.len() {
        crate::sdp::lemma_char_at(s, i, t, q);
    }
}

proof fn lemma_md_stage_media(s: Seq<char>, i: int, md: MediaDescriptionV)
    requires
        md_laid_out(s, i, md),
    ensures
        parse_media_s(s, i) == Some((md.media, i + md_offsets(md).0)),
{
    let t = media_description_text(md);
    let mt = media_text(md.media);
    assert(t.subrange(0, mt.len() as int) =~= mt);
    crate::sdp::lemma_piece(s, i, t, 0, mt);
    lemma_media_roundtrip(s, i, md.media);
}

proof fn lemma_md_stage_title(s: Seq<char>, i: int, md: MediaDescriptionV)
    requires
        md_laid_out(s, i, md),
    ensures
        match md.title {
            Some(x) => parse_session_information_s(s, i + md_offsets(md).0) == Some(
                (x, i + md_offsets(md).1),
            ),
            None => parse_session_information_s(s, i + md_offsets(md).0) is None,
        },
{
    let t = media_description_text(md);
    let (q1, q2, q3, q4, q5, q6) = md_offsets(md);
    match md.title {
        Some(x) => {
            let tt = session_information_text(x);
            assert(t.subrange(q1, q2) =~= tt);
            crate::sdp::lemma_piece(s, i, t, q1, tt);
            lemma_session_information_roundtrip(s, i + q1, x);
        },
        None => {
            if i + q1 < s.len() && s[i + q1] == 'i' {
                lemma_md_char_after(s, i, md, q1);
                if q1 < q6 {
                    let ct: Seq<char> = match md.connection {
                        Some(c) => connection_text(c),
                        None => Seq::empty(),
                    };
                    let bt = bandwidths_text(md.bandwidths);
                    let kt: Seq<char> = match md.encryption_key {
                        Some(k) => encryption_key_text(k),
                        None => Seq::empty(),
                    };
                    let at = attributes_text(md.attributes);
                    if md.connection is Some {
                        assert(t[q1] == ct[0] && ct[0] == 'c');
                    } else if md.bandwidths.len() > 0 {
                        assert(bt == crate::sdp::bandwidth::bandwidth_text(md.bandwidths[0])
                            + bandwidths_text(md.bandwidths.drop_first()));
                        assert(t[q1] == bt[0] && bt[0] == 'b');
                    } else if md.encryption_key is Some {
                        assert(t[q1] == kt[0] && kt[0] == 'k');
                    } else {
                        assert(md.attributes.len() > 0);
                        assert(at == attribute_text(md.attributes[0]) + attributes_text(
                            md.attributes.drop_first(),
                        ));
                        assert(t[q1] == at[0] && at[0] == 'a');
                    }
                }
                assert(false);
            }
            assert(parse_session_information_s(s, i + q1) is None);
        },
    }
}

proof fn lemma_md_stage_connection(s: Seq<char>, i: int, md: MediaDescriptionV)
    requires
        md_laid_out(s, i, md),
    ensures
        match md.connection {
            Some(c) => parse_connection_s(s, i + md_offsets(md).1) == Some(
                (c, i + md_offsets(md).2),
            ),
            None => parse_connection_s(s, i + md_offsets(md).1) is None,
        },
{
    let t = media_description_text(md);
    let (q1, q2, q3, q4, q5, q6) = md_offsets(md);
    match md.connection {
        Some(c) => {
            let ct = connection_text(c);
            assert(t.subrange(q2, q3) =~= ct);
            crate::sdp::lemma_piece(s, i, t, q2, ct);
            lemma_connection_roundtrip(s, i + q2, c);
        },
        None => {
            if i + q2 < s.len() && s[i + q2] == 'c' {
                lemma_md_char_after(s, i, md, q2);
                if q2 < q6 {
                    let bt = bandwidths_text(md.bandwidths);
                    let kt: Seq<char> = match md.encryption_key {
                        Some(k) => encryption_key_text(k),
                        None => Seq::empty(),
                    };
                    let at = attributes_text(md.attributes);
                    if md.bandwidths.len() > 0 {
                        assert(bt == crate::sdp::bandwidth::bandwidth_text(md.bandwidths[0])
                            + bandwidths_text(md.bandwidths.drop_first()));
                        assert(t[q2] == bt[0] && bt[0] == 'b');
                    } else if md.encryption_key is Some {
                        assert(t[q2] == kt[0] && kt[0] == 'k');
                    } else {
                        assert(md.attributes.len() > 0);
                        assert(at == attribute_text(md.attributes[0]) + attributes_text(
                            md.attributes.drop_first(),
                        ));
                        assert(t[q2] == at[0] && at[0] == 'a');
                    }
                }
                assert(false);
            }
            assert(parse_connection_s(s, i + q2) is None);
        },
    }
}

proof fn lemma_md_stage_bandwidths(s: Seq<char>, i: int, md: MediaDescriptionV)
    requires
        md_laid_out(s, i, md),
    ensures
        parse_bandwidths_s(s, i + md_offsets(md).2) == (md.bandwidths, i + md_offsets(md).3),
{
    let t = media_description_text(md);
    let (q1, q2, q3, q4, q5, q6) = md_offsets(md);
    let bt = bandwidths_text(md.bandwidths);
    assert(t.subrange(q3, q4) =~= bt);
    crate::sdp::lemma_piece(s, i, t, q3, bt);
    if i + q4 < s.len() && s[i + q4] == 'b' {
        lemma_md_char_after(s, i, md, q4);
        if q4 < q6 {
            let kt: Seq<char> = match md.encryption_key {
                Some(k) => encryption_key_text(k),
                None => Seq::empty(),
            };
            let at = attributes_text(md.attributes);
            if md.encryption_key is Some {
                assert(t[q4] == kt[0] && kt[0] == 'k');
            } else {
                assert(md.attributes.len() > 0);
                assert(at == attribute_text(md.attributes[0]) + attributes_text(
                    md.attributes.drop_first(),
                ));
                assert(t[q4] == at[0] && at[0] == 'a');
            }
        }
        assert(false);
    }
    lemma_bandwidths_roundtrip(s, i + q3, md.bandwidths);
}

proof fn lemma_md_stage_key(s: Seq<char>, i: int, md: MediaDescriptionV)
    requires
        md_laid_out(s, i, md),
    ensures
        match md.encryption_key {
            Some(k) => parse_encryption_key_s(s, i + md_offsets(md).3) == Some(
                (k, i + md_offsets(md).4),
            ),
            None => parse_encryption_key_s(s, i + md_offsets(md).3) is None,
        },
{
    let t = media_description_text(md);
    let (q1, q2, q3, q4, q5, q6) = md_offsets(md);
    match md.encryption_key {
        Some(k) => {
            let kt = encryption_key_text(k);
            assert(t.subrange(q4, q5) =~= kt);
            crate::sdp::lemma_piece(s, i, t, q4, kt);
            lemma_encryption_key_roundtrip(s, i + q4, k);
        },
        None => {
            if i + q4 < s.len() && s[i + q4] == 'k' {
                lemma_md_char_after(s, i, md, q4);
                if q4 < q6 {
                    let at = attributes_text(md.attributes);
                    assert(md.attributes.len() > 0);
                    assert(at == attribute_text(md.attributes[0]) + attributes_text(
                        md.attributes.drop_first(),
                    ));
                    assert(t[q4] == at[0] && at[0] == 'a');
                }
                assert(false);
            }
            assert(parse_encryption_key_s(s, i + q4) is None);
        },
    }
}

proof fn lemma_md_stage_attributes(s: Seq<char>, i: int, md: MediaDescriptionV)
    requires
        md_laid_out(s, i, md),
    ensures
        parse_attributes_s(s, i + md_offsets(md).4) == (md.attributes, i + md_offsets(md).5),
{
    let t = media_description_text(md);
    let (q1, q2, q3, q4, q5, q6) = md_offsets(md);
    let at = attributes_text(md.attributes);
    assert(t.subrange(q5, q6) =~= at);
    crate::sdp::lemma_piece(s, i, t, q5, at);
    if i + q6 < s.len() {
        assert(s[i + q6] == 'm');
    }
    lemma_attributes_roundtrip(s, i + q5, md.attributes);
}

/// The text of a list of media descriptions.
pub open spec fn media_descriptions_text(list: Seq<MediaDescriptionV>) -> Seq<char>
    decreases list.len(),
{
    if list.len() == 0 {
        Seq::empty()
    } else {
        media_description_text(list[0]) + media_descriptions_text(list.drop_first())
    }
}

/// Splitting a list of media descriptions splits its text.
pub proof fn lemma_media_descriptions_text_concat(
    s1: Seq<MediaDescriptionV>,
    s2: Seq<MediaDescriptionV>,
)
    ensures
        media_descriptions_text(s1 + s2) == media_descriptions_text(s1)
            + media_descriptions_text(s2),
    decreases s1.len(),
{
    if s1.len() == 0 {
        assert(s1 + s2 =~= s2);
        assert(media_descriptions_text(s1) + media_descriptions_text(s2)
            =~= media_descriptions_text(s2));
    } else {
        assert((s1 + s2).drop_first() =~= s1.drop_first() + s2);
        lemma_media_descriptions_text_concat(s1.drop_first(), s2);
        assert(media_descriptions_text(s1 + s2) =~= media_descriptions_text(s1)
            + media_descriptions_text(s2));
    }
}

/// The text of a single media description, as a one-element list.
pub proof fn lemma_media_descriptions_text_singleton(x: MediaDescriptionV)
    ensures
        media_descriptions_text(seq![x]) == media_description_text(x),
{
    assert(seq![x].drop_first() =~= Seq::<MediaDescriptionV>::empty());
    assert(media_descriptions_text(Seq::<MediaDescriptionV>::empty()) =~= Seq::<char>::empty());
    assert(media_descriptions_text(seq![x]) =~= media_description_text(x));
}

/// Parse media descriptions for as long as they parse.
pub open spec fn parse_media_descriptions_s(s: Seq<char>, i: int) -> (
    Seq<MediaDescriptionV>,
    int,
)
    decreases s.len() - i,
{
    match parse_media_description_s(s, i) {
        None => (Seq::empty(), i),
        Some((x, j)) => {
            if i < j <= s.len() {
                let (rest, k) = parse_media_descriptions_s(s, j);
                (seq![x] + rest, k)
            } else {
                (Seq::empty(), i)
            }
        },
    }
}

/// Parse media descriptions: exactly what [`parse_media_descriptions_s`]
/// says.
pub fn media_descriptions(s: &Vec<char>, i: usize) -> (r: (Vec<MediaDescription>, usize))
    requires
        i <= s@.len(),
    ensures
        parse_media_descriptions_s(s@, i as int) == (
            r.0@.map_values(|x: MediaDescription| x@),
            r.1 as int,
        ),
        i <= r.1 <= s@.len(),
{
    let mut out: Vec<MediaDescription> = Vec::new();
    let mut pos: usize = i;
    loop
        invariant
            i <= pos <= s@.len(),
            parse_media_descriptions_s(s@, i as int) == {
                let (rest, k) = parse_media_descriptions_s(s@, pos as int);
                (out@.map_values(|x: MediaDescription| x@) + rest, k)
            },
        decreases s@.len() - pos,
    {
        match media_description(s, pos) {
            None => {
                assert(parse_media_descriptions_s(s@, pos as int) == (
                    Seq::<MediaDescriptionV>::empty(),
                    pos as int,
                ));
                assert(out@.map_values(|x: MediaDescription| x@)
                    + Seq::<MediaDescriptionV>::empty() =~= out@.map_values(
                    |x: MediaDescription| x@,
                ));
                return (out, pos);
            },
            Some((x, j)) => {
                let ghost before = out@.map_values(|y: MediaDescription| y@);
                let ghost xv = x@;
                out.push(x);
                proof {
                    assert(out@.map_values(|y: MediaDescription| y@) =~= before + seq![xv]);
                    assert forall|rest: Seq<MediaDescriptionV>| true implies (before + (seq![xv]
                        + rest)) =~= ((before + seq![xv]) + rest) by {}
                }
                pos = j;
            },
        }
    }
}

/// Parsing the serialization of a list of media descriptions that runs to
/// the end of the input gives back the list.
#[verifier::rlimit(100)]
pub proof fn lemma_media_descriptions_roundtrip(s: Seq<char>, i: int, list: Seq<MediaDescriptionV>)
    requires
        forall|k: int| 0 <= k < list.len() ==> (#[trigger] list[k]).wf(),
        0 <= i,
        i + media_descriptions_text(list).len() == s.len(),
        s.subrange(i, i + media_descriptions_text(list).len()) == media_descriptions_text(list),
    ensures
        parse_media_descriptions_s(s, i) == (list, s.len() as int),
    decreases list.len(),
{
    let t = media_descriptions_text(list);
    if list.len() == 0 {
        assert(parse_media_description_s(s, i) is None);
    } else {
        let x0 = list[0];
        let xt = media_description_text(x0);
        let rest = list.drop_first();
        assert(t == xt + media_descriptions_text(rest));
        assert(t.subrange(0, xt.len() as int) =~= xt);
        crate::sdp::lemma_piece(s, i, t, 0, xt);
        let j = i + xt.len() as int;
        if rest.len() > 0 {
            assert(media_descriptions_text(rest) == media_description_text(rest[0])
                + media_descriptions_text(rest.drop_first()));
            assert(j < s.len());
            crate::sdp::lemma_char_at(s, i, t, xt.len() as int);
            assert(t[xt.len() as int] == media_descriptions_text(rest)[0]);
            assert(media_descriptions_text(rest)[0] == media_description_text(rest[0])[0]);
            assert(media_description_text(rest[0])[0] == media_text(rest[0].media)[0]);
            assert(media_text(rest[0].media)[0] == 'm');
        }
        lemma_media_description_roundtrip(s, i, x0);
        assert(xt.len() >= 4) by {
            assert(media_text(x0.media).len() >= 4);
        }
        assert(t.subrange(xt.len() as int, t.len() as int) =~= media_descriptions_text(rest));
        crate::sdp::lemma_piece(s, i, t, xt.len() as int, media_descriptions_text(rest));
        lemma_media_descriptions_roundtrip(s, j, rest);
        assert(seq![x0] + rest =~= list);
    }
}

} // verus!
