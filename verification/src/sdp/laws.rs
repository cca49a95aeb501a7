//! The round-trip law of the SDP codec: parsing the serialization of a
//! well-formed session description consumes the whole text and gives back
//! exactly the same value.

use vstd::prelude::*;

use crate::sdp::attribute::{attribute_text, attributes_text, lemma_attributes_roundtrip};
use crate::sdp::bandwidth::{bandwidth_text, bandwidths_text, lemma_bandwidths_roundtrip};
use crate::sdp::connection::{connection_text, lemma_connection_roundtrip, parse_connection_s};
use crate::sdp::email_address::{
    email_address_text, email_addresses_text, lemma_email_addresses_roundtrip,
};
use crate::sdp::encryption_key::{
    encryption_key_text, lemma_encryption_key_roundtrip, parse_encryption_key_s,
};
use crate::sdp::media_description::{
    lemma_media_descriptions_roundtrip, media_descriptions_text, media_text,
    media_description_text,
};
use crate::sdp::origin::{lemma_origin_roundtrip, origin_text, parse_origin_s};
use crate::sdp::phone_number::{
    lemma_phone_numbers_roundtrip, phone_number_text, phone_numbers_text,
};
use crate::sdp::session_description::{
    parse_session_description_s, session_description_text, SessionDescriptionV,
};
use crate::sdp::session_information::{
    lemma_session_information_roundtrip, parse_session_information_s, session_information_text,
};
use crate::sdp::session_name::{lemma_session_name_roundtrip, session_name_text};
use crate::sdp::time_description::{
    lemma_time_description_roundtrip, repeats_text, time_description_text, timing_text,
};
use crate::sdp::time_zone::{lemma_time_zone_roundtrip, parse_time_zone_s, time_zone_text};
use crate::sdp::uri::{lemma_uri_roundtrip, parse_uri_s, uri_text};
use crate::sdp::version::{lemma_version_roundtrip, version_text};

verus! {

/// The cumulative end offsets of the first seven pieces of a session
/// description's text.
pub open spec fn sd_offsets_a(sd: SessionDescriptionV) -> (int, int, int, int, int, int, int) {
    let q1 = version_text(sd.version).len() as int;
    let q2 = q1 + origin_text(sd.origin).len() as int;
    let q3 = q2 + session_name_text(sd.session_name).len() as int;
    let q4 = q3 + (match sd.session_information {
        Some(x) => session_information_text(x).len() as int,
        None => 0,
    });
    let q5 = q4 + (match sd.uri {
        Some(x) => uri_text(x).len() as int,
        None => 0,
    });
    let q6 = q5 + email_addresses_text(sd.email_addresses).len() as int;
    let q7 = q6 + phone_numbers_text(sd.phone_numbers).len() as int;
    (q1, q2, q3, q4, q5, q6, q7)
}

/// The cumulative end offsets of the last seven pieces of a session
/// description's text.
pub open spec fn sd_offsets_b(sd: SessionDescriptionV) -> (int, int, int, int, int, int, int) {
    let q7 = sd_offsets_a(sd).6;
    let q8 = q7 + (match sd.connection {
        Some(c) => connection_text(c).len() as int,
        None => 0,
    });
    let q9 = q8 + bandwidths_text(sd.bandwidths).len() as int;
    let q10 = q9 + time_description_text(sd.time_description).len() as int;
    let q11 = q10 + (match sd.time_zone {
        Some(z) => time_zone_text(z).len() as int,
        None => 0,
    });
    let q12 = q11 + (match sd.encryption_key {
        Some(k) => encryption_key_text(k).len() as int,
        None => 0,
    });
    let q13 = q12 + attributes_text(sd.attributes).len() as int;
    let q14 = q13 + media_descriptions_text(sd.media_descriptions).len() as int;
    (q8, q9, q10, q11, q12, q13, q14)
}

/// The premise the staged lemmas share: a well-formed session description
/// whose text is exactly the whole input.
pub open spec fn sd_laid_out(s: Seq<char>, sd: SessionDescriptionV) -> bool {
    &&& sd.wf()
    &&& s.len() == session_description_text(sd).len()
    &&& s == session_description_text(sd)
}

/// The first character that follows position `q` inside the tail of the
/// session text, used to rule absent optional lines out: it is the tag of
/// one of the later sections.
proof fn lemma_sd_tail_char(s: Seq<char>, sd: SessionDescriptionV, q: int)
    requires
        sd_laid_out(s, sd),
        sd_offsets_a(sd).2 <= q < s.len(),
        q == sd_offsets_a(sd).3 || q == sd_offsets_a(sd).4 || q == sd_offsets_a(sd).5 || q
            == sd_offsets_a(sd).6 || q == sd_offsets_b(sd).0 || q == sd_offsets_b(sd).1,
    ensures
        (q == sd_offsets_a(sd).3 && sd.session_information is None) ==> (s[q] == 'u' || s[q]
            == 'e' || s[q] == 'p' || s[q] == 'c' || s[q] == 'b' || s[q] == 't'),
        (q == sd_offsets_a(sd).4) ==> (s[q] == 'e' || s[q] == 'p' || s[q] == 'c' || s[q] == 'b'
            || s[q] == 't'),
        (q == sd_offsets_a(sd).5) ==> (s[q] == 'p' || s[q] == 'c' || s[q] == 'b' || s[q] == 't'),
        (q == sd_offsets_a(sd).6) ==> (s[q] == 'c' || s[q] == 'b' || s[q] == 't'),
        (q == sd_offsets_b(sd).0) ==> (s[q] == 'b' || s[q] == 't'),
        (q == sd_offsets_b(sd).1) ==> s[q] == 't',
{
    let t = session_description_text(sd);
    let (q1, q2, q3, q4, q5, q6, q7) = sd_offsets_a(sd);
    let (q8, q9, q10, q11, q12, q13, q14) = sd_offsets_b(sd);
    let ut: Seq<char> = match sd.uri {
        Some(x) => uri_text(x),
        None => Seq::empty(),
    };
    let et = email_addresses_text(sd.email_addresses);
    let pt = phone_numbers_text(sd.phone_numbers);
    let ct: Seq<char> = match sd.connection {
        Some(c) => connection_text(c),
        None => Seq::empty(),
    };
    let bt = bandwidths_text(sd.bandwidths);
    let tdt = time_description_text(sd.time_description);
    assert(tdt == timing_text(sd.time_description.timing) + repeats_text(
        sd.time_description.repeat_times,
    ));
    assert(tdt[0] == 't');
    if sd.email_addresses.len() > 0 {
        assert(et == email_address_text(sd.email_addresses[0]) + email_addresses_text(
            sd.email_addresses.drop_first(),
        ));
        assert(et[0] == 'e');
    }
    if sd.phone_numbers.len() > 0 {
        assert(pt == phone_number_text(sd.phone_numbers[0]) + phone_numbers_text(
            sd.phone_numbers.drop_first(),
        ));
        assert(pt[0] == 'p');
    }
    if sd.bandwidths.len() > 0 {
        assert(bt == bandwidth_text(sd.bandwidths[0]) + bandwidths_text(
            sd.bandwidths.drop_first(),
        ));
        assert(bt[0] == 'b');
    }
    if q == q4 && sd.session_information is None {
        if sd.uri is Some {
            assert(t[q4] == ut[0] && ut[0] == 'u');
        } else if sd.email_addresses.len() > 0 {
            assert(t[q4] == et[0]);
        } else if sd.phone_numbers.len() > 0 {
            assert(t[q4] == pt[0]);
        } else if sd.connection is Some {
            assert(t[q4] == ct[0] && ct[0] == 'c');
        } else if sd.bandwidths.len() > 0 {
            assert(t[q4] == bt[0]);
        } else {
            assert(t[q4] == tdt[0]);
        }
    }
    if q == q5 {
        if sd.email_addresses.len() > 0 {
            assert(t[q5] == et[0]);
        } else if sd.phone_numbers.len() > 0 {
            assert(t[q5] == pt[0]);
        } else if sd.connection is Some {
            assert(t[q5] == ct[0] && ct[0] == 'c');
        } else if sd.bandwidths.len() > 0 {
            assert(t[q5] == bt[0]);
        } else {
            assert(t[q5] == tdt[0]);
        }
    }
    if q == q6 {
        if sd.phone_numbers.len() > 0 {
            assert(t[q6] == pt[0]);
        } else if sd.connection is Some {
            assert(t[q6] == ct[0] && ct[0] == 'c');
        } else if sd.bandwidths.len() > 0 {
            assert(t[q6] == bt[0]);
        } else {
            assert(t[q6] == tdt[0]);
        }
    }
    if q == q7 {
        if sd.connection is Some {
            assert(t[q7] == ct[0] && ct[0] == 'c');
        } else if sd.bandwidths.len() > 0 {
            assert(t[q7] == bt[0]);
        } else {
            assert(t[q7] == tdt[0]);
        }
    }
    if q == q8 {
        if sd.bandwidths.len() > 0 {
            assert(t[q8] == bt[0]);
        } else {
            assert(t[q8] == tdt[0]);
        }
    }
    if q == q9 {
        assert(t[q9] == tdt[0]);
    }
}

/// The first character that follows a junction after the time description,
/// if any: the tag of one of the later sections.
proof fn lemma_sd_late_char(s: Seq<char>, sd: SessionDescriptionV, q: int)
    requires
        sd_laid_out(s, sd),
        sd_offsets_b(sd).2 <= q < s.len(),
        q == sd_offsets_b(sd).2 || q == sd_offsets_b(sd).3 || q == sd_offsets_b(sd).4 || q
            == sd_offsets_b(sd).5,
    ensures
        (q == sd_offsets_b(sd).2 && sd.time_zone is None) ==> (s[q] == 'k' || s[q] == 'a' || s[q]
            == 'm'),
        (q == sd_offsets_b(sd).3) ==> (s[q] == 'k' || s[q] == 'a' || s[q] == 'm'),
        (q == sd_offsets_b(sd).4) ==> (s[q] == 'a' || s[q] == 'm'),
        (q == sd_offsets_b(sd).5) ==> s[q] == 'm',
{
    let t = session_description_text(sd);
    let (q8, q9, q10, q11, q12, q13, q14) = sd_offsets_b(sd);
    let kt: Seq<char> = match sd.encryption_key {
        Some(k) => encryption_key_text(k),
        None => Seq::empty(),
    };
    let at = attributes_text(sd.attributes);
    let mt = media_descriptions_text(sd.media_descriptions);
    if sd.attributes.len() > 0 {
        assert(at == attribute_text(sd.attributes[0]) + attributes_text(
            sd.attributes.drop_first(),
        ));
        assert(at[0] == 'a');
    }
    if sd.media_descriptions.len() > 0 {
        assert(mt == media_description_text(sd.media_descriptions[0]) + media_descriptions_text(
            sd.media_descriptions.drop_first(),
        ));
        assert(media_description_text(sd.media_descriptions[0])[0] == media_text(
            sd.media_descriptions[0].media,
        )[0]);
        assert(mt[0] == 'm');
    }
    if (q == q10 && sd.time_zone is None) || q == q11 {
        if sd.encryption_key is Some {
            assert(t[q] == kt[0] && kt[0] == 'k');
        } else if sd.attributes.len() > 0 {
            assert(t[q] == at[0]);
        } else {
            assert(q < q14);
            assert(t[q] == mt[0]);
        }
    }
    if q == q12 {
        if sd.attributes.len() > 0 {
            assert(t[q] == at[0]);
        } else {
            assert(q < q14);
            assert(t[q] == mt[0]);
        }
    }
    if q == q13 {
        assert(q < q14);
        assert(t[q] == mt[0]);
    }
}

#[verifier::rlimit(100)]
proof fn lemma_sd_stage_head(s: Seq<char>, sd: SessionDescriptionV)
    requires
        sd_laid_out(s, sd),
    ensures
        crate::sdp::version::parse_version_s(s, 0) == Some((sd.version, sd_offsets_a(sd).0)),
        parse_origin_s(s, sd_offsets_a(sd).0) == Some((sd.origin, sd_offsets_a(sd).1)),
        crate::sdp::session_name::parse_session_name_s(s, sd_offsets_a(sd).1) == Some(
            (sd.session_name, sd_offsets_a(sd).2),
        ),
{
    let t = session_description_text(sd);
    let (q1, q2, q3, q4, q5, q6, q7) = sd_offsets_a(sd);
    let vt = version_text(sd.version);
    let ot = origin_text(sd.origin);
    let st = session_name_text(sd.session_name);
    assert(s.subrange(0, s.len() as int) =~= s);
    assert(t.subrange(0, q1) =~= vt);
    crate::sdp::lemma_piece(s, 0, t, 0, vt);
    lemma_version_roundtrip(s, 0, sd.version);
    assert(t.subrange(q1, q2) =~= ot);
    crate::sdp::lemma_piece(s, 0, t, q1, ot);
    lemma_origin_roundtrip(s, q1, sd.origin);
    assert(t.subrange(q2, q3) =~= st);
    crate::sdp::lemma_piece(s, 0, t, q2, st);
    lemma_session_name_roundtrip(s, q2, sd.session_name);
}

#[verifier::rlimit(100)]
proof fn lemma_sd_stage_info_uri(s: Seq<char>, sd: SessionDescriptionV)
    requires
        sd_laid_out(s, sd),
    ensures
        match sd.session_information {
            Some(x) => parse_session_information_s(s, sd_offsets_a(sd).2) == Some(
                (x, sd_offsets_a(sd).3),
            ),
            None => parse_session_information_s(s, sd_offsets_a(sd).2) is None,
        },
        match sd.uri {
            Some(x) => parse_uri_s(s, sd_offsets_a(sd).3) == Some((x, sd_offsets_a(sd).4)),
            None => parse_uri_s(s, sd_offsets_a(sd).3) is None,
        },
{
    let t = session_description_text(sd);
    let (q1, q2, q3, q4, q5, q6, q7) = sd_offsets_a(sd);
    let (q8, q9, q10, q11, q12, q13, q14) = sd_offsets_b(sd);
    assert(s.subrange(0, s.len() as int) =~= s);
    assert(q10 <= q14);
    match sd.session_information {
        Some(x) => {
            let it = session_information_text(x);
            assert(t.subrange(q3, q4) =~= it);
            crate::sdp::lemma_piece(s, 0, t, q3, it);
            lemma_session_information_roundtrip(s, q3, x);
        },
        None => {
            assert(q3 < s.len());
            lemma_sd_tail_char(s, sd, q3);
            assert(parse_session_information_s(s, q3) is None);
        },
    }
    match sd.uri {
        Some(x) => {
            let ut = uri_text(x);
            assert(t.subrange(q4, q5) =~= ut);
            crate::sdp::lemma_piece(s, 0, t, q4, ut);
            lemma_uri_roundtrip(s, q4, x);
        },
        None => {
            assert(q4 < s.len());
            lemma_sd_tail_char(s, sd, q4);
            assert(parse_uri_s(s, q4) is None);
        },
    }
}

#[verifier::rlimit(100)]
proof fn lemma_sd_stage_lists_mid(s: Seq<char>, sd: SessionDescriptionV)
    requires
        sd_laid_out(s, sd),
    ensures
        crate::sdp::email_address::parse_email_addresses_s(s, sd_offsets_a(sd).4) == (
            sd.email_addresses,
            sd_offsets_a(sd).5,
        ),
        crate::sdp::phone_number::parse_phone_numbers_s(s, sd_offsets_a(sd).5) == (
            sd.phone_numbers,
            sd_offsets_a(sd).6,
        ),
        match sd.connection {
            Some(c) => parse_connection_s(s, sd_offsets_a(sd).6) == Some((c, sd_offsets_b(sd).0)),
            None => parse_connection_s(s, sd_offsets_a(sd).6) is None,
        },
        crate::sdp::bandwidth::parse_bandwidths_s(s, sd_offsets_b(sd).0) == (
            sd.bandwidths,
            sd_offsets_b(sd).1,
        ),
{
    let t = session_description_text(sd);
    let (q1, q2, q3, q4, q5, q6, q7) = sd_offsets_a(sd);
    let (q8, q9, q10, q11, q12, q13, q14) = sd_offsets_b(sd);
    let et = email_addresses_text(sd.email_addresses);
    let pt = phone_numbers_text(sd.phone_numbers);
    let bt = bandwidths_text(sd.bandwidths);
    assert(s.subrange(0, s.len() as int) =~= s);
    assert(q10 <= q14);
    assert(t.subrange(q5, q6) =~= et);
    crate::sdp::lemma_piece(s, 0, t, q5, et);
    assert(q6 < s.len());
    lemma_sd_tail_char(s, sd, q6);
    lemma_email_addresses_roundtrip(s, q5, sd.email_addresses);
    assert(t.subrange(q6, q7) =~= pt);
    crate::sdp::lemma_piece(s, 0, t, q6, pt);
    assert(q7 < s.len());
    lemma_sd_tail_char(s, sd, q7);
    lemma_phone_numbers_roundtrip(s, q6, sd.phone_numbers);
    match sd.connection {
        Some(c) => {
            let ct = connection_text(c);
            assert(t.subrange(q7, q8) =~= ct);
            crate::sdp::lemma_piece(s, 0, t, q7, ct);
            lemma_connection_roundtrip(s, q7, c);
        },
        None => {
            assert(q7 < s.len());
            lemma_sd_tail_char(s, sd, q7);
            assert(parse_connection_s(s, q7) is None);
        },
    }
    assert(t.subrange(q8, q9) =~= bt);
    crate::sdp::lemma_piece(s, 0, t, q8, bt);
    assert(q9 < s.len());
    lemma_sd_tail_char(s, sd, q9);
    lemma_bandwidths_roundtrip(s, q8, sd.bandwidths);
}

#[verifier::rlimit(100)]
proof fn lemma_sd_stage_time(s: Seq<char>, sd: SessionDescriptionV)
    requires
        sd_laid_out(s, sd),
    ensures
        crate::sdp::time_description::parse_time_description_s(s, sd_offsets_b(sd).1) == Some(
            (sd.time_description, sd_offsets_b(sd).2),
        ),
        match sd.time_zone {
            Some(z) => parse_time_zone_s(s, sd_offsets_b(sd).2) == Some((z, sd_offsets_b(sd).3)),
            None => parse_time_zone_s(s, sd_offsets_b(sd).2) is None,
        },
{
    let t = session_description_text(sd);
    let (q1, q2, q3, q4, q5, q6, q7) = sd_offsets_a(sd);
    let (q8, q9, q10, q11, q12, q13, q14) = sd_offsets_b(sd);
    let tdt = time_description_text(sd.time_description);
    assert(s.subrange(0, s.len() as int) =~= s);
    assert(t.subrange(q9, q10) =~= tdt);
    crate::sdp::lemma_piece(s, 0, t, q9, tdt);
    if q10 < s.len() {
        lemma_sd_late_char(s, sd, q10);
    }
    lemma_time_description_roundtrip(s, q9, sd.time_description);
    match sd.time_zone {
        Some(z) => {
            let zt = time_zone_text(z);
            assert(t.subrange(q10, q11) =~= zt);
            crate::sdp::lemma_piece(s, 0, t, q10, zt);
            if q11 < s.len() {
                lemma_sd_late_char(s, sd, q11);
            }
            lemma_time_zone_roundtrip(s, q10, z);
        },
        None => {
            if q10 < s.len() {
                lemma_sd_late_char(s, sd, q10);
            }
            assert(parse_time_zone_s(s, q10) is None);
        },
    }
}

#[verifier::rlimit(100)]
proof fn lemma_sd_stage_tail(s: Seq<char>, sd: SessionDescriptionV)
    requires
        sd_laid_out(s, sd),
    ensures
        match sd.encryption_key {
            Some(k) => parse_encryption_key_s(s, sd_offsets_b(sd).3) == Some(
                (k, sd_offsets_b(sd).4),
            ),
            None => parse_encryption_key_s(s, sd_offsets_b(sd).3) is None,
        },
        crate::sdp::attribute::parse_attributes_s(s, sd_offsets_b(sd).4) == (
            sd.attributes,
            sd_offsets_b(sd).5,
        ),
        crate::sdp::media_description::parse_media_descriptions_s(s, sd_offsets_b(sd).5) == (
            sd.media_descriptions,
            s.len() as int,
        ),
{
    let t = session_description_text(sd);
    let (q1, q2, q3, q4, q5, q6, q7) = sd_offsets_a(sd);
    let (q8, q9, q10, q11, q12, q13, q14) = sd_offsets_b(sd);
    let at = attributes_text(sd.attributes);
    let mt = media_descriptions_text(sd.media_descriptions);
    assert(s.subrange(0, s.len() as int) =~= s);
    match sd.encryption_key {
        Some(k) => {
            let kt = encryption_key_text(k);
            assert(t.subrange(q11, q12) =~= kt);
            crate::sdp::lemma_piece(s, 0, t, q11, kt);
            lemma_encryption_key_roundtrip(s, q11, k);
        },
        None => {
            if q11 < s.len() {
                lemma_sd_late_char(s, sd, q11);
            }
            assert(parse_encryption_key_s(s, q11) is None);
        },
    }
    assert(t.subrange(q12, q13) =~= at);
    crate::sdp::lemma_piece(s, 0, t, q12, at);
    if q13 < s.len() {
        lemma_sd_late_char(s, sd, q13);
    }
    lemma_attributes_roundtrip(s, q12, sd.attributes);
    assert(t.subrange(q13, q14) =~= mt);
    crate::sdp::lemma_piece(s, 0, t, q13, mt);
    lemma_media_descriptions_roundtrip(s, q13, sd.media_descriptions);
}

/// The round-trip law of the SDP codec: parsing the serialization of a
/// well-formed session description consumes the whole text and yields the
/// same value.
#[verifier::rlimit(100)]
pub proof fn lemma_session_description_round_trip(sd: SessionDescriptionV)
    requires
        sd.wf(),
    ensures
        parse_session_description_s(session_description_text(sd), 0) == Some(
            (sd, session_description_text(sd).len() as int),
        ),
{
    let s = session_description_text(sd);
    let (q1, q2, q3, q4, q5, q6, q7) = sd_offsets_a(sd);
    let (q8, q9, q10, q11, q12, q13, q14) = sd_offsets_b(sd);
    lemma_sd_stage_head(s, sd);
    lemma_sd_stage_info_uri(s, sd);
    lemma_sd_stage_lists_mid(s, sd);
    lemma_sd_stage_time(s, sd);
    lemma_sd_stage_tail(s, sd);
    assert(s.len() == q14);
}

} // verus!
