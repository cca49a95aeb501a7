//! The `o=` origin line: originator and session identifier.

use vstd::prelude::*;

use crate::sdp::{
    is_token, lemma_line_rest_roundtrip, lemma_token_roundtrip, no_crlf,
    parse_line_rest, parse_line_rest_s, parse_token, parse_token_s, };
use crate::text::{
    chars_to_string, dec_rep, digits_end, digits_val, lemma_dec_rep_digits,
    lemma_digits_end_exact, lemma_digits_val_of_rep, push_dec_u64, push_str_chars, scan_u64,
};

verus! {

/// The origin of a session: username, session id and version, and the
/// originator's network address.
#[derive(Clone, Debug, PartialEq, Eq)]
pub struct Origin {
    pub username: String,
    pub session_id: u64,
    pub session_version: u64,
    pub network_type: String,
    pub address_type: String,
    pub unicast_address: String,
}

/// Spec-level value of an [`Origin`].
pub struct OriginV {
    pub username: Seq<char>,
    pub session_id: u64,
    pub session_version: u64,
    pub network_type: Seq<char>,
    pub address_type: Seq<char>,
    pub unicast_address: Seq<char>,
}

impl View for Origin {
    type V = OriginV;

    open spec fn view(&self) -> OriginV {
        OriginV {
            username: self.username@,
            session_id: self.session_id,
            session_version: self.session_version,
            network_type: self.network_type@,
            address_type: self.address_type@,
            unicast_address: self.unicast_address@,
        }
    }
}

impl OriginV {
    /// A well-formed origin: the space-separated fields are nonempty and
    /// free of spaces and line breaks; the address fits on the line.
    pub open spec fn wf(self) -> bool {
        &&& is_token(self.username)
        &&& is_token(self.network_type)
        &&& is_token(self.address_type)
        &&& no_crlf(self.unicast_address)
    }
}

/// The text of an origin line.
pub open spec fn origin_text(o: OriginV) -> Seq<char> {
    seq!['o', '='] + o.username + seq![' '] + dec_rep(o.session_id as int) + seq![' ']
        + dec_rep(o.session_version as int) + seq![' '] + o.network_type + seq![' ']
        + o.address_type + seq![' '] + o.unicast_address + seq!['\r', '\n']
}

/// Parse an origin line: six space-separated fields after the `o=` tag.
pub open spec fn parse_origin_s(s: Seq<char>, i: int) -> Option<(OriginV, int)> {
    if i + 2 <= s.len() && s[i] == 'o' && s[i + 1] == '=' {
        match parse_token_s(s, i + 2) {
            None => None,
            Some((username, j0)) => {
                if j0 < s.len() && s[j0] == ' ' {
                    let j1 = digits_end(s, j0 + 1);
                    if j1 == j0 + 1 || digits_val(s, j0 + 1, j1) > u64::MAX {
                        None
                    } else {
                        let session_id = digits_val(s, j0 + 1, j1) as u64;
                        if j1 < s.len() && s[j1] == ' ' {
                            let j2 = digits_end(s, j1 + 1);
                            if j2 == j1 + 1 || digits_val(s, j1 + 1, j2) > u64::MAX {
                                None
                            } else {
                                let session_version = digits_val(s, j1 + 1, j2) as u64;
                                if j2 < s.len() && s[j2] == ' ' {
                                    match parse_token_s(s, j2 + 1) {
                                        None => None,
                                        Some((network_type, j3)) => {
                                            if j3 < s.len() && s[j3] == ' ' {
                                                match parse_token_s(s, j3 + 1) {
                                                    None => None,
                                                    Some((address_type, j4)) => {
                                                        if j4 < s.len() && s[j4] == ' ' {
                                                            match parse_line_rest_s(s, j4 + 1) {
                                                                None => None,
                                                                Some((unicast_address, k)) => Some(
                                                                    (
                                                                        OriginV {
                                                                            username,
                                                                            session_id,
                                                                            session_version,
                                                                            network_type,
                                                                            address_type,
                                                                            unicast_address,
                                                                        },
                                                                        k,
                                                                    ),
                                                                ),
                                                            }
                                                        } else {
                                                            None
                                                        }
                                                    },
                                                }
                                            } else {
                                                None
                                            }
                                        },
                                    }
                                } else {
                                    None
                                }
                            }
                        } else {
                            None
                        }
                    }
                } else {
                    None
                }
            },
        }
    } else {
        None
    }
}

impl Origin {
    /// Append the origin line's text.
    pub fn write(&self, out: &mut Vec<char>)
        ensures
            final(out)@ == old(out)@ + origin_text(self@),
    {
        out.push('o');
        out.push('=');
        push_str_chars(out, self.username.as_str());
        out.push(' ');
        push_dec_u64(out, self.session_id);
        out.push(' ');
        push_dec_u64(out, self.session_version);
        out.push(' ');
        push_str_chars(out, self.network_type.as_str());
        out.push(' ');
        push_str_chars(out, self.address_type.as_str());
        out.push(' ');
        push_str_chars(out, self.unicast_address.as_str());
        out.push('\r');
        out.push('\n');
        assert(out@ =~= old(out)@ + origin_text(self@));
    }

    /// The origin line, serialized.
    pub fn to_string(&self) -> (r: String)
        ensures
            r@ == origin_text(self@),
    {
        let mut out: Vec<char> = Vec::new();
        self.write(&mut out);
        chars_to_string(&out)
    }
}

/// Parse an origin line: exactly what [`parse_origin_s`] says.
pub fn origin(s: &Vec<char>, i: usize) -> (r: Option<(Origin, usize)>)
    requires
        i <= s@.len(),
    ensures
        match r {
            Some((o, j)) => parse_origin_s(s@, i as int) == Some((o@, j as int)) && i < j
                <= s@.len(),
            None => parse_origin_s(s@, i as int) is None,
        },
{
    if s.len() - i < 2 || s[i] != 'o' || s[i + 1] != '=' {
        return None;
    }
    let (username, j0) = match parse_token(s, i + 2) {
        None => {
            return None;
        },
        Some(p) => p,
    };
    if !(j0 < s.len() && s[j0] == ' ') {
        return None;
    }
    let (session_id, j1) = match scan_u64(s, j0 + 1) {
        None => {
            return None;
        },
        Some(p) => p,
    };
    if !(j1 < s.len() && s[j1] == ' ') {
        return None;
    }
    let (session_version, j2) = match scan_u64(s, j1 + 1) {
        None => {
            return None;
        },
        Some(p) => p,
    };
    if !(j2 < s.len() && s[j2] == ' ') {
        return None;
    }
    let (network_type, j3) = match parse_token(s, j2 + 1) {
        None => {
            return None;
        },
        Some(p) => p,
    };
    if !(j3 < s.len() && s[j3] == ' ') {
        return None;
    }
    let (address_type, j4) = match parse_token(s, j3 + 1) {
        None => {
            return None;
        },
        Some(p) => p,
    };
    if !(j4 < s.len() && s[j4] == ' ') {
        return None;
    }
    let (unicast_address, k) = match parse_line_rest(s, j4 + 1) {
        None => {
            return None;
        },
        Some(p) => p,
    };
    Some(
        (
            Origin {
                username,
                session_id,
                session_version,
                network_type,
                address_type,
                unicast_address,
            },
            k,
        ),
    )
}

/// A digit run standing for a number, followed by a space, scans back to
/// that number.
proof fn lemma_number_then_space(s: Seq<char>, i: int, n: u64)
    requires
        0 <= i,
        i + dec_rep(n as int).len() < s.len(),
        s.subrange(i, i + dec_rep(n as int).len()) == dec_rep(n as int),
        s[i + dec_rep(n as int).len()] == ' ',
    ensures
        digits_end(s, i) == i + dec_rep(n as int).len(),
        digits_val(s, i, i + dec_rep(n as int).len()) == n,
{
    let d = dec_rep(n as int);
    lemma_dec_rep_digits(n as int);
    assert forall|k: int| i <= k < i + d.len() implies crate::text::is_digit(#[trigger] s[k]) by {
        assert(s.subrange(i, i + d.len())[k - i] == s[k]);
    }
    lemma_digits_end_exact(s, i, d.len() as int);
    lemma_digits_val_of_rep(s, i, n as int);
}

/// A piece of `t` at `[a, ..)` followed by a given character.
proof fn piece_then_char(s: Seq<char>, i: int, t: Seq<char>, a: int, piece: Seq<char>)
    requires
        0 <= i,
        i + t.len() <= s.len(),
        s.subrange(i, i + t.len()) == t,
        0 <= a,
        a + piece.len() < t.len(),
        t.subrange(a, a + piece.len()) == piece,
    ensures
        s.subrange(i + a, i + a + piece.len()) == piece,
        s[i + a + piece.len()] == t[a + piece.len()],
{
    crate::sdp::lemma_piece(s, i, t, a, piece);
    crate::sdp::lemma_char_at(s, i, t, a + piece.len());
}

/// Parsing a serialized origin line gives back the origin.
pub proof fn lemma_origin_roundtrip(s: Seq<char>, i: int, o: OriginV)
    requires
        o.wf(),
        0 <= i,
        i + origin_text(o).len() <= s.len(),
        s.subrange(i, i + origin_text(o).len()) == origin_text(o),
    ensures
        parse_origin_s(s, i) == Some((o, i + origin_text(o).len())),
{
    let t = origin_text(o);
    let d1 = dec_rep(o.session_id as int);
    let d2 = dec_rep(o.session_version as int);
    let a0 = 2int;
    let a1 = a0 + o.username.len() + 1;
    let a2 = a1 + d1.len() + 1;
    let a3 = a2 + d2.len() + 1;
    let a4 = a3 + o.network_type.len() + 1;
    let a5 = a4 + o.address_type.len() + 1;
    crate::sdp::lemma_char_at(s, i, t, 0);
    crate::sdp::lemma_char_at(s, i, t, 1);
    assert(t[0] == 'o' && t[1] == '=');
    assert(t.subrange(a0, a0 + o.username.len()) =~= o.username);
    piece_then_char(s, i, t, a0, o.username);
    assert(t[a0 + o.username.len()] == ' ');
    lemma_token_roundtrip(s, i + a0, o.username);
    assert(t.subrange(a1, a1 + d1.len()) =~= d1);
    piece_then_char(s, i, t, a1, d1);
    assert(t[a1 + d1.len()] == ' ');
    lemma_number_then_space(s, i + a1, o.session_id);
    assert(t.subrange(a2, a2 + d2.len()) =~= d2);
    piece_then_char(s, i, t, a2, d2);
    assert(t[a2 + d2.len()] == ' ');
    lemma_number_then_space(s, i + a2, o.session_version);
    assert(t.subrange(a3, a3 + o.network_type.len()) =~= o.network_type);
    piece_then_char(s, i, t, a3, o.network_type);
    assert(t[a3 + o.network_type.len()] == ' ');
    lemma_token_roundtrip(s, i + a3, o.network_type);
    assert(t.subrange(a4, a4 + o.address_type.len()) =~= o.address_type);
    piece_then_char(s, i, t, a4, o.address_type);
    assert(t[a4 + o.address_type.len()] == ' ');
    lemma_token_roundtrip(s, i + a4, o.address_type);
    assert(t.subrange(a5, a5 + o.unicast_address.len()) =~= o.unicast_address);
    piece_then_char(s, i, t, a5, o.unicast_address);
    assert(t[a5 + o.unicast_address.len()] == '\r');
    crate::sdp::lemma_char_at(s, i, t, a5 + o.unicast_address.len() + 1);
    assert(t[a5 + o.unicast_address.len() + 1] == '\n');
    lemma_line_rest_roundtrip(s, i + a5, o.unicast_address);
}

} // verus!
