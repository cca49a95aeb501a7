//! ICE-lite agent (RFC 5245): random credentials, the candidate attribute
//! grammar, the candidate lists, and the STUN binding responder logic. The
//! agent owns no sockets: the surrounding program binds them and hands the
//! agent plain addresses.

use vstd::prelude::*;

use crate::addr::{Ip4Addr, Sock4Addr};
use crate::entropy::random_below;
use crate::sdp::attribute::{Attribute, AttributeV};
use crate::text::{chars_to_string, dec_rep, digits_end, digits_val, push_dec_u64, scan_u64,
    str_to_chars};

verus! {

/// The ICE error taxonomy of this agent.
#[derive(Clone, Debug, PartialEq, Eq)]
pub enum Error {
    InvalidCandidate(String),
    UnsupportedCandidateType(String),
    UnsupportedTransport(String),
}

/// Spec-level mirror of [`Error`].
pub enum ErrorV {
    InvalidCandidate(Seq<char>),
    UnsupportedCandidateType(Seq<char>),
    UnsupportedTransport(Seq<char>),
}

impl View for Error {
    type V = ErrorV;

    open spec fn view(&self) -> ErrorV {
        match self {
            Error::InvalidCandidate(s) => ErrorV::InvalidCandidate(s@),
            Error::UnsupportedCandidateType(s) => ErrorV::UnsupportedCandidateType(s@),
            Error::UnsupportedTransport(s) => ErrorV::UnsupportedTransport(s@),
        }
    }
}

/// A character of the ICE character set: letters, digits, `+` and `/`.
pub open spec fn is_ice_char(c: char) -> bool {
    ('a' <= c && c <= 'z') || ('A' <= c && c <= 'Z') || ('0' <= c && c <= '9') || c == '+' || c
        == '/'
}

/// A character of a transport or type token (RFC 3261 token characters).
pub open spec fn is_tok_char(c: char) -> bool {
    ('a' <= c && c <= 'z') || ('A' <= c && c <= 'Z') || ('0' <= c && c <= '9') || c == '-' || c
        == '.' || c == '!' || c == '%' || c == '*' || c == '_' || c == '+' || c == '`' || c == '\''
        || c == '~'
}

/// The first position at or after `i` that holds no ICE character.
pub open spec fn ice_end(s: Seq<char>, i: int) -> int
    decreases s.len() - i,
{
    if i < s.len() && is_ice_char(s[i]) {
        ice_end(s, i + 1)
    } else {
        i
    }
}

/// The first position at or after `i` that holds no token character.
pub open spec fn tok_end(s: Seq<char>, i: int) -> int
    decreases s.len() - i,
{
    if i < s.len() && is_tok_char(s[i]) {
        tok_end(s, i + 1)
    } else {
        i
    }
}

/// Scan the run of ICE characters.
fn scan_ice_end(s: &Vec<char>, i: usize) -> (j: usize)
    requires
        i <= s@.len(),
    ensures
        j == ice_end(s@, i as int),
        i <= j <= s@.len(),
{
    let mut j: usize = i;
    loop
        invariant
            i <= j <= s@.len(),
            ice_end(s@, i as int) == ice_end(s@, j as int),
        decreases s@.len() - j,
    {
        if j < s.len() {
            let c = s[j];
            if ('a' <= c && c <= 'z') || ('A' <= c && c <= 'Z') || ('0' <= c && c <= '9') || c
                == '+' || c == '/' {
                j = j + 1;
                continue ;
            }
        }
        proof {
            assert(ice_end(s@, j as int) == j);
        }
        return j;
    }
}

/// Scan the run of token characters.
fn scan_tok_end(s: &Vec<char>, i: usize) -> (j: usize)
    requires
        i <= s@.len(),
    ensures
        j == tok_end(s@, i as int),
        i <= j <= s@.len(),
{
    let mut j: usize = i;
    loop
        invariant
            i <= j <= s@.len(),
            tok_end(s@, i as int) == tok_end(s@, j as int),
        decreases s@.len() - j,
    {
        if j < s.len() {
            let c = s[j];
            if ('a' <= c && c <= 'z') || ('A' <= c && c <= 'Z') || ('0' <= c && c <= '9') || c
                == '-' || c == '.' || c == '!' || c == '%' || c == '*' || c == '_' || c == '+' || c
                == '`' || c == '\'' || c == '~' {
                j = j + 1;
                continue ;
            }
        }
        proof {
            assert(tok_end(s@, j as int) == j);
        }
        return j;
    }
}

/// The transport of a candidate.
#[derive(Clone, Copy, Debug, PartialEq, Eq, Structural)]
pub enum Transport {
    Udp,
    Tcp,
}

/// The type of a candidate.
#[derive(Clone, Copy, Debug, PartialEq, Eq, Structural)]
pub enum CandidateType {
    Host,
    ServerReflexive,
    Relayed,
    PeerReflexive,
}

/// A remote candidate: the peer's advertised transport address and its
/// candidate type; the other fields of the grammar are parsed and dropped.
#[derive(Clone, Copy, Debug, PartialEq, Eq)]
pub struct RemoteCandidate {
    pub address: Sock4Addr,
    pub ty: CandidateType,
}

/// Spec-level value of a [`RemoteCandidate`].
pub struct RemoteCandidateV {
    pub ip: Seq<u8>,
    pub port: u16,
    pub ty: CandidateType,
}

impl View for RemoteCandidate {
    type V = RemoteCandidateV;

    open spec fn view(&self) -> RemoteCandidateV {
        RemoteCandidateV { ip: self.address.ip.octets@, port: self.address.port, ty: self.ty }
    }
}

/// A local candidate: always a host candidate in this agent.
#[derive(Clone, Copy, Debug, PartialEq, Eq)]
pub struct LocalCandidate {
    pub address: Sock4Addr,
    pub ty: CandidateType,
}

/// Spec-level value of a [`LocalCandidate`].
pub struct LocalCandidateV {
    pub ip: Seq<u8>,
    pub port: u16,
    pub ty: CandidateType,
}

impl View for LocalCandidate {
    type V = LocalCandidateV;

    open spec fn view(&self) -> LocalCandidateV {
        LocalCandidateV { ip: self.address.ip.octets@, port: self.address.port, ty: self.ty }
    }
}

/// Whether the characters starting at `i` spell a transport word, and which.
pub open spec fn transport_of(tok: Seq<char>) -> Option<Transport> {
    if tok == seq!['u', 'd', 'p'] || tok == seq!['U', 'D', 'P'] {
        Some(Transport::Udp)
    } else if tok == seq!['t', 'c', 'p'] || tok == seq!['T', 'C', 'P'] {
        Some(Transport::Tcp)
    } else {
        None
    }
}

/// Which candidate type a token names.
pub open spec fn candidate_type_of(tok: Seq<char>) -> Option<CandidateType> {
    if tok == seq!['h', 'o', 's', 't'] {
        Some(CandidateType::Host)
    } else if tok == seq!['s', 'r', 'f', 'l', 'x'] {
        Some(CandidateType::ServerReflexive)
    } else if tok == seq!['r', 'e', 'l', 'a', 'y'] {
        Some(CandidateType::Relayed)
    } else if tok == seq!['p', 'r', 'f', 'l', 'x'] {
        Some(CandidateType::PeerReflexive)
    } else {
        None
    }
}

/// Parse a digit run bounded by `max` at `i`, followed by a space.
pub open spec fn parse_num_sp_s(s: Seq<char>, i: int, max: int) -> Option<(int, int)> {
    let j = digits_end(s, i);
    if j == i || digits_val(s, i, j) > max {
        None
    } else if j < s.len() && s[j] == ' ' {
        Some((digits_val(s, i, j), j + 1))
    } else {
        None
    }
}

/// Parse one dotted-quad IPv4 address: four digit groups of at most 255,
/// separated by dots.
pub open spec fn parse_ipv4_s(s: Seq<char>, i: int) -> Option<((int, int, int, int), int)> {
    let j0 = digits_end(s, i);
    if j0 == i || digits_val(s, i, j0) > 255 || !(j0 < s.len() && s[j0] == '.') {
        None
    } else {
        let o0 = digits_val(s, i, j0);
        let j1 = digits_end(s, j0 + 1);
        if j1 == j0 + 1 || digits_val(s, j0 + 1, j1) > 255 || !(j1 < s.len() && s[j1] == '.') {
            None
        } else {
            let o1 = digits_val(s, j0 + 1, j1);
            let j2 = digits_end(s, j1 + 1);
            if j2 == j1 + 1 || digits_val(s, j1 + 1, j2) > 255 || !(j2 < s.len() && s[j2]
                == '.') {
                None
            } else {
                let o2 = digits_val(s, j1 + 1, j2);
                let j3 = digits_end(s, j2 + 1);
                if j3 == j2 + 1 || digits_val(s, j2 + 1, j3) > 255 {
                    None
                } else {
                    let o3 = digits_val(s, j2 + 1, j3);
                    Some(((o0, o1, o2, o3), j3))
                }
            }
        }
    }
}

/// Parse a candidate attribute value (RFC 5245 section 15.1): foundation,
/// component id, transport, priority, address, port, candidate type, the
/// optional related address, and extension pairs, keeping the address and
/// type. An unknown transport or type token is its own error; any other
/// mismatch refuses the whole value.
pub open spec fn parse_candidate_s(s: Seq<char>) -> Result<RemoteCandidateV, ErrorV> {
    let f_end = ice_end(s, 0);
    if f_end < 1 || f_end > 32 || !(f_end < s.len() && s[f_end] == ' ') {
        Err(ErrorV::InvalidCandidate(s))
    } else {
        match parse_num_sp_s(s, f_end + 1, 65535) {
            None => Err(ErrorV::InvalidCandidate(s)),
            Some((_component, p1)) => {
                let t_end = tok_end(s, p1);
                if t_end == p1 || !(t_end < s.len() && s[t_end] == ' ') {
                    Err(ErrorV::InvalidCandidate(s))
                } else {
                    match transport_of(s.subrange(p1, t_end)) {
                        None => Err(ErrorV::UnsupportedTransport(s.subrange(p1, t_end))),
                        Some(_transport) => {
                            let p2 = t_end + 1;
                            match parse_num_sp_s(s, p2, 0xFFFFFFFF) {
                                None => Err(ErrorV::InvalidCandidate(s)),
                                Some((_priority, p3)) => {
                                    match parse_ipv4_s(s, p3) {
                                        None => Err(ErrorV::InvalidCandidate(s)),
                                        Some(((o0, o1, o2, o3), p4)) => {
                                            if !(p4 < s.len() && s[p4] == ' ') {
                                                Err(ErrorV::InvalidCandidate(s))
                                            } else {
                                                match parse_num_sp_s(s, p4 + 1, 65535) {
                                                    None => Err(ErrorV::InvalidCandidate(s)),
                                                    Some((port, p5)) => {
                                                        parse_candidate_tail_s(
                                                            s,
                                                            seq![
                                                                o0 as u8,
                                                                o1 as u8,
                                                                o2 as u8,
                                                                o3 as u8,
                                                            ],
                                                            port as u16,
                                                            p5,
                                                        )
                                                    },
                                                }
                                            }
                                        },
                                    }
                                },
                            }
                        },
                    }
                }
            },
        }
    }
}

/// The tail of the candidate grammar: `typ` and the type token, then the
/// optional related address and the extension pairs, which are checked and
/// dropped.
pub open spec fn parse_candidate_tail_s(s: Seq<char>, ip: Seq<u8>, port: u16, p5: int) -> Result<
    RemoteCandidateV,
    ErrorV,
> {
    if !(p5 + 4 <= s.len() && s[p5] == 't' && s[p5 + 1] == 'y' && s[p5 + 2] == 'p' && s[p5 + 3]
        == ' ') {
        Err(ErrorV::InvalidCandidate(s))
    } else {
        let ty_end = tok_end(s, p5 + 4);
        if ty_end == p5 + 4 {
            Err(ErrorV::InvalidCandidate(s))
        } else {
            match candidate_type_of(s.subrange(p5 + 4, ty_end)) {
                None => Err(ErrorV::UnsupportedCandidateType(s.subrange(p5 + 4, ty_end))),
                Some(ty) => {
                    if rest_is_extensions(s, ty_end) {
                        Ok(RemoteCandidateV { ip, port, ty })
                    } else {
                        Err(ErrorV::InvalidCandidate(s))
                    }
                },
            }
        }
    }
}

/// The first position at or after `i` that holds a space, CR or LF, or the
/// end: the end of an extension word.
pub open spec fn word_end(s: Seq<char>, i: int) -> int
    decreases s.len() - i,
{
    if i < s.len() && s[i] != ' ' && s[i] != '\r' && s[i] != '\n' {
        word_end(s, i + 1)
    } else {
        i
    }
}

/// After the candidate type: zero or more pairs of space-separated words
/// (the related address reads as two such pairs), consuming the whole rest.
pub open spec fn rest_is_extensions(s: Seq<char>, i: int) -> bool
    decreases s.len() - i,
{
    if i == s.len() {
        true
    } else if s[i] == ' ' {
        let w1 = word_end(s, i + 1);
        if w1 == i + 1 {
            false
        } else if w1 < s.len() && s[w1] == ' ' {
            let w2 = word_end(s, w1 + 1);
            if w2 == w1 + 1 {
                false
            } else if i + 1 < w1 && w1 + 1 < w2 && w2 <= s.len() {
                rest_is_extensions(s, w2)
            } else {
                false
            }
        } else {
            false
        }
    } else {
        false
    }
}

/// Scan to the end of an extension word.
fn scan_word_end(s: &Vec<char>, i: usize) -> (j: usize)
    requires
        i <= s@.len(),
    ensures
        j == word_end(s@, i as int),
        i <= j <= s@.len(),
{
    let mut j: usize = i;
    loop
        invariant
            i <= j <= s@.len(),
            word_end(s@, i as int) == word_end(s@, j as int),
        decreases s@.len() - j,
    {
        if j < s.len() {
            let c = s[j];
            if c != ' ' && c != '\r' && c != '\n' {
                j = j + 1;
                continue ;
            }
        }
        proof {
            assert(word_end(s@, j as int) == j);
        }
        return j;
    }
}

/// Check that the rest of the value is extension pairs: exactly what
/// [`rest_is_extensions`] says.
fn check_extensions(s: &Vec<char>, i: usize) -> (r: bool)
    requires
        i <= s@.len(),
    ensures
        r == rest_is_extensions(s@, i as int),
{
    let mut pos: usize = i;
    loop
        invariant
            i <= pos <= s@.len(),
            rest_is_extensions(s@, i as int) == rest_is_extensions(s@, pos as int),
        decreases s@.len() - pos,
    {
        if pos == s.len() {
            return true;
        }
        if s[pos] != ' ' {
            return false;
        }
        let w1 = scan_word_end(s, pos + 1);
        if w1 == pos + 1 {
            return false;
        }
        if !(w1 < s.len() && s[w1] == ' ') {
            return false;
        }
        let w2 = scan_word_end(s, w1 + 1);
        if w2 == w1 + 1 {
            return false;
        }
        pos = w2;
    }
}

/// Parse a candidate attribute value: exactly what [`parse_candidate_s`]
/// says.
#[verifier::rlimit(100)]
pub fn parse_candidate(s: &Vec<char>) -> (r: Result<RemoteCandidate, Error>)
    ensures
        match r {
            Ok(c) => parse_candidate_s(s@) == Ok::<RemoteCandidateV, ErrorV>(c@),
            Err(e) => parse_candidate_s(s@) == Err::<RemoteCandidateV, ErrorV>(e@),
        },
{
    let f_end = scan_ice_end(s, 0);
    if f_end < 1 || f_end > 32 || !(f_end < s.len() && s[f_end] == ' ') {
        return Err(Error::InvalidCandidate(chars_to_string(s)));
    }
    let (_component, p1) = match num_sp(s, f_end + 1, 65535) {
        None => {
            return Err(Error::InvalidCandidate(chars_to_string(s)));
        },
        Some(q) => q,
    };
    let t_end = scan_tok_end(s, p1);
    if t_end == p1 || !(t_end < s.len() && s[t_end] == ' ') {
        return Err(Error::InvalidCandidate(chars_to_string(s)));
    }
    let tok = crate::sdp::copy_str(s, p1, t_end);
    let tokc = str_to_chars(tok.as_str());
    let transport: Option<Transport> = if tokc.len() == 3 {
        if (tokc[0] == 'u' && tokc[1] == 'd' && tokc[2] == 'p') || (tokc[0] == 'U' && tokc[1]
            == 'D' && tokc[2] == 'P') {
            proof {
                assert(tok@ =~= seq!['u', 'd', 'p'] || tok@ =~= seq!['U', 'D', 'P']);
            }
            Some(Transport::Udp)
        } else if (tokc[0] == 't' && tokc[1] == 'c' && tokc[2] == 'p') || (tokc[0] == 'T'
            && tokc[1] == 'C' && tokc[2] == 'P') {
            proof {
                assert(tok@ =~= seq!['t', 'c', 'p'] || tok@ =~= seq!['T', 'C', 'P']);
                assert(tok@ != seq!['u', 'd', 'p'] && tok@ != seq!['U', 'D', 'P']) by {
                    if tok@ == seq!['u', 'd', 'p'] || tok@ == seq!['U', 'D', 'P'] {
                        assert(tok@[0] == 'u' || tok@[0] == 'U');
                    }
                }
            }
            Some(Transport::Tcp)
        } else {
            proof {
                lemma_not_word3(tok@);
            }
            None
        }
    } else {
        proof {
            assert(transport_of(tok@) is None) by {
                if tok@ == seq!['u', 'd', 'p'] || tok@ == seq!['U', 'D', 'P'] || tok@ == seq![
                    't',
                    'c',
                    'p',
                ] || tok@ == seq!['T', 'C', 'P'] {
                    assert(tok@.len() == 3);
                }
            }
        }
        None
    };
    if transport.is_none() {
        return Err(Error::UnsupportedTransport(tok));
    }
    let p2 = t_end + 1;
    let (_priority, p3) = match num_sp(s, p2, 0xFFFFFFFF) {
        None => {
            return Err(Error::InvalidCandidate(chars_to_string(s)));
        },
        Some(q) => q,
    };
    let (ip, p4) = match ipv4(s, p3) {
        None => {
            return Err(Error::InvalidCandidate(chars_to_string(s)));
        },
        Some(q) => q,
    };
    if !(p4 < s.len() && s[p4] == ' ') {
        return Err(Error::InvalidCandidate(chars_to_string(s)));
    }
    let (port, p5) = match num_sp(s, p4 + 1, 65535) {
        None => {
            return Err(Error::InvalidCandidate(chars_to_string(s)));
        },
        Some(q) => q,
    };
    if !(s.len() - p5 >= 4 && s[p5] == 't' && s[p5 + 1] == 'y' && s[p5 + 2] == 'p' && s[p5 + 3]
        == ' ') {
        return Err(Error::InvalidCandidate(chars_to_string(s)));
    }
    let ty_end = scan_tok_end(s, p5 + 4);
    if ty_end == p5 + 4 {
        return Err(Error::InvalidCandidate(chars_to_string(s)));
    }
    let tytok = crate::sdp::copy_str(s, p5 + 4, ty_end);
    let tyc = str_to_chars(tytok.as_str());
    let ty: Option<CandidateType> = if tyc.len() == 4 && tyc[0] == 'h' && tyc[1] == 'o' && tyc[2]
        == 's' && tyc[3] == 't' {
        proof {
            assert(tytok@ =~= seq!['h', 'o', 's', 't']);
        }
        Some(CandidateType::Host)
    } else if tyc.len() == 5 && tyc[0] == 's' && tyc[1] == 'r' && tyc[2] == 'f' && tyc[3] == 'l'
        && tyc[4] == 'x' {
        proof {
            assert(tytok@ =~= seq!['s', 'r', 'f', 'l', 'x']);
            lemma_ty_distinct(tytok@);
        }
        Some(CandidateType::ServerReflexive)
    } else if tyc.len() == 5 && tyc[0] == 'r' && tyc[1] == 'e' && tyc[2] == 'l' && tyc[3] == 'a'
        && tyc[4] == 'y' {
        proof {
            assert(tytok@ =~= seq!['r', 'e', 'l', 'a', 'y']);
            lemma_ty_distinct(tytok@);
        }
        Some(CandidateType::Relayed)
    } else if tyc.len() == 5 && tyc[0] == 'p' && tyc[1] == 'r' && tyc[2] == 'f' && tyc[3] == 'l'
        && tyc[4] == 'x' {
        proof {
            assert(tytok@ =~= seq!['p', 'r', 'f', 'l', 'x']);
            lemma_ty_distinct(tytok@);
        }
        Some(CandidateType::PeerReflexive)
    } else {
        proof {
            lemma_not_ty(tytok@);
        }
        None
    };
    let ty = match ty {
        None => {
            return Err(Error::UnsupportedCandidateType(tytok));
        },
        Some(t) => t,
    };
    if !check_extensions(s, ty_end) {
        return Err(Error::InvalidCandidate(chars_to_string(s)));
    }
    let c = RemoteCandidate { address: Sock4Addr { ip, port: port as u16 }, ty };
    proof {
        match parse_candidate_s(s@) {
            Ok(rv) => {
                assert(rv.ip =~= c@.ip);
            },
            Err(_) => {},
        }
    }
    Ok(c)
}

/// A three-character token that is not a transport word names no transport.
proof fn lemma_not_word3(t: Seq<char>)
    requires
        t.len() == 3,
        !((t[0] == 'u' && t[1] == 'd' && t[2] == 'p') || (t[0] == 'U' && t[1] == 'D' && t[2]
            == 'P') || (t[0] == 't' && t[1] == 'c' && t[2] == 'p') || (t[0] == 'T' && t[1] == 'C'
            && t[2] == 'P')),
    ensures
        transport_of(t) is None,
{
    if t == seq!['u', 'd', 'p'] {
        assert(t[0] == 'u' && t[1] == 'd' && t[2] == 'p');
    }
    if t == seq!['U', 'D', 'P'] {
        assert(t[0] == 'U' && t[1] == 'D' && t[2] == 'P');
    }
    if t == seq!['t', 'c', 'p'] {
        assert(t[0] == 't' && t[1] == 'c' && t[2] == 'p');
    }
    if t == seq!['T', 'C', 'P'] {
        assert(t[0] == 'T' && t[1] == 'C' && t[2] == 'P');
    }
}

/// The four type words are mutually distinct.
proof fn lemma_ty_distinct(t: Seq<char>)
    ensures
        t == seq!['s', 'r', 'f', 'l', 'x'] ==> candidate_type_of(t) == Some(
            CandidateType::ServerReflexive,
        ),
        t == seq!['r', 'e', 'l', 'a', 'y'] ==> candidate_type_of(t) == Some(
            CandidateType::Relayed,
        ),
        t == seq!['p', 'r', 'f', 'l', 'x'] ==> candidate_type_of(t) == Some(
            CandidateType::PeerReflexive,
        ),
{
    if t == seq!['s', 'r', 'f', 'l', 'x'] {
        assert(t != seq!['h', 'o', 's', 't']) by {
            if t == seq!['h', 'o', 's', 't'] {
                assert(t.len() == 4);
            }
        }
    }
    if t == seq!['r', 'e', 'l', 'a', 'y'] {
        assert(t != seq!['h', 'o', 's', 't']) by {
            if t == seq!['h', 'o', 's', 't'] {
                assert(t.len() == 4);
            }
        }
        assert(t != seq!['s', 'r', 'f', 'l', 'x']) by {
            if t == seq!['s', 'r', 'f', 'l', 'x'] {
                assert(t[0] == 's');
            }
        }
    }
    if t == seq!['p', 'r', 'f', 'l', 'x'] {
        assert(t != seq!['h', 'o', 's', 't']) by {
            if t == seq!['h', 'o', 's', 't'] {
                assert(t.len() == 4);
            }
        }
        assert(t != seq!['s', 'r', 'f', 'l', 'x']) by {
            if t == seq!['s', 'r', 'f', 'l', 'x'] {
                assert(t[0] == 's');
            }
        }
        assert(t != seq!['r', 'e', 'l', 'a', 'y']) by {
            if t == seq!['r', 'e', 'l', 'a', 'y'] {
                assert(t[0] == 'r');
            }
        }
    }
}

/// A token that matches none of the four type words names no type.
proof fn lemma_not_ty(t: Seq<char>)
    requires
        !(t.len() == 4 && t[0] == 'h' && t[1] == 'o' && t[2] == 's' && t[3] == 't'),
        !(t.len() == 5 && t[0] == 's' && t[1] == 'r' && t[2] == 'f' && t[3] == 'l' && t[4] == 'x'),
        !(t.len() == 5 && t[0] == 'r' && t[1] == 'e' && t[2] == 'l' && t[3] == 'a' && t[4] == 'y'),
        !(t.len() == 5 && t[0] == 'p' && t[1] == 'r' && t[2] == 'f' && t[3] == 'l' && t[4] == 'x'),
    ensures
        candidate_type_of(t) is None,
{
    if t == seq!['h', 'o', 's', 't'] {
        assert(t.len() == 4 && t[0] == 'h' && t[1] == 'o' && t[2] == 's' && t[3] == 't');
    }
    if t == seq!['s', 'r', 'f', 'l', 'x'] {
        assert(t.len() == 5 && t[0] == 's' && t[1] == 'r' && t[2] == 'f' && t[3] == 'l' && t[4]
            == 'x');
    }
    if t == seq!['r', 'e', 'l', 'a', 'y'] {
        assert(t.len() == 5 && t[0] == 'r' && t[1] == 'e' && t[2] == 'l' && t[3] == 'a' && t[4]
            == 'y');
    }
    if t == seq!['p', 'r', 'f', 'l', 'x'] {
        assert(t.len() == 5 && t[0] == 'p' && t[1] == 'r' && t[2] == 'f' && t[3] == 'l' && t[4]
            == 'x');
    }
}

/// Parse a bounded number followed by a space: exactly what
/// [`parse_num_sp_s`] says.
fn num_sp(s: &Vec<char>, i: usize, max: u64) -> (r: Option<(u64, usize)>)
    requires
        i <= s@.len(),
    ensures
        match r {
            Some((v, j)) => parse_num_sp_s(s@, i as int, max as int) == Some(
                (v as int, j as int),
            ) && i < j <= s@.len(),
            None => parse_num_sp_s(s@, i as int, max as int) is None,
        },
{
    match scan_u64(s, i) {
        None => None,
        Some((v, j)) => {
            if v > max {
                return None;
            }
            if j < s.len() && s[j] == ' ' {
                Some((v, j + 1))
            } else {
                None
            }
        },
    }
}

/// Parse a dotted-quad IPv4 address: exactly what [`parse_ipv4_s`] says.
fn ipv4(s: &Vec<char>, i: usize) -> (r: Option<(Ip4Addr, usize)>)
    requires
        i <= s@.len(),
    ensures
        match r {
            Some((ip, j)) => parse_ipv4_s(s@, i as int) matches Some((o, jj)) && jj == j as int
                && o.0 == ip.octets@[0] && o.1 == ip.octets@[1] && o.2 == ip.octets@[2] && o.3
                == ip.octets@[3] && i < j <= s@.len(),
            None => parse_ipv4_s(s@, i as int) is None,
        },
{
    let (o0, j0) = match scan_u64(s, i) {
        None => {
            return None;
        },
        Some(q) => q,
    };
    if o0 > 255 || !(j0 < s.len() && s[j0] == '.') {
        return None;
    }
    let (o1, j1) = match scan_u64(s, j0 + 1) {
        None => {
            return None;
        },
        Some(q) => q,
    };
    if o1 > 255 || !(j1 < s.len() && s[j1] == '.') {
        return None;
    }
    let (o2, j2) = match scan_u64(s, j1 + 1) {
        None => {
            return None;
        },
        Some(q) => q,
    };
    if o2 > 255 || !(j2 < s.len() && s[j2] == '.') {
        return None;
    }
    let (o3, j3) = match scan_u64(s, j2 + 1) {
        None => {
            return None;
        },
        Some(q) => q,
    };
    if o3 > 255 {
        return None;
    }
    Some((Ip4Addr::new(o0 as u8, o1 as u8, o2 as u8, o3 as u8), j3))
}

impl RemoteCandidate {
    /// Parse a remote candidate from a candidate attribute value string.
    pub fn from_str(s: &str) -> (r: Result<RemoteCandidate, Error>)
        ensures
            match r {
                Ok(c) => parse_candidate_s(s@) == Ok::<RemoteCandidateV, ErrorV>(c@),
                Err(e) => parse_candidate_s(s@) == Err::<RemoteCandidateV, ErrorV>(e@),
            },
    {
        let cs = str_to_chars(s);
        parse_candidate(&cs)
    }

    /// The candidate a whole SDP attribute stands for, if it is a
    /// `candidate` value attribute with a supported transport and type.
    pub fn try_from_attribute(attribute: &Attribute) -> (r: Result<RemoteCandidate, Error>)
        ensures
            match r {
                Ok(c) => candidate_of_attribute_s(attribute@) == Ok::<RemoteCandidateV, ErrorV>(
                    c@,
                ),
                Err(e) => candidate_of_attribute_s(attribute@) == Err::<RemoteCandidateV, ErrorV>(
                    e@,
                ),
            },
    {
        match attribute {
            Attribute::Value(k, v) => {
                if attribute.is_ice_candidate() {
                    let cs = str_to_chars(v.as_str());
                    parse_candidate(&cs)
                } else {
                    Err(Error::InvalidCandidate(v.clone()))
                }
            },
            Attribute::Property(p) => Err(Error::InvalidCandidate(p.clone())),
        }
    }
}

/// The candidate an SDP attribute stands for: the value of a `candidate`
/// attribute, parsed by the candidate grammar.
pub open spec fn candidate_of_attribute_s(a: AttributeV) -> Result<RemoteCandidateV, ErrorV> {
    match a {
        AttributeV::Value(k, v) => {
            if a.is_candidate() {
                parse_candidate_s(v)
            } else {
                Err(ErrorV::InvalidCandidate(v))
            }
        },
        AttributeV::Property(p) => Err(ErrorV::InvalidCandidate(p)),
    }
}

} // verus!
// The agent: credentials, candidate lists, and the responder logic.
verus! {

/// The ICE agent: random credentials and the candidate lists. The
/// surrounding program owns the sockets; it records each bound local
/// address here and runs the responder loop with [`binding_response`].
#[derive(Clone, Debug)]
pub struct Agent {
    pub username: String,
    pub password: String,
    pub local_candidates: Vec<LocalCandidate>,
    pub remote_candidates: Vec<RemoteCandidate>,
}

/// Spec-level value of an [`Agent`].
pub struct AgentV {
    pub username: Seq<char>,
    pub password: Seq<char>,
    pub local_candidates: Seq<LocalCandidateV>,
    pub remote_candidates: Seq<RemoteCandidateV>,
}

impl View for Agent {
    type V = AgentV;

    open spec fn view(&self) -> AgentV {
        AgentV {
            username: self.username@,
            password: self.password@,
            local_candidates: self.local_candidates@.map_values(|c: LocalCandidate| c@),
            remote_candidates: self.remote_candidates@.map_values(|c: RemoteCandidate| c@),
        }
    }
}

/// One character of the ICE character set, by index.
fn ice_char_at(idx: u32) -> (c: char)
    requires
        idx < 64,
    ensures
        is_ice_char(c),
{
    let table: [char; 64] = [
        'a', 'b', 'c', 'd', 'e', 'f', 'g', 'h', 'i', 'j', 'k', 'l', 'm', 'n', 'o', 'p', 'q', 'r',
        's', 't', 'u', 'v', 'w', 'x', 'y', 'z', 'A', 'B', 'C', 'D', 'E', 'F', 'G', 'H', 'I', 'J',
        'K', 'L', 'M', 'N', 'O', 'P', 'Q', 'R', 'S', 'T', 'U', 'V', 'W', 'X', 'Y', 'Z', '1', '2',
        '3', '4', '5', '6', '7', '8', '9', '0', '+', '/',
    ];
    let c = table[idx as usize];
    proof {
        assert(is_ice_char(table@[idx as int]));
    }
    c
}

/// A random string over the ICE character set, of the given length.
fn rand_ice_string(length: usize) -> (r: String)
    ensures
        r@.len() == length,
        forall|k: int| 0 <= k < r@.len() ==> is_ice_char(#[trigger] r@[k]),
{
    let mut out: Vec<char> = Vec::new();
    let mut k: usize = 0;
    while k < length
        invariant
            k <= length,
            out@.len() == k,
            forall|m: int| 0 <= m < out@.len() ==> is_ice_char(#[trigger] out@[m]),
        decreases length - k,
    {
        let idx = random_below(64);
        out.push(ice_char_at(idx));
        k = k + 1;
    }
    chars_to_string(&out)
}

/// The fixed priority of a host IPv4 candidate with component id 1:
/// 2^24 * 126 + 2^8 * 65535 + 256 - 1.
pub open spec fn host_priority() -> int {
    (126 * 0x1000000 + 65535 * 0x100 + 255) as int
}

/// The `candidate` key of an SDP attribute.
pub open spec fn candidate_key() -> Seq<char> {
    seq!['c', 'a', 'n', 'd', 'i', 'd', 'a', 't', 'e']
}

/// A dotted-quad rendering of four octets.
pub open spec fn dotted_quad(ip: Seq<u8>) -> Seq<char> {
    dec_rep(ip[0] as int) + seq!['.'] + dec_rep(ip[1] as int) + seq!['.'] + dec_rep(ip[2] as int)
        + seq!['.'] + dec_rep(ip[3] as int)
}

/// The candidate attribute value the agent emits for one local candidate:
/// foundation, component 1, udp, the host priority, address, port, and the
/// host type.
pub open spec fn local_candidate_value(f: int, c: LocalCandidateV) -> Seq<char> {
    dec_rep(f) + seq![' ', '1', ' ', 'u', 'd', 'p', ' '] + dec_rep(host_priority()) + seq![' ']
        + dotted_quad(c.ip) + seq![' '] + dec_rep(c.port as int) + seq![
        ' ',
        't',
        'y',
        'p',
        ' ',
        'h',
        'o',
        's',
        't',
    ]
}

impl Agent {
    /// A fresh agent: a 4-character ufrag, a 22-character password, both
    /// random over the ICE character set, and empty candidate lists.
    pub fn new() -> (r: Agent)
        ensures
            r@.username.len() == 4,
            forall|k: int| 0 <= k < r@.username.len() ==> is_ice_char(#[trigger] r@.username[k]),
            r@.password.len() == 22,
            forall|k: int| 0 <= k < r@.password.len() ==> is_ice_char(#[trigger] r@.password[k]),
            r@.local_candidates == Seq::<LocalCandidateV>::empty(),
            r@.remote_candidates == Seq::<RemoteCandidateV>::empty(),
    {
        let r = Agent {
            username: rand_ice_string(4),
            password: rand_ice_string(22),
            local_candidates: Vec::new(),
            remote_candidates: Vec::new(),
        };
        proof {
            assert(r@.local_candidates =~= Seq::<LocalCandidateV>::empty());
            assert(r@.remote_candidates =~= Seq::<RemoteCandidateV>::empty());
        }
        r
    }

    /// The agent's ufrag.
    pub fn username(&self) -> (r: String)
        ensures
            r@ == self@.username,
    {
        self.username.clone()
    }

    /// The agent's password: the HMAC key of its STUN replies.
    pub fn password(&self) -> (r: String)
        ensures
            r@ == self@.password,
    {
        self.password.clone()
    }

    /// Parse a candidate attribute and store the remote candidate;
    /// unsupported transports or types are reported and nothing is stored.
    pub fn add_remote_candidate(&mut self, candidate_attribute: Attribute) -> (r: Result<
        (),
        Error,
    >)
        ensures
            match r {
                Ok(_) => candidate_of_attribute_s(candidate_attribute@) matches Ok(c)
                    && final(self)@.remote_candidates == old(self)@.remote_candidates.push(c)
                    && final(self)@.username == old(self)@.username && final(self)@.password == old(
                    self,
                )@.password && final(self)@.local_candidates == old(self)@.local_candidates,
                Err(e) => candidate_of_attribute_s(candidate_attribute@) == Err::<
                    RemoteCandidateV,
                    ErrorV,
                >(e@) && final(self)@ == old(self)@,
            },
    {
        match RemoteCandidate::try_from_attribute(&candidate_attribute) {
            Ok(c) => {
                let ghost before = self.remote_candidates@.map_values(|x: RemoteCandidate| x@);
                let ghost cv = c@;
                self.remote_candidates.push(c);
                proof {
                    assert(self.remote_candidates@.map_values(|x: RemoteCandidate| x@)
                        =~= before.push(cv));
                }
                Ok(())
            },
            Err(e) => Err(e),
        }
    }

    /// Record one bound local address as a host candidate.
    pub fn add_local_candidate(&mut self, address: Sock4Addr)
        ensures
            final(self)@.local_candidates == old(self)@.local_candidates.push(
                LocalCandidateV {
                    ip: address.ip.octets@,
                    port: address.port,
                    ty: CandidateType::Host,
                },
            ),
            final(self)@.username == old(self)@.username,
            final(self)@.password == old(self)@.password,
            final(self)@.remote_candidates == old(self)@.remote_candidates,
    {
        let ghost before = self.local_candidates@.map_values(|x: LocalCandidate| x@);
        let c = LocalCandidate { address, ty: CandidateType::Host };
        let ghost cv = c@;
        self.local_candidates.push(c);
        proof {
            assert(self.local_candidates@.map_values(|x: LocalCandidate| x@) =~= before.push(
                cv,
            ));
        }
    }

    /// One SDP `candidate` attribute per local candidate, the positional
    /// index serving as the foundation.
    pub fn candidate_attributes(&self) -> (r: Vec<Attribute>)
        ensures
            r@.len() == self@.local_candidates.len(),
            forall|k: int|
                0 <= k < r@.len() ==> (#[trigger] r@[k])@ == AttributeV::Value(
                    candidate_key(),
                    local_candidate_value(k, self@.local_candidates[k]),
                ),
    {
        let mut out: Vec<Attribute> = Vec::new();
        let ghost locals = self@.local_candidates;
        let mut k: usize = 0;
        while k < self.local_candidates.len()
            invariant
                k <= locals.len(),
                locals == self@.local_candidates,
                locals.len() == self.local_candidates@.len(),
                forall|m: int| 0 <= m < locals.len() ==> locals[m] == self.local_candidates@[m]@,
                out@.len() == k,
                forall|m: int|
                    0 <= m < k ==> (#[trigger] out@[m])@ == AttributeV::Value(
                        candidate_key(),
                        local_candidate_value(m, locals[m]),
                    ),
            decreases locals.len() - k,
        {
            let c = &self.local_candidates[k];
            let a = encode_as_sdp(k, c.address);
            proof {
                assert(c.address.ip.octets@ == locals[k as int].ip);
            }
            out.push(a);
            k = k + 1;
        }
        out
    }
}

/// The SDP `candidate` attribute for one local host candidate, with the
/// positional foundation.
#[verifier::rlimit(100)]
pub fn encode_as_sdp(foundation: usize, candidate: Sock4Addr) -> (r: Attribute)
    ensures
        r@ == AttributeV::Value(
            candidate_key(),
            local_candidate_value(
                foundation as int,
                LocalCandidateV {
                    ip: candidate.ip.octets@,
                    port: candidate.port,
                    ty: CandidateType::Host,
                },
            ),
        ),
{
    let mut v: Vec<char> = Vec::new();
    push_dec_u64(&mut v, foundation as u64);
    v.push(' ');
    v.push('1');
    v.push(' ');
    v.push('u');
    v.push('d');
    v.push('p');
    v.push(' ');
    let priority: u64 = 126 * 0x1000000 + 65535 * 0x100 + 255;
    push_dec_u64(&mut v, priority);
    v.push(' ');
    push_dec_u64(&mut v, candidate.ip.octets[0] as u64);
    v.push('.');
    push_dec_u64(&mut v, candidate.ip.octets[1] as u64);
    v.push('.');
    push_dec_u64(&mut v, candidate.ip.octets[2] as u64);
    v.push('.');
    push_dec_u64(&mut v, candidate.ip.octets[3] as u64);
    v.push(' ');
    push_dec_u64(&mut v, candidate.port as u64);
    v.push(' ');
    v.push('t');
    v.push('y');
    v.push('p');
    v.push(' ');
    v.push('h');
    v.push('o');
    v.push('s');
    v.push('t');
    proof {
        assert(v@ =~= local_candidate_value(
            foundation as int,
            LocalCandidateV {
                ip: candidate.ip.octets@,
                port: candidate.port,
                ty: CandidateType::Host,
            },
        ));
    }
    let value = chars_to_string(&v);
    let a = Attribute::value("candidate", value.as_str());
    proof {
        reveal_strlit("candidate");
        assert("candidate"@ =~= candidate_key());
    }
    a
}

} // verus!
// The per-datagram responder logic: decode a binding request, build the
// authenticated reply.
verus! {

/// The first USERNAME attribute of a message, if any.
pub open spec fn first_username(attrs: Seq<crate::stun::attribute::AttributeV>) -> Option<
    Seq<char>,
>
    decreases attrs.len(),
{
    if attrs.len() == 0 {
        None
    } else {
        match attrs[0] {
            crate::stun::attribute::AttributeV::Username { name } => Some(name),
            _ => first_username(attrs.drop_first()),
        }
    }
}

/// Whether a datagram is owed a reply: it parses as a STUN binding request
/// that carries a USERNAME of at most 513 bytes.
pub open spec fn reply_owed(b: Seq<u8>) -> bool {
    &&& crate::stun::parse_message_s(b) matches Ok((m, n))
    &&& (match crate::stun::parse_message_s(b) {
        Ok((m, n)) => {
            &&& m.header.method == crate::stun::Method::Binding
            &&& m.header.class == crate::stun::Class::Request
            &&& first_username(m.attributes) matches Some(name)
            &&& (match first_username(m.attributes) {
                Some(name) => vstd::utf8::encode_utf8(name).len() <= 513,
                None => false,
            })
        },
        Err(_) => false,
    })
}

/// The reply the responder owes: a binding success over the request's
/// transaction id, echoing the username and the XOR-mapped source address,
/// authenticated with MESSAGE-INTEGRITY under `key` and closed with
/// FINGERPRINT.
pub open spec fn binding_reply_v(
    tid: Seq<u8>,
    name: Seq<char>,
    ip: Seq<u8>,
    port: u16,
    key: Seq<u8>,
) -> crate::stun::MessageV {
    let attrs0 = seq![
        crate::stun::attribute::AttributeV::Username { name },
        crate::stun::attribute::AttributeV::XorMappedAddress { ip, port },
    ];
    let len0 = crate::stun::attribute::attrs_bytes(attrs0).len() as u16;
    let m1 = crate::stun::MessageV {
        header: crate::stun::HeaderV {
            method: crate::stun::Method::Binding,
            class: crate::stun::Class::Success,
            length: len0,
            transaction_id: tid,
        },
        attributes: attrs0,
    };
    let m2 = m1.with_length_raised(24);
    let tag = crate::crypto::hmac_sha1_of(key, crate::stun::message_bytes(m2));
    let m3 = crate::stun::MessageV {
        header: m2.header,
        attributes: attrs0.push(crate::stun::attribute::AttributeV::MessageIntegrity { tag }),
    };
    let m4 = m3.with_length_raised(8);
    let crc = crate::crypto::crc32_of(crate::stun::message_bytes(m4));
    crate::stun::MessageV {
        header: m4.header,
        attributes: m4.attributes.push(
            crate::stun::attribute::AttributeV::Fingerprint { value: crc },
        ),
    }
}

/// Decode one inbound datagram and build the authenticated reply, exactly
/// when one is owed: the datagram parses as a binding request with a
/// username. Anything else is dropped. The reply echoes the username,
/// reports the XOR-mapped source address, and carries MESSAGE-INTEGRITY
/// under `key` and a FINGERPRINT.
#[verifier::rlimit(100)]
pub fn binding_response(datagram: &[u8], src: Sock4Addr, key: &[u8]) -> (r: Option<Vec<u8>>)
    ensures
        match r {
            Some(bytes) => reply_owed(datagram@) && (match crate::stun::parse_message_s(
                datagram@,
            ) {
                Ok((m, _)) => (match first_username(m.attributes) {
                    Some(name) => bytes@ == crate::stun::message_bytes(
                        binding_reply_v(
                            m.header.transaction_id,
                            name,
                            src.ip.octets@,
                            src.port,
                            key@,
                        ),
                    ),
                    None => false,
                }),
                Err(_) => false,
            }),
            None => !reply_owed(datagram@),
        },
{
    let (msg, _) = match crate::stun::message(datagram) {
        Ok(p) => p,
        Err(_) => {
            return None;
        },
    };
    if !(msg.header.method == crate::stun::Method::Binding && msg.header.class
        == crate::stun::Class::Request) {
        return None;
    }
    let ghost attrs = msg@.attributes;
    proof {
        assert(attrs.skip(0) =~= attrs);
    }
    let mut found: Option<&crate::stun::attribute::Username> = None;
    let mut k: usize = 0;
    while k < msg.attributes.len()
        invariant
            k <= attrs.len(),
            attrs == msg@.attributes,
            attrs.len() == msg.attributes@.len(),
            forall|m: int| 0 <= m < attrs.len() ==> attrs[m] == msg.attributes@[m]@,
            found is None ==> first_username(attrs) == first_username(attrs.skip(k as int)),
            match found {
                Some(u) => first_username(attrs) matches Some(n) && n == u@->Username_name,
                None => true,
            },
        decreases attrs.len() - k,
    {
        if found.is_none() {
            match &msg.attributes[k] {
                crate::stun::attribute::Attribute::Username(u) => {
                    proof {
                        assert(attrs.skip(k as int)[0] == attrs[k as int]);
                    }
                    found = Some(u);
                },
                _ => {
                    proof {
                        assert(attrs.skip(k as int)[0] == attrs[k as int]);
                        assert(attrs.skip(k as int).drop_first() =~= attrs.skip(k + 1));
                    }
                },
            }
        }
        k = k + 1;
    }
    let uname = match found {
        Some(u) => u,
        None => {
            proof {
                assert(attrs.skip(attrs.len() as int) =~= Seq::<
                    crate::stun::attribute::AttributeV,
                >::empty());
            }
            return None;
        },
    };
    let name = uname.as_str();
    let name_bytes = name.as_bytes();
    if name_bytes.len() > 513 {
        return None;
    }
    let a1 = crate::stun::attribute::Attribute::username(name);
    let a2 = crate::stun::attribute::Attribute::xor_mapped_address(src.ip, src.port);
    let ghost attrs0 = seq![a1@, a2@];
    proof {
        assert(vstd::utf8::encode_utf8(name@).len() <= 513);
        assert(a1@.wf());
        assert(a2@.wf());
        crate::stun::attribute::lemma_attrs_bytes_concat(seq![a1@], seq![a2@]);
        assert(seq![a1@] + seq![a2@] =~= attrs0);
        crate::stun::attribute::lemma_attrs_bytes_singleton(a1@);
        crate::stun::attribute::lemma_attrs_bytes_singleton(a2@);
        crate::stun::laws::lemma_attr_bytes_len(a1@);
        crate::stun::laws::lemma_attr_bytes_len(a2@);
    }
    let mut attrs_vec: Vec<crate::stun::attribute::Attribute> = Vec::new();
    attrs_vec.push(a1);
    attrs_vec.push(a2);
    proof {
        assert(attrs_vec@.map_values(|a: crate::stun::attribute::Attribute| a@) =~= attrs0);
    }
    let tid = msg.header.transaction_id;
    let base = crate::stun::Message::base(
        crate::stun::Header::new(
            crate::stun::Method::Binding,
            crate::stun::Class::Success,
            tid,
        ),
    );
    let with_attrs = base.with_attributes(attrs_vec);
    let with_mi = with_attrs.with_message_integrity(key);
    proof {
        assert(with_mi@.attributes =~= attrs0.push(
            crate::stun::attribute::AttributeV::MessageIntegrity {
                tag: crate::crypto::hmac_sha1_of(
                    key@,
                    crate::stun::message_bytes(
                        crate::stun::MessageV {
                            header: with_attrs@.header,
                            attributes: attrs0,
                        }.with_length_raised(24),
                    ),
                ),
            },
        ));
        assert(crate::stun::MessageV { header: with_attrs@.header, attributes: attrs0 }
            =~= with_attrs@);
    }
    let with_fp = with_mi.with_fingerprint();
    let ghost reply = binding_reply_v(tid@, name@, src.ip.octets@, src.port, key@);
    proof {
        assert(with_fp@.attributes =~= reply.attributes);
        assert(with_fp@.header == reply.header);
    }
    let bytes = with_fp.to_bytes();
    Some(bytes)
}

} // verus!
// The interoperability law of candidate emission: every candidate attribute
// the agent emits parses back, as the grammar the agent itself applies to
// remote candidates.
verus! {

/// Powers of ten.
pub open spec fn pow10(k: int) -> int
    decreases k,
{
    if k <= 0 {
        1
    } else {
        10 * pow10(k - 1)
    }
}

/// A number below the k-th power of ten has at most k decimal digits.
pub proof fn lemma_dec_rep_len(n: int, k: int)
    requires
        n >= 0,
        k >= 1,
        n < pow10(k),
    ensures
        dec_rep(n).len() <= k,
    decreases k,
{
    if n < 10 {
    } else {
        assert(pow10(k) == 10 * pow10(k - 1));
        assert(n / 10 < pow10(k - 1));
        assert(k - 1 >= 1) by {
            if k == 1 {
                assert(pow10(1) == 10);
            }
        }
        lemma_dec_rep_len(n / 10, k - 1);
    }
}

/// A run of ICE characters ending at a non-ICE character scans exactly.
pub proof fn lemma_ice_end_exact(s: Seq<char>, i: int, n: int)
    requires
        0 <= i,
        0 <= n,
        i + n <= s.len(),
        forall|k: int| i <= k < i + n ==> is_ice_char(#[trigger] s[k]),
        i + n == s.len() || !is_ice_char(s[i + n]),
    ensures
        ice_end(s, i) == i + n,
    decreases n,
{
    if n > 0 {
        lemma_ice_end_exact(s, i + 1, n - 1);
    }
}

/// A run of token characters ending at a non-token character scans exactly.
pub proof fn lemma_tok_end_exact(s: Seq<char>, i: int, n: int)
    requires
        0 <= i,
        0 <= n,
        i + n <= s.len(),
        forall|k: int| i <= k < i + n ==> is_tok_char(#[trigger] s[k]),
        i + n == s.len() || !is_tok_char(s[i + n]),
    ensures
        tok_end(s, i) == i + n,
    decreases n,
{
    if n > 0 {
        lemma_tok_end_exact(s, i + 1, n - 1);
    }
}

/// A digit run standing for a number, followed by a given character, reads
/// back as that number.
proof fn lemma_number_before(s: Seq<char>, i: int, n: int)
    requires
        0 <= n,
        0 <= i,
        i + dec_rep(n).len() < s.len(),
        s.subrange(i, i + dec_rep(n).len()) == dec_rep(n),
        !crate::text::is_digit(s[i + dec_rep(n).len()]),
    ensures
        digits_end(s, i) == i + dec_rep(n).len(),
        digits_val(s, i, i + dec_rep(n).len()) == n,
{
    let d = dec_rep(n);
    crate::text::lemma_dec_rep_digits(n);
    assert forall|k: int| i <= k < i + d.len() implies crate::text::is_digit(#[trigger] s[k]) by {
        assert(s.subrange(i, i + d.len())[k - i] == s[k]);
    }
    crate::text::lemma_digits_end_exact(s, i, d.len() as int);
    crate::text::lemma_digits_val_of_rep(s, i, n);
}

/// The piece offsets inside an emitted candidate value: the end of the
/// foundation, the start of the priority, the start of the address, the
/// start of the port digits, and the position of the `typ` word.
pub open spec fn lv_offsets(f: int, c: LocalCandidateV) -> (int, int, int, int, int) {
    let a1 = dec_rep(f).len() as int;
    let p2 = a1 + 7;
    let p3 = p2 + dec_rep(host_priority()).len() as int + 1;
    let p5 = p3 + dotted_quad(c.ip).len() as int + 1;
    let p6 = p5 + dec_rep(c.port as int).len() as int + 1;
    (a1, p2, p3, p5, p6)
}

#[verifier::rlimit(100)]
proof fn lemma_lv_head(f: int, c: LocalCandidateV)
    requires
        0 <= f <= u64::MAX,
        c.ip.len() == 4,
    ensures
        ({
            let s = local_candidate_value(f, c);
            let (a1, p2, p3, p5, p6) = lv_offsets(f, c);
            &&& ice_end(s, 0) == a1
            &&& 1 <= a1 <= 32
            &&& a1 < s.len() && s[a1] == ' '
            &&& parse_num_sp_s(s, a1 + 1, 65535) == Some((1int, a1 + 3))
            &&& tok_end(s, a1 + 3) == a1 + 6
            &&& a1 + 6 < s.len() && s[a1 + 6] == ' '
            &&& transport_of(s.subrange(a1 + 3, a1 + 6)) == Some(Transport::Udp)
        }),
{
    let s = local_candidate_value(f, c);
    let t = s;
    assert(s.subrange(0, s.len() as int) =~= s);
    let df = dec_rep(f);
    crate::text::lemma_dec_rep_digits(f);
    assert(u64::MAX < pow10(20)) by {
        reveal_with_fuel(pow10, 21);
    }
    lemma_dec_rep_len(f, 20);
    let a1 = df.len() as int;
    assert(t.subrange(0, a1) =~= df);
    crate::sdp::lemma_piece(s, 0, t, 0, df);
    assert forall|k: int| 0 <= k < a1 implies is_ice_char(#[trigger] s[k]) by {
        assert(s.subrange(0, a1)[k] == s[k]);
        assert(crate::text::is_digit(df[k]));
    }
    crate::sdp::lemma_char_at(s, 0, t, a1);
    assert(t[a1] == ' ');
    lemma_ice_end_exact(s, 0, a1);
    crate::sdp::lemma_char_at(s, 0, t, a1 + 1);
    crate::sdp::lemma_char_at(s, 0, t, a1 + 2);
    crate::sdp::lemma_char_at(s, 0, t, a1 + 3);
    crate::sdp::lemma_char_at(s, 0, t, a1 + 4);
    crate::sdp::lemma_char_at(s, 0, t, a1 + 5);
    crate::sdp::lemma_char_at(s, 0, t, a1 + 6);
    assert(t[a1 + 1] == '1' && t[a1 + 2] == ' ' && t[a1 + 3] == 'u' && t[a1 + 4] == 'd' && t[a1
        + 5] == 'p' && t[a1 + 6] == ' ');
    assert(crate::text::is_digit(s[a1 + 1]));
    crate::text::lemma_digits_end_exact(s, a1 + 1, 1);
    assert(digits_val(s, a1 + 1, a1 + 1) == 0);
    assert(digits_val(s, a1 + 1, a1 + 2) == digits_val(s, a1 + 1, a1 + 1) * 10
        + crate::text::digit_val(s[a1 + 1]));
    let p1 = a1 + 3;
    assert(is_tok_char(s[p1]) && is_tok_char(s[p1 + 1]) && is_tok_char(s[p1 + 2]));
    assert(!is_tok_char(s[p1 + 3]));
    lemma_tok_end_exact(s, p1, 3);
    assert(s.subrange(p1, p1 + 3) =~= seq!['u', 'd', 'p']);
}

#[verifier::rlimit(100)]
proof fn lemma_lv_mid(f: int, c: LocalCandidateV)
    requires
        0 <= f <= u64::MAX,
        c.ip.len() == 4,
    ensures
        ({
            let s = local_candidate_value(f, c);
            let (a1, p2, p3, p5, p6) = lv_offsets(f, c);
            &&& parse_num_sp_s(s, p2, 0xFFFFFFFF) == Some((host_priority(), p3))
            &&& parse_ipv4_s(s, p3) == Some(
                ((c.ip[0] as int, c.ip[1] as int, c.ip[2] as int, c.ip[3] as int), p5 - 1),
            )
            &&& p5 - 1 < s.len() && s[p5 - 1] == ' '
            &&& parse_num_sp_s(s, p5, 65535) == Some((c.port as int, p6))
        }),
{
    let s = local_candidate_value(f, c);
    let t = s;
    assert(s.subrange(0, s.len() as int) =~= s);
    let (a1, p2, p3, p5, p6) = lv_offsets(f, c);
    let dp = dec_rep(host_priority());
    let d0 = dec_rep(c.ip[0] as int);
    let d1 = dec_rep(c.ip[1] as int);
    let d2 = dec_rep(c.ip[2] as int);
    let d3 = dec_rep(c.ip[3] as int);
    let dq = dotted_quad(c.ip);
    let dport = dec_rep(c.port as int);
    crate::text::lemma_dec_rep_digits(host_priority());
    crate::text::lemma_dec_rep_digits(c.ip[0] as int);
    crate::text::lemma_dec_rep_digits(c.ip[1] as int);
    crate::text::lemma_dec_rep_digits(c.ip[2] as int);
    crate::text::lemma_dec_rep_digits(c.ip[3] as int);
    crate::text::lemma_dec_rep_digits(c.port as int);
    let a2 = p2 + dp.len() as int;
    assert(t.subrange(p2, a2) =~= dp);
    crate::sdp::lemma_piece(s, 0, t, p2, dp);
    crate::sdp::lemma_char_at(s, 0, t, a2);
    assert(t[a2] == ' ');
    lemma_number_before(s, p2, host_priority());
    assert(t.subrange(p3, p3 + dq.len() as int) =~= dq);
    crate::sdp::lemma_piece(s, 0, t, p3, dq);
    let b0 = p3;
    let b1 = b0 + d0.len() as int + 1;
    let b2 = b1 + d1.len() as int + 1;
    let b3 = b2 + d2.len() as int + 1;
    let p4 = b3 + d3.len() as int;
    assert(dq.subrange(0, d0.len() as int) =~= d0);
    crate::sdp::lemma_piece(s, p3, dq, 0, d0);
    crate::sdp::lemma_char_at(s, p3, dq, d0.len() as int);
    assert(dq[d0.len() as int] == '.');
    lemma_number_before(s, b0, c.ip[0] as int);
    assert(dq.subrange(b1 - p3, b1 - p3 + d1.len() as int) =~= d1);
    crate::sdp::lemma_piece(s, p3, dq, b1 - p3, d1);
    crate::sdp::lemma_char_at(s, p3, dq, b1 - p3 + d1.len() as int);
    assert(dq[b1 - p3 + d1.len() as int] == '.');
    lemma_number_before(s, b1, c.ip[1] as int);
    assert(dq.subrange(b2 - p3, b2 - p3 + d2.len() as int) =~= d2);
    crate::sdp::lemma_piece(s, p3, dq, b2 - p3, d2);
    crate::sdp::lemma_char_at(s, p3, dq, b2 - p3 + d2.len() as int);
    assert(dq[b2 - p3 + d2.len() as int] == '.');
    lemma_number_before(s, b2, c.ip[2] as int);
    assert(dq.subrange(b3 - p3, b3 - p3 + d3.len() as int) =~= d3);
    crate::sdp::lemma_piece(s, p3, dq, b3 - p3, d3);
    crate::sdp::lemma_char_at(s, 0, t, p4);
    assert(t[p4] == ' ');
    lemma_number_before(s, b3, c.ip[3] as int);
    let a5 = p5 + dport.len() as int;
    assert(t.subrange(p5, a5) =~= dport);
    crate::sdp::lemma_piece(s, 0, t, p5, dport);
    crate::sdp::lemma_char_at(s, 0, t, a5);
    assert(t[a5] == ' ');
    lemma_number_before(s, p5, c.port as int);
}

/// The candidate attributes the agent emits parse back: the grammar accepts
/// them, and the candidate it reads carries the same address and the host
/// type.
#[verifier::rlimit(100)]
pub proof fn lemma_emitted_candidate_parses(f: int, c: LocalCandidateV)
    requires
        0 <= f <= u64::MAX,
        c.ip.len() == 4,
    ensures
        parse_candidate_s(local_candidate_value(f, c)) == Ok::<RemoteCandidateV, ErrorV>(
            RemoteCandidateV { ip: c.ip, port: c.port, ty: CandidateType::Host },
        ),
{
    let s = local_candidate_value(f, c);
    let t = s;
    assert(s.subrange(0, s.len() as int) =~= s);
    let (a1, p2, p3, p5, p6) = lv_offsets(f, c);
    lemma_lv_head(f, c);
    lemma_lv_mid(f, c);
    crate::sdp::lemma_char_at(s, 0, t, p6);
    crate::sdp::lemma_char_at(s, 0, t, p6 + 1);
    crate::sdp::lemma_char_at(s, 0, t, p6 + 2);
    crate::sdp::lemma_char_at(s, 0, t, p6 + 3);
    crate::sdp::lemma_char_at(s, 0, t, p6 + 4);
    crate::sdp::lemma_char_at(s, 0, t, p6 + 5);
    crate::sdp::lemma_char_at(s, 0, t, p6 + 6);
    crate::sdp::lemma_char_at(s, 0, t, p6 + 7);
    assert(t[p6] == 't' && t[p6 + 1] == 'y' && t[p6 + 2] == 'p' && t[p6 + 3] == ' ');
    assert(t[p6 + 4] == 'h' && t[p6 + 5] == 'o' && t[p6 + 6] == 's' && t[p6 + 7] == 't');
    assert(p6 + 8 == s.len());
    assert(is_tok_char(s[p6 + 4]) && is_tok_char(s[p6 + 5]) && is_tok_char(s[p6 + 6])
        && is_tok_char(s[p6 + 7]));
    lemma_tok_end_exact(s, p6 + 4, 4);
    assert(s.subrange(p6 + 4, p6 + 8) =~= seq!['h', 'o', 's', 't']);
    assert(candidate_type_of(s.subrange(p6 + 4, p6 + 8)) == Some(CandidateType::Host));
    assert(rest_is_extensions(s, p6 + 8));
    assert(seq![c.ip[0], c.ip[1], c.ip[2], c.ip[3]] =~= c.ip);
}

} // verus!
