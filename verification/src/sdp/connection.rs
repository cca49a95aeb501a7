//! The `c=` connection information line.

use vstd::prelude::*;

use crate::sdp::{
    is_token, lemma_line_rest_roundtrip, lemma_token_roundtrip, no_crlf, parse_line_rest,
    parse_line_rest_s, parse_token, parse_token_s,
};
use crate::text::{chars_to_string, push_str_chars};

verus! {

/// Connection data: network type, address type, and connection address.
#[derive(Clone, Debug, PartialEq, Eq)]
pub struct Connection {
    pub network_type: String,
    pub address_type: String,
    pub connection_address: String,
}

/// Spec-level value of a [`Connection`].
pub struct ConnectionV {
    pub network_type: Seq<char>,
    pub address_type: Seq<char>,
    pub connection_address: Seq<char>,
}

impl View for Connection {
    type V = ConnectionV;

    open spec fn view(&self) -> ConnectionV {
        ConnectionV {
            network_type: self.network_type@,
            address_type: self.address_type@,
            connection_address: self.connection_address@,
        }
    }
}

impl ConnectionV {
    /// A well-formed connection: space-separated fields, address on the
    /// line.
    pub open spec fn wf(self) -> bool {
        &&& is_token(self.network_type)
        &&& is_token(self.address_type)
        &&& no_crlf(self.connection_address)
    }
}

/// The text of a connection line.
pub open spec fn connection_text(c: ConnectionV) -> Seq<char> {
    seq!['c', '='] + c.network_type + seq![' '] + c.address_type + seq![' ']
        + c.connection_address + seq!['\r', '\n']
}

/// Parse a connection line: three space-separated fields after the `c=`
/// tag.
pub open spec fn parse_connection_s(s: Seq<char>, i: int) -> Option<(ConnectionV, int)> {
    if i + 2 <= s.len() && s[i] == 'c' && s[i + 1] == '=' {
        match parse_token_s(s, i + 2) {
            None => None,
            Some((network_type, j0)) => {
                if j0 < s.len() && s[j0] == ' ' {
                    match parse_token_s(s, j0 + 1) {
                        None => None,
                        Some((address_type, j1)) => {
                            if j1 < s.len() && s[j1] == ' ' {
                                match parse_line_rest_s(s, j1 + 1) {
                                    None => None,
                                    Some((connection_address, k)) => Some(
                                        (
                                            ConnectionV {
                                                network_type,
                                                address_type,
                                                connection_address,
                                            },
                                            k,
                                        ),
                                    ),
                                }
                            } else {
                                None
                            }
                        },
                    }
                } else {
                    None
                }
            },
        }
    } else {
        None
    }
}

impl Connection {
    /// Append the connection line's text.
    pub fn write(&self, out: &mut Vec<char>)
        ensures
            final(out)@ == old(out)@ + connection_text(self@),
    {
        out.push('c');
        out.push('=');
        push_str_chars(out, self.network_type.as_str());
        out.push(' ');
        push_str_chars(out, self.address_type.as_str());
        out.push(' ');
        push_str_chars(out, self.connection_address.as_str());
        out.push('\r');
        out.push('\n');
        assert(out@ =~= old(out)@ + connection_text(self@));
    }

    /// The connection line, serialized.
    pub fn to_string(&self) -> (r: String)
        ensures
            r@ == connection_text(self@),
    {
        let mut out: Vec<char> = Vec::new();
        self.write(&mut out);
        chars_to_string(&out)
    }
}

/// Parse a connection line: exactly what [`parse_connection_s`] says.
pub fn connection(s: &Vec<char>, i: usize) -> (r: Option<(Connection, usize)>)
    requires
        i <= s@.len(),
    ensures
        match r {
            Some((c, j)) => parse_connection_s(s@, i as int) == Some((c@, j as int)) && i < j
                <= s@.len(),
            None => parse_connection_s(s@, i as int) is None,
        },
{
    if s.len() - i < 2 || s[i] != 'c' || s[i + 1] != '=' {
        return None;
    }
    let (network_type, j0) = match parse_token(s, i + 2) {
        None => {
            return None;
        },
        Some(p) => p,
    };
    if !(j0 < s.len() && s[j0] == ' ') {
        return None;
    }
    let (address_type, j1) = match parse_token(s, j0 + 1) {
        None => {
            return None;
        },
        Some(p) => p,
    };
    if !(j1 < s.len() && s[j1] == ' ') {
        return None;
    }
    let (connection_address, k) = match parse_line_rest(s, j1 + 1) {
        None => {
            return None;
        },
        Some(p) => p,
    };
    Some((Connection { network_type, address_type, connection_address }, k))
}

/// Parsing a serialized connection line gives back the connection.
pub proof fn lemma_connection_roundtrip(s: Seq<char>, i: int, c: ConnectionV)
    requires
        c.wf(),
        0 <= i,
        i + connection_text(c).len() <= s.len(),
        s.subrange(i, i + connection_text(c).len()) == connection_text(c),
    ensures
        parse_connection_s(s, i) == Some((c, i + connection_text(c).len())),
{
    let t = connection_text(c);
    let a0 = 2int;
    let a1 = a0 + c.network_type.len() + 1;
    let a2 = a1 + c.address_type.len() + 1;
    crate::sdp::lemma_char_at(s, i, t, 0);
    crate::sdp::lemma_char_at(s, i, t, 1);
    assert(t[0] == 'c' && t[1] == '=');
    assert(t.subrange(a0, a0 + c.network_type.len()) =~= c.network_type);
    crate::sdp::lemma_piece(s, i, t, a0, c.network_type);
    crate::sdp::lemma_char_at(s, i, t, a0 + c.network_type.len());
    assert(t[a0 + c.network_type.len()] == ' ');
    lemma_token_roundtrip(s, i + a0, c.network_type);
    assert(t.subrange(a1, a1 + c.address_type.len()) =~= c.address_type);
    crate::sdp::lemma_piece(s, i, t, a1, c.address_type);
    crate::sdp::lemma_char_at(s, i, t, a1 + c.address_type.len());
    assert(t[a1 + c.address_type.len()] == ' ');
    lemma_token_roundtrip(s, i + a1, c.address_type);
    assert(t.subrange(a2, a2 + c.connection_address.len()) =~= c.connection_address);
    crate::sdp::lemma_piece(s, i, t, a2, c.connection_address);
    crate::sdp::lemma_char_at(s, i, t, a2 + c.connection_address.len());
    assert(t[a2 + c.connection_address.len()] == '\r');
    crate::sdp::lemma_char_at(s, i, t, a2 + c.connection_address.len() + 1);
    assert(t[a2 + c.connection_address.len() + 1] == '\n');
    lemma_line_rest_roundtrip(s, i + a2, c.connection_address);
}

} // verus!
