//! The `v=` protocol version line.

use vstd::prelude::*;

use crate::sdp::{eat_crlf};
use crate::text::{chars_to_string, dec_rep, digits_end, digits_val, lemma_dec_rep_digits,
    lemma_digits_end_exact, lemma_digits_val_of_rep, push_dec_u64, scan_u64};

verus! {

/// The protocol version; RFC 4566 fixes it at zero, the codec carries any
/// 8-bit value.
#[derive(Clone, Copy, Debug, PartialEq, Eq, Structural)]
pub struct Version(pub u8);

impl View for Version {
    type V = u8;

    open spec fn view(&self) -> u8 {
        self.0
    }
}

/// The text of a version line.
pub open spec fn version_text(v: u8) -> Seq<char> {
    seq!['v', '='] + dec_rep(v as int) + seq!['\r', '\n']
}

/// Parse a version line: `v=`, decimal digits fitting 8 bits, line ending.
pub open spec fn parse_version_s(s: Seq<char>, i: int) -> Option<(u8, int)> {
    if i + 2 <= s.len() && s[i] == 'v' && s[i + 1] == '=' {
        let j = digits_end(s, i + 2);
        if j == i + 2 {
            None
        } else {
            let v = digits_val(s, i + 2, j);
            if v > 255 {
                None
            } else {
                match eat_crlf(s, j) {
                    None => None,
                    Some(k) => Some((v as u8, k)),
                }
            }
        }
    } else {
        None
    }
}

impl Version {
    /// Append the version line's text.
    pub fn write(&self, out: &mut Vec<char>)
        ensures
            final(out)@ == old(out)@ + version_text(self.0),
    {
        out.push('v');
        out.push('=');
        push_dec_u64(out, self.0 as u64);
        out.push('\r');
        out.push('\n');
        assert(out@ =~= old(out)@ + version_text(self.0));
    }

    /// The version line, serialized.
    pub fn to_string(&self) -> (r: String)
        ensures
            r@ == version_text(self.0),
    {
        let mut out: Vec<char> = Vec::new();
        self.write(&mut out);
        chars_to_string(&out)
    }
}

/// Parse a version line: exactly what [`parse_version_s`] says.
pub fn version(s: &Vec<char>, i: usize) -> (r: Option<(Version, usize)>)
    requires
        i <= s@.len(),
    ensures
        match r {
            Some((v, j)) => parse_version_s(s@, i as int) == Some((v@, j as int)) && i < j
                <= s@.len(),
            None => parse_version_s(s@, i as int) is None,
        },
{
    if s.len() - i < 2 || s[i] != 'v' || s[i + 1] != '=' {
        return None;
    }
    match scan_u64(s, i + 2) {
        None => None,
        Some((v, j)) => {
            if v > 255 {
                return None;
            }
            match crate::sdp::take_crlf(s, j) {
                None => None,
                Some(k) => Some((Version(v as u8), k)),
            }
        },
    }
}

/// Parsing a serialized version line gives back the version.
pub proof fn lemma_version_roundtrip(s: Seq<char>, i: int, v: u8)
    requires
        0 <= i,
        i + version_text(v).len() <= s.len(),
        s.subrange(i, i + version_text(v).len()) == version_text(v),
    ensures
        parse_version_s(s, i) == Some((v, i + version_text(v).len())),
{
    let t = version_text(v);
    let d = dec_rep(v as int);
    let n = d.len() as int;
    lemma_dec_rep_digits(v as int);
    crate::sdp::lemma_char_at(s, i, t, 0);
    crate::sdp::lemma_char_at(s, i, t, 1);
    assert(t[0] == 'v' && t[1] == '=');
    assert(t.subrange(2, 2 + n) =~= d);
    crate::sdp::lemma_piece(s, i, t, 2, d);
    assert forall|k: int| i + 2 <= k < i + 2 + n implies crate::text::is_digit(#[trigger] s[k])
        by {
        assert(s.subrange(i + 2, i + 2 + n)[k - (i + 2)] == s[k]);
    }
    crate::sdp::lemma_char_at(s, i, t, 2 + n);
    assert(t[2 + n] == '\r');
    lemma_digits_end_exact(s, i + 2, n);
    lemma_digits_val_of_rep(s, i + 2, v as int);
    crate::sdp::lemma_char_at(s, i, t, 3 + n);
    assert(t[3 + n] == '\n');
}

} // verus!
