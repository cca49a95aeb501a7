//! The `i=` session information line.

use vstd::prelude::*;

use crate::sdp::{lemma_line_field_roundtrip, line_field_text, no_crlf, parse_line_field,
    parse_line_field_s, write_line_field};
use crate::text::chars_to_string;

verus! {

/// A free-text session or media title.
#[derive(Clone, Debug, PartialEq, Eq)]
pub struct SessionInformation(pub String);

impl View for SessionInformation {
    type V = Seq<char>;

    open spec fn view(&self) -> Seq<char> {
        self.0@
    }
}

/// The text of a session information line.
pub open spec fn session_information_text(body: Seq<char>) -> Seq<char> {
    line_field_text('i', body)
}

/// Parse a session information line.
pub open spec fn parse_session_information_s(s: Seq<char>, i: int) -> Option<(Seq<char>, int)> {
    parse_line_field_s(s, i, 'i')
}

impl SessionInformation {
    /// Append the line's text.
    pub fn write(&self, out: &mut Vec<char>)
        ensures
            final(out)@ == old(out)@ + session_information_text(self@),
    {
        write_line_field(out, 'i', self.0.as_str());
    }

    /// The line, serialized.
    pub fn to_string(&self) -> (r: String)
        ensures
            r@ == session_information_text(self@),
    {
        let mut out: Vec<char> = Vec::new();
        self.write(&mut out);
        chars_to_string(&out)
    }
}

/// Parse a session information line: exactly what [`parse_session_information_s`] says.
pub fn session_information(s: &Vec<char>, i: usize) -> (r: Option<(SessionInformation, usize)>)
    requires
        i <= s@.len(),
    ensures
        match r {
            Some((v, j)) => parse_session_information_s(s@, i as int) == Some((v@, j as int)) && i < j
                <= s@.len(),
            None => parse_session_information_s(s@, i as int) is None,
        },
{
    match parse_line_field(s, i, 'i') {
        None => None,
        Some((body, j)) => Some((SessionInformation(body), j)),
    }
}

/// Parsing a serialized session information line gives back its body.
pub proof fn lemma_session_information_roundtrip(s: Seq<char>, i: int, body: Seq<char>)
    requires
        no_crlf(body),
        0 <= i,
        i + session_information_text(body).len() <= s.len(),
        s.subrange(i, i + session_information_text(body).len()) == session_information_text(body),
    ensures
        parse_session_information_s(s, i) == Some((body, i + session_information_text(body).len())),
{
    lemma_line_field_roundtrip(s, i, 'i', body);
}

} // verus!
