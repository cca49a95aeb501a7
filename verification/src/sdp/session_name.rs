//! The `s=` session name line.

use vstd::prelude::*;

use crate::sdp::{lemma_line_field_roundtrip, line_field_text, no_crlf, parse_line_field,
    parse_line_field_s, write_line_field};
use crate::text::chars_to_string;

verus! {

/// The session name: any one-line text.
#[derive(Clone, Debug, PartialEq, Eq)]
pub struct SessionName(pub String);

impl View for SessionName {
    type V = Seq<char>;

    open spec fn view(&self) -> Seq<char> {
        self.0@
    }
}

/// The text of a session name line.
pub open spec fn session_name_text(body: Seq<char>) -> Seq<char> {
    line_field_text('s', body)
}

/// Parse a session name line.
pub open spec fn parse_session_name_s(s: Seq<char>, i: int) -> Option<(Seq<char>, int)> {
    parse_line_field_s(s, i, 's')
}

impl SessionName {
    /// A session name over the given text.
    pub fn new(raw: &str) -> (r: SessionName)
        ensures
            r@ == raw@,
    {
        SessionName(raw.to_owned())
    }

    /// Append the line's text.
    pub fn write(&self, out: &mut Vec<char>)
        ensures
            final(out)@ == old(out)@ + session_name_text(self@),
    {
        write_line_field(out, 's', self.0.as_str());
    }

    /// The line, serialized.
    pub fn to_string(&self) -> (r: String)
        ensures
            r@ == session_name_text(self@),
    {
        let mut out: Vec<char> = Vec::new();
        self.write(&mut out);
        chars_to_string(&out)
    }
}

/// Parse a session name line: exactly what [`parse_session_name_s`] says.
pub fn session_name(s: &Vec<char>, i: usize) -> (r: Option<(SessionName, usize)>)
    requires
        i <= s@.len(),
    ensures
        match r {
            Some((v, j)) => parse_session_name_s(s@, i as int) == Some((v@, j as int)) && i < j
                <= s@.len(),
            None => parse_session_name_s(s@, i as int) is None,
        },
{
    match parse_line_field(s, i, 's') {
        None => None,
        Some((body, j)) => Some((SessionName(body), j)),
    }
}

/// Parsing a serialized session name line gives back its body.
pub proof fn lemma_session_name_roundtrip(s: Seq<char>, i: int, body: Seq<char>)
    requires
        no_crlf(body),
        0 <= i,
        i + session_name_text(body).len() <= s.len(),
        s.subrange(i, i + session_name_text(body).len()) == session_name_text(body),
    ensures
        parse_session_name_s(s, i) == Some((body, i + session_name_text(body).len())),
{
    lemma_line_field_roundtrip(s, i, 's', body);
}

} // verus!
