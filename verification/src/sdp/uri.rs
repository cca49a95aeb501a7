//! The `u=` URI line.

use vstd::prelude::*;

use crate::sdp::{lemma_line_field_roundtrip, line_field_text, no_crlf, parse_line_field,
    parse_line_field_s, write_line_field};
use crate::text::chars_to_string;

verus! {

/// A URI pointing at more information about the session.
#[derive(Clone, Debug, PartialEq, Eq)]
pub struct URI(pub String);

impl View for URI {
    type V = Seq<char>;

    open spec fn view(&self) -> Seq<char> {
        self.0@
    }
}

/// The text of a URI line.
pub open spec fn uri_text(body: Seq<char>) -> Seq<char> {
    line_field_text('u', body)
}

/// Parse a URI line.
pub open spec fn parse_uri_s(s: Seq<char>, i: int) -> Option<(Seq<char>, int)> {
    parse_line_field_s(s, i, 'u')
}

impl URI {
    /// Append the line's text.
    pub fn write(&self, out: &mut Vec<char>)
        ensures
            final(out)@ == old(out)@ + uri_text(self@),
    {
        write_line_field(out, 'u', self.0.as_str());
    }

    /// The line, serialized.
    pub fn to_string(&self) -> (r: String)
        ensures
            r@ == uri_text(self@),
    {
        let mut out: Vec<char> = Vec::new();
        self.write(&mut out);
        chars_to_string(&out)
    }
}

/// Parse a URI line: exactly what [`parse_uri_s`] says.
pub fn uri(s: &Vec<char>, i: usize) -> (r: Option<(URI, usize)>)
    requires
        i <= s@.len(),
    ensures
        match r {
            Some((v, j)) => parse_uri_s(s@, i as int) == Some((v@, j as int)) && i < j
                <= s@.len(),
            None => parse_uri_s(s@, i as int) is None,
        },
{
    match parse_line_field(s, i, 'u') {
        None => None,
        Some((body, j)) => Some((URI(body), j)),
    }
}

/// Parsing a serialized URI line gives back its body.
pub proof fn lemma_uri_roundtrip(s: Seq<char>, i: int, body: Seq<char>)
    requires
        no_crlf(body),
        0 <= i,
        i + uri_text(body).len() <= s.len(),
        s.subrange(i, i + uri_text(body).len()) == uri_text(body),
    ensures
        parse_uri_s(s, i) == Some((body, i + uri_text(body).len())),
{
    lemma_line_field_roundtrip(s, i, 'u', body);
}

} // verus!
