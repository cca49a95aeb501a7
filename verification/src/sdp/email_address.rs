//! The `e=` email address line.

use vstd::prelude::*;

use crate::sdp::{lemma_line_field_roundtrip, line_field_text, no_crlf, parse_line_field,
    parse_line_field_s, write_line_field};
use crate::text::chars_to_string;

verus! {

/// An email address for the session originator.
#[derive(Clone, Debug, PartialEq, Eq)]
pub struct EmailAddress(pub String);

impl View for EmailAddress {
    type V = Seq<char>;

    open spec fn view(&self) -> Seq<char> {
        self.0@
    }
}

/// The text of a email address line.
pub open spec fn email_address_text(body: Seq<char>) -> Seq<char> {
    line_field_text('e', body)
}

/// Parse a email address line.
pub open spec fn parse_email_address_s(s: Seq<char>, i: int) -> Option<(Seq<char>, int)> {
    parse_line_field_s(s, i, 'e')
}

impl EmailAddress {
    /// Append the line's text.
    pub fn write(&self, out: &mut Vec<char>)
        ensures
            final(out)@ == old(out)@ + email_address_text(self@),
    {
        write_line_field(out, 'e', self.0.as_str());
    }

    /// The line, serialized.
    pub fn to_string(&self) -> (r: String)
        ensures
            r@ == email_address_text(self@),
    {
        let mut out: Vec<char> = Vec::new();
        self.write(&mut out);
        chars_to_string(&out)
    }
}

/// Parse a email address line: exactly what [`parse_email_address_s`] says.
pub fn email_address(s: &Vec<char>, i: usize) -> (r: Option<(EmailAddress, usize)>)
    requires
        i <= s@.len(),
    ensures
        match r {
            Some((v, j)) => parse_email_address_s(s@, i as int) == Some((v@, j as int)) && i < j
                <= s@.len(),
            None => parse_email_address_s(s@, i as int) is None,
        },
{
    match parse_line_field(s, i, 'e') {
        None => None,
        Some((body, j)) => Some((EmailAddress(body), j)),
    }
}

/// Parsing a serialized email address line gives back its body.
pub proof fn lemma_email_address_roundtrip(s: Seq<char>, i: int, body: Seq<char>)
    requires
        no_crlf(body),
        0 <= i,
        i + email_address_text(body).len() <= s.len(),
        s.subrange(i, i + email_address_text(body).len()) == email_address_text(body),
    ensures
        parse_email_address_s(s, i) == Some((body, i + email_address_text(body).len())),
{
    lemma_line_field_roundtrip(s, i, 'e', body);
}

} // verus!

// A list of email address lines, as the session grammar uses them.
verus! {

/// The text of a list of email address lines.
pub open spec fn email_addresses_text(list: Seq<Seq<char>>) -> Seq<char>
    decreases list.len(),
{
    if list.len() == 0 {
        Seq::empty()
    } else {
        email_address_text(list[0]) + email_addresses_text(list.drop_first())
    }
}

/// Splitting a list of email address lines splits its text.
pub proof fn lemma_email_addresses_text_concat(s1: Seq<Seq<char>>, s2: Seq<Seq<char>>)
    ensures
        email_addresses_text(s1 + s2) == email_addresses_text(s1) + email_addresses_text(s2),
    decreases s1.len(),
{
    if s1.len() == 0 {
        assert(s1 + s2 =~= s2);
        assert(email_addresses_text(s1) + email_addresses_text(s2) =~= email_addresses_text(s2));
    } else {
        assert((s1 + s2).drop_first() =~= s1.drop_first() + s2);
        lemma_email_addresses_text_concat(s1.drop_first(), s2);
        assert(email_addresses_text(s1 + s2) =~= email_addresses_text(s1) + email_addresses_text(s2));
    }
}

/// The text of a single email address line, as a one-element list.
pub proof fn lemma_email_addresses_text_singleton(x: Seq<char>)
    ensures
        email_addresses_text(seq![x]) == email_address_text(x),
{
    assert(seq![x].drop_first() =~= Seq::<Seq<char>>::empty());
    assert(email_addresses_text(Seq::<Seq<char>>::empty()) =~= Seq::<char>::empty());
    assert(email_addresses_text(seq![x]) =~= email_address_text(x));
}

/// Parse email address lines for as long as they parse.
pub open spec fn parse_email_addresses_s(s: Seq<char>, i: int) -> (Seq<Seq<char>>, int)
    decreases s.len() - i,
{
    match parse_email_address_s(s, i) {
        None => (Seq::empty(), i),
        Some((x, j)) => {
            if i < j <= s.len() {
                let (rest, k) = parse_email_addresses_s(s, j);
                (seq![x] + rest, k)
            } else {
                (Seq::empty(), i)
            }
        },
    }
}

/// Parse email address lines: exactly what [`parse_email_addresses_s`] says.
pub fn email_addresses(s: &Vec<char>, i: usize) -> (r: (Vec<EmailAddress>, usize))
    requires
        i <= s@.len(),
    ensures
        parse_email_addresses_s(s@, i as int) == (r.0@.map_values(|x: EmailAddress| x@), r.1 as int),
        i <= r.1 <= s@.len(),
{
    let mut out: Vec<EmailAddress> = Vec::new();
    let mut pos: usize = i;
    loop
        invariant
            i <= pos <= s@.len(),
            parse_email_addresses_s(s@, i as int) == {
                let (rest, k) = parse_email_addresses_s(s@, pos as int);
                (out@.map_values(|x: EmailAddress| x@) + rest, k)
            },
        decreases s@.len() - pos,
    {
        match email_address(s, pos) {
            None => {
                assert(parse_email_addresses_s(s@, pos as int) == (Seq::<Seq<char>>::empty(), pos as int));
                assert(out@.map_values(|x: EmailAddress| x@) + Seq::<Seq<char>>::empty() =~= out@.map_values(
                    |x: EmailAddress| x@,
                ));
                return (out, pos);
            },
            Some((x, j)) => {
                let ghost before = out@.map_values(|y: EmailAddress| y@);
                let ghost xv = x@;
                out.push(x);
                proof {
                    assert(out@.map_values(|y: EmailAddress| y@) =~= before + seq![xv]);
                    assert forall|rest: Seq<Seq<char>>| true implies (before + (seq![xv] + rest)) =~= ((
                    before + seq![xv]) + rest) by {}
                }
                pos = j;
            },
        }
    }
}

/// Parsing the serialization of a list of email address lines, with no such line
/// after it, gives back the list.
pub proof fn lemma_email_addresses_roundtrip(s: Seq<char>, i: int, list: Seq<Seq<char>>)
    requires
        forall|k: int| 0 <= k < list.len() ==> crate::sdp::no_crlf(#[trigger] list[k]),
        0 <= i,
        i + email_addresses_text(list).len() <= s.len(),
        s.subrange(i, i + email_addresses_text(list).len()) == email_addresses_text(list),
        i + email_addresses_text(list).len() == s.len() || s[i + email_addresses_text(list).len()] != 'e',
    ensures
        parse_email_addresses_s(s, i) == (list, i + email_addresses_text(list).len()),
    decreases list.len(),
{
    let t = email_addresses_text(list);
    if list.len() == 0 {
        if i < s.len() {
            assert(s[i] != 'e');
        }
        assert(parse_email_address_s(s, i) is None);
    } else {
        let x0 = list[0];
        let xt = email_address_text(x0);
        let rest = list.drop_first();
        assert(t == xt + email_addresses_text(rest));
        assert(t.subrange(0, xt.len() as int) =~= xt);
        crate::sdp::lemma_piece(s, i, t, 0, xt);
        lemma_email_address_roundtrip(s, i, x0);
        assert(xt.len() >= 4);
        let j = i + xt.len() as int;
        assert(t.subrange(xt.len() as int, t.len() as int) =~= email_addresses_text(rest));
        crate::sdp::lemma_piece(s, i, t, xt.len() as int, email_addresses_text(rest));
        lemma_email_addresses_roundtrip(s, j, rest);
        assert(seq![x0] + rest =~= list);
    }
}

} // verus!
