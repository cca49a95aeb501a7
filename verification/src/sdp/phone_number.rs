//! The `p=` phone number line.

use vstd::prelude::*;

use crate::sdp::{lemma_line_field_roundtrip, line_field_text, no_crlf, parse_line_field,
    parse_line_field_s, write_line_field};
use crate::text::chars_to_string;

verus! {

/// A phone number for the session originator.
#[derive(Clone, Debug, PartialEq, Eq)]
pub struct PhoneNumber(pub String);

impl View for PhoneNumber {
    type V = Seq<char>;

    open spec fn view(&self) -> Seq<char> {
        self.0@
    }
}

/// The text of a phone number line.
pub open spec fn phone_number_text(body: Seq<char>) -> Seq<char> {
    line_field_text('p', body)
}

/// Parse a phone number line.
pub open spec fn parse_phone_number_s(s: Seq<char>, i: int) -> Option<(Seq<char>, int)> {
    parse_line_field_s(s, i, 'p')
}

impl PhoneNumber {
    /// Append the line's text.
    pub fn write(&self, out: &mut Vec<char>)
        ensures
            final(out)@ == old(out)@ + phone_number_text(self@),
    {
        write_line_field(out, 'p', self.0.as_str());
    }

    /// The line, serialized.
    pub fn to_string(&self) -> (r: String)
        ensures
            r@ == phone_number_text(self@),
    {
        let mut out: Vec<char> = Vec::new();
        self.write(&mut out);
        chars_to_string(&out)
    }
}

/// Parse a phone number line: exactly what [`parse_phone_number_s`] says.
pub fn phone_number(s: &Vec<char>, i: usize) -> (r: Option<(PhoneNumber, usize)>)
    requires
        i <= s@.len(),
    ensures
        match r {
            Some((v, j)) => parse_phone_number_s(s@, i as int) == Some((v@, j as int)) && i < j
                <= s@.len(),
            None => parse_phone_number_s(s@, i as int) is None,
        },
{
    match parse_line_field(s, i, 'p') {
        None => None,
        Some((body, j)) => Some((PhoneNumber(body), j)),
    }
}

/// Parsing a serialized phone number line gives back its body.
pub proof fn lemma_phone_number_roundtrip(s: Seq<char>, i: int, body: Seq<char>)
    requires
        no_crlf(body),
        0 <= i,
        i + phone_number_text(body).len() <= s.len(),
        s.subrange(i, i + phone_number_text(body).len()) == phone_number_text(body),
    ensures
        parse_phone_number_s(s, i) == Some((body, i + phone_number_text(body).len())),
{
    lemma_line_field_roundtrip(s, i, 'p', body);
}

} // verus!

// A list of phone number lines, as the session grammar uses them.
verus! {

/// The text of a list of phone number lines.
pub open spec fn phone_numbers_text(list: Seq<Seq<char>>) -> Seq<char>
    decreases list.len(),
{
    if list.len() == 0 {
        Seq::empty()
    } else {
        phone_number_text(list[0]) + phone_numbers_text(list.drop_first())
    }
}

/// Splitting a list of phone number lines splits its text.
pub proof fn lemma_phone_numbers_text_concat(s1: Seq<Seq<char>>, s2: Seq<Seq<char>>)
    ensures
        phone_numbers_text(s1 + s2) == phone_numbers_text(s1) + phone_numbers_text(s2),
    decreases s1.len(),
{
    if s1.len() == 0 {
        assert(s1 + s2 =~= s2);
        assert(phone_numbers_text(s1) + phone_numbers_text(s2) =~= phone_numbers_text(s2));
    } else {
        assert((s1 + s2).drop_first() =~= s1.drop_first() + s2);
        lemma_phone_numbers_text_concat(s1.drop_first(), s2);
        assert(phone_numbers_text(s1 + s2) =~= phone_numbers_text(s1) + phone_numbers_text(s2));
    }
}

/// The text of a single phone number line, as a one-element list.
pub proof fn lemma_phone_numbers_text_singleton(x: Seq<char>)
    ensures
        phone_numbers_text(seq![x]) == phone_number_text(x),
{
    assert(seq![x].drop_first() =~= Seq::<Seq<char>>::empty());
    assert(phone_numbers_text(Seq::<Seq<char>>::empty()) =~= Seq::<char>::empty());
    assert(phone_numbers_text(seq![x]) =~= phone_number_text(x));
}

/// Parse phone number lines for as long as they parse.
pub open spec fn parse_phone_numbers_s(s: Seq<char>, i: int) -> (Seq<Seq<char>>, int)
    decreases s.len() - i,
{
    match parse_phone_number_s(s, i) {
        None => (Seq::empty(), i),
        Some((x, j)) => {
            if i < j <= s.len() {
                let (rest, k) = parse_phone_numbers_s(s, j);
                (seq![x] + rest, k)
            } else {
                (Seq::empty(), i)
            }
        },
    }
}

/// Parse phone number lines: exactly what [`parse_phone_numbers_s`] says.
pub fn phone_numbers(s: &Vec<char>, i: usize) -> (r: (Vec<PhoneNumber>, usize))
    requires
        i <= s@.len(),
    ensures
        parse_phone_numbers_s(s@, i as int) == (r.0@.map_values(|x: PhoneNumber| x@), r.1 as int),
        i <= r.1 <= s@.len(),
{
    let mut out: Vec<PhoneNumber> = Vec::new();
    let mut pos: usize = i;
    loop
        invariant
            i <= pos <= s@.len(),
            parse_phone_numbers_s(s@, i as int) == {
                let (rest, k) = parse_phone_numbers_s(s@, pos as int);
                (out@.map_values(|x: PhoneNumber| x@) + rest, k)
            },
        decreases s@.len() - pos,
    {
        match phone_number(s, pos) {
            None => {
                assert(parse_phone_numbers_s(s@, pos as int) == (Seq::<Seq<char>>::empty(), pos as int));
                assert(out@.map_values(|x: PhoneNumber| x@) + Seq::<Seq<char>>::empty() =~= out@.map_values(
                    |x: PhoneNumber| x@,
                ));
                return (out, pos);
            },
            Some((x, j)) => {
                let ghost before = out@.map_values(|y: PhoneNumber| y@);
                let ghost xv = x@;
                out.push(x);
                proof {
                    assert(out@.map_values(|y: PhoneNumber| y@) =~= before + seq![xv]);
                    assert forall|rest: Seq<Seq<char>>| true implies (before + (seq![xv] + rest)) =~= ((
                    before + seq![xv]) + rest) by {}
                }
                pos = j;
            },
        }
    }
}

/// Parsing the serialization of a list of phone number lines, with no such line
/// after it, gives back the list.
pub proof fn lemma_phone_numbers_roundtrip(s: Seq<char>, i: int, list: Seq<Seq<char>>)
    requires
        forall|k: int| 0 <= k < list.len() ==> crate::sdp::no_crlf(#[trigger] list[k]),
        0 <= i,
        i + phone_numbers_text(list).len() <= s.len(),
        s.subrange(i, i + phone_numbers_text(list).len()) == phone_numbers_text(list),
        i + phone_numbers_text(list).len() == s.len() || s[i + phone_numbers_text(list).len()] != 'p',
    ensures
        parse_phone_numbers_s(s, i) == (list, i + phone_numbers_text(list).len()),
    decreases list.len(),
{
    let t = phone_numbers_text(list);
    if list.len() == 0 {
        if i < s.len() {
            assert(s[i] != 'p');
        }
        assert(parse_phone_number_s(s, i) is None);
    } else {
        let x0 = list[0];
        let xt = phone_number_text(x0);
        let rest = list.drop_first();
        assert(t == xt + phone_numbers_text(rest));
        assert(t.subrange(0, xt.len() as int) =~= xt);
        crate::sdp::lemma_piece(s, i, t, 0, xt);
        lemma_phone_number_roundtrip(s, i, x0);
        assert(xt.len() >= 4);
        let j = i + xt.len() as int;
        assert(t.subrange(xt.len() as int, t.len() as int) =~= phone_numbers_text(rest));
        crate::sdp::lemma_piece(s, i, t, xt.len() as int, phone_numbers_text(rest));
        lemma_phone_numbers_roundtrip(s, j, rest);
        assert(seq![x0] + rest =~= list);
    }
}

} // verus!
