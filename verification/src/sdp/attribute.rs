//! The `a=` attribute line: a bare property or a name:value pair.

use vstd::prelude::*;

use crate::sdp::{
    eat_crlf, is_line_char, is_name_stop, lemma_line_end_exact, lemma_name_stop_end_exact,
    line_end, name_stop_end, no_crlf, scan_line_end, scan_name_stop, take_crlf,
};
use crate::text::{chars_to_string, push_str_chars};

verus! {

/// An SDP attribute: a bare property name, or a name and a value.
#[derive(Clone, Debug, PartialEq, Eq)]
pub enum Attribute {
    Property(String),
    Value(String, String),
}

/// Spec-level value of an [`Attribute`].
pub enum AttributeV {
    Property(Seq<char>),
    Value(Seq<char>, Seq<char>),
}

impl View for Attribute {
    type V = AttributeV;

    open spec fn view(&self) -> AttributeV {
        match self {
            Attribute::Property(p) => AttributeV::Property(p@),
            Attribute::Value(k, v) => AttributeV::Value(k@, v@),
        }
    }
}

impl AttributeV {
    /// A well-formed attribute: a value's name is nonempty and free of
    /// colons and whitespace; a property must not itself read as a
    /// name:value pair; everything fits on the line.
    pub open spec fn wf(self) -> bool {
        match self {
            AttributeV::Property(p) => no_crlf(p) && (name_stop_end(p, 0) == p.len() || p[
                name_stop_end(p, 0)
            ] != ':'),
            AttributeV::Value(k, v) => {
                &&& k.len() >= 1
                &&& forall|m: int| 0 <= m < k.len() ==> !is_name_stop(#[trigger] k[m])
                &&& no_crlf(v)
            },
        }
    }

    /// Whether this attribute names an ICE candidate.
    pub open spec fn is_candidate(self) -> bool {
        self matches AttributeV::Value(k, _) && k == seq![
            'c',
            'a',
            'n',
            'd',
            'i',
            'd',
            'a',
            't',
            'e',
        ]
    }
}

/// The text of an attribute line.
pub open spec fn attribute_text(a: AttributeV) -> Seq<char> {
    match a {
        AttributeV::Property(p) => seq!['a', '='] + p + seq!['\r', '\n'],
        AttributeV::Value(k, v) => seq!['a', '='] + k + seq![':'] + v + seq!['\r', '\n'],
    }
}

/// Parse an attribute line: `a=`, then a name:value pair if a colon ends
/// the leading name run, else a bare property; then the line ending.
pub open spec fn parse_attribute_s(s: Seq<char>, i: int) -> Option<(AttributeV, int)> {
    if i + 2 <= s.len() && s[i] == 'a' && s[i + 1] == '=' {
        let p = i + 2;
        let j = name_stop_end(s, p);
        if j > p && j < s.len() && s[j] == ':' {
            let j2 = line_end(s, j + 1);
            match eat_crlf(s, j2) {
                None => None,
                Some(k) => Some(
                    (AttributeV::Value(s.subrange(p, j), s.subrange(j + 1, j2)), k),
                ),
            }
        } else {
            let j2 = line_end(s, p);
            match eat_crlf(s, j2) {
                None => None,
                Some(k) => Some((AttributeV::Property(s.subrange(p, j2)), k)),
            }
        }
    } else {
        None
    }
}

impl Attribute {
    /// A bare property attribute.
    pub fn property(p: &str) -> (r: Attribute)
        ensures
            r@ == AttributeV::Property(p@),
    {
        Attribute::Property(p.to_owned())
    }

    /// A name:value attribute.
    pub fn value(k: &str, v: &str) -> (r: Attribute)
        ensures
            r@ == AttributeV::Value(k@, v@),
    {
        Attribute::Value(k.to_owned(), v.to_owned())
    }

    /// Whether this attribute names an ICE candidate.
    pub fn is_ice_candidate(&self) -> (r: bool)
        ensures
            r == self@.is_candidate(),
    {
        match self {
            Attribute::Property(_) => false,
            Attribute::Value(k, _) => {
                let cs = crate::text::str_to_chars(k.as_str());
                if cs.len() != 9 {
                    proof {
                        assert(self@.is_candidate() ==> k@.len() == 9);
                    }
                    return false;
                }
                let r = cs[0] == 'c' && cs[1] == 'a' && cs[2] == 'n' && cs[3] == 'd' && cs[4]
                    == 'i' && cs[5] == 'd' && cs[6] == 'a' && cs[7] == 't' && cs[8] == 'e';
                proof {
                    if r {
                        assert(k@ =~= seq!['c', 'a', 'n', 'd', 'i', 'd', 'a', 't', 'e']);
                    } else {
                        assert(k@ != seq!['c', 'a', 'n', 'd', 'i', 'd', 'a', 't', 'e']) by {
                            if k@ == seq!['c', 'a', 'n', 'd', 'i', 'd', 'a', 't', 'e'] {
                                assert(k@[0] == 'c' && k@[1] == 'a' && k@[2] == 'n' && k@[3] == 'd'
                                    && k@[4] == 'i' && k@[5] == 'd' && k@[6] == 'a' && k@[7] == 't'
                                    && k@[8] == 'e');
                            }
                        }
                    }
                }
                r
            },
        }
    }

    /// An equal copy of the attribute.
    pub fn duplicate(&self) -> (r: Attribute)
        ensures
            r@ == self@,
    {
        match self {
            Attribute::Property(p) => Attribute::Property(p.clone()),
            Attribute::Value(k, v) => Attribute::Value(k.clone(), v.clone()),
        }
    }

    /// Append the attribute line's text.
    pub fn write(&self, out: &mut Vec<char>)
        ensures
            final(out)@ == old(out)@ + attribute_text(self@),
    {
        out.push('a');
        out.push('=');
        match self {
            Attribute::Property(p) => {
                push_str_chars(out, p.as_str());
            },
            Attribute::Value(k, v) => {
                push_str_chars(out, k.as_str());
                out.push(':');
                push_str_chars(out, v.as_str());
            },
        }
        out.push('\r');
        out.push('\n');
        assert(out@ =~= old(out)@ + attribute_text(self@));
    }

    /// The attribute line, serialized.
    pub fn to_string(&self) -> (r: String)
        ensures
            r@ == attribute_text(self@),
    {
        let mut out: Vec<char> = Vec::new();
        self.write(&mut out);
        chars_to_string(&out)
    }
}

/// Parse an attribute line: exactly what [`parse_attribute_s`] says.
pub fn attribute(s: &Vec<char>, i: usize) -> (r: Option<(Attribute, usize)>)
    requires
        i <= s@.len(),
    ensures
        match r {
            Some((a, j)) => parse_attribute_s(s@, i as int) == Some((a@, j as int)) && i < j
                <= s@.len(),
            None => parse_attribute_s(s@, i as int) is None,
        },
{
    if s.len() - i < 2 || s[i] != 'a' || s[i + 1] != '=' {
        return None;
    }
    let p = i + 2;
    let j = scan_name_stop(s, p);
    if j > p && j < s.len() && s[j] == ':' {
        let j2 = scan_line_end(s, j + 1);
        match take_crlf(s, j2) {
            None => None,
            Some(k) => {
                let name = crate::sdp::copy_str(s, p, j);
                let value = crate::sdp::copy_str(s, j + 1, j2);
                Some((Attribute::Value(name, value), k))
            },
        }
    } else {
        let j2 = scan_line_end(s, p);
        match take_crlf(s, j2) {
            None => None,
            Some(k) => {
                let body = crate::sdp::copy_str(s, p, j2);
                Some((Attribute::Property(body), k))
            },
        }
    }
}

/// Parsing a serialized attribute line gives back the attribute.
pub proof fn lemma_attribute_roundtrip(s: Seq<char>, i: int, a: AttributeV)
    requires
        a.wf(),
        0 <= i,
        i + attribute_text(a).len() <= s.len(),
        s.subrange(i, i + attribute_text(a).len()) == attribute_text(a),
    ensures
        parse_attribute_s(s, i) == Some((a, i + attribute_text(a).len())),
{
    let t = attribute_text(a);
    crate::sdp::lemma_char_at(s, i, t, 0);
    crate::sdp::lemma_char_at(s, i, t, 1);
    assert(t[0] == 'a' && t[1] == '=');
    let p = i + 2;
    match a {
        AttributeV::Value(k, v) => {
            assert(t.subrange(2, 2 + k.len() as int) =~= k);
            crate::sdp::lemma_piece(s, i, t, 2, k);
            assert forall|m: int| p <= m < p + k.len() implies !is_name_stop(#[trigger] s[m]) by {
                assert(s.subrange(p, p + k.len() as int)[m - p] == s[m]);
            }
            crate::sdp::lemma_char_at(s, i, t, 2 + k.len() as int);
            assert(t[2 + k.len() as int] == ':');
            lemma_name_stop_end_exact(s, p, k.len() as int);
            let j = p + k.len() as int;
            let a2 = 2 + k.len() as int + 1;
            assert(t.subrange(a2, a2 + v.len() as int) =~= v);
            crate::sdp::lemma_piece(s, i, t, a2, v);
            assert forall|m: int| j + 1 <= m < j + 1 + v.len() implies is_line_char(
                #[trigger] s[m],
            ) by {
                assert(s.subrange(j + 1, j + 1 + v.len() as int)[m - (j + 1)] == s[m]);
            }
            crate::sdp::lemma_char_at(s, i, t, a2 + v.len() as int);
            assert(t[a2 + v.len() as int] == '\r');
            lemma_line_end_exact(s, j + 1, v.len() as int);
            crate::sdp::lemma_char_at(s, i, t, a2 + v.len() as int + 1);
            assert(t[a2 + v.len() as int + 1] == '\n');
        },
        AttributeV::Property(body) => {
            assert(t.subrange(2, 2 + body.len() as int) =~= body);
            crate::sdp::lemma_piece(s, i, t, 2, body);
            assert forall|m: int| p <= m < p + body.len() implies is_line_char(#[trigger] s[m])
                by {
                assert(s.subrange(p, p + body.len() as int)[m - p] == s[m]);
            }
            crate::sdp::lemma_char_at(s, i, t, 2 + body.len() as int);
            assert(t[2 + body.len() as int] == '\r');
            lemma_line_end_exact(s, p, body.len() as int);
            crate::sdp::lemma_char_at(s, i, t, 2 + body.len() as int + 1);
            assert(t[2 + body.len() as int + 1] == '\n');
            // The name scan inside the property either runs to the CR or
            // stops at a non-colon character, so the value branch is not
            // taken.
            let bstop = name_stop_end(body, 0);
            crate::sdp::lemma_name_stop_end_bounds(body, 0);
            assert forall|m: int| p <= m < p + bstop implies !is_name_stop(#[trigger] s[m]) by {
                assert(s.subrange(p, p + body.len() as int)[m - p] == s[m]);
                assert(body[m - p] == s[m]);
            }
            if bstop == body.len() {
                assert(s[p + bstop] == '\r');
                lemma_name_stop_end_exact(s, p, bstop);
            } else {
                assert(body[bstop] != ':');
                assert(is_name_stop(body[bstop]));
                assert(s[p + bstop] == body[bstop]) by {
                    assert(s.subrange(p, p + body.len() as int)[bstop] == s[p + bstop]);
                }
                lemma_name_stop_end_exact(s, p, bstop);
            }
        },
    }
}

} // verus!

// A list of attribute lines, as the session grammar uses them.
verus! {

/// The text of a list of attribute lines.
pub open spec fn attributes_text(list: Seq<AttributeV>) -> Seq<char>
    decreases list.len(),
{
    if list.len() == 0 {
        Seq::empty()
    } else {
        attribute_text(list[0]) + attributes_text(list.drop_first())
    }
}

/// Splitting a list of attribute lines splits its text.
pub proof fn lemma_attributes_text_concat(s1: Seq<AttributeV>, s2: Seq<AttributeV>)
    ensures
        attributes_text(s1 + s2) == attributes_text(s1) + attributes_text(s2),
    decreases s1.len(),
{
    if s1.len() == 0 {
        assert(s1 + s2 =~= s2);
        assert(attributes_text(s1) + attributes_text(s2) =~= attributes_text(s2));
    } else {
        assert((s1 + s2).drop_first() =~= s1.drop_first() + s2);
        lemma_attributes_text_concat(s1.drop_first(), s2);
        assert(attributes_text(s1 + s2) =~= attributes_text(s1) + attributes_text(s2));
    }
}

/// The text of a single attribute line, as a one-element list.
pub proof fn lemma_attributes_text_singleton(x: AttributeV)
    ensures
        attributes_text(seq![x]) == attribute_text(x),
{
    assert(seq![x].drop_first() =~= Seq::<AttributeV>::empty());
    assert(attributes_text(Seq::<AttributeV>::empty()) =~= Seq::<char>::empty());
    assert(attributes_text(seq![x]) =~= attribute_text(x));
}

/// Parse attribute lines for as long as they parse.
pub open spec fn parse_attributes_s(s: Seq<char>, i: int) -> (Seq<AttributeV>, int)
    decreases s.len() - i,
{
    match parse_attribute_s(s, i) {
        None => (Seq::empty(), i),
        Some((x, j)) => {
            if i < j <= s.len() {
                let (rest, k) = parse_attributes_s(s, j);
                (seq![x] + rest, k)
            } else {
                (Seq::empty(), i)
            }
        },
    }
}

/// Parse attribute lines: exactly what [`parse_attributes_s`] says.
pub fn attributes(s: &Vec<char>, i: usize) -> (r: (Vec<Attribute>, usize))
    requires
        i <= s@.len(),
    ensures
        parse_attributes_s(s@, i as int) == (r.0@.map_values(|x: Attribute| x@), r.1 as int),
        i <= r.1 <= s@.len(),
{
    let mut out: Vec<Attribute> = Vec::new();
    let mut pos: usize = i;
    loop
        invariant
            i <= pos <= s@.len(),
            parse_attributes_s(s@, i as int) == {
                let (rest, k) = parse_attributes_s(s@, pos as int);
                (out@.map_values(|x: Attribute| x@) + rest, k)
            },
        decreases s@.len() - pos,
    {
        match attribute(s, pos) {
            None => {
                assert(parse_attributes_s(s@, pos as int) == (Seq::<AttributeV>::empty(), pos as int));
                assert(out@.map_values(|x: Attribute| x@) + Seq::<AttributeV>::empty() =~= out@.map_values(
                    |x: Attribute| x@,
                ));
                return (out, pos);
            },
            Some((x, j)) => {
                let ghost before = out@.map_values(|y: Attribute| y@);
                let ghost xv = x@;
                out.push(x);
                proof {
                    assert(out@.map_values(|y: Attribute| y@) =~= before + seq![xv]);
                    assert forall|rest: Seq<AttributeV>| true implies (before + (seq![xv] + rest)) =~= ((
                    before + seq![xv]) + rest) by {}
                }
                pos = j;
            },
        }
    }
}

/// Parsing the serialization of a list of attribute lines, with no such line
/// after it, gives back the list.
pub proof fn lemma_attributes_roundtrip(s: Seq<char>, i: int, list: Seq<AttributeV>)
    requires
        forall|k: int| 0 <= k < list.len() ==> (#[trigger] list[k]).wf(),
        0 <= i,
        i + attributes_text(list).len() <= s.len(),
        s.subrange(i, i + attributes_text(list).len()) == attributes_text(list),
        i + attributes_text(list).len() == s.len() || s[i + attributes_text(list).len()] != 'a',
    ensures
        parse_attributes_s(s, i) == (list, i + attributes_text(list).len()),
    decreases list.len(),
{
    let t = attributes_text(list);
    if list.len() == 0 {
        if i < s.len() {
            assert(s[i] != 'a');
        }
        assert(parse_attribute_s(s, i) is None);
    } else {
        let x0 = list[0];
        let xt = attribute_text(x0);
        let rest = list.drop_first();
        assert(t == xt + attributes_text(rest));
        assert(t.subrange(0, xt.len() as int) =~= xt);
        crate::sdp::lemma_piece(s, i, t, 0, xt);
        lemma_attribute_roundtrip(s, i, x0);
        assert(xt.len() >= 4);
        let j = i + xt.len() as int;
        assert(t.subrange(xt.len() as int, t.len() as int) =~= attributes_text(rest));
        crate::sdp::lemma_piece(s, i, t, xt.len() as int, attributes_text(rest));
        lemma_attributes_roundtrip(s, j, rest);
        assert(seq![x0] + rest =~= list);
    }
}

} // verus!
