//! The `b=` bandwidth information line.

use vstd::prelude::*;

use crate::sdp::{
    colon_end, eat_crlf, lemma_colon_end_exact, no_crlf, scan_colon, take_crlf,
};
use crate::text::{
    chars_to_string, dec_rep, digits_end, digits_val, lemma_dec_rep_digits,
    lemma_digits_end_exact, lemma_digits_val_of_rep, push_dec_u64, push_str_chars, scan_u64,
};

verus! {

/// A bandwidth type: the registered CT and AS types, or an experimental
/// `X-` name.
#[derive(Clone, Debug, PartialEq, Eq)]
pub enum BandwidthType {
    CT,
    AS,
    Experimental(String),
}

/// Spec-level value of a [`BandwidthType`].
pub enum BandwidthTypeV {
    CT,
    AS,
    Experimental(Seq<char>),
}

impl View for BandwidthType {
    type V = BandwidthTypeV;

    open spec fn view(&self) -> BandwidthTypeV {
        match self {
            BandwidthType::CT => BandwidthTypeV::CT,
            BandwidthType::AS => BandwidthTypeV::AS,
            BandwidthType::Experimental(x) => BandwidthTypeV::Experimental(x@),
        }
    }
}

/// A bandwidth line: type and value.
#[derive(Clone, Debug, PartialEq, Eq)]
pub struct Bandwidth {
    pub typ: BandwidthType,
    pub value: u64,
}

/// Spec-level value of a [`Bandwidth`].
pub struct BandwidthV {
    pub typ: BandwidthTypeV,
    pub value: u64,
}

impl View for Bandwidth {
    type V = BandwidthV;

    open spec fn view(&self) -> BandwidthV {
        BandwidthV { typ: self.typ@, value: self.value }
    }
}

impl BandwidthV {
    /// A well-formed bandwidth: an experimental name is nonempty and has no
    /// colon or line break.
    pub open spec fn wf(self) -> bool {
        match self.typ {
            BandwidthTypeV::Experimental(x) => x.len() >= 1 && no_crlf(x) && (forall|k: int|
                0 <= k < x.len() ==> #[trigger] x[k] != ':'),
            _ => true,
        }
    }
}

/// The text of a bandwidth type.
pub open spec fn bandwidth_type_text(t: BandwidthTypeV) -> Seq<char> {
    match t {
        BandwidthTypeV::CT => seq!['C', 'T'],
        BandwidthTypeV::AS => seq!['A', 'S'],
        BandwidthTypeV::Experimental(x) => seq!['X', '-'] + x,
    }
}

/// The text of a bandwidth line.
pub open spec fn bandwidth_text(b: BandwidthV) -> Seq<char> {
    seq!['b', '='] + bandwidth_type_text(b.typ) + seq![':'] + dec_rep(b.value as int) + seq![
        '\r',
        '\n',
    ]
}

/// Parse a bandwidth line: `b=`, a type (`CT`, `AS`, or `X-` and a name up
/// to the colon), a colon, digits, line ending.
pub open spec fn parse_bandwidth_s(s: Seq<char>, i: int) -> Option<(BandwidthV, int)> {
    if i + 2 <= s.len() && s[i] == 'b' && s[i + 1] == '=' {
        let p = i + 2;
        let tv: Option<(BandwidthTypeV, int)> = if p + 2 <= s.len() && s[p] == 'C' && s[p + 1]
            == 'T' {
            Some((BandwidthTypeV::CT, p + 2))
        } else if p + 2 <= s.len() && s[p] == 'A' && s[p + 1] == 'S' {
            Some((BandwidthTypeV::AS, p + 2))
        } else if p + 2 <= s.len() && s[p] == 'X' && s[p + 1] == '-' {
            let j = colon_end(s, p + 2);
            if j == p + 2 {
                None
            } else {
                Some((BandwidthTypeV::Experimental(s.subrange(p + 2, j)), j))
            }
        } else {
            None
        };
        match tv {
            None => None,
            Some((typ, j)) => {
                if j < s.len() && s[j] == ':' {
                    let j2 = digits_end(s, j + 1);
                    if j2 == j + 1 || digits_val(s, j + 1, j2) > u64::MAX {
                        None
                    } else {
                        match eat_crlf(s, j2) {
                            None => None,
                            Some(k) => Some(
                                (BandwidthV { typ, value: digits_val(s, j + 1, j2) as u64 }, k),
                            ),
                        }
                    }
                } else {
                    None
                }
            },
        }
    } else {
        None
    }
}

impl Bandwidth {
    /// Append the bandwidth line's text.
    pub fn write(&self, out: &mut Vec<char>)
        ensures
            final(out)@ == old(out)@ + bandwidth_text(self@),
    {
        out.push('b');
        out.push('=');
        match &self.typ {
            BandwidthType::CT => {
                out.push('C');
                out.push('T');
            },
            BandwidthType::AS => {
                out.push('A');
                out.push('S');
            },
            BandwidthType::Experimental(x) => {
                out.push('X');
                out.push('-');
                push_str_chars(out, x.as_str());
            },
        }
        out.push(':');
        push_dec_u64(out, self.value);
        out.push('\r');
        out.push('\n');
        assert(out@ =~= old(out)@ + bandwidth_text(self@));
    }

    /// The bandwidth line, serialized.
    pub fn to_string(&self) -> (r: String)
        ensures
            r@ == bandwidth_text(self@),
    {
        let mut out: Vec<char> = Vec::new();
        self.write(&mut out);
        chars_to_string(&out)
    }
}

/// Parse a bandwidth line: exactly what [`parse_bandwidth_s`] says.
pub fn bandwidth(s: &Vec<char>, i: usize) -> (r: Option<(Bandwidth, usize)>)
    requires
        i <= s@.len(),
    ensures
        match r {
            Some((b, j)) => parse_bandwidth_s(s@, i as int) == Some((b@, j as int)) && i < j
                <= s@.len(),
            None => parse_bandwidth_s(s@, i as int) is None,
        },
{
    if s.len() - i < 2 || s[i] != 'b' || s[i + 1] != '=' {
        return None;
    }
    let p = i + 2;
    let (typ, j) = if s.len() - p >= 2 && s[p] == 'C' && s[p + 1] == 'T' {
        (BandwidthType::CT, p + 2)
    } else if s.len() - p >= 2 && s[p] == 'A' && s[p + 1] == 'S' {
        (BandwidthType::AS, p + 2)
    } else if s.len() - p >= 2 && s[p] == 'X' && s[p + 1] == '-' {
        let j = scan_colon(s, p + 2);
        if j == p + 2 {
            return None;
        }
        let name = crate::sdp::copy_str(s, p + 2, j);
        (BandwidthType::Experimental(name), j)
    } else {
        return None;
    };
    if !(j < s.len() && s[j] == ':') {
        return None;
    }
    let (value, j2) = match scan_u64(s, j + 1) {
        None => {
            return None;
        },
        Some(q) => q,
    };
    match take_crlf(s, j2) {
        None => None,
        Some(k) => Some((Bandwidth { typ, value }, k)),
    }
}

/// Parsing a serialized bandwidth line gives back the bandwidth.
pub proof fn lemma_bandwidth_roundtrip(s: Seq<char>, i: int, b: BandwidthV)
    requires
        b.wf(),
        0 <= i,
        i + bandwidth_text(b).len() <= s.len(),
        s.subrange(i, i + bandwidth_text(b).len()) == bandwidth_text(b),
    ensures
        parse_bandwidth_s(s, i) == Some((b, i + bandwidth_text(b).len())),
{
    let t = bandwidth_text(b);
    let tt = bandwidth_type_text(b.typ);
    let d = dec_rep(b.value as int);
    let n = tt.len() as int;
    lemma_dec_rep_digits(b.value as int);
    crate::sdp::lemma_char_at(s, i, t, 0);
    crate::sdp::lemma_char_at(s, i, t, 1);
    assert(t[0] == 'b' && t[1] == '=');
    crate::sdp::lemma_char_at(s, i, t, 2);
    crate::sdp::lemma_char_at(s, i, t, 3);
    match b.typ {
        BandwidthTypeV::CT => {
            assert(t[2] == 'C' && t[3] == 'T');
        },
        BandwidthTypeV::AS => {
            assert(t[2] == 'A' && t[3] == 'S');
            assert(s[i + 2] != 'C');
        },
        BandwidthTypeV::Experimental(x) => {
            assert(t[2] == 'X' && t[3] == '-');
            assert(s[i + 2] != 'C' && s[i + 2] != 'A');
            assert(tt.subrange(2, 2 + x.len() as int) =~= x);
            assert(t.subrange(4, 4 + x.len() as int) =~= x) by {
                assert forall|k: int| 0 <= k < x.len() implies t.subrange(4, 4 + x.len() as int)[k]
                    == x[k] by {
                    assert(t[4 + k] == tt[2 + k]);
                }
            }
            crate::sdp::lemma_piece(s, i, t, 4, x);
            assert forall|k: int| i + 4 <= k < i + 4 + x.len() implies #[trigger] s[k] != ':' by {
                assert(s.subrange(i + 4, i + 4 + x.len())[k - (i + 4)] == s[k]);
            }
            crate::sdp::lemma_char_at(s, i, t, 2 + n);
            assert(t[2 + n] == ':');
            lemma_colon_end_exact(s, i + 4, x.len() as int);
        },
    }
    crate::sdp::lemma_char_at(s, i, t, 2 + n);
    assert(t[2 + n] == ':');
    assert(t.subrange(2 + n + 1, 2 + n + 1 + d.len()) =~= d);
    crate::sdp::lemma_piece(s, i, t, 2 + n + 1, d);
    assert forall|k: int|
        i + 2 + n + 1 <= k < i + 2 + n + 1 + d.len() implies crate::text::is_digit(
        #[trigger] s[k],
    ) by {
        assert(s.subrange(i + 2 + n + 1, i + 2 + n + 1 + d.len())[k - (i + 2 + n + 1)] == s[k]);
    }
    crate::sdp::lemma_char_at(s, i, t, 2 + n + 1 + d.len());
    assert(t[2 + n + 1 + d.len()] == '\r');
    lemma_digits_end_exact(s, i + 2 + n + 1, d.len() as int);
    lemma_digits_val_of_rep(s, i + 2 + n + 1, b.value as int);
    crate::sdp::lemma_char_at(s, i, t, 2 + n + 2 + d.len());
    assert(t[2 + n + 2 + d.len()] == '\n');
}

} // verus!

// A list of bandwidth lines, as the session grammar uses them.
verus! {

/// The text of a list of bandwidth lines.
pub open spec fn bandwidths_text(list: Seq<BandwidthV>) -> Seq<char>
    decreases list.len(),
{
    if list.len() == 0 {
        Seq::empty()
    } else {
        bandwidth_text(list[0]) + bandwidths_text(list.drop_first())
    }
}

/// Splitting a list of bandwidth lines splits its text.
pub proof fn lemma_bandwidths_text_concat(s1: Seq<BandwidthV>, s2: Seq<BandwidthV>)
    ensures
        bandwidths_text(s1 + s2) == bandwidths_text(s1) + bandwidths_text(s2),
    decreases s1.len(),
{
    if s1.len() == 0 {
        assert(s1 + s2 =~= s2);
        assert(bandwidths_text(s1) + bandwidths_text(s2) =~= bandwidths_text(s2));
    } else {
        assert((s1 + s2).drop_first() =~= s1.drop_first() + s2);
        lemma_bandwidths_text_concat(s1.drop_first(), s2);
        assert(bandwidths_text(s1 + s2) =~= bandwidths_text(s1) + bandwidths_text(s2));
    }
}

/// The text of a single bandwidth line, as a one-element list.
pub proof fn lemma_bandwidths_text_singleton(x: BandwidthV)
    ensures
        bandwidths_text(seq![x]) == bandwidth_text(x),
{
    assert(seq![x].drop_first() =~= Seq::<BandwidthV>::empty());
    assert(bandwidths_text(Seq::<BandwidthV>::empty()) =~= Seq::<char>::empty());
    assert(bandwidths_text(seq![x]) =~= bandwidth_text(x));
}

/// Parse bandwidth lines for as long as they parse.
pub open spec fn parse_bandwidths_s(s: Seq<char>, i: int) -> (Seq<BandwidthV>, int)
    decreases s.len() - i,
{
    match parse_bandwidth_s(s, i) {
        None => (Seq::empty(), i),
        Some((x, j)) => {
            if i < j <= s.len() {
                let (rest, k) = parse_bandwidths_s(s, j);
                (seq![x] + rest, k)
            } else {
                (Seq::empty(), i)
            }
        },
    }
}

/// Parse bandwidth lines: exactly what [`parse_bandwidths_s`] says.
pub fn bandwidths(s: &Vec<char>, i: usize) -> (r: (Vec<Bandwidth>, usize))
    requires
        i <= s@.len(),
    ensures
        parse_bandwidths_s(s@, i as int) == (r.0@.map_values(|x: Bandwidth| x@), r.1 as int),
        i <= r.1 <= s@.len(),
{
    let mut out: Vec<Bandwidth> = Vec::new();
    let mut pos: usize = i;
    loop
        invariant
            i <= pos <= s@.len(),
            parse_bandwidths_s(s@, i as int) == {
                let (rest, k) = parse_bandwidths_s(s@, pos as int);
                (out@.map_values(|x: Bandwidth| x@) + rest, k)
            },
        decreases s@.len() - pos,
    {
        match bandwidth(s, pos) {
            None => {
                assert(parse_bandwidths_s(s@, pos as int) == (Seq::<BandwidthV>::empty(), pos as int));
                assert(out@.map_values(|x: Bandwidth| x@) + Seq::<BandwidthV>::empty() =~= out@.map_values(
                    |x: Bandwidth| x@,
                ));
                return (out, pos);
            },
            Some((x, j)) => {
                let ghost before = out@.map_values(|y: Bandwidth| y@);
                let ghost xv = x@;
                out.push(x);
                proof {
                    assert(out@.map_values(|y: Bandwidth| y@) =~= before + seq![xv]);
                    assert forall|rest: Seq<BandwidthV>| true implies (before + (seq![xv] + rest)) =~= ((
                    before + seq![xv]) + rest) by {}
                }
                pos = j;
            },
        }
    }
}

/// Parsing the serialization of a list of bandwidth lines, with no such line
/// after it, gives back the list.
pub proof fn lemma_bandwidths_roundtrip(s: Seq<char>, i: int, list: Seq<BandwidthV>)
    requires
        forall|k: int| 0 <= k < list.len() ==> (#[trigger] list[k]).wf(),
        0 <= i,
        i + bandwidths_text(list).len() <= s.len(),
        s.subrange(i, i + bandwidths_text(list).len()) == bandwidths_text(list),
        i + bandwidths_text(list).len() == s.len() || s[i + bandwidths_text(list).len()] != 'b',
    ensures
        parse_bandwidths_s(s, i) == (list, i + bandwidths_text(list).len()),
    decreases list.len(),
{
    let t = bandwidths_text(list);
    if list.len() == 0 {
        if i < s.len() {
            assert(s[i] != 'b');
        }
        assert(parse_bandwidth_s(s, i) is None);
    } else {
        let x0 = list[0];
        let xt = bandwidth_text(x0);
        let rest = list.drop_first();
        assert(t == xt + bandwidths_text(rest));
        assert(t.subrange(0, xt.len() as int) =~= xt);
        crate::sdp::lemma_piece(s, i, t, 0, xt);
        lemma_bandwidth_roundtrip(s, i, x0);
        assert(xt.len() >= 4);
        let j = i + xt.len() as int;
        assert(t.subrange(xt.len() as int, t.len() as int) =~= bandwidths_text(rest));
        crate::sdp::lemma_piece(s, i, t, xt.len() as int, bandwidths_text(rest));
        lemma_bandwidths_roundtrip(s, j, rest);
        assert(seq![x0] + rest =~= list);
    }
}

} // verus!
