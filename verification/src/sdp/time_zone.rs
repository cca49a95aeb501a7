//! The `z=` time zone adjustment line.

use vstd::prelude::*;

use crate::sdp::{eat_crlf, take_crlf};
use crate::text::{
    chars_to_string, dec_rep, digits_end, digits_val, is_digit, push_dec_u64, scan_u64,
};
use crate::sdp::time_description::lemma_number_here;

verus! {

/// One adjustment: the time it takes effect and the signed offset in
/// seconds.
#[derive(Clone, Copy, Debug, PartialEq, Eq, Structural)]
pub struct Adjustment {
    pub time: u64,
    pub offset: i64,
}

impl View for Adjustment {
    type V = Adjustment;

    open spec fn view(&self) -> Adjustment {
        *self
    }
}

/// A time zone line: a nonempty list of adjustments.
#[derive(Clone, Debug, PartialEq, Eq)]
pub struct TimeZone {
    pub adjustments: Vec<Adjustment>,
}

/// Spec-level value of a [`TimeZone`].
pub struct TimeZoneV {
    pub adjustments: Seq<Adjustment>,
}

impl View for TimeZone {
    type V = TimeZoneV;

    open spec fn view(&self) -> TimeZoneV {
        TimeZoneV { adjustments: self.adjustments@ }
    }
}

impl TimeZoneV {
    /// A well-formed time zone carries at least one adjustment.
    pub open spec fn wf(self) -> bool {
        self.adjustments.len() >= 1
    }
}

/// The magnitude of a signed offset.
pub open spec fn offset_mag(o: i64) -> int {
    if o >= 0 {
        o as int
    } else {
        -(o as int)
    }
}

/// The text of a signed offset: whole hours are written with an `h` unit,
/// anything else as plain seconds; negative offsets carry a minus sign.
pub open spec fn offset_text(o: i64) -> Seq<char> {
    let sign: Seq<char> = if o < 0 {
        seq!['-']
    } else {
        Seq::empty()
    };
    if o != 0 && offset_mag(o) % 3600 == 0 {
        sign + dec_rep(offset_mag(o) / 3600) + seq!['h']
    } else {
        sign + dec_rep(offset_mag(o))
    }
}

/// The text of one adjustment: time, space, offset.
pub open spec fn adjustment_text(a: Adjustment) -> Seq<char> {
    dec_rep(a.time as int) + seq![' '] + offset_text(a.offset)
}

/// The text of a nonempty adjustment list: adjacent adjustments are
/// separated by a space; the last is followed by the line ending.
pub open spec fn tz_items_text(list: Seq<Adjustment>) -> Seq<char>
    decreases list.len(),
{
    if list.len() == 0 {
        Seq::empty()
    } else if list.len() == 1 {
        adjustment_text(list[0]) + seq!['\r', '\n']
    } else {
        adjustment_text(list[0]) + seq![' '] + tz_items_text(list.drop_first())
    }
}

/// The text of a time zone line.
pub open spec fn time_zone_text(z: TimeZoneV) -> Seq<char> {
    seq!['z', '='] + tz_items_text(z.adjustments)
}

/// Parse a signed offset: an optional sign, digits, and an optional unit
/// suffix (`d`, `h`, `m`, `s`); absent means seconds. Values that do not
/// fit a signed 64-bit count of seconds are refused.
pub open spec fn parse_offset_s(s: Seq<char>, i: int) -> Option<(i64, int)> {
    let neg = i < s.len() && s[i] == '-';
    let p = if i < s.len() && (s[i] == '+' || s[i] == '-') {
        i + 1
    } else {
        i
    };
    let j = digits_end(s, p);
    if j == p {
        None
    } else {
        let v = digits_val(s, p, j);
        let unit_mult: int = if j < s.len() && s[j] == 'd' {
            86400
        } else if j < s.len() && s[j] == 'h' {
            3600
        } else if j < s.len() && s[j] == 'm' {
            60
        } else {
            1
        };
        let j2: int = if j < s.len() && (s[j] == 'd' || s[j] == 'h' || s[j] == 'm' || s[j]
            == 's') {
            j + 1
        } else {
            j
        };
        let total = v * unit_mult;
        if neg {
            if total > 0x8000000000000000 {
                None
            } else {
                Some(((-total) as i64, j2))
            }
        } else {
            if total > 0x7FFFFFFFFFFFFFFF {
                None
            } else {
                Some((total as i64, j2))
            }
        }
    }
}

/// Parse one adjustment: time digits, a space, a signed offset.
pub open spec fn parse_adjustment_s(s: Seq<char>, i: int) -> Option<(Adjustment, int)> {
    let j = digits_end(s, i);
    if j == i || digits_val(s, i, j) > u64::MAX {
        None
    } else {
        let time = digits_val(s, i, j) as u64;
        if j < s.len() && s[j] == ' ' {
            match parse_offset_s(s, j + 1) {
                None => None,
                Some((offset, k)) => Some((Adjustment { time, offset }, k)),
            }
        } else {
            None
        }
    }
}

/// Parse adjustments, each followed by a space or the line ending, for as
/// long as they parse.
pub open spec fn parse_tz_items_s(s: Seq<char>, i: int) -> (Seq<Adjustment>, int)
    decreases s.len() - i,
{
    match parse_adjustment_s(s, i) {
        None => (Seq::empty(), i),
        Some((a, j)) => {
            if !(i < j <= s.len()) {
                (Seq::empty(), i)
            } else if j < s.len() && s[j] == ' ' {
                let (rest, k) = parse_tz_items_s(s, j + 1);
                (seq![a] + rest, k)
            } else {
                match eat_crlf(s, j) {
                    None => (Seq::empty(), i),
                    Some(k2) => {
                        let (rest, k) = parse_tz_items_s(s, k2);
                        (seq![a] + rest, k)
                    },
                }
            }
        },
    }
}

/// Parse a time zone line: `z=` and at least one adjustment.
pub open spec fn parse_time_zone_s(s: Seq<char>, i: int) -> Option<(TimeZoneV, int)> {
    if i + 2 <= s.len() && s[i] == 'z' && s[i + 1] == '=' {
        let (adjustments, k) = parse_tz_items_s(s, i + 2);
        if adjustments.len() == 0 {
            None
        } else {
            Some((TimeZoneV { adjustments }, k))
        }
    } else {
        None
    }
}

/// Append a signed offset's text.
fn write_offset(out: &mut Vec<char>, o: i64)
    ensures
        final(out)@ == old(out)@ + offset_text(o),
{
    let mag: u64 = if o >= 0 {
        o as u64
    } else if o == i64::MIN {
        9223372036854775808
    } else {
        (-o) as u64
    };
    assert(mag == offset_mag(o));
    if o < 0 {
        out.push('-');
    }
    if o != 0 && mag % 3600 == 0 {
        push_dec_u64(out, mag / 3600);
        out.push('h');
    } else {
        push_dec_u64(out, mag);
    }
    assert(out@ =~= old(out)@ + offset_text(o));
}

impl TimeZone {
    /// Append the time zone line's text.
    pub fn write(&self, out: &mut Vec<char>)
        ensures
            final(out)@ == old(out)@ + time_zone_text(self@),
    {
        out.push('z');
        out.push('=');
        let ghost adjs = self.adjustments@;
        let n = self.adjustments.len();
        proof {
            assert(adjs.skip(0) =~= adjs);
            assert(out@ + tz_items_text(adjs) =~= old(out)@ + seq!['z', '='] + tz_items_text(
                adjs,
            ));
        }
        let mut k: usize = 0;
        while k < n
            invariant
                k <= n,
                n == adjs.len(),
                adjs == self.adjustments@,
                out@ + tz_items_text(adjs.skip(k as int)) == old(out)@ + seq!['z', '=']
                    + tz_items_text(adjs),
            decreases n - k,
        {
            let a = self.adjustments[k];
            proof {
                assert(adjs.skip(k as int).len() == n - k);
                assert(adjs.skip(k as int)[0] == adjs[k as int]);
                if k + 1 < n {
                    assert(adjs.skip(k as int).drop_first() =~= adjs.skip(k + 1));
                }
            }
            push_dec_u64(out, a.time);
            out.push(' ');
            write_offset(out, a.offset);
            if k + 1 < n {
                out.push(' ');
                proof {
                    assert(out@ + tz_items_text(adjs.skip(k + 1)) =~= old(out)@ + seq!['z', '=']
                        + tz_items_text(adjs));
                }
            } else {
                out.push('\r');
                out.push('\n');
                proof {
                    assert(tz_items_text(adjs.skip(k + 1)) =~= Seq::<char>::empty());
                    assert(out@ + tz_items_text(adjs.skip(k + 1)) =~= old(out)@ + seq!['z', '=']
                        + tz_items_text(adjs));
                }
            }
            k = k + 1;
        }
        proof {
            assert(tz_items_text(adjs.skip(n as int)) =~= Seq::<char>::empty());
            assert(out@ =~= old(out)@ + time_zone_text(self@));
        }
    }

    /// The time zone line, serialized.
    pub fn to_string(&self) -> (r: String)
        ensures
            r@ == time_zone_text(self@),
    {
        let mut out: Vec<char> = Vec::new();
        self.write(&mut out);
        chars_to_string(&out)
    }
}

/// Parse a signed offset: exactly what [`parse_offset_s`] says.
fn parse_offset(s: &Vec<char>, i: usize) -> (r: Option<(i64, usize)>)
    requires
        i <= s@.len(),
    ensures
        match r {
            Some((o, j)) => parse_offset_s(s@, i as int) == Some((o, j as int)) && i < j
                <= s@.len(),
            None => parse_offset_s(s@, i as int) is None,
        },
{
    let neg = i < s.len() && s[i] == '-';
    let p = if i < s.len() && (s[i] == '+' || s[i] == '-') {
        i + 1
    } else {
        i
    };
    let (v, j) = match scan_u64(s, p) {
        None => {
            proof {
                crate::text::lemma_digits_end_bounds(s@, p as int);
                if digits_end(s@, p as int) != p {
                    crate::text::lemma_digits_val_nonneg(s@, p as int, digits_end(s@, p as int));
                    assert(digits_val(s@, p as int, digits_end(s@, p as int)) > u64::MAX);
                    assert(digits_val(s@, p as int, digits_end(s@, p as int)) * 1 > u64::MAX);
                    if digits_end(s@, p as int) < s@.len() {
                        let u = digits_val(s@, p as int, digits_end(s@, p as int));
                        assert(u * 86400 >= u && u * 3600 >= u && u * 60 >= u) by (nonlinear_arith)
                            requires u >= 0;
                    }
                }
            }
            return None;
        },
        Some(q) => q,
    };
    let (has_unit, mult): (bool, u64) = if j < s.len() && s[j] == 'd' {
        (true, 86400)
    } else if j < s.len() && s[j] == 'h' {
        (true, 3600)
    } else if j < s.len() && s[j] == 'm' {
        (true, 60)
    } else if j < s.len() && s[j] == 's' {
        (true, 1)
    } else {
        (false, 1)
    };
    let j2 = if has_unit {
        j + 1
    } else {
        j
    };
    let limit: u64 = if neg {
        0x8000000000000000
    } else {
        0x7FFFFFFFFFFFFFFF
    };
    if v > limit / mult {
        proof {
            let vv = v as int;
            let m = mult as int;
            let l = limit as int;
            assert(vv * m > l) by (nonlinear_arith)
                requires
                    vv > l / m,
                    m >= 1,
                    l >= 0,
            ;
        }
        return None;
    }
    proof {
        let vv = v as int;
        let m = mult as int;
        let l = limit as int;
        assert(vv * m <= l) by (nonlinear_arith)
            requires
                vv <= l / m,
                m >= 1,
                l >= 0,
                vv >= 0,
        ;
    }
    let total = v * mult;
    if neg {
        if total == 0x8000000000000000 {
            Some((i64::MIN, j2))
        } else {
            Some((-(total as i64), j2))
        }
    } else {
        Some((total as i64, j2))
    }
}

/// Parse one adjustment: exactly what [`parse_adjustment_s`] says.
fn adjustment(s: &Vec<char>, i: usize) -> (r: Option<(Adjustment, usize)>)
    requires
        i <= s@.len(),
    ensures
        match r {
            Some((a, j)) => parse_adjustment_s(s@, i as int) == Some((a, j as int)) && i < j
                <= s@.len(),
            None => parse_adjustment_s(s@, i as int) is None,
        },
{
    let (time, j) = match scan_u64(s, i) {
        None => {
            return None;
        },
        Some(p) => p,
    };
    if !(j < s.len() && s[j] == ' ') {
        return None;
    }
    match parse_offset(s, j + 1) {
        None => None,
        Some((offset, k)) => Some((Adjustment { time, offset }, k)),
    }
}

/// Parse a time zone line: exactly what [`parse_time_zone_s`] says.
pub fn time_zone(s: &Vec<char>, i: usize) -> (r: Option<(TimeZone, usize)>)
    requires
        i <= s@.len(),
    ensures
        match r {
            Some((z, j)) => parse_time_zone_s(s@, i as int) == Some((z@, j as int)) && i < j
                <= s@.len(),
            None => parse_time_zone_s(s@, i as int) is None,
        },
{
    if s.len() - i < 2 || s[i] != 'z' || s[i + 1] != '=' {
        return None;
    }
    let mut adjustments: Vec<Adjustment> = Vec::new();
    let mut pos: usize = i + 2;
    loop
        invariant
            i + 2 <= pos <= s@.len(),
            i + 2 <= s@.len(),
            s@[i as int] == 'z' && s@[i + 1] == '=',
            parse_tz_items_s(s@, i + 2) == {
                let (rest, k) = parse_tz_items_s(s@, pos as int);
                (adjustments@ + rest, k)
            },
        decreases s@.len() - pos,
    {
        match adjustment(s, pos) {
            None => {
                assert(parse_tz_items_s(s@, pos as int) == (
                    Seq::<Adjustment>::empty(),
                    pos as int,
                ));
                assert(adjustments@ + Seq::<Adjustment>::empty() =~= adjustments@);
                if adjustments.len() == 0 {
                    return None;
                }
                return Some((TimeZone { adjustments }, pos));
            },
            Some((a, j)) => {
                if j < s.len() && s[j] == ' ' {
                    let ghost before = adjustments@;
                    adjustments.push(a);
                    proof {
                        assert(adjustments@ =~= before + seq![a]);
                        assert forall|rest: Seq<Adjustment>| true implies (before + (seq![a]
                            + rest)) =~= ((before + seq![a]) + rest) by {}
                    }
                    pos = j + 1;
                } else {
                    match take_crlf(s, j) {
                        None => {
                            assert(parse_tz_items_s(s@, pos as int) == (
                                Seq::<Adjustment>::empty(),
                                pos as int,
                            ));
                            assert(adjustments@ + Seq::<Adjustment>::empty() =~= adjustments@);
                            if adjustments.len() == 0 {
                                return None;
                            }
                            return Some((TimeZone { adjustments }, pos));
                        },
                        Some(k2) => {
                            let ghost before = adjustments@;
                            adjustments.push(a);
                            proof {
                                assert(adjustments@ =~= before + seq![a]);
                                assert forall|rest: Seq<Adjustment>| true implies (before + (
                                seq![a] + rest)) =~= ((before + seq![a]) + rest) by {}
                            }
                            pos = k2;
                        },
                    }
                }
            },
        }
    }
}

} // verus!
// Round-trip laws for the time zone line.
verus! {

/// Parsing a serialized offset, followed by a space or the line ending,
/// gives back the offset.
pub proof fn lemma_offset_roundtrip(s: Seq<char>, i: int, o: i64)
    requires
        0 <= i,
        i + offset_text(o).len() < s.len(),
        s.subrange(i, i + offset_text(o).len()) == offset_text(o),
        s[i + offset_text(o).len()] == ' ' || s[i + offset_text(o).len()] == '\r',
    ensures
        parse_offset_s(s, i) == Some((o, i + offset_text(o).len())),
{
    let t = offset_text(o);
    let mag = offset_mag(o);
    let hours = o != 0 && mag % 3600 == 0;
    let d = if hours {
        dec_rep(mag / 3600)
    } else {
        dec_rep(mag)
    };
    crate::text::lemma_dec_rep_digits(if hours {
        mag / 3600
    } else {
        mag
    });
    let p = if o < 0 {
        i + 1
    } else {
        i
    };
    if o < 0 {
        crate::sdp::lemma_char_at(s, i, t, 0);
        assert(t[0] == '-');
    } else {
        crate::sdp::lemma_char_at(s, i, t, 0);
        assert(t[0] == d[0]);
        assert(crate::text::is_digit(s[i]));
    }
    let a = p - i;
    assert(t.subrange(a, a + d.len() as int) =~= d);
    crate::sdp::lemma_piece(s, i, t, a, d);
    if hours {
        crate::sdp::lemma_char_at(s, i, t, a + d.len() as int);
        assert(t[a + d.len() as int] == 'h');
        lemma_number_here(s, p, (mag / 3600) as u64);
        assert((mag / 3600) * 3600 == mag);
    } else {
        assert(a + d.len() as int == t.len());
        lemma_number_here(s, p, mag as u64);
    }
}

/// Parsing a serialized adjustment, followed by a space or the line ending,
/// gives back the adjustment.
pub proof fn lemma_adjustment_roundtrip(s: Seq<char>, i: int, a: Adjustment)
    requires
        0 <= i,
        i + adjustment_text(a).len() < s.len(),
        s.subrange(i, i + adjustment_text(a).len()) == adjustment_text(a),
        s[i + adjustment_text(a).len()] == ' ' || s[i + adjustment_text(a).len()] == '\r',
    ensures
        parse_adjustment_s(s, i) == Some((a, i + adjustment_text(a).len())),
{
    let t = adjustment_text(a);
    let d = dec_rep(a.time as int);
    assert(t.subrange(0, d.len() as int) =~= d);
    crate::sdp::lemma_piece(s, i, t, 0, d);
    crate::sdp::lemma_char_at(s, i, t, d.len() as int);
    assert(t[d.len() as int] == ' ');
    lemma_number_here(s, i, a.time);
    let a1 = d.len() as int + 1;
    assert(t.subrange(a1, t.len() as int) =~= offset_text(a.offset));
    crate::sdp::lemma_piece(s, i, t, a1, offset_text(a.offset));
    lemma_offset_roundtrip(s, i + a1, a.offset);
}

/// Parsing serialized adjacent adjustments, with no digit after the line
/// ending, gives back the list.
pub proof fn lemma_tz_items_roundtrip(s: Seq<char>, i: int, list: Seq<Adjustment>)
    requires
        list.len() >= 1,
        0 <= i,
        i + tz_items_text(list).len() <= s.len(),
        s.subrange(i, i + tz_items_text(list).len()) == tz_items_text(list),
        i + tz_items_text(list).len() == s.len() || !is_digit(s[i + tz_items_text(list).len()]),
    ensures
        parse_tz_items_s(s, i) == (list, i + tz_items_text(list).len()),
    decreases list.len(),
{
    let t = tz_items_text(list);
    let a0 = list[0];
    let at = adjustment_text(a0);
    if list.len() == 1 {
        assert(t == at + seq!['\r', '\n']);
        assert(t.subrange(0, at.len() as int) =~= at);
        crate::sdp::lemma_piece(s, i, t, 0, at);
        crate::sdp::lemma_char_at(s, i, t, at.len() as int);
        assert(t[at.len() as int] == '\r');
        crate::sdp::lemma_char_at(s, i, t, at.len() as int + 1);
        assert(t[at.len() as int + 1] == '\n');
        lemma_adjustment_roundtrip(s, i, a0);
        let q = i + t.len() as int;
        if q < s.len() {
            assert(!is_digit(s[q]));
        }
        assert(parse_adjustment_s(s, q) is None);
        assert(parse_tz_items_s(s, q) == (Seq::<Adjustment>::empty(), q));
        assert(seq![a0] + Seq::<Adjustment>::empty() =~= list);
    } else {
        let rest = list.drop_first();
        let rt = tz_items_text(rest);
        assert(t == at + seq![' '] + rt);
        assert(t.subrange(0, at.len() as int) =~= at);
        crate::sdp::lemma_piece(s, i, t, 0, at);
        crate::sdp::lemma_char_at(s, i, t, at.len() as int);
        assert(t[at.len() as int] == ' ');
        lemma_adjustment_roundtrip(s, i, a0);
        let j = i + at.len() as int;
        assert(t.subrange(at.len() as int + 1, t.len() as int) =~= rt);
        crate::sdp::lemma_piece(s, i, t, at.len() as int + 1, rt);
        lemma_tz_items_roundtrip(s, j + 1, rest);
        assert(seq![a0] + rest =~= list);
    }
}

/// Parsing a serialized time zone line, with no digit after it, gives back
/// the time zone.
pub proof fn lemma_time_zone_roundtrip(s: Seq<char>, i: int, z: TimeZoneV)
    requires
        z.wf(),
        0 <= i,
        i + time_zone_text(z).len() <= s.len(),
        s.subrange(i, i + time_zone_text(z).len()) == time_zone_text(z),
        i + time_zone_text(z).len() == s.len() || !is_digit(s[i + time_zone_text(z).len()]),
    ensures
        parse_time_zone_s(s, i) == Some((z, i + time_zone_text(z).len())),
{
    let t = time_zone_text(z);
    crate::sdp::lemma_char_at(s, i, t, 0);
    crate::sdp::lemma_char_at(s, i, t, 1);
    assert(t[0] == 'z' && t[1] == '=');
    let it = tz_items_text(z.adjustments);
    assert(t.subrange(2, t.len() as int) =~= it);
    crate::sdp::lemma_piece(s, i, t, 2, it);
    lemma_tz_items_roundtrip(s, i + 2, z.adjustments);
}

} // verus!
