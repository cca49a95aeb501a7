//! The `t=` timing and `r=` repeat lines.

use vstd::prelude::*;

use crate::sdp::{eat_crlf, take_crlf};
use crate::text::{
    chars_to_string, dec_rep, digits_end, digits_val, lemma_dec_rep_digits,
    lemma_digits_end_exact, lemma_digits_val_of_rep, push_dec_u64, scan_u64,
};

verus! {

/// The start and stop time of a session.
#[derive(Clone, Copy, Debug, PartialEq, Eq, Structural)]
pub struct Timing {
    pub start_time: u64,
    pub stop_time: u64,
}

impl View for Timing {
    type V = Timing;

    open spec fn view(&self) -> Timing {
        *self
    }
}

/// A repeat line: interval, active duration, and at least one offset from
/// the start time.
#[derive(Clone, Debug, PartialEq, Eq)]
pub struct Repeat {
    pub interval: u64,
    pub active_duration: u64,
    pub offsets: Vec<u64>,
}

/// Spec-level value of a [`Repeat`].
pub struct RepeatV {
    pub interval: u64,
    pub active_duration: u64,
    pub offsets: Seq<u64>,
}

impl View for Repeat {
    type V = RepeatV;

    open spec fn view(&self) -> RepeatV {
        RepeatV {
            interval: self.interval,
            active_duration: self.active_duration,
            offsets: self.offsets@,
        }
    }
}

impl RepeatV {
    /// A well-formed repeat carries at least one offset.
    pub open spec fn wf(self) -> bool {
        self.offsets.len() >= 1
    }
}

/// A time description: the required timing line and its repeat lines.
#[derive(Clone, Debug, PartialEq, Eq)]
pub struct TimeDescription {
    pub timing: Timing,
    pub repeat_times: Vec<Repeat>,
}

/// Spec-level value of a [`TimeDescription`].
pub struct TimeDescriptionV {
    pub timing: Timing,
    pub repeat_times: Seq<RepeatV>,
}

impl View for TimeDescription {
    type V = TimeDescriptionV;

    open spec fn view(&self) -> TimeDescriptionV {
        TimeDescriptionV {
            timing: self.timing,
            repeat_times: self.repeat_times@.map_values(|r: Repeat| r@),
        }
    }
}

impl TimeDescriptionV {
    /// A well-formed time description: every repeat has offsets.
    pub open spec fn wf(self) -> bool {
        forall|k: int| 0 <= k < self.repeat_times.len() ==> (#[trigger] self.repeat_times[k]).wf()
    }
}

/// The text of a timing line.
pub open spec fn timing_text(tm: Timing) -> Seq<char> {
    seq!['t', '='] + dec_rep(tm.start_time as int) + seq![' '] + dec_rep(tm.stop_time as int)
        + seq!['\r', '\n']
}

/// The text of a repeat line's offsets: a space and digits for each.
pub open spec fn offsets_text(offs: Seq<u64>) -> Seq<char>
    decreases offs.len(),
{
    if offs.len() == 0 {
        Seq::empty()
    } else {
        seq![' '] + dec_rep(offs[0] as int) + offsets_text(offs.drop_first())
    }
}

/// The text of a repeat line.
pub open spec fn repeat_text(r: RepeatV) -> Seq<char> {
    seq!['r', '='] + dec_rep(r.interval as int) + seq![' '] + dec_rep(r.active_duration as int)
        + offsets_text(r.offsets) + seq!['\r', '\n']
}

/// The text of a list of repeat lines.
pub open spec fn repeats_text(list: Seq<RepeatV>) -> Seq<char>
    decreases list.len(),
{
    if list.len() == 0 {
        Seq::empty()
    } else {
        repeat_text(list[0]) + repeats_text(list.drop_first())
    }
}

/// The text of a time description: the timing line, then the repeat lines.
pub open spec fn time_description_text(td: TimeDescriptionV) -> Seq<char> {
    timing_text(td.timing) + repeats_text(td.repeat_times)
}

/// Parse a timing line: `t=`, start, space, stop, line ending.
pub open spec fn parse_timing_s(s: Seq<char>, i: int) -> Option<(Timing, int)> {
    if i + 2 <= s.len() && s[i] == 't' && s[i + 1] == '=' {
        let j = digits_end(s, i + 2);
        if j == i + 2 || digits_val(s, i + 2, j) > u64::MAX {
            None
        } else {
            let start_time = digits_val(s, i + 2, j) as u64;
            if j < s.len() && s[j] == ' ' {
                let j2 = digits_end(s, j + 1);
                if j2 == j + 1 || digits_val(s, j + 1, j2) > u64::MAX {
                    None
                } else {
                    let stop_time = digits_val(s, j + 1, j2) as u64;
                    match eat_crlf(s, j2) {
                        None => None,
                        Some(k) => Some((Timing { start_time, stop_time }, k)),
                    }
                }
            } else {
                None
            }
        }
    } else {
        None
    }
}

/// Parse a repeat line's offsets: a space then digits, as often as a space
/// follows.
pub open spec fn parse_offsets_s(s: Seq<char>, i: int) -> Option<(Seq<u64>, int)>
    decreases s.len() - i,
{
    if i < s.len() && s[i] == ' ' {
        let j = digits_end(s, i + 1);
        if j == i + 1 || digits_val(s, i + 1, j) > u64::MAX {
            None
        } else if i + 1 < j <= s.len() {
            match parse_offsets_s(s, j) {
                None => None,
                Some((rest, k)) => Some((seq![digits_val(s, i + 1, j) as u64] + rest, k)),
            }
        } else {
            None
        }
    } else {
        Some((Seq::empty(), i))
    }
}

/// Parse a repeat line: `r=`, interval, space, duration, at least one
/// offset, line ending.
pub open spec fn parse_repeat_s(s: Seq<char>, i: int) -> Option<(RepeatV, int)> {
    if i + 2 <= s.len() && s[i] == 'r' && s[i + 1] == '=' {
        let j = digits_end(s, i + 2);
        if j == i + 2 || digits_val(s, i + 2, j) > u64::MAX {
            None
        } else {
            let interval = digits_val(s, i + 2, j) as u64;
            if j < s.len() && s[j] == ' ' {
                let j2 = digits_end(s, j + 1);
                if j2 == j + 1 || digits_val(s, j + 1, j2) > u64::MAX {
                    None
                } else {
                    let active_duration = digits_val(s, j + 1, j2) as u64;
                    match parse_offsets_s(s, j2) {
                        None => None,
                        Some((offsets, j3)) => {
                            if offsets.len() == 0 {
                                None
                            } else {
                                match eat_crlf(s, j3) {
                                    None => None,
                                    Some(k) => Some(
                                        (RepeatV { interval, active_duration, offsets }, k),
                                    ),
                                }
                            }
                        },
                    }
                }
            } else {
                None
            }
        }
    } else {
        None
    }
}

/// Parse repeat lines while they parse: the `many0` of [`parse_repeat_s`].
pub open spec fn parse_repeats_s(s: Seq<char>, i: int) -> (Seq<RepeatV>, int)
    decreases s.len() - i,
{
    match parse_repeat_s(s, i) {
        None => (Seq::empty(), i),
        Some((r, j)) => {
            if i < j <= s.len() {
                let (rest, k) = parse_repeats_s(s, j);
                (seq![r] + rest, k)
            } else {
                (Seq::empty(), i)
            }
        },
    }
}

/// Parse a time description: the timing line, then its repeat lines.
pub open spec fn parse_time_description_s(s: Seq<char>, i: int) -> Option<
    (TimeDescriptionV, int),
> {
    match parse_timing_s(s, i) {
        None => None,
        Some((timing, j)) => {
            if i < j <= s.len() {
                let (repeat_times, k) = parse_repeats_s(s, j);
                Some((TimeDescriptionV { timing, repeat_times }, k))
            } else {
                None
            }
        },
    }
}

impl Timing {
    /// Append the timing line's text.
    pub fn write(&self, out: &mut Vec<char>)
        ensures
            final(out)@ == old(out)@ + timing_text(*self),
    {
        out.push('t');
        out.push('=');
        push_dec_u64(out, self.start_time);
        out.push(' ');
        push_dec_u64(out, self.stop_time);
        out.push('\r');
        out.push('\n');
        assert(out@ =~= old(out)@ + timing_text(*self));
    }

    /// The timing line, serialized.
    pub fn to_string(&self) -> (r: String)
        ensures
            r@ == timing_text(*self),
    {
        let mut out: Vec<char> = Vec::new();
        self.write(&mut out);
        chars_to_string(&out)
    }
}

impl Repeat {
    /// Append the repeat line's text.
    pub fn write(&self, out: &mut Vec<char>)
        ensures
            final(out)@ == old(out)@ + repeat_text(self@),
    {
        out.push('r');
        out.push('=');
        push_dec_u64(out, self.interval);
        out.push(' ');
        push_dec_u64(out, self.active_duration);
        let ghost offs = self.offsets@;
        let mut k: usize = 0;
        while k < self.offsets.len()
            invariant
                k <= offs.len(),
                offs == self.offsets@,
                out@ == old(out)@ + seq!['r', '='] + dec_rep(self.interval as int) + seq![' ']
                    + dec_rep(self.active_duration as int) + offsets_text(offs.take(k as int)),
            decreases offs.len() - k,
        {
            out.push(' ');
            push_dec_u64(out, self.offsets[k]);
            proof {
                lemma_offsets_text_concat(offs.take(k as int), seq![offs[k as int]]);
                assert(offs.take(k + 1) =~= offs.take(k as int) + seq![offs[k as int]]);
                lemma_offsets_text_singleton(offs[k as int]);
                assert(out@ =~= old(out)@ + seq!['r', '='] + dec_rep(self.interval as int) + seq![
                    ' ',
                ] + dec_rep(self.active_duration as int) + offsets_text(offs.take(k + 1)));
            }
            k = k + 1;
        }
        out.push('\r');
        out.push('\n');
        proof {
            assert(offs.take(offs.len() as int) =~= offs);
            assert(out@ =~= old(out)@ + repeat_text(self@));
        }
    }

    /// The repeat line, serialized.
    pub fn to_string(&self) -> (r: String)
        ensures
            r@ == repeat_text(self@),
    {
        let mut out: Vec<char> = Vec::new();
        self.write(&mut out);
        chars_to_string(&out)
    }
}

/// Splitting a list of offsets splits its text.
pub proof fn lemma_offsets_text_concat(s1: Seq<u64>, s2: Seq<u64>)
    ensures
        offsets_text(s1 + s2) == offsets_text(s1) + offsets_text(s2),
    decreases s1.len(),
{
    if s1.len() == 0 {
        assert(s1 + s2 =~= s2);
        assert(offsets_text(s1) + offsets_text(s2) =~= offsets_text(s2));
    } else {
        assert((s1 + s2).drop_first() =~= s1.drop_first() + s2);
        lemma_offsets_text_concat(s1.drop_first(), s2);
        assert(offsets_text(s1 + s2) =~= offsets_text(s1) + offsets_text(s2));
    }
}

/// The text of a single offset.
pub proof fn lemma_offsets_text_singleton(v: u64)
    ensures
        offsets_text(seq![v]) == seq![' '] + dec_rep(v as int),
{
    assert(seq![v].drop_first() =~= Seq::<u64>::empty());
    assert(offsets_text(Seq::<u64>::empty()) =~= Seq::<char>::empty());
    assert(offsets_text(seq![v]) =~= seq![' '] + dec_rep(v as int));
}

/// The text of a single repeat, as a one-element list.
pub proof fn lemma_repeats_text_singleton(r: RepeatV)
    ensures
        repeats_text(seq![r]) == repeat_text(r),
{
    assert(seq![r].drop_first() =~= Seq::<RepeatV>::empty());
    assert(repeats_text(Seq::<RepeatV>::empty()) =~= Seq::<char>::empty());
    assert(repeats_text(seq![r]) =~= repeat_text(r));
}

/// Splitting a list of repeats splits its text.
pub proof fn lemma_repeats_text_concat(s1: Seq<RepeatV>, s2: Seq<RepeatV>)
    ensures
        repeats_text(s1 + s2) == repeats_text(s1) + repeats_text(s2),
    decreases s1.len(),
{
    if s1.len() == 0 {
        assert(s1 + s2 =~= s2);
        assert(repeats_text(s1) + repeats_text(s2) =~= repeats_text(s2));
    } else {
        assert((s1 + s2).drop_first() =~= s1.drop_first() + s2);
        lemma_repeats_text_concat(s1.drop_first(), s2);
        assert(repeats_text(s1 + s2) =~= repeats_text(s1) + repeats_text(s2));
    }
}

impl TimeDescription {
    /// A time description with no repeat lines.
    pub fn base(timing: Timing) -> (r: TimeDescription)
        ensures
            r@.timing == timing,
            r@.repeat_times == Seq::<RepeatV>::empty(),
    {
        let r = TimeDescription { timing, repeat_times: Vec::new() };
        proof {
            assert(r@.repeat_times =~= Seq::<RepeatV>::empty());
        }
        r
    }

    /// Replace the repeat lines.
    pub fn with_repeat_times(self, repeat_times: Vec<Repeat>) -> (r: TimeDescription)
        ensures
            r@.timing == self@.timing,
            r@.repeat_times == repeat_times@.map_values(|x: Repeat| x@),
    {
        TimeDescription { timing: self.timing, repeat_times }
    }

    /// Append one repeat line.
    pub fn and_repeat_time(self, repeat_time: Repeat) -> (r: TimeDescription)
        ensures
            r@.timing == self@.timing,
            r@.repeat_times == self@.repeat_times.push(repeat_time@),
    {
        let mut td = self;
        let ghost before = td.repeat_times@.map_values(|x: Repeat| x@);
        let ghost rv = repeat_time@;
        td.repeat_times.push(repeat_time);
        proof {
            assert(td.repeat_times@.map_values(|x: Repeat| x@) =~= before.push(rv));
        }
        td
    }

    /// Append the time description's text.
    pub fn write(&self, out: &mut Vec<char>)
        ensures
            final(out)@ == old(out)@ + time_description_text(self@),
    {
        self.timing.write(out);
        let ghost reps = self@.repeat_times;
        let mut k: usize = 0;
        while k < self.repeat_times.len()
            invariant
                k <= reps.len(),
                reps == self@.repeat_times,
                reps.len() == self.repeat_times@.len(),
                forall|m: int| 0 <= m < reps.len() ==> reps[m] == self.repeat_times@[m]@,
                out@ == old(out)@ + timing_text(self.timing) + repeats_text(reps.take(k as int)),
            decreases reps.len() - k,
        {
            self.repeat_times[k].write(out);
            proof {
                lemma_repeats_text_concat(reps.take(k as int), seq![reps[k as int]]);
                assert(reps.take(k + 1) =~= reps.take(k as int) + seq![reps[k as int]]);
                lemma_repeats_text_singleton(reps[k as int]);
                assert(out@ =~= old(out)@ + timing_text(self.timing) + repeats_text(
                    reps.take(k + 1),
                ));
            }
            k = k + 1;
        }
        proof {
            assert(reps.take(reps.len() as int) =~= reps);
            assert(out@ =~= old(out)@ + time_description_text(self@));
        }
    }

    /// The time description, serialized.
    pub fn to_string(&self) -> (r: String)
        ensures
            r@ == time_description_text(self@),
    {
        let mut out: Vec<char> = Vec::new();
        self.write(&mut out);
        chars_to_string(&out)
    }
}

/// Parse a timing line: exactly what [`parse_timing_s`] says.
pub fn timing(s: &Vec<char>, i: usize) -> (r: Option<(Timing, usize)>)
    requires
        i <= s@.len(),
    ensures
        match r {
            Some((tm, j)) => parse_timing_s(s@, i as int) == Some((tm, j as int)) && i < j
                <= s@.len(),
            None => parse_timing_s(s@, i as int) is None,
        },
{
    if s.len() - i < 2 || s[i] != 't' || s[i + 1] != '=' {
        return None;
    }
    let (start_time, j) = match scan_u64(s, i + 2) {
        None => {
            return None;
        },
        Some(p) => p,
    };
    if !(j < s.len() && s[j] == ' ') {
        return None;
    }
    let (stop_time, j2) = match scan_u64(s, j + 1) {
        None => {
            return None;
        },
        Some(p) => p,
    };
    match take_crlf(s, j2) {
        None => None,
        Some(k) => Some((Timing { start_time, stop_time }, k)),
    }
}

/// Parse a repeat line: exactly what [`parse_repeat_s`] says.
pub fn repeat(s: &Vec<char>, i: usize) -> (r: Option<(Repeat, usize)>)
    requires
        i <= s@.len(),
    ensures
        match r {
            Some((rp, j)) => parse_repeat_s(s@, i as int) == Some((rp@, j as int)) && i < j
                <= s@.len(),
            None => parse_repeat_s(s@, i as int) is None,
        },
{
    if s.len() - i < 2 || s[i] != 'r' || s[i + 1] != '=' {
        return None;
    }
    let (interval, j) = match scan_u64(s, i + 2) {
        None => {
            return None;
        },
        Some(p) => p,
    };
    if !(j < s.len() && s[j] == ' ') {
        return None;
    }
    let (active_duration, j2) = match scan_u64(s, j + 1) {
        None => {
            return None;
        },
        Some(p) => p,
    };
    let mut offsets: Vec<u64> = Vec::new();
    let mut pos: usize = j2;
    loop
        invariant
            i < j2,
            i <= s@.len(),
            j2 <= pos <= s@.len(),
            parse_repeat_s(s@, i as int) == (match parse_offsets_s(s@, j2 as int) {
                None => None::<(RepeatV, int)>,
                Some((offs, j3)) => {
                    if offs.len() == 0 {
                        None::<(RepeatV, int)>
                    } else {
                        match eat_crlf(s@, j3) {
                            None => None::<(RepeatV, int)>,
                            Some(k) => Some::<(RepeatV, int)>(
                                (RepeatV { interval, active_duration, offsets: offs }, k),
                            ),
                        }
                    }
                },
            }),
            parse_offsets_s(s@, j2 as int) == (match parse_offsets_s(s@, pos as int) {
                Some((rest, k)) => Some::<(Seq<u64>, int)>((offsets@ + rest, k)),
                None => None::<(Seq<u64>, int)>,
            }),
        decreases s@.len() - pos,
    {
        if !(pos < s.len() && s[pos] == ' ') {
            assert(parse_offsets_s(s@, pos as int) == Some((Seq::<u64>::empty(), pos as int)));
            assert(offsets@ + Seq::<u64>::empty() =~= offsets@);
            if offsets.len() == 0 {
                return None;
            }
            return match take_crlf(s, pos) {
                None => None,
                Some(k) => Some((Repeat { interval, active_duration, offsets }, k)),
            };
        }
        match scan_u64(s, pos + 1) {
            None => {
                return None;
            },
            Some((v, j3)) => {
                let ghost before = offsets@;
                offsets.push(v);
                proof {
                    assert(offsets@ =~= before + seq![v]);
                    assert forall|rest: Seq<u64>| true implies (before + (seq![v] + rest)) =~= (
                    (before + seq![v]) + rest) by {}
                }
                pos = j3;
            },
        }
    }
}

/// Parse a time description: exactly what [`parse_time_description_s`]
/// says.
pub fn time_description(s: &Vec<char>, i: usize) -> (r: Option<(TimeDescription, usize)>)
    requires
        i <= s@.len(),
    ensures
        match r {
            Some((td, j)) => parse_time_description_s(s@, i as int) == Some((td@, j as int)) && i
                < j <= s@.len(),
            None => parse_time_description_s(s@, i as int) is None,
        },
{
    let (tm, j) = match timing(s, i) {
        None => {
            return None;
        },
        Some(p) => p,
    };
    let mut repeat_times: Vec<Repeat> = Vec::new();
    let mut pos: usize = j;
    loop
        invariant
            i <= s@.len(),
            j <= pos <= s@.len(),
            parse_time_description_s(s@, i as int) == {
                let (rest, k) = parse_repeats_s(s@, j as int);
                Some::<(TimeDescriptionV, int)>(
                    (TimeDescriptionV { timing: tm, repeat_times: rest }, k),
                )
            },
            parse_repeats_s(s@, j as int) == {
                let (rest, k) = parse_repeats_s(s@, pos as int);
                (repeat_times@.map_values(|x: Repeat| x@) + rest, k)
            },
            i < j,
        decreases s@.len() - pos,
    {
        match repeat(s, pos) {
            None => {
                assert(parse_repeats_s(s@, pos as int) == (Seq::<RepeatV>::empty(), pos as int));
                assert(repeat_times@.map_values(|x: Repeat| x@) + Seq::<RepeatV>::empty()
                    =~= repeat_times@.map_values(|x: Repeat| x@));
                return Some((TimeDescription { timing: tm, repeat_times }, pos));
            },
            Some((rp, j2)) => {
                let ghost before = repeat_times@.map_values(|x: Repeat| x@);
                let ghost rv = rp@;
                repeat_times.push(rp);
                proof {
                    assert(repeat_times@.map_values(|x: Repeat| x@) =~= before + seq![rv]);
                    assert forall|rest: Seq<RepeatV>| true implies (before + (seq![rv] + rest))
                        =~= ((before + seq![rv]) + rest) by {}
                }
                pos = j2;
            },
        }
    }
}

} // verus!
// Round-trip laws for the timing and repeat lines.
verus! {

/// A digit run standing for a number, followed by a non-digit or the end,
/// scans back to that number.
pub proof fn lemma_number_here(s: Seq<char>, i: int, n: u64)
    requires
        0 <= i,
        i + dec_rep(n as int).len() <= s.len(),
        s.subrange(i, i + dec_rep(n as int).len()) == dec_rep(n as int),
        i + dec_rep(n as int).len() == s.len() || !crate::text::is_digit(
            s[i + dec_rep(n as int).len()],
        ),
    ensures
        digits_end(s, i) == i + dec_rep(n as int).len(),
        digits_val(s, i, i + dec_rep(n as int).len()) == n,
{
    let d = dec_rep(n as int);
    lemma_dec_rep_digits(n as int);
    assert forall|k: int| i <= k < i + d.len() implies crate::text::is_digit(#[trigger] s[k]) by {
        assert(s.subrange(i, i + d.len())[k - i] == s[k]);
    }
    lemma_digits_end_exact(s, i, d.len() as int);
    lemma_digits_val_of_rep(s, i, n as int);
}

/// Parsing serialized offsets gives them back and stops at the first
/// character after them.
pub proof fn lemma_offsets_roundtrip(s: Seq<char>, i: int, offs: Seq<u64>)
    requires
        0 <= i,
        i + offsets_text(offs).len() < s.len(),
        s.subrange(i, i + offsets_text(offs).len()) == offsets_text(offs),
        s[i + offsets_text(offs).len()] != ' ',
        !crate::text::is_digit(s[i + offsets_text(offs).len()]),
    ensures
        parse_offsets_s(s, i) == Some((offs, i + offsets_text(offs).len())),
    decreases offs.len(),
{
    let t = offsets_text(offs);
    if offs.len() == 0 {
        assert(t.len() == 0);
    } else {
        let v = offs[0];
        let d = dec_rep(v as int);
        let rest = offs.drop_first();
        let rt = offsets_text(rest);
        assert(t == seq![' '] + d + rt);
        crate::sdp::lemma_char_at(s, i, t, 0);
        assert(t[0] == ' ');
        assert(t.subrange(1, 1 + d.len() as int) =~= d);
        crate::sdp::lemma_piece(s, i, t, 1, d);
        let j = i + 1 + d.len() as int;
        if rest.len() == 0 {
            assert(t.len() == 1 + d.len());
            assert(j == i + t.len());
            lemma_number_here(s, i + 1, v);
        } else {
            crate::sdp::lemma_char_at(s, i, t, 1 + d.len() as int);
            assert(t[1 + d.len() as int] == rt[0]);
            assert(rt[0] == ' ');
            lemma_number_here(s, i + 1, v);
        }
        assert(t.subrange(1 + d.len() as int, t.len() as int) =~= rt);
        crate::sdp::lemma_piece(s, i, t, 1 + d.len() as int, rt);
        lemma_offsets_roundtrip(s, j, rest);
        assert(seq![v] + rest =~= offs);
    }
}

/// Parsing a serialized timing line gives back the timing.
pub proof fn lemma_timing_roundtrip(s: Seq<char>, i: int, tm: Timing)
    requires
        0 <= i,
        i + timing_text(tm).len() <= s.len(),
        s.subrange(i, i + timing_text(tm).len()) == timing_text(tm),
    ensures
        parse_timing_s(s, i) == Some((tm, i + timing_text(tm).len())),
{
    let t = timing_text(tm);
    let d1 = dec_rep(tm.start_time as int);
    let d2 = dec_rep(tm.stop_time as int);
    crate::sdp::lemma_char_at(s, i, t, 0);
    crate::sdp::lemma_char_at(s, i, t, 1);
    assert(t[0] == 't' && t[1] == '=');
    assert(t.subrange(2, 2 + d1.len() as int) =~= d1);
    crate::sdp::lemma_piece(s, i, t, 2, d1);
    crate::sdp::lemma_char_at(s, i, t, 2 + d1.len() as int);
    assert(t[2 + d1.len() as int] == ' ');
    lemma_number_here(s, i + 2, tm.start_time);
    let a2 = 3 + d1.len() as int;
    assert(t.subrange(a2, a2 + d2.len() as int) =~= d2);
    crate::sdp::lemma_piece(s, i, t, a2, d2);
    crate::sdp::lemma_char_at(s, i, t, a2 + d2.len() as int);
    assert(t[a2 + d2.len() as int] == '\r');
    lemma_number_here(s, i + a2, tm.stop_time);
    crate::sdp::lemma_char_at(s, i, t, a2 + d2.len() as int + 1);
    assert(t[a2 + d2.len() as int + 1] == '\n');
}

/// Parsing a serialized repeat line gives back the repeat.
pub proof fn lemma_repeat_roundtrip(s: Seq<char>, i: int, r: RepeatV)
    requires
        r.wf(),
        0 <= i,
        i + repeat_text(r).len() <= s.len(),
        s.subrange(i, i + repeat_text(r).len()) == repeat_text(r),
    ensures
        parse_repeat_s(s, i) == Some((r, i + repeat_text(r).len())),
{
    let t = repeat_text(r);
    let d1 = dec_rep(r.interval as int);
    let d2 = dec_rep(r.active_duration as int);
    let ot = offsets_text(r.offsets);
    crate::sdp::lemma_char_at(s, i, t, 0);
    crate::sdp::lemma_char_at(s, i, t, 1);
    assert(t[0] == 'r' && t[1] == '=');
    assert(t.subrange(2, 2 + d1.len() as int) =~= d1);
    crate::sdp::lemma_piece(s, i, t, 2, d1);
    crate::sdp::lemma_char_at(s, i, t, 2 + d1.len() as int);
    assert(t[2 + d1.len() as int] == ' ');
    lemma_number_here(s, i + 2, r.interval);
    let a2 = 3 + d1.len() as int;
    assert(t.subrange(a2, a2 + d2.len() as int) =~= d2);
    crate::sdp::lemma_piece(s, i, t, a2, d2);
    let a3 = a2 + d2.len() as int;
    crate::sdp::lemma_char_at(s, i, t, a3);
    assert(ot.len() >= 1) by {
        assert(r.offsets.len() >= 1);
    }
    assert(t[a3] == ot[0]);
    assert(ot[0] == ' ');
    lemma_number_here(s, i + a2, r.active_duration);
    assert(t.subrange(a3, a3 + ot.len() as int) =~= ot);
    crate::sdp::lemma_piece(s, i, t, a3, ot);
    crate::sdp::lemma_char_at(s, i, t, a3 + ot.len() as int);
    assert(t[a3 + ot.len() as int] == '\r');
    crate::sdp::lemma_char_at(s, i, t, a3 + ot.len() as int + 1);
    assert(t[a3 + ot.len() as int + 1] == '\n');
    lemma_offsets_roundtrip(s, i + a3, r.offsets);
}

/// Parsing the serialization of a list of repeats, with no repeat line
/// after it, gives back the list.
pub proof fn lemma_repeats_roundtrip(s: Seq<char>, i: int, list: Seq<RepeatV>)
    requires
        forall|k: int| 0 <= k < list.len() ==> (#[trigger] list[k]).wf(),
        0 <= i,
        i + repeats_text(list).len() <= s.len(),
        s.subrange(i, i + repeats_text(list).len()) == repeats_text(list),
        i + repeats_text(list).len() == s.len() || s[i + repeats_text(list).len()] != 'r',
    ensures
        parse_repeats_s(s, i) == (list, i + repeats_text(list).len()),
    decreases list.len(),
{
    let t = repeats_text(list);
    if list.len() == 0 {
        if i < s.len() {
            assert(s[i] != 'r');
        }
        assert(parse_repeat_s(s, i) is None);
    } else {
        let r0 = list[0];
        let rest = list.drop_first();
        let rt = repeat_text(r0);
        assert(t == rt + repeats_text(rest));
        assert(t.subrange(0, rt.len() as int) =~= rt);
        crate::sdp::lemma_piece(s, i, t, 0, rt);
        assert(rt.len() >= 6);
        lemma_repeat_roundtrip(s, i, r0);
        let j = i + rt.len() as int;
        assert(t.subrange(rt.len() as int, t.len() as int) =~= repeats_text(rest));
        crate::sdp::lemma_piece(s, i, t, rt.len() as int, repeats_text(rest));
        lemma_repeats_roundtrip(s, j, rest);
        assert(seq![r0] + rest =~= list);
    }
}

/// Parsing a serialized time description, with no repeat line after it,
/// gives it back.
pub proof fn lemma_time_description_roundtrip(s: Seq<char>, i: int, td: TimeDescriptionV)
    requires
        td.wf(),
        0 <= i,
        i + time_description_text(td).len() <= s.len(),
        s.subrange(i, i + time_description_text(td).len()) == time_description_text(td),
        i + time_description_text(td).len() == s.len() || s[i + time_description_text(td).len()]
            != 'r',
    ensures
        parse_time_description_s(s, i) == Some((td, i + time_description_text(td).len())),
{
    let t = time_description_text(td);
    let tt = timing_text(td.timing);
    let rt = repeats_text(td.repeat_times);
    assert(t.subrange(0, tt.len() as int) =~= tt);
    crate::sdp::lemma_piece(s, i, t, 0, tt);
    lemma_timing_roundtrip(s, i, td.timing);
    assert(tt.len() >= 6);
    assert(t.subrange(tt.len() as int, t.len() as int) =~= rt);
    crate::sdp::lemma_piece(s, i, t, tt.len() as int, rt);
    lemma_repeats_roundtrip(s, i + tt.len() as int, td.repeat_times);
}

} // verus!
