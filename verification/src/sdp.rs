//! SDP codec (RFC 4566): session descriptions as typed values, their
//! line-oriented textual serialization, and an all-consuming parser. Each
//! submodule owns one line type; this module holds the character scanners
//! and line helpers they share.
//!
//! Serialization is specified per type by a `..._text` spec function over
//! character sequences; parsing by a `parse_..._s` spec function; and every
//! executable serializer and parser is proved to produce exactly what those
//! say. The round-trip law `parse(serialize(x)) == x` is proved for every
//! well-formed value.

pub mod attribute;
pub mod bandwidth;
pub mod connection;
pub mod email_address;
pub mod laws;
pub mod encryption_key;
pub mod media_description;
pub mod origin;
pub mod phone_number;
pub mod session_description;
pub mod session_information;
pub mod session_name;
pub mod time_description;
pub mod time_zone;
pub mod uri;
pub mod version;

use vstd::prelude::*;

use crate::text::{chars_to_string, push_str_chars};

verus! {

/// The SDP error taxonomy: a session description either parses whole or is
/// refused.
#[derive(Clone, Copy, Debug, PartialEq, Eq, Structural)]
pub enum Error {
    InvalidSessionDescription,
}

/// A character that may stand inside a line: anything but CR and LF.
pub open spec fn is_line_char(c: char) -> bool {
    c != '\r' && c != '\n'
}

/// A text that fits on one line.
pub open spec fn no_crlf(t: Seq<char>) -> bool {
    forall|k: int| 0 <= k < t.len() ==> is_line_char(#[trigger] t[k])
}

/// A nonempty text without spaces or line breaks: one field of a
/// space-separated line.
pub open spec fn is_token(t: Seq<char>) -> bool {
    &&& t.len() >= 1
    &&& no_crlf(t)
    &&& forall|k: int| 0 <= k < t.len() ==> #[trigger] t[k] != ' '
}

/// The first position at or after `i` that holds CR, LF, or the end.
pub open spec fn line_end(s: Seq<char>, i: int) -> int
    decreases s.len() - i,
{
    if i < s.len() && is_line_char(s[i]) {
        line_end(s, i + 1)
    } else {
        i
    }
}

pub proof fn lemma_line_end_exact(s: Seq<char>, i: int, n: int)
    requires
        0 <= i,
        0 <= n,
        i + n <= s.len(),
        forall|k: int| i <= k < i + n ==> is_line_char(#[trigger] s[k]),
        i + n == s.len() || !is_line_char(s[i + n]),
    ensures
        line_end(s, i) == i + n,
    decreases n,
{
    if n > 0 {
        lemma_line_end_exact(s, i + 1, n - 1);
    }
}

pub proof fn lemma_line_end_bounds(s: Seq<char>, i: int)
    requires
        0 <= i <= s.len(),
    ensures
        i <= line_end(s, i) <= s.len(),
        forall|k: int| i <= k < line_end(s, i) ==> is_line_char(#[trigger] s[k]),
        line_end(s, i) == s.len() || !is_line_char(s[line_end(s, i)]),
    decreases s.len() - i,
{
    if i < s.len() && is_line_char(s[i]) {
        lemma_line_end_bounds(s, i + 1);
    }
}

/// The first position at or after `i` that holds a space, or the end.
pub open spec fn space_end(s: Seq<char>, i: int) -> int
    decreases s.len() - i,
{
    if i < s.len() && s[i] != ' ' {
        space_end(s, i + 1)
    } else {
        i
    }
}

pub proof fn lemma_space_end_exact(s: Seq<char>, i: int, n: int)
    requires
        0 <= i,
        0 <= n,
        i + n <= s.len(),
        forall|k: int| i <= k < i + n ==> #[trigger] s[k] != ' ',
        i + n == s.len() || s[i + n] == ' ',
    ensures
        space_end(s, i) == i + n,
    decreases n,
{
    if n > 0 {
        lemma_space_end_exact(s, i + 1, n - 1);
    }
}

pub proof fn lemma_space_end_bounds(s: Seq<char>, i: int)
    requires
        0 <= i <= s.len(),
    ensures
        i <= space_end(s, i) <= s.len(),
        forall|k: int| i <= k < space_end(s, i) ==> #[trigger] s[k] != ' ',
        space_end(s, i) == s.len() || s[space_end(s, i)] == ' ',
    decreases s.len() - i,
{
    if i < s.len() && s[i] != ' ' {
        lemma_space_end_bounds(s, i + 1);
    }
}

/// Consume a line ending at `i`: LF alone or CRLF.
pub open spec fn eat_crlf(s: Seq<char>, i: int) -> Option<int> {
    if i < s.len() && s[i] == '\n' {
        Some(i + 1)
    } else if s.len() - i >= 2 && s[i] == '\r' && s[i + 1] == '\n' {
        Some(i + 2)
    } else {
        None
    }
}

/// Scan to the end of the current line.
pub fn scan_line_end(s: &Vec<char>, i: usize) -> (j: usize)
    requires
        i <= s@.len(),
    ensures
        j == line_end(s@, i as int),
        i <= j <= s@.len(),
{
    let mut j: usize = i;
    while j < s.len() && s[j] != '\r' && s[j] != '\n'
        invariant
            i <= j <= s@.len(),
            forall|m: int| i <= m < j ==> is_line_char(#[trigger] s@[m]),
        decreases s@.len() - j,
    {
        j = j + 1;
    }
    proof {
        lemma_line_end_exact(s@, i as int, j - i);
    }
    j
}

/// Scan to the next space.
pub fn scan_space_end(s: &Vec<char>, i: usize) -> (j: usize)
    requires
        i <= s@.len(),
    ensures
        j == space_end(s@, i as int),
        i <= j <= s@.len(),
{
    let mut j: usize = i;
    while j < s.len() && s[j] != ' '
        invariant
            i <= j <= s@.len(),
            forall|m: int| i <= m < j ==> #[trigger] s@[m] != ' ',
        decreases s@.len() - j,
    {
        j = j + 1;
    }
    proof {
        lemma_space_end_exact(s@, i as int, j - i);
    }
    j
}

/// Consume the line ending at `i`, if one stands there: exactly what
/// [`eat_crlf`] says.
pub fn take_crlf(s: &Vec<char>, i: usize) -> (r: Option<usize>)
    requires
        i <= s@.len(),
    ensures
        match r {
            Some(j) => eat_crlf(s@, i as int) == Some(j as int),
            None => eat_crlf(s@, i as int) is None,
        },
{
    if i < s.len() && s[i] == '\n' {
        Some(i + 1)
    } else if s.len() - i >= 2 && s[i] == '\r' && s[i + 1] == '\n' {
        Some(i + 2)
    } else {
        None
    }
}

/// Copy the characters `[from, to)` out of the buffer, as a string.
pub fn copy_str(s: &Vec<char>, from: usize, to: usize) -> (r: String)
    requires
        from <= to <= s@.len(),
    ensures
        r@ == s@.subrange(from as int, to as int),
{
    let mut out: Vec<char> = Vec::new();
    let mut k: usize = from;
    while k < to
        invariant
            from <= k <= to <= s@.len(),
            out@ == s@.subrange(from as int, k as int),
        decreases to - k,
    {
        out.push(s[k]);
        assert(out@ =~= s@.subrange(from as int, (k + 1) as int));
        k = k + 1;
    }
    chars_to_string(&out)
}


/// A character that ends an attribute name: a colon or whitespace.
pub open spec fn is_name_stop(c: char) -> bool {
    c == ':' || c == ' ' || c == '\t' || c == '\r' || c == '\n'
}

/// The first position at or after `i` that holds a colon or whitespace, or
/// the end.
pub open spec fn name_stop_end(s: Seq<char>, i: int) -> int
    decreases s.len() - i,
{
    if i < s.len() && !is_name_stop(s[i]) {
        name_stop_end(s, i + 1)
    } else {
        i
    }
}

pub proof fn lemma_name_stop_end_exact(s: Seq<char>, i: int, n: int)
    requires
        0 <= i,
        0 <= n,
        i + n <= s.len(),
        forall|k: int| i <= k < i + n ==> !is_name_stop(#[trigger] s[k]),
        i + n == s.len() || is_name_stop(s[i + n]),
    ensures
        name_stop_end(s, i) == i + n,
    decreases n,
{
    if n > 0 {
        lemma_name_stop_end_exact(s, i + 1, n - 1);
    }
}

pub proof fn lemma_name_stop_end_bounds(s: Seq<char>, i: int)
    requires
        0 <= i <= s.len(),
    ensures
        i <= name_stop_end(s, i) <= s.len(),
        forall|k: int| i <= k < name_stop_end(s, i) ==> !is_name_stop(#[trigger] s[k]),
        name_stop_end(s, i) == s.len() || is_name_stop(s[name_stop_end(s, i)]),
    decreases s.len() - i,
{
    if i < s.len() && !is_name_stop(s[i]) {
        lemma_name_stop_end_bounds(s, i + 1);
    }
}

/// Scan to the next colon or whitespace.
pub fn scan_name_stop(s: &Vec<char>, i: usize) -> (j: usize)
    requires
        i <= s@.len(),
    ensures
        j == name_stop_end(s@, i as int),
        i <= j <= s@.len(),
{
    let mut j: usize = i;
    while j < s.len() && s[j] != ':' && s[j] != ' ' && s[j] != '\t' && s[j] != '\r' && s[j]
        != '\n'
        invariant
            i <= j <= s@.len(),
            forall|m: int| i <= m < j ==> !is_name_stop(#[trigger] s@[m]),
        decreases s@.len() - j,
    {
        j = j + 1;
    }
    proof {
        lemma_name_stop_end_exact(s@, i as int, j - i);
    }
    j
}

/// The first position at or after `i` that holds a colon, or the end.
pub open spec fn colon_end(s: Seq<char>, i: int) -> int
    decreases s.len() - i,
{
    if i < s.len() && s[i] != ':' {
        colon_end(s, i + 1)
    } else {
        i
    }
}

pub proof fn lemma_colon_end_exact(s: Seq<char>, i: int, n: int)
    requires
        0 <= i,
        0 <= n,
        i + n <= s.len(),
        forall|k: int| i <= k < i + n ==> #[trigger] s[k] != ':',
        i + n == s.len() || s[i + n] == ':',
    ensures
        colon_end(s, i) == i + n,
    decreases n,
{
    if n > 0 {
        lemma_colon_end_exact(s, i + 1, n - 1);
    }
}

pub proof fn lemma_colon_end_bounds(s: Seq<char>, i: int)
    requires
        0 <= i <= s.len(),
    ensures
        i <= colon_end(s, i) <= s.len(),
        forall|k: int| i <= k < colon_end(s, i) ==> #[trigger] s[k] != ':',
        colon_end(s, i) == s.len() || s[colon_end(s, i)] == ':',
    decreases s.len() - i,
{
    if i < s.len() && s[i] != ':' {
        lemma_colon_end_bounds(s, i + 1);
    }
}

/// Scan to the next colon.
pub fn scan_colon(s: &Vec<char>, i: usize) -> (j: usize)
    requires
        i <= s@.len(),
    ensures
        j == colon_end(s@, i as int),
        i <= j <= s@.len(),
{
    let mut j: usize = i;
    while j < s.len() && s[j] != ':'
        invariant
            i <= j <= s@.len(),
            forall|m: int| i <= m < j ==> #[trigger] s@[m] != ':',
        decreases s@.len() - j,
    {
        j = j + 1;
    }
    proof {
        lemma_colon_end_exact(s@, i as int, j - i);
    }
    j
}

/// When the characters `[i, i+t.len())` of `s` spell `t`, the piece of `t`

/// at `[a, a+piece.len())` stands in `s` at `[i+a, ..)`.
pub proof fn lemma_piece(s: Seq<char>, i: int, t: Seq<char>, a: int, piece: Seq<char>)
    requires
        0 <= i,
        i + t.len() <= s.len(),
        s.subrange(i, i + t.len()) == t,
        0 <= a,
        a + piece.len() <= t.len(),
        t.subrange(a, a + piece.len()) == piece,
    ensures
        s.subrange(i + a, i + a + piece.len()) == piece,
{
    assert forall|k: int| 0 <= k < piece.len() implies s.subrange(i + a, i + a + piece.len())[k]
        == piece[k] by {
        assert(t.subrange(a, a + piece.len())[k] == piece[k]);
        assert(s.subrange(i, i + t.len())[a + k] == s[i + a + k]);
    }
    assert(s.subrange(i + a, i + a + piece.len()) =~= piece);
}

/// When the characters `[i, i+t.len())` of `s` spell `t`, the character of
/// `t` at `a` stands in `s` at `i+a`.
pub proof fn lemma_char_at(s: Seq<char>, i: int, t: Seq<char>, a: int)
    requires
        0 <= i,
        i + t.len() <= s.len(),
        s.subrange(i, i + t.len()) == t,
        0 <= a < t.len(),
    ensures
        s[i + a] == t[a],
{
    assert(s.subrange(i, i + t.len())[a] == s[i + a]);
}

/// The text of a whole-line field: `<tag>=<body>` and a CRLF.
pub open spec fn line_field_text(tag: char, body: Seq<char>) -> Seq<char> {
    seq![tag, '='] + body + seq!['\r', '\n']
}

/// Parse a whole-line field `<tag>=<body>`: the body runs to the line
/// ending.
pub open spec fn parse_line_field_s(s: Seq<char>, i: int, tag: char) -> Option<(Seq<char>, int)> {
    if i + 2 <= s.len() && s[i] == tag && s[i + 1] == '=' {
        let j = line_end(s, i + 2);
        match eat_crlf(s, j) {
            None => None,
            Some(k) => Some((s.subrange(i + 2, j), k)),
        }
    } else {
        None
    }
}

/// Serialize a whole-line field.
pub fn write_line_field(out: &mut Vec<char>, tag: char, body: &str)
    ensures
        final(out)@ == old(out)@ + line_field_text(tag, body@),
{
    out.push(tag);
    out.push('=');
    push_str_chars(out, body);
    out.push('\r');
    out.push('\n');
    assert(out@ =~= old(out)@ + line_field_text(tag, body@));
}

/// Parse a whole-line field: exactly what [`parse_line_field_s`] says.
pub fn parse_line_field(s: &Vec<char>, i: usize, tag: char) -> (r: Option<(String, usize)>)
    requires
        i <= s@.len(),
    ensures
        match r {
            Some((body, j)) => parse_line_field_s(s@, i as int, tag) == Some((body@, j as int))
                && i < j <= s@.len(),
            None => parse_line_field_s(s@, i as int, tag) is None,
        },
{
    if s.len() - i < 2 || s[i] != tag || s[i + 1] != '=' {
        return None;
    }
    let j = scan_line_end(s, i + 2);
    match take_crlf(s, j) {
        None => None,
        Some(k) => {
            let body = copy_str(s, i + 2, j);
            Some((body, k))
        },
    }
}

/// Parsing a serialized whole-line field gives back its body and stops just
/// past the line ending.
pub proof fn lemma_line_field_roundtrip(s: Seq<char>, i: int, tag: char, body: Seq<char>)
    requires
        no_crlf(body),
        is_line_char(tag),
        0 <= i,
        i + line_field_text(tag, body).len() <= s.len(),
        s.subrange(i, i + line_field_text(tag, body).len()) == line_field_text(tag, body),
    ensures
        parse_line_field_s(s, i, tag) == Some((body, i + line_field_text(tag, body).len())),
{
    let t = line_field_text(tag, body);
    let n = body.len() as int;
    assert(t.len() == n + 4);
    lemma_char_at(s, i, t, 0);
    lemma_char_at(s, i, t, 1);
    assert(t[0] == tag && t[1] == '=');
    assert(t.subrange(2, 2 + n) =~= body);
    lemma_piece(s, i, t, 2, body);
    assert forall|k: int| i + 2 <= k < i + 2 + n implies is_line_char(#[trigger] s[k]) by {
        assert(s.subrange(i + 2, i + 2 + n)[k - (i + 2)] == s[k]);
    }
    lemma_char_at(s, i, t, 2 + n);
    assert(t[2 + n] == '\r');
    lemma_line_end_exact(s, i + 2, n);
    lemma_char_at(s, i, t, 3 + n);
    assert(t[3 + n] == '\n');
}

/// The end of a space-separated token: everything up to the next space.
pub open spec fn parse_token_s(s: Seq<char>, i: int) -> Option<(Seq<char>, int)> {
    let j = space_end(s, i);
    if j == i {
        None
    } else {
        Some((s.subrange(i, j), j))
    }
}

/// Parse a space-separated token: exactly what [`parse_token_s`] says.
pub fn parse_token(s: &Vec<char>, i: usize) -> (r: Option<(String, usize)>)
    requires
        i <= s@.len(),
    ensures
        match r {
            Some((tok, j)) => parse_token_s(s@, i as int) == Some((tok@, j as int)) && i < j
                <= s@.len(),
            None => parse_token_s(s@, i as int) is None,
        },
{
    proof {
        lemma_space_end_bounds(s@, i as int);
    }
    let j = scan_space_end(s, i);
    if j == i {
        None
    } else {
        let tok = copy_str(s, i, j);
        Some((tok, j))
    }
}

/// Parsing at the position of a serialized token, followed by a space,
/// yields that token.
pub proof fn lemma_token_roundtrip(s: Seq<char>, i: int, t: Seq<char>)
    requires
        is_token(t),
        0 <= i,
        i + t.len() < s.len(),
        s.subrange(i, i + t.len()) == t,
        s[i + t.len()] == ' ',
    ensures
        parse_token_s(s, i) == Some((t, i + t.len())),
{
    assert forall|k: int| i <= k < i + t.len() implies #[trigger] s[k] != ' ' by {
        assert(s.subrange(i, i + t.len())[k - i] == s[k]);
        assert(t[k - i] != ' ');
    }
    lemma_space_end_exact(s, i, t.len() as int);
}

/// Parse the rest of the line and its ending: the last field of a line.
pub open spec fn parse_line_rest_s(s: Seq<char>, i: int) -> Option<(Seq<char>, int)> {
    let j = line_end(s, i);
    match eat_crlf(s, j) {
        None => None,
        Some(k) => Some((s.subrange(i, j), k)),
    }
}

/// Parse the rest of the line: exactly what [`parse_line_rest_s`] says.
pub fn parse_line_rest(s: &Vec<char>, i: usize) -> (r: Option<(String, usize)>)
    requires
        i <= s@.len(),
    ensures
        match r {
            Some((body, j)) => parse_line_rest_s(s@, i as int) == Some((body@, j as int)) && i < j
                <= s@.len(),
            None => parse_line_rest_s(s@, i as int) is None,
        },
{
    proof {
        lemma_line_end_bounds(s@, i as int);
    }
    let j = scan_line_end(s, i);
    match take_crlf(s, j) {
        None => None,
        Some(k) => {
            let body = copy_str(s, i, j);
            Some((body, k))
        },
    }
}

/// Parsing at the position of a line's last field, followed by CRLF, yields
/// the field.
pub proof fn lemma_line_rest_roundtrip(s: Seq<char>, i: int, t: Seq<char>)
    requires
        no_crlf(t),
        0 <= i,
        i + t.len() + 2 <= s.len(),
        s.subrange(i, i + t.len()) == t,
        s[i + t.len()] == '\r',
        s[i + t.len() + 1] == '\n',
    ensures
        parse_line_rest_s(s, i) == Some((t, i + t.len() + 2)),
{
    assert forall|k: int| i <= k < i + t.len() implies is_line_char(#[trigger] s[k]) by {
        assert(s.subrange(i, i + t.len())[k - i] == s[k]);
        assert(is_line_char(t[k - i]));
    }
    lemma_line_end_exact(s, i, t.len() as int);
}

} // verus!
