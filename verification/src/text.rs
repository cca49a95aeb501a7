//! Character- and string-level helpers shared by the SDP codec, the ICE
//! candidate grammar and the STUN username handling: UTF-8 conversion,
//! decimal rendering and scanning, and the lemmas that connect them.

use vstd::prelude::*;

use vstd::string::StrSliceExecFns;
use vstd::utf8::{encode_utf8, valid_utf8};

verus! {

/// Relies on String::from_utf8: succeeds exactly on valid UTF-8 and returns
/// the string those bytes spell.
#[verifier::external_body]
pub fn string_from_utf8(v: Vec<u8>) -> (r: Option<String>)
    ensures
        match r {
            Some(s) => valid_utf8(v@) && encode_utf8(s@) == v@,
            None => !valid_utf8(v@),
        },
{
    match String::from_utf8(v) {
        Ok(s) => Some(s),
        Err(_) => None,
    }
}

/// Relies on String::from_iter over chars: the string holds exactly the
/// given characters.
#[verifier::external_body]
pub fn chars_to_string(v: &Vec<char>) -> (r: String)
    ensures
        r@ == v@,
{
    v.iter().collect()
}

/// The characters of a string, as a vector.
pub fn str_to_chars(s: &str) -> (r: Vec<char>)
    ensures
        r@ == s@,
{
    let n = s.unicode_len();
    let mut out: Vec<char> = Vec::new();
    let mut k: usize = 0;
    while k < n
        invariant
            k <= n,
            n == s@.len(),
            out@ == s@.take(k as int),
        decreases n - k,
    {
        out.push(s.get_char(k));
        assert(out@ =~= s@.take(k + 1));
        k = k + 1;
    }
    assert(s@.take(n as int) =~= s@);
    out
}

/// Append the characters of a string.
pub fn push_str_chars(out: &mut Vec<char>, s: &str)
    ensures
        final(out)@ == old(out)@ + s@,
{
    let n = s.unicode_len();
    let mut k: usize = 0;
    while k < n
        invariant
            k <= n,
            n == s@.len(),
            out@ == old(out)@ + s@.take(k as int),
        decreases n - k,
    {
        out.push(s.get_char(k));
        assert(out@ =~= old(out)@ + s@.take(k + 1));
        k = k + 1;
    }
    assert(s@.take(n as int) =~= s@);
}

/// A decimal digit.
pub open spec fn is_digit(c: char) -> bool {
    '0' <= c && c <= '9'
}

/// The value of a decimal digit.
pub open spec fn digit_val(c: char) -> int {
    c as int - '0' as int
}

/// The digit character for a value in 0..9.
pub open spec fn digit_char(d: int) -> char {
    if d == 0 {
        '0'
    } else if d == 1 {
        '1'
    } else if d == 2 {
        '2'
    } else if d == 3 {
        '3'
    } else if d == 4 {
        '4'
    } else if d == 5 {
        '5'
    } else if d == 6 {
        '6'
    } else if d == 7 {
        '7'
    } else if d == 8 {
        '8'
    } else {
        '9'
    }
}

pub proof fn lemma_digit_char_val(d: int)
    requires
        0 <= d <= 9,
    ensures
        is_digit(digit_char(d)),
        digit_val(digit_char(d)) == d,
{
}

/// The first position at or after `i` that does not hold a decimal digit.
pub open spec fn digits_end(s: Seq<char>, i: int) -> int
    decreases s.len() - i,
{
    if i < s.len() && is_digit(s[i]) {
        digits_end(s, i + 1)
    } else {
        i
    }
}

pub proof fn lemma_digits_end_bounds(s: Seq<char>, i: int)
    requires
        0 <= i <= s.len(),
    ensures
        i <= digits_end(s, i) <= s.len(),
        forall|k: int| i <= k < digits_end(s, i) ==> is_digit(s[k]),
        digits_end(s, i) == s.len() || !is_digit(s[digits_end(s, i)]),
    decreases s.len() - i,
{
    if i < s.len() && is_digit(s[i]) {
        lemma_digits_end_bounds(s, i + 1);
    }
}

/// A run of exactly `n` digits starting at `i`, followed by a non-digit or
/// the end of the sequence, scans to `i + n`.
pub proof fn lemma_digits_end_exact(s: Seq<char>, i: int, n: int)
    requires
        0 <= i,
        0 <= n,
        i + n <= s.len(),
        forall|k: int| i <= k < i + n ==> is_digit(s[k]),
        i + n == s.len() || !is_digit(s[i + n]),
    ensures
        digits_end(s, i) == i + n,
    decreases n,
{
    if n == 0 {
    } else {
        lemma_digits_end_exact(s, i + 1, n - 1);
    }
}

/// The value of the digit run `s[i..j)`, most significant digit first.
pub open spec fn digits_val(s: Seq<char>, i: int, j: int) -> int
    decreases j - i,
{
    if i >= j {
        0
    } else {
        digits_val(s, i, j - 1) * 10 + digit_val(s[j - 1])
    }
}

pub proof fn lemma_digits_val_nonneg(s: Seq<char>, i: int, j: int)
    requires
        forall|k: int| i <= k < j ==> is_digit(s[k]),
    ensures
        digits_val(s, i, j) >= 0,
    decreases j - i,
{
    if i < j {
        lemma_digits_val_nonneg(s, i, j - 1);
    }
}

/// The decimal representation of a nonnegative number, without leading
/// zeros (except for the number zero itself).
pub open spec fn dec_rep(n: int) -> Seq<char>
    decreases n,
{
    if n < 0 {
        Seq::empty()
    } else if n < 10 {
        seq![digit_char(n)]
    } else {
        dec_rep(n / 10).push(digit_char(n % 10))
    }
}

pub proof fn lemma_dec_rep_digits(n: int)
    requires
        n >= 0,
    ensures
        dec_rep(n).len() >= 1,
        forall|k: int| 0 <= k < dec_rep(n).len() ==> is_digit(#[trigger] dec_rep(n)[k]),
    decreases n,
{
    if n < 10 {
        lemma_digit_char_val(n);
    } else {
        lemma_dec_rep_digits(n / 10);
        lemma_digit_char_val(n % 10);
    }
}

/// Reading the decimal representation back as a digit run gives the number.
pub proof fn lemma_digits_val_of_rep(s: Seq<char>, i: int, n: int)
    requires
        n >= 0,
        0 <= i,
        i + dec_rep(n).len() <= s.len(),
        s.subrange(i, i + dec_rep(n).len()) == dec_rep(n),
    ensures
        digits_val(s, i, i + dec_rep(n).len()) == n,
    decreases n,
{
    let m = dec_rep(n).len() as int;
    assert forall|k: int| 0 <= k < m implies s[i + k] == dec_rep(n)[k] by {
        assert(s.subrange(i, i + m)[k] == s[i + k]);
    }
    if n < 10 {
        lemma_digit_char_val(n);
        assert(s[i] == dec_rep(n)[0]) by {
            assert(s.subrange(i, i + m)[0] == s[i]);
        }
        assert(digits_val(s, i, i + 1) == digits_val(s, i, i) * 10 + digit_val(s[i]));
    } else {
        lemma_dec_rep_digits(n / 10);
        let mp = dec_rep(n / 10).len() as int;
        assert(m == mp + 1);
        assert forall|k: int| 0 <= k < mp implies #[trigger] s.subrange(i, i + mp)[k] == dec_rep(
            n / 10,
        )[k] by {
            assert(dec_rep(n)[k] == dec_rep(n / 10)[k]);
        }
        assert(s.subrange(i, i + mp) =~= dec_rep(n / 10));
        lemma_digits_val_of_rep(s, i, n / 10);
        lemma_digit_char_val(n % 10);
        assert(s[i + m - 1] == dec_rep(n)[m - 1]) by {
            assert(s.subrange(i, i + m)[m - 1] == s[i + m - 1]);
        }
        assert(dec_rep(n)[m - 1] == digit_char(n % 10));
        assert(digits_val(s, i, i + m) == digits_val(s, i, i + mp) * 10 + digit_val(s[i + m - 1]));
    }
}

/// The digit characters of a number's decimal representation, as text.
pub fn push_dec_u64(out: &mut Vec<char>, n: u64)
    ensures
        final(out)@ == old(out)@ + dec_rep(n as int),
    decreases n,
{
    if n >= 10 {
        push_dec_u64(out, n / 10);
    }
    let d = (n % 10) as u8;
    let c = if d == 0 {
        '0'
    } else if d == 1 {
        '1'
    } else if d == 2 {
        '2'
    } else if d == 3 {
        '3'
    } else if d == 4 {
        '4'
    } else if d == 5 {
        '5'
    } else if d == 6 {
        '6'
    } else if d == 7 {
        '7'
    } else if d == 8 {
        '8'
    } else {
        '9'
    };
    assert(c == digit_char(n as int % 10));
    out.push(c);
    proof {
        if n < 10 {
            assert(out@ =~= old(out)@ + dec_rep(n as int));
        } else {
            assert(out@ =~= old(out)@ + dec_rep(n as int));
        }
    }
}

/// Scan the digit run starting at `i` and return its value and end
/// position; nothing if there is no digit at `i` or the value does not fit
/// in 64 bits.
pub fn scan_u64(s: &Vec<char>, i: usize) -> (r: Option<(u64, usize)>)
    requires
        i <= s@.len(),
    ensures
        ({
            let j = digits_end(s@, i as int);
            match r {
                Some(p) => p.1 == j && i < j <= s@.len() && p.0 == digits_val(s@, i as int, j),
                None => j == i || digits_val(s@, i as int, j) > u64::MAX,
            }
        }),
{
    let mut j: usize = i;
    while j < s.len() && '0' <= s[j] && s[j] <= '9'
        invariant
            i <= j <= s@.len(),
            forall|m: int| i <= m < j ==> is_digit(s@[m]),
        decreases s@.len() - j,
    {
        j = j + 1;
    }
    proof {
        lemma_digits_end_exact(s@, i as int, j - i);
    }
    let mut k: usize = i;
    let mut acc: u64 = 0;
    let mut overflow: bool = false;
    while k < j
        invariant
            i <= k <= j <= s@.len(),
            j == digits_end(s@, i as int),
            forall|m: int| i <= m < j ==> is_digit(s@[m]),
            !overflow ==> acc == digits_val(s@, i as int, k as int),
            overflow ==> digits_val(s@, i as int, k as int) > u64::MAX,
        decreases j - k,
    {
        let c = s[k];
        let d = (c as u32 - '0' as u32) as u64;
        proof {
            assert(is_digit(s@[k as int]));
            assert(d == digit_val(s@[k as int]));
            assert(0 <= digit_val(s@[k as int]) <= 9);
        }
        if !overflow {
            if acc > (u64::MAX - d) / 10 {
                overflow = true;
                proof {
                    assert(digits_val(s@, i as int, k + 1) == digits_val(s@, i as int, k as int)
                        * 10 + digit_val(s@[k as int]));
                }
            } else {
                acc = acc * 10 + d;
            }
        } else {
            proof {
                lemma_digits_val_nonneg(s@, i as int, k as int);
                assert(digits_val(s@, i as int, k + 1) == digits_val(s@, i as int, k as int) * 10
                    + digit_val(s@[k as int]));
            }
        }
        k = k + 1;
    }
    if j == i {
        return None;
    }
    if overflow {
        return None;
    }
    Some((acc, j))
}

} // verus!
