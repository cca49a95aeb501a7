//! The `k=` encryption key line.

use vstd::prelude::*;

use crate::sdp::{
    eat_crlf, line_end, lemma_line_end_exact, no_crlf, scan_line_end, take_crlf,
};
use crate::text::chars_to_string;
use crate::text::push_str_chars;

verus! {

/// How the key is to be obtained.
#[derive(Clone, Copy, Debug, PartialEq, Eq, Structural)]
pub enum RetrievalMethod {
    Base64,
    Clear,
    Prompt,
    URI,
}

/// An encryption key line: a method and its optional data.
#[derive(Clone, Debug, PartialEq, Eq)]
pub struct EncryptionKey {
    pub method: RetrievalMethod,
    pub data: Option<String>,
}

/// Spec-level value of an [`EncryptionKey`].
pub struct EncryptionKeyV {
    pub method: RetrievalMethod,
    pub data: Option<Seq<char>>,
}

impl View for EncryptionKey {
    type V = EncryptionKeyV;

    open spec fn view(&self) -> EncryptionKeyV {
        EncryptionKeyV {
            method: self.method,
            data: match &self.data {
                Some(d) => Some(d@),
                None => None,
            },
        }
    }
}

impl EncryptionKeyV {
    /// A well-formed key: the data fits on the line.
    pub open spec fn wf(self) -> bool {
        match self.data {
            Some(d) => no_crlf(d),
            None => true,
        }
    }
}

/// The text of a retrieval method.
pub open spec fn method_text(m: RetrievalMethod) -> Seq<char> {
    match m {
        RetrievalMethod::Base64 => seq!['b', 'a', 's', 'e', '6', '4'],
        RetrievalMethod::Clear => seq!['c', 'l', 'e', 'a', 'r'],
        RetrievalMethod::Prompt => seq!['p', 'r', 'o', 'm', 'p', 't'],
        RetrievalMethod::URI => seq!['u', 'r', 'i'],
    }
}

/// The text of an encryption key line.
pub open spec fn encryption_key_text(k: EncryptionKeyV) -> Seq<char> {
    seq!['k', '='] + method_text(k.method) + (match k.data {
        Some(d) => seq![':'] + d,
        None => Seq::empty(),
    }) + seq!['\r', '\n']
}

/// Whether the characters at `i` spell the given text.
pub open spec fn spells(s: Seq<char>, i: int, t: Seq<char>) -> bool {
    i + t.len() <= s.len() && s.subrange(i, i + t.len()) == t
}

/// Parse an encryption key line: `k=`, one of the four methods, an optional
/// colon-prefixed key, line ending.
pub open spec fn parse_encryption_key_s(s: Seq<char>, i: int) -> Option<(EncryptionKeyV, int)> {
    if i + 2 <= s.len() && s[i] == 'k' && s[i + 1] == '=' {
        let p = i + 2;
        let m: Option<(RetrievalMethod, int)> = if spells(s, p, method_text(
            RetrievalMethod::Base64,
        )) {
            Some((RetrievalMethod::Base64, p + 6))
        } else if spells(s, p, method_text(RetrievalMethod::Clear)) {
            Some((RetrievalMethod::Clear, p + 5))
        } else if spells(s, p, method_text(RetrievalMethod::Prompt)) {
            Some((RetrievalMethod::Prompt, p + 6))
        } else if spells(s, p, method_text(RetrievalMethod::URI)) {
            Some((RetrievalMethod::URI, p + 3))
        } else {
            None
        };
        match m {
            None => None,
            Some((method, j)) => {
                if j < s.len() && s[j] == ':' {
                    let j2 = line_end(s, j + 1);
                    match eat_crlf(s, j2) {
                        None => None,
                        Some(k) => Some(
                            (
                                EncryptionKeyV { method, data: Some(s.subrange(j + 1, j2)) },
                                k,
                            ),
                        ),
                    }
                } else {
                    match eat_crlf(s, j) {
                        None => None,
                        Some(k) => Some((EncryptionKeyV { method, data: None }, k)),
                    }
                }
            },
        }
    } else {
        None
    }
}

impl EncryptionKey {
    /// Append the encryption key line's text.
    pub fn write(&self, out: &mut Vec<char>)
        ensures
            final(out)@ == old(out)@ + encryption_key_text(self@),
    {
        out.push('k');
        out.push('=');
        match self.method {
            RetrievalMethod::Base64 => push_str_chars(out, "base64"),
            RetrievalMethod::Clear => push_str_chars(out, "clear"),
            RetrievalMethod::Prompt => push_str_chars(out, "prompt"),
            RetrievalMethod::URI => push_str_chars(out, "uri"),
        }
        proof {
            reveal_strlit("base64");
            reveal_strlit("clear");
            reveal_strlit("prompt");
            reveal_strlit("uri");
            assert(out@ =~= old(out)@ + seq!['k', '='] + method_text(self.method));
        }
        match &self.data {
            Some(d) => {
                out.push(':');
                push_str_chars(out, d.as_str());
            },
            None => {},
        }
        out.push('\r');
        out.push('\n');
        assert(out@ =~= old(out)@ + encryption_key_text(self@));
    }

    /// The encryption key line, serialized.
    pub fn to_string(&self) -> (r: String)
        ensures
            r@ == encryption_key_text(self@),
    {
        let mut out: Vec<char> = Vec::new();
        self.write(&mut out);
        chars_to_string(&out)
    }
}

/// Whether the characters at `i` spell the given literal.
pub fn spells_lit(s: &Vec<char>, i: usize, lit: &[char]) -> (r: bool)
    requires
        i <= s@.len(),
    ensures
        r == spells(s@, i as int, lit@),
{
    if s.len() - i < lit.len() {
        proof {
            assert(!spells(s@, i as int, lit@));
        }
        return false;
    }
    let mut k: usize = 0;
    while k < lit.len()
        invariant
            k <= lit@.len(),
            i + lit@.len() <= s@.len(),
            s@.len() <= usize::MAX,
            forall|m: int| 0 <= m < k ==> s@[i + m] == lit@[m],
        decreases lit@.len() - k,
    {
        if s[i + k] != lit[k] {
            proof {
                assert(s@.subrange(i as int, i + lit@.len())[k as int] == s@[i + k]);
            }
            return false;
        }
        k = k + 1;
    }
    proof {
        assert(s@.subrange(i as int, i + lit@.len()) =~= lit@);
    }
    true
}

/// Parse an encryption key line: exactly what [`parse_encryption_key_s`]
/// says.
pub fn encryption_key(s: &Vec<char>, i: usize) -> (r: Option<(EncryptionKey, usize)>)
    requires
        i <= s@.len(),
    ensures
        match r {
            Some((ek, j)) => parse_encryption_key_s(s@, i as int) == Some((ek@, j as int)) && i
                < j <= s@.len(),
            None => parse_encryption_key_s(s@, i as int) is None,
        },
{
    if s.len() - i < 2 || s[i] != 'k' || s[i + 1] != '=' {
        return None;
    }
    let p = i + 2;
    let lit_base64 = ['b', 'a', 's', 'e', '6', '4'];
    let lit_clear = ['c', 'l', 'e', 'a', 'r'];
    let lit_prompt = ['p', 'r', 'o', 'm', 'p', 't'];
    let lit_uri = ['u', 'r', 'i'];
    proof {
        assert(lit_base64@ =~= method_text(RetrievalMethod::Base64));
        assert(lit_clear@ =~= method_text(RetrievalMethod::Clear));
        assert(lit_prompt@ =~= method_text(RetrievalMethod::Prompt));
        assert(lit_uri@ =~= method_text(RetrievalMethod::URI));
    }
    let (method, j) = if spells_lit(s, p, &lit_base64) {
        (RetrievalMethod::Base64, p + 6)
    } else if spells_lit(s, p, &lit_clear) {
        (RetrievalMethod::Clear, p + 5)
    } else if spells_lit(s, p, &lit_prompt) {
        (RetrievalMethod::Prompt, p + 6)
    } else if spells_lit(s, p, &lit_uri) {
        (RetrievalMethod::URI, p + 3)
    } else {
        return None;
    };
    if j < s.len() && s[j] == ':' {
        let j2 = scan_line_end(s, j + 1);
        match take_crlf(s, j2) {
            None => None,
            Some(k) => {
                let data = crate::sdp::copy_str(s, j + 1, j2);
                Some((EncryptionKey { method, data: Some(data) }, k))
            },
        }
    } else {
        match take_crlf(s, j) {
            None => None,
            Some(k) => Some((EncryptionKey { method, data: None }, k)),
        }
    }
}

/// Parsing a serialized encryption key line gives back the key.
pub proof fn lemma_encryption_key_roundtrip(s: Seq<char>, i: int, ek: EncryptionKeyV)
    requires
        ek.wf(),
        0 <= i,
        i + encryption_key_text(ek).len() <= s.len(),
        s.subrange(i, i + encryption_key_text(ek).len()) == encryption_key_text(ek),
    ensures
        parse_encryption_key_s(s, i) == Some((ek, i + encryption_key_text(ek).len())),
{
    let t = encryption_key_text(ek);
    let mt = method_text(ek.method);
    let n = mt.len() as int;
    crate::sdp::lemma_char_at(s, i, t, 0);
    crate::sdp::lemma_char_at(s, i, t, 1);
    assert(t[0] == 'k' && t[1] == '=');
    let p = i + 2;
    assert(t.subrange(2, 2 + n) =~= mt);
    crate::sdp::lemma_piece(s, i, t, 2, mt);
    assert(spells(s, p, mt));
    // The four method words are mutually non-prefixing at this position:
    // they differ in their first character or, for prompt, are checked
    // before any other word starting the same way.
    crate::sdp::lemma_char_at(s, i, t, 2);
    match ek.method {
        RetrievalMethod::Base64 => {
            assert(mt[0] == 'b');
        },
        RetrievalMethod::Clear => {
            assert(mt[0] == 'c');
            assert(s[p] == 'c');
            assert(!spells(s, p, method_text(RetrievalMethod::Base64))) by {
                if spells(s, p, method_text(RetrievalMethod::Base64)) {
                    assert(s.subrange(p, p + 6)[0] == s[p]);
                }
            }
        },
        RetrievalMethod::Prompt => {
            assert(mt[0] == 'p');
            assert(s[p] == 'p');
            assert(!spells(s, p, method_text(RetrievalMethod::Base64))) by {
                if spells(s, p, method_text(RetrievalMethod::Base64)) {
                    assert(s.subrange(p, p + 6)[0] == s[p]);
                }
            }
            assert(!spells(s, p, method_text(RetrievalMethod::Clear))) by {
                if spells(s, p, method_text(RetrievalMethod::Clear)) {
                    assert(s.subrange(p, p + 5)[0] == s[p]);
                }
            }
        },
        RetrievalMethod::URI => {
            assert(mt[0] == 'u');
            assert(s[p] == 'u');
            assert(!spells(s, p, method_text(RetrievalMethod::Base64))) by {
                if spells(s, p, method_text(RetrievalMethod::Base64)) {
                    assert(s.subrange(p, p + 6)[0] == s[p]);
                }
            }
            assert(!spells(s, p, method_text(RetrievalMethod::Clear))) by {
                if spells(s, p, method_text(RetrievalMethod::Clear)) {
                    assert(s.subrange(p, p + 5)[0] == s[p]);
                }
            }
            assert(!spells(s, p, method_text(RetrievalMethod::Prompt))) by {
                if spells(s, p, method_text(RetrievalMethod::Prompt)) {
                    assert(s.subrange(p, p + 6)[0] == s[p]);
                }
            }
        },
    }
    let j = p + n;
    match ek.data {
        Some(d) => {
            crate::sdp::lemma_char_at(s, i, t, 2 + n);
            assert(t[2 + n] == ':');
            assert(t.subrange(2 + n + 1, 2 + n + 1 + d.len() as int) =~= d);
            crate::sdp::lemma_piece(s, i, t, 2 + n + 1, d);
            assert forall|k: int|
                j + 1 <= k < j + 1 + d.len() implies crate::sdp::is_line_char(#[trigger] s[k]) by {
                assert(s.subrange(j + 1, j + 1 + d.len() as int)[k - (j + 1)] == s[k]);
            }
            crate::sdp::lemma_char_at(s, i, t, 2 + n + 1 + d.len() as int);
            assert(t[2 + n + 1 + d.len() as int] == '\r');
            lemma_line_end_exact(s, j + 1, d.len() as int);
            crate::sdp::lemma_char_at(s, i, t, 2 + n + 2 + d.len() as int);
            assert(t[2 + n + 2 + d.len() as int] == '\n');
        },
        None => {
            crate::sdp::lemma_char_at(s, i, t, 2 + n);
            assert(t[2 + n] == '\r');
            crate::sdp::lemma_char_at(s, i, t, 2 + n + 1);
            assert(t[2 + n + 1] == '\n');
        },
    }
}

} // verus!
