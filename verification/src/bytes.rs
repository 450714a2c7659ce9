//! Byte sequences and their reading as text.

use vstd::prelude::*;
use vstd::utf8::*;

use crate::text;

verus! {

/// The text that `String::from_utf8_lossy` makes of the bytes.
pub uninterp spec fn lossy(bytes: Seq<u8>) -> Seq<char>;

/// What the error of `str::from_utf8` says of the bytes.
pub uninterp spec fn utf8_complaint(bytes: Seq<u8>) -> Seq<char>;

/// The lower case that `str::to_lowercase` gives for the text.
pub uninterp spec fn unicode_lower(s: Seq<char>) -> Seq<char>;

/// `String::from_utf8_lossy` turns bytes into text. Valid UTF-8 is decoded as
/// it is; which replacement characters come out of other bytes is not said
/// here beyond that they depend on the bytes alone.
#[verifier::external_body]
pub(crate) fn lossy_text(bytes: &[u8]) -> (r: String)
    ensures
        r@ == lossy(bytes@),
        valid_utf8(bytes@) ==> r@ == decode_utf8(bytes@),
{
    String::from_utf8_lossy(bytes).to_string()
}

/// `str::from_utf8` succeeds on valid UTF-8 only and decodes it; its error
/// is handed on as the text that it displays.
#[verifier::external_body]
pub(crate) fn utf8_text(bytes: &[u8]) -> (r: Result<String, String>)
    ensures
        match r {
            Ok(s) => valid_utf8(bytes@) && s@ == decode_utf8(bytes@),
            Err(m) => !valid_utf8(bytes@) && m@ == utf8_complaint(bytes@),
        },
{
    match std::str::from_utf8(bytes) {
        Ok(s) => Ok(s.to_string()),
        Err(e) => Err(e.to_string()),
    }
}

/// `str::to_lowercase` gives a text that depends on the argument alone.
#[verifier::external_body]
pub(crate) fn text_lower(s: &str) -> (r: String)
    ensures
        r@ == unicode_lower(s@),
{
    s.to_lowercase()
}

/// ASCII lower case of one byte.
pub open spec fn low_byte(b: u8) -> u8 {
    if 0x41 <= b <= 0x5a {
        (b + 32) as u8
    } else {
        b
    }
}

/// The two byte strings are equal but for the case of ASCII letters.
pub open spec fn same_ignoring_case(a: Seq<u8>, b: Seq<u8>) -> bool {
    a.len() == b.len() && forall|i: int|
        0 <= i < a.len() ==> low_byte(#[trigger] a[i]) == low_byte(b[i])
}

/// ASCII lower case of one byte.
fn lower_byte(b: u8) -> (r: u8)
    ensures
        r == low_byte(b),
{
    if 0x41 <= b && b <= 0x5a {
        b + 32
    } else {
        b
    }
}

/// Whether two byte strings are equal but for the case of ASCII letters.
pub fn eq_ignore_case(a: &[u8], b: &[u8]) -> (r: bool)
    ensures
        r == same_ignoring_case(a@, b@),
{
    if a.len() != b.len() {
        return false;
    }
    let mut i: usize = 0;
    while i < a.len()
        invariant
            i <= a@.len(),
            a.len() == b.len(),
            forall|k: int| 0 <= k < i ==> low_byte(#[trigger] a@[k]) == low_byte(b@[k]),
        decreases a.len() - i,
    {
        if lower_byte(a[i]) != lower_byte(b[i]) {
            return false;
        }
        i = i + 1;
    }
    true
}

/// Whether `pat` occurs in `s` at position `at`.
pub fn bytes_match_at(s: &[u8], pat: &[u8], at: usize) -> (r: bool)
    ensures
        r == text::occurs_at(s@, pat@, at as int),
{
    if at > s.len() || pat.len() > s.len() - at {
        return false;
    }
    let mut i: usize = 0;
    while i < pat.len()
        invariant
            i <= pat@.len(),
            at + pat.len() <= s.len(),
            forall|k: int| 0 <= k < i ==> s@[at + k] == pat@[k],
        decreases pat.len() - i,
    {
        if s[at + i] != pat[i] {
            proof {
                assert(s@.subrange(at as int, at + pat@.len())[i as int] != pat@[i as int]);
            }
            return false;
        }
        i = i + 1;
    }
    proof {
        assert(s@.subrange(at as int, at + pat@.len()) =~= pat@);
    }
    true
}

/// The first position where `pat` occurs.
pub fn find_bytes(s: &[u8], pat: &[u8]) -> (r: Option<usize>)
    ensures
        match r {
            Some(i) => text::first_at(s@, pat@) == Some(i as int) && i + pat@.len() <= s.len(),
            None => text::first_at(s@, pat@) is None,
        },
{
    let mut i: usize = 0;
    while i <= s.len() && pat.len() <= s.len() - i
        invariant
            text::first_at(s@, pat@) == text::find_from(s@, pat@, i as int),
        decreases s.len() + 1 - i,
    {
        if bytes_match_at(s, pat, i) {
            return Some(i);
        }
        if i == s.len() {
            proof {
                assert(s@.subrange(i as int, i as int) =~= pat@);
            }
            return None;
        }
        i = i + 1;
    }
    None
}

/// The position of the first `b`, or the length if there is none.
pub fn byte_position(s: &[u8], b: u8) -> (r: usize)
    ensures
        r == text::reach(s@, b),
        r <= s@.len(),
{
    let mut i: usize = 0;
    while i < s.len() && s[i] != b
        invariant
            i <= s@.len(),
            forall|k: int| 0 <= k < i ==> s@[k] != b,
        decreases s.len() - i,
    {
        i = i + 1;
    }
    proof {
        text::lemma_reach_is(s@, b, i as int);
    }
    i
}

/// Appends bytes.
pub fn append_bytes(out: &mut Vec<u8>, more: &[u8])
    ensures
        final(out)@ == old(out)@ + more@,
{
    let ghost before = out@;
    out.extend_from_slice(more);
    proof {
        assert(out@ =~= before + more@);
    }
}

} // verus!
