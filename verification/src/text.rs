//! Character-level text operations, each with its meaning as a function on
//! sequences of characters.

use vstd::prelude::*;
use vstd::slice::slice_subrange;
use vstd::string::*;

verus! {

// ---------------------------------------------------------------------------
// What the operations mean
// ---------------------------------------------------------------------------

/// The characters with the Unicode `White_Space` property.
pub open spec fn is_space(c: char) -> bool {
    ||| '\u{9}' <= c <= '\u{d}'
    ||| c == ' '
    ||| c == '\u{85}'
    ||| c == '\u{a0}'
    ||| c == '\u{1680}'
    ||| '\u{2000}' <= c <= '\u{200a}'
    ||| c == '\u{2028}'
    ||| c == '\u{2029}'
    ||| c == '\u{202f}'
    ||| c == '\u{205f}'
    ||| c == '\u{3000}'
}

/// The control characters (Unicode general category `Cc`).
pub open spec fn is_ctrl(c: char) -> bool {
    c <= '\u{1f}' || '\u{7f}' <= c <= '\u{9f}'
}

/// ASCII lower case of one character; any other character stays as it is.
pub open spec fn low(c: char) -> char {
    if 'A' <= c <= 'Z' {
        ((c as u8) + 32) as char
    } else {
        c
    }
}

/// ASCII lower case of a text.
pub open spec fn lowered(s: Seq<char>) -> Seq<char> {
    s.map_values(|c: char| low(c))
}

/// The text without its leading white space.
pub open spec fn trimmed_start(s: Seq<char>) -> Seq<char>
    decreases s.len(),
{
    if s.len() > 0 && is_space(s[0]) {
        trimmed_start(s.skip(1))
    } else {
        s
    }
}

/// The text without its trailing white space.
pub open spec fn trimmed_end(s: Seq<char>) -> Seq<char>
    decreases s.len(),
{
    if s.len() > 0 && is_space(s.last()) {
        trimmed_end(s.drop_last())
    } else {
        s
    }
}

/// The text without white space at either end.
pub open spec fn trimmed(s: Seq<char>) -> Seq<char> {
    trimmed_end(trimmed_start(s))
}

/// `pat` occurs in `s` at position `i`.
pub open spec fn occurs_at<T>(s: Seq<T>, pat: Seq<T>, i: int) -> bool {
    0 <= i && i + pat.len() <= s.len() && s.subrange(i, i + pat.len()) == pat
}

/// `s` begins with `pat`.
pub open spec fn has_prefix<T>(s: Seq<T>, pat: Seq<T>) -> bool {
    occurs_at(s, pat, 0)
}

/// The first position at or after `from` where `pat` occurs in `s`.
pub open spec fn find_from<T>(s: Seq<T>, pat: Seq<T>, from: int) -> Option<int>
    decreases s.len() + 1 - from,
{
    if from < 0 || from + pat.len() > s.len() {
        None
    } else if occurs_at(s, pat, from) {
        Some(from)
    } else {
        find_from(s, pat, from + 1)
    }
}

/// The first position where `pat` occurs in `s`.
pub open spec fn first_at<T>(s: Seq<T>, pat: Seq<T>) -> Option<int> {
    find_from(s, pat, 0)
}

/// `pat` occurs somewhere in `s`.
pub open spec fn has_part<T>(s: Seq<T>, pat: Seq<T>) -> bool {
    exists|i: int| #[trigger] occurs_at(s, pat, i)
}

/// The position of the first `x` in `s`, or the length of `s` if there is none.
pub open spec fn reach<T>(s: Seq<T>, x: T) -> int
    decreases s.len(),
{
    if s.len() == 0 || s[0] == x {
        0
    } else {
        1 + reach(s.skip(1), x)
    }
}

/// The pieces of `s` between the occurrences of `sep`: one more than there
/// are separators.
pub open spec fn pieces<T>(s: Seq<T>, sep: T) -> Seq<Seq<T>>
    decreases s.len(),
{
    if reach(s, sep) < 0 || reach(s, sep) >= s.len() {
        seq![s]
    } else {
        seq![s.take(reach(s, sep))] + pieces(s.skip(reach(s, sep) + 1), sep)
    }
}

/// The length of the longest start of `s` that holds no white space.
pub open spec fn word_end(s: Seq<char>) -> int
    decreases s.len(),
{
    if s.len() == 0 || is_space(s[0]) {
        0
    } else {
        1 + word_end(s.skip(1))
    }
}

/// The words of `s`: its longest runs without white space.
pub open spec fn words_of(s: Seq<char>) -> Seq<Seq<char>>
    decreases s.len(),
{
    if s.len() == 0 {
        Seq::empty()
    } else if is_space(s[0]) {
        words_of(s.skip(1))
    } else if 0 < word_end(s) <= s.len() {
        seq![s.take(word_end(s))] + words_of(s.skip(word_end(s)))
    } else {
        Seq::empty()
    }
}

/// The parts one after the other with `sep` between two of them.
pub open spec fn joined(parts: Seq<Seq<char>>, sep: Seq<char>) -> Seq<char>
    decreases parts.len(),
{
    if parts.len() == 0 {
        Seq::empty()
    } else if parts.len() == 1 {
        parts[0]
    } else {
        joined(parts.drop_last(), sep) + sep + parts.last()
    }
}

/// At most the first `n` items.
pub open spec fn at_most<T>(s: Seq<T>, n: int) -> Seq<T> {
    if s.len() <= n {
        s
    } else {
        s.take(n)
    }
}

/// The texts of a list of character vectors.
pub open spec fn char_views(v: Seq<Vec<char>>) -> Seq<Seq<char>> {
    v.map_values(|x: Vec<char>| x@)
}

/// The texts of a list of strings.
pub open spec fn str_views(v: Seq<String>) -> Seq<Seq<char>> {
    v.map_values(|x: String| x@)
}

/// The pairs of texts of a list.
pub open spec fn pair_views(v: Seq<(String, String)>) -> Seq<(Seq<char>, Seq<char>)> {
    v.map_values(|x: (String, String)| (x.0@, x.1@))
}

/// The text that may be there.
pub open spec fn opt_view(v: Option<String>) -> Option<Seq<char>> {
    match v {
        Some(s) => Some(s@),
        None => None,
    }
}

/// The number of bytes that UTF-8 uses for `c`.
pub open spec fn char_width(c: char) -> nat {
    if c <= '\u{7f}' {
        1
    } else if c <= '\u{7ff}' {
        2
    } else if c <= '\u{ffff}' {
        3
    } else {
        4
    }
}

/// The number of bytes that UTF-8 uses for `s`.
pub open spec fn byte_len(s: Seq<char>) -> nat
    decreases s.len(),
{
    if s.len() == 0 {
        0
    } else {
        byte_len(s.drop_last()) + char_width(s.last())
    }
}

/// The number of leading characters of `s` that take up exactly `n` bytes;
/// `None` where byte `n` lies beyond the end or inside a character.
pub open spec fn chars_in_bytes(s: Seq<char>, n: int) -> Option<int>
    decreases s.len(),
{
    if n <= 0 {
        if n == 0 {
            Some(0int)
        } else {
            None
        }
    } else if s.len() == 0 {
        None
    } else {
        match chars_in_bytes(s.skip(1), n - char_width(s[0])) {
            Some(k) => Some(k + 1),
            None => None,
        }
    }
}

/// Cutting the text behind `n` bytes would cut a character in two.
pub open spec fn cuts_char(s: Seq<char>, n: int) -> bool {
    byte_len(s) >= n && chars_in_bytes(s, n) is None
}

// ---------------------------------------------------------------------------
// Between `str` and characters
// ---------------------------------------------------------------------------

/// `String::push` appends one character to the text.
pub assume_specification[ String::push ](s: &mut String, c: char)
    ensures
        final(s)@ == old(s)@.push(c),
;

/// The characters of a text.
pub fn to_chars(s: &str) -> (r: Vec<char>)
    ensures
        r@ == s@,
{
    let mut out: Vec<char> = Vec::new();
    for c in it: s.chars()
        invariant
            out@ =~= s@.take(it.index() as int),
            it.seq() == s@,
    {
        out.push(c);
    }
    out
}

/// The text made of the given characters.
pub fn to_text(cs: &[char]) -> (r: String)
    ensures
        r@ == cs@,
{
    let mut out: String = String::new();
    let mut i: usize = 0;
    while i < cs.len()
        invariant
            i <= cs@.len(),
            out@ =~= cs@.take(i as int),
        decreases cs.len() - i,
    {
        out.push(cs[i]);
        i = i + 1;
    }
    out
}

// ---------------------------------------------------------------------------
// Single characters
// ---------------------------------------------------------------------------

/// Whether `c` is white space.
pub fn is_white(c: char) -> (r: bool)
    ensures
        r == is_space(c),
{
    ('\u{9}' <= c && c <= '\u{d}') || c == ' ' || c == '\u{85}' || c == '\u{a0}' || c == '\u{1680}'
        || ('\u{2000}' <= c && c <= '\u{200a}') || c == '\u{2028}' || c == '\u{2029}' || c
        == '\u{202f}' || c == '\u{205f}' || c == '\u{3000}'
}

/// Whether `c` is a control character.
pub fn is_control_char(c: char) -> (r: bool)
    ensures
        r == is_ctrl(c),
{
    c <= '\u{1f}' || ('\u{7f}' <= c && c <= '\u{9f}')
}

/// ASCII lower case of `c`.
pub fn lower_char(c: char) -> (r: char)
    ensures
        r == low(c),
{
    if 'A' <= c && c <= 'Z' {
        ((c as u8) + 32) as char
    } else {
        c
    }
}

/// The number of bytes of `c` in UTF-8.
pub fn width(c: char) -> (r: usize)
    ensures
        r == char_width(c),
{
    if c <= '\u{7f}' {
        1
    } else if c <= '\u{7ff}' {
        2
    } else if c <= '\u{ffff}' {
        3
    } else {
        4
    }
}

// ---------------------------------------------------------------------------
// Texts
// ---------------------------------------------------------------------------

/// ASCII lower case of a text.
pub fn lower(cs: &[char]) -> (r: Vec<char>)
    ensures
        r@ == lowered(cs@),
{
    let mut out: Vec<char> = Vec::new();
    let mut i: usize = 0;
    while i < cs.len()
        invariant
            i <= cs@.len(),
            out@ =~= lowered(cs@).take(i as int),
        decreases cs.len() - i,
    {
        out.push(lower_char(cs[i]));
        i = i + 1;
    }
    proof {
        assert(lowered(cs@).take(i as int) =~= lowered(cs@));
    }
    out
}

/// Removes leading white space.
pub fn trim_start(cs: &[char]) -> (r: &[char])
    ensures
        r@ == trimmed_start(cs@),
{
    let mut i: usize = 0;
    proof {
        assert(cs@.skip(0) =~= cs@);
    }
    while i < cs.len() && is_white(cs[i])
        invariant
            i <= cs@.len(),
            trimmed_start(cs@) == trimmed_start(cs@.skip(i as int)),
        decreases cs.len() - i,
    {
        proof {
            assert(cs@.skip(i as int).skip(1) =~= cs@.skip(i + 1));
        }
        i = i + 1;
    }
    proof {
        assert(cs@.skip(i as int) =~= cs@.subrange(i as int, cs@.len() as int));
    }
    slice_subrange(cs, i, cs.len())
}

/// Removes trailing white space.
pub fn trim_end(cs: &[char]) -> (r: &[char])
    ensures
        r@ == trimmed_end(cs@),
{
    let mut n: usize = cs.len();
    proof {
        assert(cs@.take(n as int) =~= cs@);
    }
    while n > 0 && is_white(cs[n - 1])
        invariant
            n <= cs@.len(),
            trimmed_end(cs@) == trimmed_end(cs@.take(n as int)),
        decreases n,
    {
        proof {
            assert(cs@.take(n as int).drop_last() =~= cs@.take(n - 1));
        }
        n = n - 1;
    }
    proof {
        assert(cs@.take(n as int) =~= cs@.subrange(0, n as int));
    }
    slice_subrange(cs, 0, n)
}

/// Removes white space at both ends.
pub fn trim(cs: &[char]) -> (r: &[char])
    ensures
        r@ == trimmed(cs@),
{
    trim_end(trim_start(cs))
}

/// Whether `pat` occurs in `s` at position `at`.
pub fn matches_at(s: &[char], pat: &[char], at: usize) -> (r: bool)
    ensures
        r == occurs_at(s@, pat@, at as int),
{
    if at > s.len() || pat.len() > s.len() - at {
        return false;
    }
    let mut i: usize = 0;
    while i < pat.len()
        invariant
            i <= pat@.len(),
            at + pat.len() <= s.len(),
            forall|k: int| 0 <= k < i ==> s@[at + k] == pat@[k],
        decreases pat.len() - i,
    {
        if s[at + i] != pat[i] {
            proof {
                assert(s@.subrange(at as int, at + pat@.len())[i as int] != pat@[i as int]);
            }
            return false;
        }
        i = i + 1;
    }
    proof {
        assert(s@.subrange(at as int, at + pat@.len()) =~= pat@);
    }
    true
}

/// Whether `s` begins with `pat`.
pub fn starts_with(s: &[char], pat: &[char]) -> (r: bool)
    ensures
        r == has_prefix(s@, pat@),
{
    matches_at(s, pat, 0)
}

/// Whether two texts are equal.
pub fn same(a: &[char], b: &[char]) -> (r: bool)
    ensures
        r == (a@ == b@),
{
    let r: bool = a.len() == b.len() && matches_at(a, b, 0);
    proof {
        if a@.len() == b@.len() {
            assert(a@.subrange(0, b@.len() as int) =~= a@);
        }
    }
    r
}

/// The first position at or after `from` where `pat` occurs.
pub fn find_after(s: &[char], pat: &[char], from: usize) -> (r: Option<usize>)
    ensures
        match r {
            Some(i) => find_from(s@, pat@, from as int) == Some(i as int),
            None => find_from(s@, pat@, from as int) is None,
        },
{
    let mut i: usize = from;
    while i <= s.len() && pat.len() <= s.len() - i
        invariant
            from <= i,
            find_from(s@, pat@, from as int) == find_from(s@, pat@, i as int),
        decreases s.len() + 1 - i,
    {
        if matches_at(s, pat, i) {
            return Some(i);
        }
        if i == s.len() {
            proof {
                assert(s@.subrange(i as int, i as int) =~= pat@);
            }
            return None;
        }
        i = i + 1;
    }
    None
}

/// The first position where `pat` occurs.
pub fn find(s: &[char], pat: &[char]) -> (r: Option<usize>)
    ensures
        match r {
            Some(i) => first_at(s@, pat@) == Some(i as int),
            None => first_at(s@, pat@) is None,
        },
{
    find_after(s, pat, 0)
}

/// Where the search from `from` stops, nothing occurs before.
pub proof fn lemma_find_from<T>(s: Seq<T>, pat: Seq<T>, from: int)
    requires
        0 <= from,
    ensures
        match find_from(s, pat, from) {
            Some(i) => from <= i && occurs_at(s, pat, i) && forall|k: int|
                from <= k < i ==> !occurs_at(s, pat, k),
            None => forall|k: int| from <= k ==> !occurs_at(s, pat, k),
        },
    decreases s.len() + 1 - from,
{
    if from + pat.len() <= s.len() && !occurs_at(s, pat, from) {
        lemma_find_from(s, pat, from + 1);
    }
}

/// Whether `pat` occurs in `s`.
pub fn contains(s: &[char], pat: &[char]) -> (r: bool)
    ensures
        r == has_part(s@, pat@),
{
    let at = find(s, pat);
    proof {
        lemma_find_from(s@, pat@, 0);
    }
    at.is_some()
}

/// Whether the literal `pat` occurs in `s`.
pub fn contains_text(s: &[char], pat: &str) -> (r: bool)
    ensures
        r == has_part(s@, pat@),
{
    let p = to_chars(pat);
    contains(s, p.as_slice())
}

/// Whether `s` is the literal `t`.
pub fn same_text(s: &[char], t: &str) -> (r: bool)
    ensures
        r == (s@ == t@),
{
    let p = to_chars(t);
    same(s, p.as_slice())
}

/// The reach of a character is a position in the text or its length; the
/// character stands there and nowhere before.
pub proof fn lemma_reach<T>(s: Seq<T>, x: T)
    ensures
        0 <= reach(s, x) <= s.len(),
        reach(s, x) < s.len() ==> s[reach(s, x)] == x,
        forall|k: int| 0 <= k < reach(s, x) ==> s[k] != x,
    decreases s.len(),
{
    if s.len() > 0 && s[0] != x {
        lemma_reach(s.skip(1), x);
        assert forall|k: int| 0 <= k < reach(s, x) implies s[k] != x by {
            if k > 0 {
                assert(s.skip(1)[k - 1] == s[k]);
            }
        }
    }
}

/// A position where `x` stands and before which it does not is its reach.
pub proof fn lemma_reach_is<T>(s: Seq<T>, x: T, n: int)
    requires
        0 <= n <= s.len(),
        n < s.len() ==> s[n] == x,
        forall|k: int| 0 <= k < n ==> s[k] != x,
    ensures
        reach(s, x) == n,
{
    lemma_reach(s, x);
    if reach(s, x) < n {
        assert(s[reach(s, x)] != x);
    }
    if n < reach(s, x) {
        assert(s[n] != x);
    }
}

/// The position of the first `c`, or the length of the text.
pub fn position(cs: &[char], c: char) -> (r: usize)
    ensures
        r == reach(cs@, c),
        r <= cs@.len(),
{
    let mut i: usize = 0;
    while i < cs.len() && cs[i] != c
        invariant
            i <= cs@.len(),
            forall|k: int| 0 <= k < i ==> cs@[k] != c,
        decreases cs.len() - i,
    {
        i = i + 1;
    }
    proof {
        lemma_reach_is(cs@, c, i as int);
    }
    i
}

/// Splits a text at every `sep`.
pub fn split(cs: &[char], sep: char) -> (r: Vec<Vec<char>>)
    ensures
        char_views(r@) == pieces(cs@, sep),
        r@.len() > 0,
{
    let mut out: Vec<Vec<char>> = Vec::new();
    let mut from: usize = 0;
    proof {
        assert(cs@.skip(0) =~= cs@);
        assert(char_views(out@) + pieces(cs@, sep) =~= pieces(cs@, sep));
    }
    loop
        invariant
            from <= cs@.len(),
            char_views(out@) + pieces(cs@.skip(from as int), sep) == pieces(cs@, sep),
        decreases cs.len() - from,
    {
        let rest = slice_subrange(cs, from, cs.len());
        proof {
            assert(rest@ =~= cs@.skip(from as int));
        }
        let n: usize = position(rest, sep);
        let piece = slice_subrange(rest, 0, n);
        let ghost before = char_views(out@);
        let copy = vstd::slice::slice_to_vec(piece);
        out.push(copy);
        proof {
            assert(piece@ =~= rest@.take(n as int));
            assert(char_views(out@) =~= before.push(piece@));
        }
        if n == rest.len() {
            proof {
                assert(piece@ =~= rest@);
                assert(char_views(out@) =~= before + seq![rest@]);
            }
            return out;
        }
        proof {
            assert(rest@.skip(n + 1) =~= cs@.skip(from + n + 1));
            assert(before + (seq![rest@.take(n as int)] + pieces(cs@.skip(from + n + 1), sep))
                =~= char_views(out@) + pieces(cs@.skip(from + n + 1), sep));
        }
        from = from + n + 1;
    }
}

/// The words of a text.
pub fn split_words(cs: &[char]) -> (r: Vec<Vec<char>>)
    ensures
        char_views(r@) == words_of(cs@),
{
    let mut out: Vec<Vec<char>> = Vec::new();
    let mut i: usize = 0;
    proof {
        assert(cs@.skip(0) =~= cs@);
        assert(char_views(out@) + words_of(cs@) =~= words_of(cs@));
    }
    while i < cs.len()
        invariant
            i <= cs@.len(),
            char_views(out@) + words_of(cs@.skip(i as int)) == words_of(cs@),
        decreases cs.len() - i,
    {
        if is_white(cs[i]) {
            proof {
                assert(cs@.skip(i as int).skip(1) =~= cs@.skip(i + 1));
            }
            i = i + 1;
        } else {
            let rest = slice_subrange(cs, i, cs.len());
            proof {
                assert(rest@ =~= cs@.skip(i as int));
            }
            let n: usize = word_length(rest);
            let word = slice_subrange(rest, 0, n);
            let ghost before = char_views(out@);
            out.push(vstd::slice::slice_to_vec(word));
            proof {
                assert(word@ =~= rest@.take(n as int));
                assert(char_views(out@) =~= before.push(word@));
                assert(rest@.skip(n as int) =~= cs@.skip(i + n));
                assert(before + (seq![rest@.take(n as int)] + words_of(cs@.skip(i + n)))
                    =~= char_views(out@) + words_of(cs@.skip(i + n)));
            }
            i = i + n;
        }
    }
    proof {
        assert(cs@.skip(i as int).len() == 0);
        assert(char_views(out@) + words_of(cs@.skip(i as int)) =~= char_views(out@));
    }
    out
}

/// The length of the first word of a text that begins with one.
fn word_length(cs: &[char]) -> (r: usize)
    requires
        cs@.len() > 0,
        !is_space(cs@[0]),
    ensures
        r == word_end(cs@),
        0 < r <= cs@.len(),
{
    let mut i: usize = 1;
    proof {
        assert(word_end(cs@) == 1 + word_end(cs@.skip(1)));
    }
    while i < cs.len() && !is_white(cs[i])
        invariant
            1 <= i <= cs@.len(),
            word_end(cs@) == i + word_end(cs@.skip(i as int)),
        decreases cs.len() - i,
    {
        proof {
            assert(cs@.skip(i as int).skip(1) =~= cs@.skip(i + 1));
        }
        i = i + 1;
    }
    i
}

/// Puts `sep` between the parts.
pub fn join(parts: &Vec<Vec<char>>, sep: &str) -> (r: String)
    ensures
        r@ == joined(char_views(parts@), sep@),
{
    let mut out: String = String::new();
    let mut i: usize = 0;
    while i < parts.len()
        invariant
            i <= parts@.len(),
            out@ == joined(char_views(parts@).take(i as int), sep@),
        decreases parts.len() - i,
    {
        let part = to_text(parts[i].as_slice());
        proof {
            assert(char_views(parts@).take(i + 1).drop_last() =~= char_views(parts@).take(i as int));
        }
        if i > 0 {
            out.append(sep);
        }
        out.append(part.as_str());
        proof {
            if i == 0 {
                assert(out@ =~= part@);
            }
        }
        i = i + 1;
    }
    proof {
        assert(char_views(parts@).take(i as int) =~= char_views(parts@));
    }
    out
}

/// At most the first `n` characters.
pub fn take_chars(cs: &[char], n: usize) -> (r: &[char])
    ensures
        r@ == at_most(cs@, n as int),
{
    if cs.len() <= n {
        cs
    } else {
        proof {
            assert(cs@.subrange(0, n as int) =~= cs@.take(n as int));
        }
        slice_subrange(cs, 0, n)
    }
}

/// What `byte_len` gives for a text with one more character in front.
pub proof fn lemma_byte_len_skip(s: Seq<char>)
    requires
        s.len() > 0,
    ensures
        byte_len(s) == char_width(s[0]) + byte_len(s.skip(1)),
    decreases s.len(),
{
    if s.len() > 1 {
        lemma_byte_len_skip(s.drop_last());
        assert(s.drop_last().skip(1) =~= s.skip(1).drop_last());
        assert(s.skip(1).last() == s.last());
    } else {
        reveal_with_fuel(byte_len, 2);
    }
}

/// Whether the text takes up at least `n` bytes.
pub fn has_bytes(cs: &[char], n: usize) -> (r: bool)
    ensures
        r == (byte_len(cs@) >= n),
{
    let mut left: usize = n;
    let mut i: usize = 0;
    proof {
        assert(cs@.skip(0) =~= cs@);
    }
    while i < cs.len()
        invariant
            i <= cs@.len(),
            byte_len(cs@) >= n <==> byte_len(cs@.skip(i as int)) >= left,
        decreases cs.len() - i,
    {
        let w: usize = width(cs[i]);
        proof {
            lemma_byte_len_skip(cs@.skip(i as int));
            assert(cs@.skip(i as int).skip(1) =~= cs@.skip(i + 1));
        }
        if left <= w {
            return true;
        }
        left = left - w;
        i = i + 1;
    }
    left == 0
}

/// The number of leading characters that take up exactly `n` bytes.
pub fn cut_at(cs: &[char], n: u128) -> (r: Option<usize>)
    ensures
        match r {
            Some(k) => chars_in_bytes(cs@, n as int) == Some(k as int) && k <= cs@.len(),
            None => chars_in_bytes(cs@, n as int) is None,
        },
{
    let mut left: u128 = n;
    let mut i: usize = 0;
    proof {
        assert(cs@.skip(0) =~= cs@);
    }
    while i < cs.len()
        invariant
            i <= cs@.len(),
            chars_in_bytes(cs@, n as int) is Some <==> chars_in_bytes(
                cs@.skip(i as int),
                left as int,
            ) is Some,
            chars_in_bytes(cs@, n as int) matches Some(k) ==> k == i + chars_in_bytes(
                cs@.skip(i as int),
                left as int,
            )->0,
        decreases cs.len() - i,
    {
        if left == 0 {
            return Some(i);
        }
        let w: u128 = width(cs[i]) as u128;
        proof {
            assert(cs@.skip(i as int).skip(1) =~= cs@.skip(i + 1));
        }
        if left < w {
            proof {
                reveal_with_fuel(chars_in_bytes, 2);
            }
            return None;
        }
        left = left - w;
        i = i + 1;
    }
    if left == 0 {
        Some(i)
    } else {
        None
    }
}

/// The number of bytes that the text takes up.
pub fn count_bytes(cs: &[char]) -> (r: u128)
    ensures
        r == byte_len(cs@),
        r <= 4 * usize::MAX,
{
    let mut n: u128 = 0;
    let mut i: usize = 0;
    proof {
        assert(cs@.take(0) =~= Seq::empty());
    }
    while i < cs.len()
        invariant
            i <= cs@.len(),
            n == byte_len(cs@.take(i as int)),
            n <= 4 * i,
        decreases cs.len() - i,
    {
        proof {
            assert(cs@.take(i + 1).drop_last() =~= cs@.take(i as int));
            assert(cs@.take(i + 1).last() == cs@[i as int]);
        }
        n = n + width(cs[i]) as u128;
        i = i + 1;
    }
    proof {
        assert(cs@.take(i as int) =~= cs@);
    }
    n
}

// ---------------------------------------------------------------------------
// Putting texts together
// ---------------------------------------------------------------------------

/// Two texts one after the other.
pub fn cat2(a: &str, b: &str) -> (r: String)
    ensures
        r@ == a@ + b@,
{
    let mut out: String = a.to_string();
    out.append(b);
    out
}

/// Three texts one after the other.
pub fn cat3(a: &str, b: &str, c: &str) -> (r: String)
    ensures
        r@ == a@ + b@ + c@,
{
    let mut out = cat2(a, b);
    out.append(c);
    out
}

/// Four texts one after the other.
pub fn cat4(a: &str, b: &str, c: &str, d: &str) -> (r: String)
    ensures
        r@ == a@ + b@ + c@ + d@,
{
    let mut out = cat3(a, b, c);
    out.append(d);
    out
}

/// Five texts one after the other.
pub fn cat5(a: &str, b: &str, c: &str, d: &str, e: &str) -> (r: String)
    ensures
        r@ == a@ + b@ + c@ + d@ + e@,
{
    let mut out = cat4(a, b, c, d);
    out.append(e);
    out
}

/// The text without white space at either end.
pub fn trim_text(s: &str) -> (r: String)
    ensures
        r@ == trimmed(s@),
{
    let cs = to_chars(s);
    to_text(trim(cs.as_slice()))
}

// ---------------------------------------------------------------------------
// Facts about pieces
// ---------------------------------------------------------------------------

/// A text without the separator is its own only piece.
pub proof fn lemma_one_piece<T>(s: Seq<T>, sep: T)
    requires
        !s.contains(sep),
    ensures
        pieces(s, sep) == seq![s],
{
    lemma_reach(s, sep);
    if reach(s, sep) < s.len() {
        assert(s.contains(s[reach(s, sep)]));
    }
}

/// What stands before a separator is a piece of its own.
pub proof fn lemma_piece_before<T>(a: Seq<T>, sep: T, b: Seq<T>)
    requires
        !a.contains(sep),
    ensures
        pieces(a + seq![sep] + b, sep) == seq![a] + pieces(b, sep),
{
    let s = a + seq![sep] + b;
    assert forall|k: int| 0 <= k < a.len() implies s[k] != sep by {
        assert(a.contains(a[k]));
    }
    lemma_reach_is(s, sep, a.len() as int);
    assert(s.take(a.len() as int) =~= a);
    assert(s.skip(a.len() as int + 1) =~= b);
}

/// What stands behind the last separator is a piece of its own.
pub proof fn lemma_piece_behind<T>(a: Seq<T>, sep: T, b: Seq<T>)
    requires
        !b.contains(sep),
    ensures
        pieces(a + seq![sep] + b, sep) == pieces(a, sep).push(b),
    decreases a.len(),
{
    let r = reach(a, sep);
    lemma_reach(a, sep);
    if r < a.len() {
        let head = a.take(r);
        let tail = a.skip(r + 1);
        assert(!head.contains(sep));
        assert(a + seq![sep] + b =~= head + seq![sep] + (tail + seq![sep] + b));
        lemma_piece_before(head, sep, tail + seq![sep] + b);
        lemma_piece_behind(tail, sep, b);
        assert(seq![head] + pieces(tail, sep).push(b) =~= (seq![head] + pieces(tail, sep)).push(b));
    } else {
        assert(!a.contains(sep));
        lemma_piece_before(a, sep, b);
        lemma_one_piece(b, sep);
        lemma_one_piece(a, sep);
        assert(seq![a] + seq![b] =~= seq![a].push(b));
    }
}

/// No piece holds the separator.
pub proof fn lemma_pieces_hold_no_separator<T>(s: Seq<T>, sep: T)
    ensures
        forall|i: int| 0 <= i < pieces(s, sep).len() ==> !(#[trigger] pieces(s, sep)[i]).contains(sep),
    decreases s.len(),
{
    let r = reach(s, sep);
    lemma_reach(s, sep);
    if r < s.len() {
        let rest = pieces(s.skip(r + 1), sep);
        lemma_pieces_hold_no_separator(s.skip(r + 1), sep);
        let all = pieces(s, sep);
        assert forall|i: int| 0 <= i < all.len() implies !(#[trigger] all[i]).contains(sep) by {
            if i > 0 {
                assert(all[i] == rest[i - 1]);
            }
        }
    }
}

/// The pieces with the separator between two of them are the text again, and
/// no piece holds the separator.
pub proof fn law_pieces_join_back(s: Seq<char>, sep: char)
    ensures
        joined(pieces(s, sep), seq![sep]) == s,
        pieces(s, sep).len() > 0,
        forall|i: int|
            0 <= i < pieces(s, sep).len() ==> !(#[trigger] pieces(s, sep)[i]).contains(sep),
    decreases s.len(),
{
    lemma_pieces_hold_no_separator(s, sep);
    let r = reach(s, sep);
    lemma_reach(s, sep);
    if r < s.len() {
        let head = s.take(r);
        let tail = s.skip(r + 1);
        law_pieces_join_back(tail, sep);
        lemma_joined_front(head, pieces(tail, sep), seq![sep]);
        assert(s =~= head + seq![sep] + tail);
    }
}

/// The first of the parts that are joined stands in front.
pub proof fn lemma_joined_front(head: Seq<char>, parts: Seq<Seq<char>>, sep: Seq<char>)
    requires
        parts.len() > 0,
    ensures
        joined(seq![head] + parts, sep) == head + sep + joined(parts, sep),
    decreases parts.len(),
{
    let all = seq![head] + parts;
    assert(all.last() == parts.last());
    reveal_with_fuel(joined, 2);
    if parts.len() == 1 {
        assert(all.drop_last() =~= seq![head]);
    } else {
        assert(all.drop_last() =~= seq![head] + parts.drop_last());
        lemma_joined_front(head, parts.drop_last(), sep);
        assert(head + sep + joined(parts.drop_last(), sep) + sep + parts.last() =~= head + sep + (
        joined(parts.drop_last(), sep) + sep + parts.last()));
    }
}

/// Trimming takes away white space at the two ends and nothing else, and
/// leaves none there.
pub proof fn law_trimming_takes_white_space(s: Seq<char>, front: Seq<char>, back: Seq<char>)
    requires
        forall|i: int| 0 <= i < front.len() ==> is_space(#[trigger] front[i]),
        forall|i: int| 0 <= i < back.len() ==> is_space(#[trigger] back[i]),
    ensures
        s.len() > 0 && !is_space(s[0]) && !is_space(s.last()) ==> trimmed(front + s + back) == s,
        s.len() == 0 ==> trimmed(front + s + back) == s,
    decreases front.len() + back.len(),
{
    let all = front + s + back;
    if front.len() > 0 {
        assert(all[0] == front[0]);
        assert(all.skip(1) =~= front.skip(1) + s + back);
        assert forall|i: int| 0 <= i < front.skip(1).len() implies is_space(
            #[trigger] front.skip(1)[i],
        ) by {
            assert(front.skip(1)[i] == front[i + 1]);
        }
        law_trimming_takes_white_space(s, front.skip(1), back);
    } else if s.len() > 0 {
        assert(all[0] == s[0]);
        if !is_space(s[0]) && !is_space(s.last()) {
            assert(trimmed_start(all) == all);
            lemma_trailing_space(s, back);
            assert(all =~= s + back);
        }
    } else if back.len() > 0 {
        assert(all =~= back);
        assert(all[0] == back[0]);
        assert(all.skip(1) =~= front + s + back.skip(1));
        assert forall|i: int| 0 <= i < back.skip(1).len() implies is_space(
            #[trigger] back.skip(1)[i],
        ) by {
            assert(back.skip(1)[i] == back[i + 1]);
        }
        law_trimming_takes_white_space(s, front, back.skip(1));
    } else {
        assert(all =~= s);
    }
}

/// White space behind a text is trimmed.
proof fn lemma_trailing_space(s: Seq<char>, back: Seq<char>)
    requires
        s.len() > 0,
        !is_space(s.last()),
        forall|i: int| 0 <= i < back.len() ==> is_space(#[trigger] back[i]),
    ensures
        trimmed_end(s + back) == s,
    decreases back.len(),
{
    let all = s + back;
    if back.len() == 0 {
        assert(all =~= s);
    } else {
        assert(all.last() == back[back.len() - 1]);
        assert(all.drop_last() =~= s + back.drop_last());
        lemma_trailing_space(s, back.drop_last());
    }
}

/// Every part is found in the parts that are joined.
pub proof fn lemma_joined_has_part(parts: Seq<Seq<char>>, sep: Seq<char>, k: int)
    requires
        0 <= k < parts.len(),
    ensures
        has_part(joined(parts, sep), parts[k]),
    decreases parts.len(),
{
    let all = joined(parts, sep);
    if parts.len() == 1 {
        assert(all.subrange(0, all.len() as int) =~= parts[0]);
        assert(occurs_at(all, parts[k], 0));
    } else {
        let before = joined(parts.drop_last(), sep);
        if k == parts.len() - 1 {
            let at = (before + sep).len() as int;
            assert(all.subrange(at, at + parts[k].len()) =~= parts[k]);
            assert(occurs_at(all, parts[k], at));
        } else {
            lemma_joined_has_part(parts.drop_last(), sep, k);
            let at = choose|i: int| #[trigger] occurs_at(before, parts[k], i);
            assert(all.subrange(at, at + parts[k].len()) =~= before.subrange(
                at,
                at + parts[k].len(),
            ));
            assert(occurs_at(all, parts[k], at));
        }
    }
}

// ---------------------------------------------------------------------------
// Facts about trimming
// ---------------------------------------------------------------------------

/// What is left of a text without its leading white space.
pub proof fn lemma_trimmed_start(s: Seq<char>)
    ensures
        trimmed_start(s).len() <= s.len(),
        trimmed_start(s) == s.skip(s.len() - trimmed_start(s).len()),
        trimmed_start(s).len() > 0 ==> !is_space(trimmed_start(s)[0]),
        forall|i: int|
            0 <= i < s.len() - trimmed_start(s).len() ==> is_space(#[trigger] s[i]),
    decreases s.len(),
{
    if s.len() > 0 && is_space(s[0]) {
        let rest = s.skip(1);
        lemma_trimmed_start(rest);
        let n = rest.len() - trimmed_start(rest).len();
        assert(rest.skip(n) =~= s.skip(n + 1));
        assert forall|i: int| 0 <= i < n + 1 implies is_space(#[trigger] s[i]) by {
            if i > 0 {
                assert(rest[i - 1] == s[i]);
            }
        }
    } else {
        assert(s.skip(0) =~= s);
    }
}

/// What is left of a text without its trailing white space.
pub proof fn lemma_trimmed_end(s: Seq<char>)
    ensures
        trimmed_end(s).len() <= s.len(),
        trimmed_end(s) == s.take(trimmed_end(s).len() as int),
        trimmed_end(s).len() > 0 ==> !is_space(trimmed_end(s).last()),
        forall|i: int|
            trimmed_end(s).len() <= i < s.len() ==> is_space(#[trigger] s[i]),
    decreases s.len(),
{
    if s.len() > 0 && is_space(s.last()) {
        let rest = s.drop_last();
        lemma_trimmed_end(rest);
        let n = trimmed_end(rest).len() as int;
        assert(rest.take(n) =~= s.take(n));
        assert forall|i: int| n <= i < s.len() implies is_space(#[trigger] s[i]) by {
            if i < rest.len() {
                assert(rest[i] == s[i]);
            }
        }
    } else {
        assert(s.take(s.len() as int) =~= s);
    }
}

/// Trimming keeps characters of the text only.
pub proof fn lemma_trimmed_part(s: Seq<char>)
    ensures
        forall|k: int|
            0 <= k < trimmed(s).len() ==> s.contains(#[trigger] trimmed(s)[k]),
{
    lemma_trimmed_start(s);
    let t = trimmed_start(s);
    lemma_trimmed_end(t);
    assert forall|k: int| 0 <= k < trimmed(s).len() implies s.contains(
        #[trigger] trimmed(s)[k],
    ) by {
        assert(trimmed(s)[k] == t[k]);
        assert(t[k] == s[k + (s.len() - t.len())]);
    }
}

/// Trimming a second time changes nothing.
pub proof fn lemma_trimmed_twice(s: Seq<char>)
    ensures
        trimmed(trimmed(s)) == trimmed(s),
{
    lemma_trimmed_start(s);
    let t = trimmed_start(s);
    lemma_trimmed_end(t);
    let e = trimmed_end(t);
    if e.len() > 0 {
        assert(e[0] == t[0]);
        assert(trimmed_start(e) == e);
        assert(trimmed_end(e) == e);
    }
}

/// Where a pattern occurs and does not occur before is where it is found.
pub proof fn lemma_find_is<T>(s: Seq<T>, pat: Seq<T>, from: int, at: int)
    requires
        0 <= from <= at,
        occurs_at(s, pat, at),
        forall|k: int| from <= k < at ==> !#[trigger] occurs_at(s, pat, k),
    ensures
        find_from(s, pat, from) == Some(at),
    decreases at - from,
{
    if from < at {
        lemma_find_is(s, pat, from + 1, at);
    }
}

/// What comes behind a text does not change where a pattern first occurs in
/// it.
pub proof fn lemma_first_stays<T>(s: Seq<T>, pat: Seq<T>, more: Seq<T>)
    requires
        first_at(s, pat) is Some,
    ensures
        first_at(s + more, pat) == first_at(s, pat),
{
    let at = first_at(s, pat)->0;
    lemma_find_from(s, pat, 0);
    lemma_find_from(s + more, pat, 0);
    assert((s + more).subrange(at, at + pat.len()) =~= s.subrange(at, at + pat.len()));
    assert(occurs_at(s + more, pat, at));
    let found = first_at(s + more, pat)->0;
    if found < at {
        assert((s + more).subrange(found, found + pat.len()) =~= s.subrange(
            found,
            found + pat.len(),
        ));
        assert(occurs_at(s, pat, found));
    }
}

/// Only the letters A to Z have a lower case: the letters a to z.
pub proof fn law_lower_case_of_letters(s: Seq<char>, i: int)
    requires
        0 <= i < s.len(),
    ensures
        lowered(s).len() == s.len(),
        !('A' <= s[i] <= 'Z') ==> lowered(s)[i] == s[i],
        'A' <= s[i] <= 'Z' ==> 'a' <= lowered(s)[i] <= 'z' && lowered(s)[i] as int == s[i] as int
            + 32,
{
}

/// A word ends at white space, and white space in front of a word does not
/// count.
pub proof fn law_words_end_at_white_space(word: Seq<char>, space: char, rest: Seq<char>)
    requires
        word.len() > 0,
        forall|i: int| 0 <= i < word.len() ==> !is_space(#[trigger] word[i]),
        is_space(space),
    ensures
        words_of(word + seq![space] + rest) == seq![word] + words_of(rest),
        words_of(seq![space] + rest) == words_of(rest),
        words_of(word) == seq![word],
{
    let s = word + seq![space] + rest;
    reveal_with_fuel(words_of, 2);
    lemma_word_end(word, seq![space] + rest);
    assert(s =~= word + (seq![space] + rest));
    assert(!is_space(word[0]));
    assert(word_end(s) == word.len());
    assert(s.take(word.len() as int) =~= word);
    assert(s.skip(word.len() as int) =~= seq![space] + rest);
    assert((seq![space] + rest).skip(1) =~= rest);
    assert(s[0] == word[0]);
    lemma_word_end(word, Seq::empty());
    assert(word + Seq::<char>::empty() =~= word);
    assert(word_end(word) == word.len());
    assert(word.take(word.len() as int) =~= word);
    assert(word.skip(word.len() as int) =~= Seq::empty());
    assert(seq![word] + Seq::<Seq<char>>::empty() =~= seq![word]);
}

/// A word reaches up to the white space behind it.
proof fn lemma_word_end(word: Seq<char>, rest: Seq<char>)
    requires
        forall|i: int| 0 <= i < word.len() ==> !is_space(#[trigger] word[i]),
        rest.len() > 0 ==> is_space(rest[0]),
    ensures
        word_end(word + rest) == word.len(),
    decreases word.len(),
{
    let s = word + rest;
    if word.len() > 0 {
        assert(s[0] == word[0]);
        assert(s.skip(1) =~= word.skip(1) + rest);
        assert forall|i: int| 0 <= i < word.skip(1).len() implies !is_space(
            #[trigger] word.skip(1)[i],
        ) by {
            assert(word.skip(1)[i] == word[i + 1]);
        }
        lemma_word_end(word.skip(1), rest);
    } else {
        assert(s =~= rest);
    }
}

/// A pattern is found where it occurs first, and only if it occurs.
pub proof fn law_first_occurrence_is_found<T>(s: Seq<T>, pat: Seq<T>)
    ensures
        first_at(s, pat) is Some <==> exists|i: int|
            0 <= i && i + pat.len() <= s.len() && #[trigger] s.subrange(i, i + pat.len()) == pat,
        first_at(s, pat) matches Some(i) ==> 0 <= i && i + pat.len() <= s.len() && s.subrange(
            i,
            i + pat.len(),
        ) == pat && forall|k: int|
            0 <= k < i ==> #[trigger] s.subrange(k, k + pat.len()) != pat,
{
    lemma_find_from(s, pat, 0);
    if let Some(i) = first_at(s, pat) {
        assert(occurs_at(s, pat, i));
        assert forall|k: int| 0 <= k < i implies #[trigger] s.subrange(k, k + pat.len()) != pat by {
            assert(!occurs_at(s, pat, k));
        }
    } else {
        assert forall|i: int|
            0 <= i && i + pat.len() <= s.len() implies #[trigger] s.subrange(i, i + pat.len())
            != pat by {
            assert(!occurs_at(s, pat, i));
        }
    }
}

/// White space is what Unicode calls so, and a control character is one of the
/// two ranges that Unicode has for them.
pub proof fn law_white_space_of_unicode(c: char)
    ensures
        is_space(c) <==> 0x9 <= c as u32 <= 0xd || c as u32 == 0x20 || c as u32 == 0x85 || c as u32
            == 0xa0 || c as u32 == 0x1680 || 0x2000 <= c as u32 <= 0x200a || c as u32 == 0x2028
            || c as u32 == 0x2029 || c as u32 == 0x202f || c as u32 == 0x205f || c as u32 == 0x3000,
        is_ctrl(c) <==> c as u32 <= 0x1f || 0x7f <= c as u32 <= 0x9f,
{
}

} // verus!
