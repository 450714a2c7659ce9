//! The gateway's host name, cleaned of what users paste along with it.

use vstd::prelude::*;
use vstd::slice::slice_subrange;

use crate::text;

verus! {

/// The text begins with the scheme, in whatever case.
pub open spec fn has_scheme(s: Seq<char>, scheme: Seq<char>) -> bool {
    s.len() >= scheme.len() && text::lowered(s.take(scheme.len() as int)) == scheme
}

/// The text without the schemes and the white space in front.
pub open spec fn without_schemes(s: Seq<char>) -> Seq<char>
    decreases s.len(),
{
    proof {
        text::lemma_trimmed_start(s);
    }
    let t = text::trimmed_start(s);
    if t.len() >= 8 && has_scheme(t, "https://"@) {
        without_schemes(t.skip(8))
    } else if t.len() >= 7 && has_scheme(t, "http://"@) {
        without_schemes(t.skip(7))
    } else {
        t
    }
}

/// The host name in what a user typed: no scheme, no path, no white space
/// around it.
pub open spec fn host_in(input: Seq<char>) -> Seq<char> {
    let t = without_schemes(text::trimmed(input));
    text::trimmed(t.take(text::reach(t, '/')))
}

/// Whether the text begins with the scheme, in whatever case.
fn begins_with(cs: &[char], scheme: &str) -> (r: bool)
    ensures
        r == has_scheme(cs@, scheme@),
{
    let wanted = text::to_chars(scheme);
    if cs.len() < wanted.len() {
        return false;
    }
    let head = text::lower(slice_subrange(cs, 0, wanted.len()));
    proof {
        assert(cs@.subrange(0, wanted@.len() as int) =~= cs@.take(wanted@.len() as int));
    }
    text::same(head.as_slice(), wanted.as_slice())
}

/// Drops the schemes and the white space in front.
pub(crate) fn strip_leading_schemes(input: &[char]) -> (r: &[char])
    ensures
        r@ == without_schemes(input@),
{
    let mut s: &[char] = input;
    loop
        invariant
            without_schemes(input@) == without_schemes(s@),
        decreases s@.len(),
    {
        proof {
            text::lemma_trimmed_start(s@);
        }
        let t = text::trim_start(s);
        if t.len() >= 8 && begins_with(t, "https://") {
            s = slice_subrange(t, 8, t.len());
            proof {
                assert(s@ =~= t@.skip(8));
            }
            continue;
        }
        if t.len() >= 7 && begins_with(t, "http://") {
            s = slice_subrange(t, 7, t.len());
            proof {
                assert(s@ =~= t@.skip(7));
            }
            continue;
        }
        return t;
    }
}

// ---------------------------------------------------------------------------
// Laws
// ---------------------------------------------------------------------------

/// A host name has no path and no white space around it.
pub proof fn law_host_is_bare(input: Seq<char>)
    ensures
        !host_in(input).contains('/'),
        text::trimmed(host_in(input)) == host_in(input),
{
    lemma_without_schemes(text::trimmed(input));
    lemma_host_part(without_schemes(text::trimmed(input)));
}

/// A name without a scheme, a path and white space around it comes back as it
/// is.
pub proof fn law_plain_name_is_kept(name: Seq<char>)
    requires
        !name.contains('/'),
        text::trimmed(name) == name,
    ensures
        host_in(name) == name,
{
    reveal_strlit("https://");
    reveal_strlit("http://");
    if has_scheme(name, "https://"@) {
        assert(text::lowered(name.take(8))[7] == '/');
        assert(name[7] == '/');
    }
    if has_scheme(name, "http://"@) {
        assert(text::lowered(name.take(7))[6] == '/');
        assert(name[6] == '/');
    }
    text::lemma_trimmed_start(name);
    text::lemma_trimmed_end(text::trimmed_start(name));
    assert(text::trimmed_start(name) == name);
    text::lemma_reach(name, '/');
    text::lemma_reach_is(name, '/', name.len() as int);
    assert(name.take(name.len() as int) =~= name);
}

/// Cleaning a host name a second time changes nothing.
pub proof fn law_host_stays(input: Seq<char>)
    ensures
        host_in(host_in(input)) == host_in(input),
{
    law_host_is_bare(input);
    law_plain_name_is_kept(host_in(input));
}

/// `https://` in front makes no difference, in whatever case it is written
/// and however often it is there.
pub proof fn law_https_scheme_is_dropped(scheme: Seq<char>, s: Seq<char>)
    requires
        text::lowered(scheme) == "https://"@,
    ensures
        host_in(scheme + s) == host_in(s),
{
    reveal_strlit("https://");
    assert(text::lowered(scheme).len() == scheme.len());
    assert(text::lowered(scheme)[0] == 'h' && text::lowered(scheme)[7] == '/');
    let e = text::trimmed_end(s);
    let t = scheme + e;
    lemma_scheme_trims(scheme, s);
    assert(t.take(8) =~= scheme);
    assert(t.skip(8) =~= e);
    lemma_trim_commutes(s);
    lemma_schemes_trim(e);
}

/// `http://` in front makes no difference either.
pub proof fn law_http_scheme_is_dropped(scheme: Seq<char>, s: Seq<char>)
    requires
        text::lowered(scheme) == "http://"@,
    ensures
        host_in(scheme + s) == host_in(s),
{
    reveal_strlit("https://");
    reveal_strlit("http://");
    assert(text::lowered(scheme).len() == scheme.len());
    assert(text::lowered(scheme)[0] == 'h' && text::lowered(scheme)[6] == '/');
    let e = text::trimmed_end(s);
    let t = scheme + e;
    lemma_scheme_trims(scheme, s);
    assert(t.take(7) =~= scheme);
    if has_scheme(t, "https://"@) {
        assert(text::lowered(t.take(8))[4] == text::lowered(scheme)[4]);
    }
    assert(t.skip(7) =~= e);
    lemma_trim_commutes(s);
    lemma_schemes_trim(e);
}

/// What is left without schemes begins with a character of the host.
proof fn lemma_without_schemes(s: Seq<char>)
    ensures
        text::trimmed_start(without_schemes(s)) == without_schemes(s),
    decreases s.len(),
{
    text::lemma_trimmed_start(s);
    let t = text::trimmed_start(s);
    if t.len() >= 8 && has_scheme(t, "https://"@) {
        lemma_without_schemes(t.skip(8));
    } else if t.len() >= 7 && has_scheme(t, "http://"@) {
        lemma_without_schemes(t.skip(7));
    }
}

/// The host is a start of what is left without schemes.
proof fn lemma_host_part(t: Seq<char>)
    requires
        text::trimmed_start(t) == t,
    ensures
        ({
            let h = text::trimmed(t.take(text::reach(t, '/')));
            h.len() <= t.len() && h == t.take(h.len() as int) && !h.contains('/') && text::trimmed(
                h,
            ) == h && text::trimmed_start(h) == h
        }),
{
    text::lemma_reach(t, '/');
    text::lemma_trimmed_start(t);
    let p = t.take(text::reach(t, '/'));
    assert(text::trimmed_start(p) == p);
    let h = text::trimmed_end(p);
    text::lemma_trimmed_end(p);
    assert(h =~= t.take(h.len() as int));
    assert(text::trimmed_start(h) == h);
    assert(text::trimmed_end(h) == h);
}

/// White space is trimmed behind a scheme, not in front of it.
proof fn lemma_scheme_trims(a: Seq<char>, s: Seq<char>)
    requires
        a.len() > 0,
        !text::is_space(a[0]),
        !text::is_space(a.last()),
    ensures
        text::trimmed(a + s) == a + text::trimmed_end(s),
        text::trimmed_start(a + text::trimmed_end(s)) == a + text::trimmed_end(s),
    decreases s.len(),
{
    assert((a + s)[0] == a[0]);
    if s.len() == 0 {
        assert(a + s =~= a);
        assert(a + text::trimmed_end(s) =~= a);
    } else if text::is_space(s.last()) {
        assert((a + s).last() == s.last());
        assert((a + s).drop_last() =~= a + s.drop_last());
        assert((a + s.drop_last())[0] == a[0]);
        lemma_scheme_trims(a, s.drop_last());
    } else {
        assert((a + s).last() == s.last());
    }
}

/// The two ends are trimmed independently.
proof fn lemma_trim_commutes(s: Seq<char>)
    ensures
        text::trimmed_start(text::trimmed_end(s)) == text::trimmed_end(text::trimmed_start(s)),
    decreases s.len(),
{
    if s.len() > 0 && text::is_space(s[0]) {
        let rest = s.skip(1);
        lemma_trim_commutes(rest);
        lemma_end_of_rest(s);
    } else if s.len() > 0 {
        text::lemma_trimmed_end(s);
        assert(text::trimmed_end(s).len() > 0);
        assert(text::trimmed_end(s)[0] == s[0]);
    }
}

/// A leading space only matters to the trimming of the end of a text that
/// holds nothing else.
proof fn lemma_end_of_rest(s: Seq<char>)
    requires
        s.len() > 0,
        text::is_space(s[0]),
    ensures
        text::trimmed_start(text::trimmed_end(s)) == text::trimmed_start(
            text::trimmed_end(s.skip(1)),
        ),
    decreases s.len(),
{
    let rest = s.skip(1);
    if text::is_space(s.last()) {
        if s.len() > 1 {
            assert(rest.last() == s.last());
            assert(rest.drop_last() =~= s.drop_last().skip(1));
            lemma_end_of_rest(s.drop_last());
        } else {
            reveal_with_fuel(text::trimmed_end, 2);
            assert(rest =~= Seq::empty());
            assert(s.drop_last() =~= Seq::empty());
        }
    } else {
        assert(rest.last() == s.last());
    }
}

/// Leading white space makes no difference to the schemes.
proof fn lemma_schemes_trim(e: Seq<char>)
    ensures
        without_schemes(text::trimmed_start(e)) == without_schemes(e),
{
    text::lemma_trimmed_start(e);
    let t = text::trimmed_start(e);
    assert(text::trimmed_start(t) == t);
}

/// A path behind a host name makes no difference, nor does white space around
/// the whole.
pub proof fn law_path_is_dropped(name: Seq<char>, path: Seq<char>)
    requires
        name.len() > 0,
        !name.contains('/'),
        text::trimmed(name) == name,
        name.last() != ':',
    ensures
        host_in(name + seq!['/'] + path) == name,
{
    reveal_strlit("https://");
    reveal_strlit("http://");
    text::lemma_trimmed_start(name);
    text::lemma_trimmed_end(text::trimmed_start(name));
    assert(text::trimmed_start(name) == name);
    let a = name + seq!['/'];
    assert(a[0] == name[0] && a.last() == '/');
    lemma_scheme_trims(a, path);
    let t = a + text::trimmed_end(path);
    assert(a + path =~= name + seq!['/'] + path);
    assert forall|k: int| 0 <= k < name.len() implies t[k] != '/' by {
        assert(t[k] == name[k]);
        assert(name.contains(name[k]));
    }
    assert(t[name.len() as int] == '/');
    assert(!has_scheme(t, "https://"@)) by {
        if has_scheme(t, "https://"@) {
            let l = text::lowered(t.take(8));
            assert(l[0] != '/' && l[1] != '/' && l[2] != '/' && l[3] != '/' && l[4] != '/' && l[5]
                == ':' && l[6] == '/');
            assert(t[5] == ':' && t[6] == '/');
            assert(t[0] != '/' && t[1] != '/' && t[2] != '/' && t[3] != '/' && t[4] != '/');
            assert(name.len() == 6);
            assert(name.last() == t[5]);
        }
    }
    assert(!has_scheme(t, "http://"@)) by {
        if has_scheme(t, "http://"@) {
            let l = text::lowered(t.take(7));
            assert(l[0] != '/' && l[1] != '/' && l[2] != '/' && l[3] != '/' && l[4] == ':' && l[5]
                == '/');
            assert(t[4] == ':' && t[5] == '/');
            assert(t[0] != '/' && t[1] != '/' && t[2] != '/' && t[3] != '/');
            assert(name.len() == 5);
            assert(name.last() == t[4]);
        }
    }
    assert(without_schemes(t) == t);
    text::lemma_reach_is(t, '/', name.len() as int);
    assert(t.take(name.len() as int) =~= name);
}

} // verus!
