//! Cookies of the portal, collected from several replies.

use vstd::prelude::*;
use vstd::slice::slice_subrange;
use vstd::slice::slice_to_vec;

use crate::text;

verus! {

// ---------------------------------------------------------------------------
// `Set-Cookie` headers
// ---------------------------------------------------------------------------

/// The header values of a list; one that is no text is `None`.
pub open spec fn value_views(v: Seq<Option<String>>) -> Seq<Option<Seq<char>>> {
    v.map_values(|x: Option<String>| text::opt_view(x))
}

/// The name and value of a `Set-Cookie` header, without the attributes.
pub open spec fn cookie_pair(value: Seq<char>) -> Seq<char> {
    text::trimmed(value.take(text::reach(value, ';')))
}

/// The pairs of the headers that hold one, in order.
pub open spec fn cookie_pairs(values: Seq<Option<Seq<char>>>) -> Seq<Seq<char>>
    decreases values.len(),
{
    if values.len() == 0 {
        Seq::empty()
    } else {
        let before = cookie_pairs(values.drop_last());
        match values.last() {
            Some(v) => if cookie_pair(v).contains('=') {
                before.push(cookie_pair(v))
            } else {
                before
            },
            None => before,
        }
    }
}

/// The `Cookie` header that hands the cookies of a reply back; `None` if
/// there are none or if one header is no text.
pub open spec fn reply_cookies(values: Seq<Option<Seq<char>>>) -> Option<Seq<char>> {
    if values.contains(None) || cookie_pairs(values).len() == 0 {
        None
    } else {
        Some(text::joined(cookie_pairs(values), "; "@))
    }
}

/// The session cookie among the headers: the first one found. The search
/// ends at a header that is no text.
pub open spec fn session_cookie(values: Seq<Option<Seq<char>>>) -> Option<Seq<char>>
    decreases values.len(),
{
    if values.len() == 0 {
        None
    } else {
        match values[0] {
            None => None,
            Some(v) => match text::first_at(v, "SVPNCOOKIE="@) {
                Some(i) => Some(v.skip(i).take(text::reach(v.skip(i), ';'))),
                None => session_cookie(values.skip(1)),
            },
        }
    }
}

/// Whether the text holds the character.
fn has_char(cs: &[char], c: char) -> (r: bool)
    ensures
        r == cs@.contains(c),
{
    let i: usize = text::position(cs, c);
    proof {
        text::lemma_reach(cs@, c);
        if i < cs@.len() {
            assert(cs@[i as int] == c);
        }
    }
    i < cs.len()
}

/// The text before the first `c`.
fn before_char(cs: &[char], c: char) -> (r: &[char])
    ensures
        r@ == cs@.take(text::reach(cs@, c)),
{
    let i: usize = text::position(cs, c);
    proof {
        assert(cs@.subrange(0, i as int) =~= cs@.take(i as int));
    }
    slice_subrange(cs, 0, i)
}

/// The `Cookie` header that hands the cookies of a reply back.
pub fn cookie_header_from_all_set_cookies(values: &Vec<Option<String>>) -> (r: Option<String>)
    ensures
        text::opt_view(r) == reply_cookies(value_views(values@)),
{
    let ghost all = value_views(values@);
    let mut pairs: Vec<Vec<char>> = Vec::new();
    let mut i: usize = 0;
    proof {
        assert(all.take(0) =~= Seq::empty());
        assert(text::char_views(pairs@) =~= Seq::empty());
    }
    while i < values.len()
        invariant
            all == value_views(values@),
            i <= values@.len(),
            text::char_views(pairs@) == cookie_pairs(all.take(i as int)),
            forall|k: int| 0 <= k < i ==> all[k] is Some,
        decreases values.len() - i,
    {
        proof {
            assert(all.take(i + 1).drop_last() =~= all.take(i as int));
            assert(all.take(i + 1).last() == all[i as int]);
        }
        match &values[i] {
            None => {
                proof {
                    assert(all[i as int] is None);
                    assert(all.contains(None));
                }
                return None;
            },
            Some(value) => {
                let cs = text::to_chars(value.as_str());
                let pair = text::trim(before_char(cs.as_slice(), ';'));
                if has_char(pair, '=') {
                    let ghost had = text::char_views(pairs@);
                    pairs.push(slice_to_vec(pair));
                    proof {
                        assert(text::char_views(pairs@) =~= had.push(pair@));
                    }
                }
            },
        }
        i = i + 1;
    }
    proof {
        assert(all.take(i as int) =~= all);
        assert(!all.contains(None)) by {
            if all.contains(None) {
                let k = choose|k: int| 0 <= k < all.len() && all[k] is None;
                assert(all[k] is Some);
            }
        }
        assert(text::char_views(pairs@).len() == pairs@.len());
    }
    if pairs.len() == 0 {
        None
    } else {
        Some(text::join(&pairs, "; "))
    }
}

/// The session cookie among the headers.
pub fn extract_svpn_cookie(values: &Vec<Option<String>>) -> (r: Option<String>)
    ensures
        text::opt_view(r) == session_cookie(value_views(values@)),
{
    let ghost all = value_views(values@);
    let wanted = text::to_chars("SVPNCOOKIE=");
    let mut i: usize = 0;
    proof {
        assert(all.skip(0) =~= all);
    }
    while i < values.len()
        invariant
            all == value_views(values@),
            wanted@ == "SVPNCOOKIE="@,
            i <= values@.len(),
            session_cookie(all) == session_cookie(all.skip(i as int)),
        decreases values.len() - i,
    {
        proof {
            assert(all.skip(i as int)[0] == all[i as int]);
            assert(all.skip(i as int).skip(1) =~= all.skip(i + 1));
        }
        match &values[i] {
            None => {
                return None;
            },
            Some(value) => {
                let cs = text::to_chars(value.as_str());
                if let Some(start) = text::find(cs.as_slice(), wanted.as_slice()) {
                    proof {
                        text::lemma_find_from(cs@, wanted@, 0);
                        assert(text::occurs_at(cs@, wanted@, start as int));
                        assert(cs@.subrange(start as int, cs@.len() as int) =~= cs@.skip(
                            start as int,
                        ));
                    }
                    let part = slice_subrange(cs.as_slice(), start, cs.len());
                    return Some(text::to_text(before_char(part, ';')));
                }
            },
        }
        i = i + 1;
    }
    None
}

// ---------------------------------------------------------------------------
// The jar
// ---------------------------------------------------------------------------

/// Cookies by name, in the order in which the names came up. A cookie is its
/// name in lower case and its text.
pub type Jar = Seq<(Seq<char>, Seq<char>)>;

/// The names in the jar.
pub open spec fn jar_names(jar: Jar) -> Seq<Seq<char>> {
    jar.map_values(|e: (Seq<char>, Seq<char>)| e.0)
}

/// The place of a name in the jar, or the number of cookies if it is not
/// there.
pub open spec fn slot(jar: Jar, name: Seq<char>) -> int {
    text::reach(jar_names(jar), name)
}

/// The cookie of that name.
pub open spec fn cookie_named(jar: Jar, name: Seq<char>) -> Option<Seq<char>> {
    if slot(jar, name) < jar.len() {
        Some(jar[slot(jar, name)].1)
    } else {
        None
    }
}

/// The jar with a cookie in the place of the one of the same name, or behind
/// the others.
pub open spec fn with_cookie(jar: Jar, name: Seq<char>, cookie: Seq<char>) -> Jar {
    if slot(jar, name) < jar.len() {
        jar.update(slot(jar, name), (name, cookie))
    } else {
        jar.push((name, cookie))
    }
}

/// The name of a cookie.
pub open spec fn cookie_name(cookie: Seq<char>) -> Seq<char> {
    text::lowered(text::trimmed(cookie.take(text::reach(cookie, '='))))
}

/// The jar with the cookies among the segments.
pub open spec fn with_segments(jar: Jar, segments: Seq<Seq<char>>) -> Jar
    decreases segments.len(),
{
    if segments.len() == 0 {
        jar
    } else {
        let before = with_segments(jar, segments.drop_last());
        let cookie = text::trimmed(segments.last());
        if cookie.contains('=') {
            with_cookie(before, cookie_name(cookie), cookie)
        } else {
            before
        }
    }
}

/// The jar with the cookies of the `Cookie` headers that are there.
pub open spec fn with_layers(jar: Jar, layers: Seq<Option<Seq<char>>>) -> Jar
    decreases layers.len(),
{
    if layers.len() == 0 {
        jar
    } else {
        let before = with_layers(jar, layers.drop_last());
        match layers.last() {
            Some(s) => with_segments(before, text::pieces(s, ';')),
            None => before,
        }
    }
}

/// The cookies of the layers, and the session cookie if the layers have none.
pub open spec fn merged_jar(layers: Seq<Option<Seq<char>>>, session: Option<Seq<char>>) -> Jar {
    let jar = with_layers(Seq::empty(), layers);
    match session {
        Some(c) => if cookie_named(jar, "svpncookie"@) is None {
            jar.push(("svpncookie"@, c))
        } else {
            jar
        },
        None => jar,
    }
}

/// The `Cookie` header with the cookies of the jar.
pub open spec fn jar_header(jar: Jar) -> Seq<char> {
    text::joined(jar.map_values(|e: (Seq<char>, Seq<char>)| e.1), "; "@)
}

/// The cookies of a list.
pub open spec fn jar_view(v: Seq<(Vec<char>, Vec<char>)>) -> Jar {
    v.map_values(|e: (Vec<char>, Vec<char>)| (e.0@, e.1@))
}

/// The place of a name among the cookies.
fn find_cookie(jar: &Vec<(Vec<char>, Vec<char>)>, name: &[char]) -> (r: usize)
    ensures
        r == slot(jar_view(jar@), name@),
        r <= jar@.len(),
{
    let ghost names = jar_names(jar_view(jar@));
    let mut i: usize = 0;
    while i < jar.len() && !text::same(jar[i].0.as_slice(), name)
        invariant
            names == jar_names(jar_view(jar@)),
            i <= jar@.len(),
            forall|k: int| 0 <= k < i ==> names[k] != name@,
        decreases jar.len() - i,
    {
        proof {
            assert(names[i as int] == jar@[i as int].0@);
        }
        i = i + 1;
    }
    proof {
        if i < jar@.len() {
            assert(names[i as int] == jar@[i as int].0@);
        }
        text::lemma_reach_is(names, name@, i as int);
    }
    i
}

/// Puts a cookie into the jar.
fn put_cookie(jar: &mut Vec<(Vec<char>, Vec<char>)>, name: Vec<char>, cookie: Vec<char>)
    ensures
        jar_view(final(jar)@) == with_cookie(jar_view(old(jar)@), name@, cookie@),
{
    let ghost before = jar_view(jar@);
    let i: usize = find_cookie(jar, name.as_slice());
    proof {
        assert(before.len() == jar@.len());
    }
    let ghost entry = (name@, cookie@);
    if i < jar.len() {
        jar.set(i, (name, cookie));
        proof {
            assert(jar_view(jar@) =~= before.update(i as int, entry));
        }
    } else {
        jar.push((name, cookie));
        proof {
            assert(jar_view(jar@) =~= before.push(entry));
        }
    }
}

/// Puts the cookies of a `Cookie` header into the jar.
fn ingest(jar: &mut Vec<(Vec<char>, Vec<char>)>, s: &str)
    ensures
        jar_view(final(jar)@) == with_segments(jar_view(old(jar)@), text::pieces(s@, ';')),
{
    let cs = text::to_chars(s);
    let segments = text::split(cs.as_slice(), ';');
    let ghost all = text::pieces(s@, ';');
    let ghost before = jar_view(jar@);
    let mut i: usize = 0;
    proof {
        assert(all.take(0) =~= Seq::empty());
    }
    while i < segments.len()
        invariant
            all == text::pieces(s@, ';'),
            text::char_views(segments@) == all,
            before == jar_view(old(jar)@),
            i <= segments@.len(),
            jar_view(jar@) == with_segments(before, all.take(i as int)),
        decreases segments.len() - i,
    {
        proof {
            assert(all.take(i + 1).drop_last() =~= all.take(i as int));
            assert(all.take(i + 1).last() == segments@[i as int]@);
        }
        let cookie = text::trim(segments[i].as_slice());
        if has_char(cookie, '=') {
            let name = text::lower(text::trim(before_char(cookie, '=')));
            put_cookie(jar, name, slice_to_vec(cookie));
        }
        i = i + 1;
    }
    proof {
        assert(text::char_views(segments@).len() == segments@.len());
        assert(all.take(i as int) =~= all);
    }
}

/// One `Cookie` header from several, later ones first in rank. The session
/// cookie comes in if none of them has it.
pub fn merge_cookie_layers_ordered(
    layers: &Vec<Option<String>>,
    svpn_only: Option<String>,
) -> (r: String)
    ensures
        r@ == jar_header(merged_jar(value_views(layers@), text::opt_view(svpn_only))),
{
    let ghost all = value_views(layers@);
    let mut jar: Vec<(Vec<char>, Vec<char>)> = Vec::new();
    let mut i: usize = 0;
    proof {
        assert(jar_view(jar@) =~= Seq::empty());
        assert(all.take(0) =~= Seq::empty());
    }
    while i < layers.len()
        invariant
            all == value_views(layers@),
            i <= layers@.len(),
            jar_view(jar@) == with_layers(Seq::empty(), all.take(i as int)),
        decreases layers.len() - i,
    {
        proof {
            assert(all.take(i + 1).drop_last() =~= all.take(i as int));
            assert(all.take(i + 1).last() == all[i as int]);
        }
        if let Some(s) = &layers[i] {
            ingest(&mut jar, s.as_str());
        }
        i = i + 1;
    }
    proof {
        assert(all.take(i as int) =~= all);
    }
    if let Some(c) = svpn_only {
        let name = text::to_chars("svpncookie");
        let at: usize = find_cookie(&jar, name.as_slice());
        if at == jar.len() {
            let ghost before = jar_view(jar@);
            jar.push((name, text::to_chars(c.as_str())));
            proof {
                assert(jar_view(jar@) =~= before.push(("svpncookie"@, c@)));
            }
        }
    }
    let ghost finished = jar_view(jar@);
    let mut cookies: Vec<Vec<char>> = Vec::new();
    let mut k: usize = 0;
    let ghost wanted = finished.map_values(|e: (Seq<char>, Seq<char>)| e.1);
    while k < jar.len()
        invariant
            finished == jar_view(jar@),
            wanted == finished.map_values(|e: (Seq<char>, Seq<char>)| e.1),
            k <= jar@.len(),
            text::char_views(cookies@) =~= wanted.take(k as int),
        decreases jar.len() - k,
    {
        let ghost had = text::char_views(cookies@);
        cookies.push(slice_to_vec(jar[k].1.as_slice()));
        proof {
            assert(finished[k as int] == (jar@[k as int].0@, jar@[k as int].1@));
            assert(wanted[k as int] == jar@[k as int].1@);
            assert(text::char_views(cookies@) =~= had.push(wanted[k as int]));
            assert(wanted.take(k + 1) =~= wanted.take(k as int).push(wanted[k as int]));
        }
        k = k + 1;
    }
    proof {
        assert(wanted.take(k as int) =~= wanted);
    }
    text::join(&cookies, "; ")
}

// ---------------------------------------------------------------------------
// Laws
// ---------------------------------------------------------------------------

/// No name comes up twice.
pub open spec fn distinct_names(jar: Jar) -> bool {
    forall|i: int, j: int|
        0 <= i < j < jar.len() ==> (#[trigger] jar[i]).0 != (#[trigger] jar[j]).0
}

/// A cookie that is put in is found under its name, and every other name
/// keeps its cookie.
pub proof fn law_cookie_is_found(jar: Jar, name: Seq<char>, cookie: Seq<char>, other: Seq<char>)
    requires
        distinct_names(jar),
    ensures
        distinct_names(with_cookie(jar, name, cookie)),
        cookie_named(with_cookie(jar, name, cookie), name) == Some(cookie),
        other != name ==> cookie_named(with_cookie(jar, name, cookie), other) == cookie_named(
            jar,
            other,
        ),
{
    let after = with_cookie(jar, name, cookie);
    let names = jar_names(jar);
    let at = slot(jar, name);
    text::lemma_reach(names, name);
    assert forall|k: int| 0 <= k < jar.len() implies names[k] == jar[k].0 by {}
    if at < jar.len() {
        assert(names[at] == name);
        assert(jar[at].0 == name);
        assert(jar_names(after) =~= names);
    } else {
        assert(jar_names(after) =~= names.push(name));
        text::lemma_reach_is(jar_names(after), name, at);
        assert forall|k: int| 0 <= k < jar.len() implies jar[k].0 != name by {
            assert(names[k] != name);
        }
    }
    if other != name {
        let o = slot(jar, other);
        text::lemma_reach(names, other);
        if at < jar.len() {
            assert(slot(after, other) == o);
        } else if o < jar.len() {
            text::lemma_reach_is(jar_names(after), other, o);
        } else {
            text::lemma_reach_is(jar_names(after), other, jar.len() as int + 1);
        }
    }
}

/// The last cookie of that name among the segments.
pub open spec fn last_named(segments: Seq<Seq<char>>, name: Seq<char>) -> Option<Seq<char>>
    decreases segments.len(),
{
    if segments.len() == 0 {
        None
    } else {
        let cookie = text::trimmed(segments.last());
        if cookie.contains('=') && cookie_name(cookie) == name {
            Some(cookie)
        } else {
            last_named(segments.drop_last(), name)
        }
    }
}

/// Of several cookies of one name the last one stays, and a name that the
/// segments do not mention keeps its cookie.
pub proof fn law_last_cookie_wins(jar: Jar, segments: Seq<Seq<char>>, name: Seq<char>)
    requires
        distinct_names(jar),
    ensures
        distinct_names(with_segments(jar, segments)),
        cookie_named(with_segments(jar, segments), name) == if last_named(segments, name) is Some {
            last_named(segments, name)
        } else {
            cookie_named(jar, name)
        },
    decreases segments.len(),
{
    if segments.len() > 0 {
        let before = with_segments(jar, segments.drop_last());
        let cookie = text::trimmed(segments.last());
        law_last_cookie_wins(jar, segments.drop_last(), name);
        if cookie.contains('=') {
            law_cookie_is_found(before, cookie_name(cookie), cookie, name);
        }
    }
}

/// A later layer outranks the earlier ones.
pub proof fn law_later_layer_wins(
    layers: Seq<Option<Seq<char>>>,
    layer: Seq<char>,
    name: Seq<char>,
)
    ensures
        distinct_names(with_layers(Seq::empty(), layers.push(Some(layer)))),
        cookie_named(with_layers(Seq::empty(), layers.push(Some(layer))), name) == if last_named(
            text::pieces(layer, ';'),
            name,
        ) is Some {
            last_named(text::pieces(layer, ';'), name)
        } else {
            cookie_named(with_layers(Seq::empty(), layers), name)
        },
{
    lemma_layers_distinct(layers);
    assert(layers.push(Some(layer)).drop_last() =~= layers);
    law_last_cookie_wins(with_layers(Seq::empty(), layers), text::pieces(layer, ';'), name);
}

/// The names in a merged jar are distinct.
proof fn lemma_layers_distinct(layers: Seq<Option<Seq<char>>>)
    ensures
        distinct_names(with_layers(Seq::empty(), layers)),
    decreases layers.len(),
{
    if layers.len() > 0 {
        lemma_layers_distinct(layers.drop_last());
        if let Some(s) = layers.last() {
            law_last_cookie_wins(
                with_layers(Seq::empty(), layers.drop_last()),
                text::pieces(s, ';'),
                Seq::empty(),
            );
        }
    }
}

/// The names in a merged jar are distinct, and if the reply to the login had
/// a session cookie, there is one in the jar: that of the layers if they have
/// one.
pub proof fn law_session_cookie_is_kept(
    layers: Seq<Option<Seq<char>>>,
    session: Option<Seq<char>>,
)
    ensures
        distinct_names(merged_jar(layers, session)),
        session is Some ==> cookie_named(merged_jar(layers, session), "svpncookie"@) == if cookie_named(
            with_layers(Seq::empty(), layers),
            "svpncookie"@,
        ) is Some {
            cookie_named(with_layers(Seq::empty(), layers), "svpncookie"@)
        } else {
            session
        },
{
    let jar = with_layers(Seq::empty(), layers);
    lemma_layers_distinct(layers);
    if let Some(c) = session {
        law_cookie_is_found(jar, "svpncookie"@, c, "svpncookie"@);
    }
}

/// The pair in a `Set-Cookie` header has no white space around it and no
/// semicolon.
proof fn lemma_cookie_pair(value: Seq<char>)
    ensures
        text::trimmed(cookie_pair(value)) == cookie_pair(value),
        !cookie_pair(value).contains(';'),
{
    let part = value.take(text::reach(value, ';'));
    text::lemma_trimmed_twice(part);
    text::lemma_trimmed_part(part);
    text::lemma_reach(value, ';');
    assert(!part.contains(';'));
    if cookie_pair(value).contains(';') {
        let k = choose|k: int| 0 <= k < cookie_pair(value).len() && cookie_pair(value)[k] == ';';
        assert(part.contains(text::trimmed(part)[k]));
    }
}

/// Pairs that are joined to a `Cookie` header are found in its segments.
proof fn lemma_joined_pairs(pairs: Seq<Seq<char>>, name: Seq<char>)
    requires
        pairs.len() > 0,
        forall|i: int|
            0 <= i < pairs.len() ==> text::trimmed(#[trigger] pairs[i]) == pairs[i]
                && !pairs[i].contains(';'),
    ensures
        last_named(text::pieces(text::joined(pairs, "; "@), ';'), name) == last_named(pairs, name),
    decreases pairs.len(),
{
    reveal_strlit("; ");
    let header = text::joined(pairs, "; "@);
    let last = pairs.last();
    if pairs.len() == 1 {
        text::lemma_one_piece(last, ';');
        assert(text::pieces(header, ';') =~= pairs);
    } else {
        let before = pairs.drop_last();
        let segment = seq![' '] + last;
        assert forall|i: int| 0 <= i < before.len() implies text::trimmed(#[trigger] before[i])
            == before[i] && !before[i].contains(';') by {
            assert(before[i] == pairs[i]);
        }
        lemma_joined_pairs(before, name);
        assert(!segment.contains(';')) by {
            if segment.contains(';') {
                let k = choose|k: int| 0 <= k < segment.len() && segment[k] == ';';
                assert(last[k - 1] == ';');
            }
        }
        assert(header =~= text::joined(before, "; "@) + seq![';'] + segment);
        text::lemma_piece_behind(text::joined(before, "; "@), ';', segment);
        let segments = text::pieces(header, ';');
        assert(segments.last() == segment);
        assert(segments.drop_last() =~= text::pieces(text::joined(before, "; "@), ';'));
        assert(segment.skip(1) =~= last);
        assert(text::trimmed(segment) == text::trimmed(last));
    }
}

/// The last pair of a name among the headers is the last one among the pairs.
proof fn lemma_last_pair(values: Seq<Option<Seq<char>>>, name: Seq<char>, at: int)
    requires
        0 <= at < values.len(),
        forall|k: int| 0 <= k < values.len() ==> #[trigger] values[k] is Some,
        cookie_pair(values[at]->0).contains('='),
        cookie_name(cookie_pair(values[at]->0)) == name,
        forall|k: int|
            at < k < values.len() ==> cookie_name(cookie_pair((#[trigger] values[k])->0)) != name,
    ensures
        last_named(cookie_pairs(values), name) == Some(cookie_pair(values[at]->0)),
        cookie_pairs(values).len() > 0,
    decreases values.len(),
{
    let before = values.drop_last();
    let pair = cookie_pair(values.last()->0);
    lemma_cookie_pair(values.last()->0);
    assert(cookie_pairs(before).push(pair).drop_last() =~= cookie_pairs(before));
    if at < values.len() - 1 {
        assert forall|k: int| 0 <= k < before.len() implies #[trigger] before[k] is Some by {
            assert(before[k] == values[k]);
        }
        lemma_last_pair(before, name, at);
    }
}

/// The pairs of the headers have no white space around them and no semicolon.
proof fn lemma_pairs_clean(values: Seq<Option<Seq<char>>>)
    ensures
        forall|i: int|
            0 <= i < cookie_pairs(values).len() ==> text::trimmed(
                #[trigger] cookie_pairs(values)[i],
            ) == cookie_pairs(values)[i] && !cookie_pairs(values)[i].contains(';'),
    decreases values.len(),
{
    if values.len() > 0 {
        lemma_pairs_clean(values.drop_last());
        let before = cookie_pairs(values.drop_last());
        if let Some(v) = values.last() {
            lemma_cookie_pair(v);
        }
        let all = cookie_pairs(values);
        assert forall|i: int| 0 <= i < all.len() implies text::trimmed(#[trigger] all[i]) == all[i]
            && !all[i].contains(';') by {
            if i < before.len() {
                assert(all[i] == before[i]);
            }
        }
    }
}

/// The last cookie of a name that the last reply sets is part of the merged
/// header.
pub proof fn law_reply_cookie_is_sent(
    layers: Seq<Option<Seq<char>>>,
    reply: Seq<Option<Seq<char>>>,
    session: Option<Seq<char>>,
    at: int,
)
    requires
        0 <= at < reply.len(),
        !reply.contains(None),
        cookie_pair(reply[at]->0).contains('='),
        forall|k: int|
            at < k < reply.len() ==> cookie_name(cookie_pair((#[trigger] reply[k])->0))
                != cookie_name(cookie_pair(reply[at]->0)),
    ensures
        text::has_part(
            jar_header(merged_jar(layers.push(reply_cookies(reply)), session)),
            cookie_pair(reply[at]->0),
        ),
{
    let pair = cookie_pair(reply[at]->0);
    let name = cookie_name(pair);
    assert forall|k: int| 0 <= k < reply.len() implies #[trigger] reply[k] is Some by {
        if reply[k] is None {
            assert(reply.contains(reply[k]));
        }
    }
    lemma_last_pair(reply, name, at);
    lemma_pairs_clean(reply);
    lemma_joined_pairs(cookie_pairs(reply), name);
    let header = text::joined(cookie_pairs(reply), "; "@);
    law_later_layer_wins(layers, header, name);
    let jar = with_layers(Seq::empty(), layers.push(Some(header)));
    let all = merged_jar(layers.push(Some(header)), session);
    let k = slot(jar, name);
    text::lemma_reach(jar_names(jar), name);
    assert(jar[k].1 == pair);
    assert(all[k] == jar[k]);
    let cookies = all.map_values(|e: (Seq<char>, Seq<char>)| e.1);
    text::lemma_joined_has_part(cookies, "; "@, k);
    assert(cookies[k] == pair);
}

/// The cookie that a reply sets is what stands before the first semicolon,
/// without white space around it; its name is what stands before the first
/// equals sign, in lower case and without white space around it.
pub proof fn law_cookie_is_cut_out(name: Seq<char>, value: Seq<char>, rest: Seq<char>)
    requires
        !name.contains('=') && !name.contains(';'),
        !value.contains(';'),
    ensures
        cookie_pair(name + seq!['='] + value + seq![';'] + rest) == text::trimmed(
            name + seq!['='] + value,
        ),
        cookie_pair(name + seq!['='] + value) == text::trimmed(name + seq!['='] + value),
        cookie_name(name + seq!['='] + value) == text::lowered(text::trimmed(name)),
{
    let pair = name + seq!['='] + value;
    let all = pair + seq![';'] + rest;
    assert forall|k: int| 0 <= k < pair.len() implies pair[k] != ';' by {
        if k < name.len() {
            assert(name.contains(name[k]));
        } else if k > name.len() {
            assert(value.contains(value[k - name.len() - 1]));
        }
    }
    text::lemma_reach_is(all, ';', pair.len() as int);
    assert(all.take(pair.len() as int) =~= pair);
    text::lemma_reach_is(pair, ';', pair.len() as int);
    assert(pair.take(pair.len() as int) =~= pair);
    assert forall|k: int| 0 <= k < name.len() implies pair[k] != '=' by {
        assert(name.contains(name[k]));
    }
    text::lemma_reach_is(pair, '=', name.len() as int);
    assert(pair.take(name.len() as int) =~= name);
}

/// A reply hands on one pair for each header that sets a cookie with an equals
/// sign, in order. One header that is no text spoils them all.
pub proof fn law_every_cookie_is_handed_on(values: Seq<Option<Seq<char>>>, value: Seq<char>)
    ensures
        cookie_pairs(values.push(Some(value))) == if cookie_pair(value).contains('=') {
            cookie_pairs(values).push(cookie_pair(value))
        } else {
            cookie_pairs(values)
        },
        reply_cookies(values.push(None)) is None,
        !values.contains(None) && cookie_pairs(values).len() > 0 ==> reply_cookies(values) == Some(
            text::joined(cookie_pairs(values), seq![';', ' ']),
        ),
        cookie_pairs(values).len() == 0 ==> reply_cookies(values) is None,
{
    reveal_strlit("; ");
    assert("; "@ =~= seq![';', ' ']);
    assert(values.push(Some(value)).drop_last() =~= values);
    assert(values.push(None)[values.len() as int] is None);
    assert(values.push(None).contains(None));
}

/// The session cookie is what begins at `SVPNCOOKIE=` and ends before the next
/// semicolon, in the first header that has it.
pub proof fn law_session_cookie_is_cut_out(
    before: Seq<Option<Seq<char>>>,
    front: Seq<char>,
    value: Seq<char>,
    rest: Seq<char>,
    after: Seq<Option<Seq<char>>>,
)
    requires
        forall|i: int|
            0 <= i < before.len() ==> ((#[trigger] before[i]) matches Some(v) && text::first_at(
                v,
                "SVPNCOOKIE="@,
            ) is None),
        !value.contains(';'),
        rest.len() > 0 ==> rest[0] == ';',
        text::first_at(front + ("SVPNCOOKIE="@ + value + rest), "SVPNCOOKIE="@) == Some(
            front.len() as int,
        ),
    ensures
        session_cookie(
            before + seq![Some(front + ("SVPNCOOKIE="@ + value + rest))] + after,
        ) == Some("SVPNCOOKIE="@ + value),
        session_cookie(before) is None,
    decreases before.len(),
{
    let header = front + ("SVPNCOOKIE="@ + value + rest);
    let all = before + seq![Some(header)] + after;
    if before.len() == 0 {
        assert(all[0] == Some(header));
        reveal_strlit("SVPNCOOKIE=");
        let cookie = "SVPNCOOKIE="@ + value;
        let tail = header.skip(front.len() as int);
        assert(tail =~= cookie + rest);
        assert forall|k: int| 0 <= k < cookie.len() implies tail[k] != ';' by {
            if k >= "SVPNCOOKIE="@.len() {
                assert(value.contains(value[k - "SVPNCOOKIE="@.len()]));
            }
        }
        text::lemma_reach_is(tail, ';', cookie.len() as int);
        assert(tail.take(cookie.len() as int) =~= cookie);
    } else {
        assert(before[0] is Some);
        assert(all[0] == before[0]);
        assert(all.skip(1) =~= before.skip(1) + seq![Some(header)] + after);
        assert forall|i: int| 0 <= i < before.skip(1).len() implies ((#[trigger] before.skip(
            1,
        )[i]) matches Some(v) && text::first_at(v, "SVPNCOOKIE="@) is None) by {
            assert(before.skip(1)[i] == before[i + 1]);
        }
        law_session_cookie_is_cut_out(before.skip(1), front, value, rest, after);
    }
}

/// The header holds all the cookies of the jar, with a semicolon and a space
/// between two of them. A layer that is not there adds nothing, and without
/// layers there is no cookie.
pub proof fn law_header_holds_the_jar(
    jar: Jar,
    name: Seq<char>,
    cookie: Seq<char>,
    layers: Seq<Option<Seq<char>>>,
)
    ensures
        jar_header(jar.push((name, cookie))) == if jar.len() == 0 {
            cookie
        } else {
            jar_header(jar) + seq![';', ' '] + cookie
        },
        jar_header(Seq::empty()) == Seq::<char>::empty(),
        with_layers(jar, layers.push(None)) == with_layers(jar, layers),
        with_layers(jar, Seq::empty()) == jar,
        merged_jar(layers, None) == with_layers(Seq::empty(), layers),
        cookie_named(Seq::empty(), name) is None,
{
    reveal_strlit("; ");
    assert("; "@ =~= seq![';', ' ']);
    let more = jar.push((name, cookie)).map_values(|e: (Seq<char>, Seq<char>)| e.1);
    let had = jar.map_values(|e: (Seq<char>, Seq<char>)| e.1);
    assert(more.drop_last() =~= had);
    assert(more.last() == cookie);
    assert(layers.push(None).drop_last() =~= layers);
}

/// A cookie takes the place of the one with its name and leaves the others
/// where they are; a new one goes to the end.
pub proof fn law_cookie_keeps_its_place(jar: Jar, name: Seq<char>, cookie: Seq<char>, i: int)
    requires
        0 <= i < jar.len(),
    ensures
        with_cookie(jar, name, cookie).len() == if cookie_named(jar, name) is Some {
            jar.len()
        } else {
            jar.len() + 1
        },
        jar[i].0 != name ==> with_cookie(jar, name, cookie)[i] == jar[i],
        with_cookie(jar, name, cookie)[i].0 == jar[i].0,
{
    text::lemma_reach(jar_names(jar), name);
    let k = slot(jar, name);
    if k < jar.len() {
        assert(jar_names(jar)[k] == jar[k].0);
    }
}

} // verus!
