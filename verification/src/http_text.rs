//! The text side of HTTP: requests, the head of a reply, cookies, redirects.

use vstd::prelude::*;
use vstd::slice::slice_subrange;
use vstd::slice::slice_to_vec;
use vstd::string::*;
use vstd::utf8::*;

use crate::bytes;
use crate::numbers;
use crate::text;

verus! {

// ---------------------------------------------------------------------------
// Requests
// ---------------------------------------------------------------------------

/// The request for a page of the portal on an open connection.
pub open spec fn page_request(
    host_port: Seq<char>,
    path: Seq<char>,
    cookie: Seq<char>,
    referer: Seq<char>,
) -> Seq<char> {
    "GET "@ + path + " HTTP/1.1\r\nHost: "@ + host_port
        + "\r\nUser-Agent: Mozilla/5.0 SV1\r\nAccept: */*\r\nAccept-Encoding: identity\r\nPragma: no-cache\r\nCache-Control: no-store, no-cache, must-revalidate\r\nIf-Modified-Since: Sat, 1 Jan 2000 00:00:00 GMT\r\nCookie: "@
        + cookie + "\r\nReferer: "@ + referer + "\r\nConnection: keep-alive\r\n\r\n"@
}

/// The request for a page of the portal on an open connection.
pub fn build_get_api(host_port: &str, path_query: &str, cookie: &str, referer: &str) -> (r: String)
    ensures
        r@ == page_request(host_port@, path_query@, cookie@, referer@),
{
    let mut out: String = "GET ".to_string();
    out.append(path_query);
    out.append(" HTTP/1.1\r\nHost: ");
    out.append(host_port);
    out.append(
        "\r\nUser-Agent: Mozilla/5.0 SV1\r\nAccept: */*\r\nAccept-Encoding: identity\r\nPragma: no-cache\r\nCache-Control: no-store, no-cache, must-revalidate\r\nIf-Modified-Since: Sat, 1 Jan 2000 00:00:00 GMT\r\nCookie: ",
    );
    out.append(cookie);
    out.append("\r\nReferer: ");
    out.append(referer);
    out.append("\r\nConnection: keep-alive\r\n\r\n");
    out
}

/// The request that turns the connection into the tunnel.
pub open spec fn tunnel_request(cookie: Seq<char>) -> Seq<char> {
    "GET /remote/sslvpn-tunnel HTTP/1.1\r\nHost: sslvpn\r\nCookie: "@ + cookie + "\r\n\r\n"@
}

/// The request that turns the connection into the tunnel.
pub fn build_sslvpn_tunnel_get(cookie: &str) -> (r: String)
    ensures
        r@ == tunnel_request(cookie@),
{
    let mut out: String =
        "GET /remote/sslvpn-tunnel HTTP/1.1\r\nHost: sslvpn\r\nCookie: ".to_string();
    out.append(cookie);
    out.append("\r\n\r\n");
    out
}

// ---------------------------------------------------------------------------
// Cookies
// ---------------------------------------------------------------------------

/// A segment of a `Cookie` header in clean form; `None` if it is empty or
/// names a cookie without a value.
pub open spec fn clean_segment(segment: Seq<char>) -> Option<Seq<char>> {
    let s = text::trimmed(segment);
    let name_end = text::reach(s, '=');
    if s.len() == 0 {
        None
    } else if name_end >= s.len() {
        Some(s)
    } else {
        let value = text::trimmed(s.skip(name_end + 1));
        if value.len() == 0 {
            None
        } else {
            Some(text::trimmed(s.take(name_end)) + "="@ + value)
        }
    }
}

/// The clean forms of the segments that have one.
pub open spec fn clean_segments(segments: Seq<Seq<char>>) -> Seq<Seq<char>>
    decreases segments.len(),
{
    if segments.len() == 0 {
        Seq::empty()
    } else {
        match clean_segment(segments.last()) {
            Some(s) => clean_segments(segments.drop_last()).push(s),
            None => clean_segments(segments.drop_last()),
        }
    }
}

/// Every segment of the `Cookie` header is blank: it holds nothing but
/// separators and white space.
pub open spec fn is_blank(cookie: Seq<char>) -> bool {
    forall|k: int|
        0 <= k < cookie.len() ==> #[trigger] cookie[k] == ';' || text::is_space(cookie[k])
}

/// The `Cookie` header without cookies that have no value. A header whose
/// segments are all blank has no cookies to clean, and is only trimmed.
pub open spec fn clean_cookies(cookie: Seq<char>) -> Seq<char> {
    if is_blank(cookie) {
        text::trimmed(cookie)
    } else {
        text::joined(clean_segments(text::pieces(cookie, ';')), "; "@)
    }
}

/// Whether every segment is blank.
fn holds_no_cookie(cs: &[char]) -> (r: bool)
    ensures
        r == is_blank(cs@),
{
    let mut i: usize = 0;
    while i < cs.len()
        invariant
            i <= cs@.len(),
            is_blank(cs@.take(i as int)),
        decreases cs.len() - i,
    {
        if cs[i] != ';' && !text::is_white(cs[i]) {
            return false;
        }
        proof {
            assert(cs@.take(i + 1) =~= cs@.take(i as int).push(cs@[i as int]));
            assert forall|k: int| 0 <= k < i + 1 implies #[trigger] cs@.take(i + 1)[k] == ';'
                || text::is_space(cs@.take(i + 1)[k]) by {
                if k < i {
                    assert(cs@.take(i + 1)[k] == cs@.take(i as int)[k]);
                }
            }
        }
        i = i + 1;
    }
    proof {
        assert(cs@.take(i as int) =~= cs@);
    }
    true
}

/// The clean form of a segment.
fn sanitize_segment(segment: &[char]) -> (r: Option<Vec<char>>)
    ensures
        match r {
            Some(s) => clean_segment(segment@) == Some(s@),
            None => clean_segment(segment@) is None,
        },
{
    let s = text::trim(segment);
    if s.len() == 0 {
        return None;
    }
    let name_end: usize = text::position(s, '=');
    if name_end == s.len() {
        return Some(slice_to_vec(s));
    }
    proof {
        assert(s@.subrange(name_end + 1, s@.len() as int) =~= s@.skip(name_end + 1));
        assert(s@.subrange(0, name_end as int) =~= s@.take(name_end as int));
        reveal_strlit("=");
    }
    let value = text::trim(slice_subrange(s, name_end + 1, s.len()));
    if value.len() == 0 {
        return None;
    }
    let name = text::trim(slice_subrange(s, 0, name_end));
    let mut out: Vec<char> = slice_to_vec(name);
    out.push('=');
    out.extend_from_slice(value);
    proof {
        assert(out@ =~= name@ + "="@ + value@);
    }
    Some(out)
}

/// The `Cookie` header without cookies that have no value.
pub fn sanitize_cookie_header(cookie: &str) -> (r: String)
    ensures
        r@ == clean_cookies(cookie@),
{
    let cs = text::to_chars(cookie);
    if holds_no_cookie(cs.as_slice()) {
        return text::trim_text(cookie);
    }
    let segments = text::split(cs.as_slice(), ';');
    let ghost all = text::pieces(cookie@, ';');
    let mut kept: Vec<Vec<char>> = Vec::new();
    let mut i: usize = 0;
    proof {
        assert(all.take(0) =~= Seq::empty());
        assert(text::char_views(kept@) =~= Seq::empty());
        assert(text::char_views(segments@).len() == segments@.len());
    }
    while i < segments.len()
        invariant
            all == text::pieces(cookie@, ';'),
            text::char_views(segments@) == all,
            all.len() == segments@.len(),
            i <= segments@.len(),
            text::char_views(kept@) == clean_segments(all.take(i as int)),
        decreases segments.len() - i,
    {
        proof {
            assert(all.take(i + 1).drop_last() =~= all.take(i as int));
            assert(all.take(i + 1).last() == segments@[i as int]@);
        }
        if let Some(s) = sanitize_segment(segments[i].as_slice()) {
            let ghost had = text::char_views(kept@);
            kept.push(s);
            proof {
                assert(text::char_views(kept@) =~= had.push(s@));
            }
        }
        i = i + 1;
    }
    proof {
        assert(all.take(i as int) =~= all);
    }
    text::join(&kept, "; ")
}

// ---------------------------------------------------------------------------
// The head of a reply
// ---------------------------------------------------------------------------

/// The end of a line.
pub open spec fn crlf() -> Seq<u8> {
    seq![0x0du8, 0x0au8]
}

/// The end of the head: an empty line.
pub open spec fn blank_line() -> Seq<u8> {
    seq![0x0du8, 0x0au8, 0x0du8, 0x0au8]
}

/// Where the head ends, behind its empty line.
pub open spec fn head_end(data: Seq<u8>) -> Option<int> {
    match text::first_at(data, blank_line()) {
        Some(i) => Some(i + 4),
        None => None,
    }
}

/// The status in the first line of the head.
pub open spec fn status_in(head: Seq<u8>) -> Result<u16, Seq<char>> {
    match text::first_at(head, crlf()) {
        None => Err("risposta HTTP senza fine riga"@),
        Some(end) => {
            let line = head.take(end);
            let words = text::words_of(decode_utf8(line));
            if !valid_utf8(line) {
                Err("status non UTF-8: "@ + bytes::utf8_complaint(line))
            } else if words.len() == 0 {
                Err("status HTTP vuoto"@)
            } else if words.len() == 1 {
                Err("manca codice stato HTTP"@)
            } else {
                match numbers::bounded_value(words[1], 10, 65535) {
                    Some(code) => Ok(code as u16),
                    None => Err("codice stato HTTP non numerico"@),
                }
            }
        },
    }
}

/// The lines of a text.
pub open spec fn crlf_lines(s: Seq<char>) -> Seq<Seq<char>>
    decreases s.len(),
{
    match text::first_at(s, "\r\n"@) {
        Some(i) => if 0 <= i && i + 2 <= s.len() {
            seq![s.take(i)] + crlf_lines(s.skip(i + 2))
        } else {
            seq![s]
        },
        None => seq![s],
    }
}

/// The headers in the lines up to the first empty one: a name in lower case
/// and a value. A line without a colon is none.
pub open spec fn headers_in(lines: Seq<Seq<char>>) -> Seq<(Seq<char>, Seq<char>)>
    decreases lines.len(),
{
    if lines.len() == 0 || lines[0].len() == 0 {
        Seq::empty()
    } else {
        let line = lines[0];
        let colon = text::reach(line, ':');
        let rest = headers_in(lines.skip(1));
        if colon < line.len() {
            seq![
                (
                    text::lowered(text::trimmed(line.take(colon))),
                    text::trimmed(line.skip(colon + 1)),
                ),
            ] + rest
        } else {
            rest
        }
    }
}

/// The status and the headers of a reply.
pub open spec fn head_in(head: Seq<u8>) -> Result<(u16, Seq<(Seq<char>, Seq<char>)>), Seq<char>> {
    match status_in(head) {
        Err(m) => Err(m),
        Ok(status) => if !valid_utf8(head) {
            Err(bytes::utf8_complaint(head))
        } else {
            Ok((status, headers_in(crlf_lines(decode_utf8(head)).skip(1))))
        },
    }
}

/// The value of a header: that of the last one with the name.
pub open spec fn header_named(headers: Seq<(Seq<char>, Seq<char>)>, name: Seq<char>) -> Option<
    Seq<char>,
>
    decreases headers.len(),
{
    if headers.len() == 0 {
        None
    } else if headers.last().0 == name {
        Some(headers.last().1)
    } else {
        header_named(headers.drop_last(), name)
    }
}

/// The end of a line, as bytes.
pub(crate) fn crlf_bytes() -> (r: Vec<u8>)
    ensures
        r@ == crlf(),
{
    let mut v: Vec<u8> = Vec::new();
    v.push(0x0d);
    v.push(0x0a);
    proof {
        assert(v@ =~= crlf());
    }
    v
}

/// Where the head ends.
pub fn find_headers_end(buf: &[u8]) -> (r: Option<usize>)
    ensures
        match r {
            Some(end) => head_end(buf@) == Some(end as int) && end <= buf@.len(),
            None => head_end(buf@) is None,
        },
{
    let mut blank: Vec<u8> = crlf_bytes();
    blank.push(0x0d);
    blank.push(0x0a);
    proof {
        assert(blank@ =~= blank_line());
    }
    match bytes::find_bytes(buf, blank.as_slice()) {
        Some(i) => Some(i + 4),
        None => None,
    }
}

/// The status in the first line of the head.
pub fn parse_status_line(headers_blob: &[u8]) -> (r: Result<u16, String>)
    ensures
        match r {
            Ok(code) => status_in(headers_blob@) == Ok::<u16, Seq<char>>(code),
            Err(m) => status_in(headers_blob@) == Err::<u16, Seq<char>>(m@),
        },
{
    let end: usize = match bytes::find_bytes(headers_blob, crlf_bytes().as_slice()) {
        Some(i) => i,
        None => {
            return Err("risposta HTTP senza fine riga".to_string());
        },
    };
    let line = slice_subrange(headers_blob, 0, end);
    proof {
        assert(line@ =~= headers_blob@.take(end as int));
    }
    let s = match bytes::utf8_text(line) {
        Ok(s) => s,
        Err(e) => {
            let mut m: String = "status non UTF-8: ".to_string();
            m.append(e.as_str());
            return Err(m);
        },
    };
    let cs = text::to_chars(s.as_str());
    let words = text::split_words(cs.as_slice());
    proof {
        assert(text::char_views(words@).len() == words@.len());
    }
    if words.len() == 0 {
        return Err("status HTTP vuoto".to_string());
    }
    if words.len() == 1 {
        return Err("manca codice stato HTTP".to_string());
    }
    proof {
        assert(text::char_views(words@)[1] == words@[1]@);
    }
    match numbers::parse_unsigned(words[1].as_slice(), 10, 65535) {
        Some(code) => Ok(code as u16),
        None => Err("codice stato HTTP non numerico".to_string()),
    }
}

/// The lines of a text.
fn split_lines(cs: &[char]) -> (r: Vec<Vec<char>>)
    ensures
        text::char_views(r@) == crlf_lines(cs@),
{
    let sep = text::to_chars("\r\n");
    proof {
        reveal_strlit("\r\n");
    }
    let mut out: Vec<Vec<char>> = Vec::new();
    let mut from: usize = 0;
    proof {
        assert(cs@.skip(0) =~= cs@);
        assert(text::char_views(out@) + crlf_lines(cs@) =~= crlf_lines(cs@));
    }
    loop
        invariant
            sep@ == "\r\n"@,
            sep@.len() == 2,
            from <= cs@.len(),
            text::char_views(out@) + crlf_lines(cs@.skip(from as int)) == crlf_lines(cs@),
        decreases cs@.len() - from,
    {
        let rest = slice_subrange(cs, from, cs.len());
        proof {
            assert(rest@ =~= cs@.skip(from as int));
        }
        let ghost had = text::char_views(out@);
        match text::find(rest, sep.as_slice()) {
            Some(i) => {
                proof {
                    text::lemma_find_from(rest@, sep@, 0);
                    assert(text::occurs_at(rest@, sep@, i as int));
                }
                out.push(slice_to_vec(slice_subrange(rest, 0, i)));
                proof {
                    assert(rest@.subrange(0, i as int) =~= rest@.take(i as int));
                    assert(text::char_views(out@) =~= had.push(rest@.take(i as int)));
                    assert(rest@.skip(i + 2) =~= cs@.skip(from + i + 2));
                    assert(had + (seq![rest@.take(i as int)] + crlf_lines(rest@.skip(i + 2)))
                        =~= text::char_views(out@) + crlf_lines(rest@.skip(i + 2)));
                }
                from = from + i + 2;
            },
            None => {
                out.push(slice_to_vec(rest));
                proof {
                    assert(text::char_views(out@) =~= had.push(rest@));
                    assert(had + seq![rest@] =~= text::char_views(out@));
                }
                return out;
            },
        }
    }
}

/// The headers in the lines from the second one on.
fn collect_headers(lines: &Vec<Vec<char>>) -> (r: Vec<(String, String)>)
    requires
        lines@.len() > 0,
    ensures
        text::pair_views(r@) == headers_in(text::char_views(lines@).skip(1)),
{
    let ghost all = text::char_views(lines@);
    let mut out: Vec<(String, String)> = Vec::new();
    let mut i: usize = 1;
    proof {
        assert(text::pair_views(out@) + headers_in(all.skip(1)) =~= headers_in(all.skip(1)));
    }
    while i < lines.len()
        invariant
            all == text::char_views(lines@),
            1 <= i <= lines@.len(),
            text::pair_views(out@) + headers_in(all.skip(i as int)) == headers_in(all.skip(1)),
        decreases lines.len() - i,
    {
        let ghost had = text::pair_views(out@);
        let ghost left = all.skip(i as int);
        proof {
            assert(left[0] == lines@[i as int]@);
            assert(left.skip(1) =~= all.skip(i + 1));
        }
        let line = lines[i].as_slice();
        if line.len() == 0 {
            proof {
                assert(had + headers_in(left) =~= had);
            }
            return out;
        }
        let colon: usize = text::position(line, ':');
        if colon < line.len() {
            proof {
                assert(line@.subrange(0, colon as int) =~= line@.take(colon as int));
                assert(line@.subrange(colon + 1, line@.len() as int) =~= line@.skip(colon + 1));
            }
            let name = text::lower(text::trim(slice_subrange(line, 0, colon)));
            let value = text::trim(slice_subrange(line, colon + 1, line.len()));
            out.push((text::to_text(name.as_slice()), text::to_text(value)));
            proof {
                assert(text::pair_views(out@) =~= had.push((name@, value@)));
                assert(had + (seq![(name@, value@)] + headers_in(left.skip(1)))
                    =~= text::pair_views(out@) + headers_in(left.skip(1)));
            }
        }
        i = i + 1;
    }
    proof {
        assert(all.skip(i as int) =~= Seq::empty());
        assert(text::pair_views(out@) + headers_in(all.skip(i as int)) =~= text::pair_views(out@));
    }
    out
}

/// The status and the headers of a reply.
pub fn parse_headers(headers_blob: &[u8]) -> (r: Result<(u16, Vec<(String, String)>), String>)
    ensures
        match r {
            Ok((status, headers)) => head_in(headers_blob@) == Ok::<
                (u16, Seq<(Seq<char>, Seq<char>)>),
                Seq<char>,
            >((status, text::pair_views(headers@))),
            Err(m) => head_in(headers_blob@) == Err::<
                (u16, Seq<(Seq<char>, Seq<char>)>),
                Seq<char>,
            >(m@),
        },
{
    let status: u16 = match parse_status_line(headers_blob) {
        Ok(code) => code,
        Err(m) => {
            return Err(m);
        },
    };
    match bytes::utf8_text(headers_blob) {
        Ok(s) => {
            let cs = text::to_chars(s.as_str());
            let lines = split_lines(cs.as_slice());
            proof {
                assert(crlf_lines(cs@).len() > 0);
                assert(text::char_views(lines@).len() == lines@.len());
            }
            Ok((status, collect_headers(&lines)))
        },
        Err(m) => Err(m),
    }
}

/// The value of a header.
pub fn find_header(headers: &Vec<(String, String)>, name: &str) -> (r: Option<String>)
    ensures
        text::opt_view(r) == header_named(text::pair_views(headers@), name@),
{
    let ghost all = text::pair_views(headers@);
    let wanted = text::to_chars(name);
    let mut n: usize = headers.len();
    proof {
        assert(all.take(n as int) =~= all);
    }
    while n > 0
        invariant
            all == text::pair_views(headers@),
            wanted@ == name@,
            n <= headers@.len(),
            header_named(all, name@) == header_named(all.take(n as int), name@),
        decreases n,
    {
        proof {
            assert(all.take(n as int).last() == (headers@[n - 1].0@, headers@[n - 1].1@));
            assert(all.take(n as int).drop_last() =~= all.take(n - 1));
        }
        let k = text::to_chars(headers[n - 1].0.as_str());
        if text::same(k.as_slice(), wanted.as_slice()) {
            return Some(headers[n - 1].1.clone());
        }
        n = n - 1;
    }
    None
}

// ---------------------------------------------------------------------------
// Redirects
// ---------------------------------------------------------------------------

/// The path in an absolute address behind its scheme.
pub open spec fn path_behind(loc: Seq<char>, skip: int) -> Result<Seq<char>, Seq<char>> {
    let rest = loc.skip(skip);
    let slash = text::reach(rest, '/');
    if slash < rest.len() {
        Ok(rest.skip(slash))
    } else {
        Err("Location senza path: "@ + loc)
    }
}

/// The path that a redirect leads to on the same connection.
pub open spec fn redirect_path(location: Seq<char>) -> Result<Seq<char>, Seq<char>> {
    let loc = text::trimmed(location);
    if text::has_prefix(loc, "/"@) {
        Ok(loc)
    } else if text::has_prefix(text::lowered(loc), "https://"@) {
        path_behind(loc, 8)
    } else if text::has_prefix(text::lowered(loc), "http://"@) {
        path_behind(loc, 7)
    } else {
        Err("Location non supportata: "@ + loc)
    }
}

/// The result `r` is the one wanted.
pub open spec fn is_text_result(r: Result<String, String>, wanted: Result<Seq<char>, Seq<char>>)
    -> bool {
    match (r, wanted) {
        (Ok(a), Ok(b)) => a@ == b,
        (Err(a), Err(b)) => a@ == b,
        _ => false,
    }
}

/// The path in an absolute address behind its scheme.
fn take_path(loc: &[char], skip: usize) -> (r: Result<String, String>)
    requires
        skip <= loc@.len(),
    ensures
        is_text_result(r, path_behind(loc@, skip as int)),
{
    let rest = slice_subrange(loc, skip, loc.len());
    let slash: usize = text::position(rest, '/');
    proof {
        assert(rest@ =~= loc@.skip(skip as int));
        assert(rest@.subrange(slash as int, rest@.len() as int) =~= rest@.skip(slash as int));
    }
    if slash < rest.len() {
        Ok(text::to_text(slice_subrange(rest, slash, rest.len())))
    } else {
        let mut m: String = "Location senza path: ".to_string();
        m.append(text::to_text(loc).as_str());
        Err(m)
    }
}

/// The path that a redirect leads to.
pub fn normalize_redirect_path(location: &str) -> (r: Result<String, String>)
    ensures
        is_text_result(r, redirect_path(location@)),
{
    let cs = text::to_chars(location);
    let loc = text::trim(cs.as_slice());
    let lower = text::lower(loc);
    let slash = text::to_chars("/");
    let https = text::to_chars("https://");
    let http = text::to_chars("http://");
    proof {
        reveal_strlit("https://");
        reveal_strlit("http://");
    }
    if text::starts_with(loc, slash.as_slice()) {
        Ok(text::to_text(loc))
    } else if text::starts_with(lower.as_slice(), https.as_slice()) {
        take_path(loc, 8)
    } else if text::starts_with(lower.as_slice(), http.as_slice()) {
        take_path(loc, 7)
    } else {
        let mut m: String = "Location non supportata: ".to_string();
        m.append(text::to_text(loc).as_str());
        Err(m)
    }
}

// ---------------------------------------------------------------------------
// Laws
// ---------------------------------------------------------------------------

/// No cookie without a value is left in a clean list.
pub proof fn law_clean_cookies_have_values(segments: Seq<Seq<char>>)
    ensures
        forall|i: int|
            0 <= i < clean_segments(segments).len() ==> has_value(
                #[trigger] clean_segments(segments)[i],
            ),
    decreases segments.len(),
{
    if segments.len() > 0 {
        law_clean_cookies_have_values(segments.drop_last());
        let before = clean_segments(segments.drop_last());
        let all = clean_segments(segments);
        if let Some(c) = clean_segment(segments.last()) {
            lemma_clean_segment(segments.last());
            assert forall|i: int| 0 <= i < all.len() implies has_value(#[trigger] all[i]) by {
                if i < before.len() {
                    assert(all[i] == before[i]);
                }
            }
        }
    }
}

/// The cookie is not empty, and something other than white space follows its
/// first equals sign if it has one.
pub open spec fn has_value(cookie: Seq<char>) -> bool {
    cookie.len() > 0 && (text::reach(cookie, '=') < cookie.len() ==> text::trimmed(
        cookie.skip(text::reach(cookie, '=') + 1),
    ).len() > 0)
}

/// The clean form of a segment has a value.
proof fn lemma_clean_segment(segment: Seq<char>)
    ensures
        clean_segment(segment) matches Some(c) ==> has_value(c),
{
    reveal_strlit("=");
    let s = text::trimmed(segment);
    let n = text::reach(s, '=');
    text::lemma_reach(s, '=');
    if s.len() > 0 && n < s.len() {
        let name = text::trimmed(s.take(n));
        let value = text::trimmed(s.skip(n + 1));
        if value.len() > 0 {
            let c = name + "="@ + value;
            text::lemma_trimmed_part(s.take(n));
            assert forall|k: int| 0 <= k < name.len() implies c[k] != '=' by {
                assert(c[k] == name[k]);
                assert(s.take(n).contains(name[k]));
            }
            text::lemma_reach_is(c, '=', name.len() as int);
            assert(c.skip(name.len() as int + 1) =~= value);
            text::lemma_trimmed_twice(s.skip(n + 1));
        }
    }
}

/// Cleaning a `Cookie` header a second time changes nothing.
pub proof fn law_clean_cookies_stay(cookie: Seq<char>)
    ensures
        clean_cookies(clean_cookies(cookie)) == clean_cookies(cookie),
{
    if is_blank(cookie) {
        text::lemma_trimmed_part(cookie);
        text::lemma_trimmed_twice(cookie);
    } else {
        let parts = clean_segments(text::pieces(cookie, ';'));
        text::lemma_pieces_hold_no_separator(cookie, ';');
        lemma_kept_segments(text::pieces(cookie, ';'));
        lemma_joined_segments(parts);
        if parts.len() > 0 {
            lemma_joined_is_not_blank(parts);
        }
    }
}

/// A header with a cookie in clean form is not blank.
proof fn lemma_joined_is_not_blank(parts: Seq<Seq<char>>)
    requires
        parts.len() > 0,
        forall|i: int| 0 <= i < parts.len() ==> is_clean(#[trigger] parts[i]),
    ensures
        !is_blank(text::joined(parts, "; "@)),
{
    let header = text::joined(parts, "; "@);
    let part = parts[parts.len() - 1];
    assert(is_clean(part));
    text::lemma_trimmed_end(text::trimmed_start(part));
    assert(part.contains(part.last()));
    assert(header.last() == part.last());
    assert(header[header.len() - 1] == part.last());
}

/// A segment is in clean form, and no separator stands in it.
spec fn is_clean(c: Seq<char>) -> bool {
    text::trimmed(c) == c && clean_segment(c) == Some(c) && !c.contains(';')
}

/// The clean form of a segment is in clean form.
proof fn lemma_clean_form(segment: Seq<char>)
    requires
        !segment.contains(';'),
    ensures
        clean_segment(segment) matches Some(c) ==> is_clean(c),
{
    reveal_strlit("=");
    let s = text::trimmed(segment);
    let n = text::reach(s, '=');
    text::lemma_reach(s, '=');
    text::lemma_trimmed_twice(segment);
    text::lemma_trimmed_part(segment);
    assert(!s.contains(';')) by {
        if s.contains(';') {
            let k = choose|k: int| 0 <= k < s.len() && s[k] == ';';
            assert(segment.contains(text::trimmed(segment)[k]));
        }
    }
    if s.len() > 0 && n < s.len() {
        let left = s.take(n);
        let right = s.skip(n + 1);
        let name = text::trimmed(left);
        let value = text::trimmed(right);
        if value.len() > 0 {
            let c = name + "="@ + value;
            text::lemma_trimmed_part(left);
            text::lemma_trimmed_part(right);
            text::lemma_trimmed_twice(left);
            text::lemma_trimmed_twice(right);
            assert forall|k: int| 0 <= k < name.len() implies c[k] != '=' by {
                assert(c[k] == name[k]);
                assert(left.contains(name[k]));
            }
            text::lemma_reach_is(c, '=', name.len() as int);
            assert(c.skip(name.len() as int + 1) =~= value);
            assert(c.take(name.len() as int) =~= name);
            assert(!c.contains(';')) by {
                if c.contains(';') {
                    let k = choose|k: int| 0 <= k < c.len() && c[k] == ';';
                    if k < name.len() {
                        assert(left.contains(name[k]));
                        assert(s.contains(';'));
                    } else if k > name.len() {
                        assert(right.contains(value[k - name.len() - 1]));
                        assert(s.contains(';'));
                    }
                }
            }
            text::lemma_trimmed_start(left);
            text::lemma_trimmed_end(text::trimmed_start(left));
            text::lemma_trimmed_end(text::trimmed_start(right));
            if name.len() > 0 {
                assert(name[0] == text::trimmed_start(left)[0]);
                assert(c[0] == name[0]);
            } else {
                assert(c[0] == '=');
            }
            assert(c.last() == value.last());
            assert(text::trimmed_start(c) == c);
            assert(text::trimmed_end(c) == c);
        }
    }
}

/// The segments that are kept are in clean form.
proof fn lemma_kept_segments(segments: Seq<Seq<char>>)
    requires
        forall|i: int| 0 <= i < segments.len() ==> !(#[trigger] segments[i]).contains(';'),
    ensures
        forall|i: int|
            0 <= i < clean_segments(segments).len() ==> is_clean(
                #[trigger] clean_segments(segments)[i],
            ),
    decreases segments.len(),
{
    if segments.len() > 0 {
        let before = segments.drop_last();
        assert forall|i: int| 0 <= i < before.len() implies !(#[trigger] before[i]).contains(
            ';',
        ) by {
            assert(before[i] == segments[i]);
        }
        lemma_kept_segments(before);
        assert(!segments.last().contains(';'));
        lemma_clean_form(segments.last());
        let kept = clean_segments(before);
        let all = clean_segments(segments);
        assert forall|i: int| 0 <= i < all.len() implies is_clean(#[trigger] all[i]) by {
            if i < kept.len() {
                assert(all[i] == kept[i]);
            }
        }
    }
}

/// Segments in clean form that are joined are kept as they are.
proof fn lemma_joined_segments(parts: Seq<Seq<char>>)
    requires
        forall|i: int| 0 <= i < parts.len() ==> is_clean(#[trigger] parts[i]),
    ensures
        clean_segments(text::pieces(text::joined(parts, "; "@), ';')) == parts,
    decreases parts.len(),
{
    reveal_strlit("; ");
    let header = text::joined(parts, "; "@);
    reveal_with_fuel(clean_segments, 2);
    if parts.len() == 0 {
        text::lemma_one_piece(header, ';');
        assert(seq![header].drop_last() =~= Seq::empty());
        assert(parts =~= Seq::empty());
    } else if parts.len() == 1 {
        assert(is_clean(parts[0]));
        text::lemma_one_piece(header, ';');
        assert(seq![header].drop_last() =~= Seq::empty());
        assert(parts =~= Seq::empty().push(parts[0]));
    } else {
        let before = parts.drop_last();
        let last = parts.last();
        assert forall|i: int| 0 <= i < before.len() implies is_clean(#[trigger] before[i]) by {
            assert(before[i] == parts[i]);
        }
        lemma_joined_segments(before);
        assert(is_clean(parts[parts.len() - 1]));
        let segment = seq![' '] + last;
        assert(!segment.contains(';')) by {
            if segment.contains(';') {
                let k = choose|k: int| 0 <= k < segment.len() && segment[k] == ';';
                assert(last[k - 1] == ';');
            }
        }
        assert(header =~= text::joined(before, "; "@) + seq![';'] + segment);
        text::lemma_piece_behind(text::joined(before, "; "@), ';', segment);
        let segments = text::pieces(header, ';');
        assert(segments.last() == segment);
        assert(segments.drop_last() =~= text::pieces(text::joined(before, "; "@), ';'));
        assert(segment.skip(1) =~= last);
        assert(text::trimmed(segment) == text::trimmed(last));
        assert(clean_segment(segment) == clean_segment(last));
        assert(before.push(last) =~= parts);
    }
}

/// A redirect that is followed leads to a path on the same host.
pub proof fn law_redirect_is_a_path(location: Seq<char>)
    ensures
        redirect_path(location) matches Ok(p) ==> p.len() > 0 && p[0] == '/',
{
    reveal_strlit("/");
    let loc = text::trimmed(location);
    if text::has_prefix(loc, "/"@) {
        assert(loc.subrange(0, 1)[0] == '/');
    } else {
        text::lemma_reach(loc.skip(8), '/');
        text::lemma_reach(loc.skip(7), '/');
    }
}

/// Of several headers with one name the last one counts.
pub proof fn law_last_header_counts(
    headers: Seq<(Seq<char>, Seq<char>)>,
    name: Seq<char>,
    value: Seq<char>,
    other: Seq<char>,
)
    ensures
        header_named(headers.push((name, value)), name) == Some(value),
        other != name ==> header_named(headers.push((name, value)), other) == header_named(
            headers,
            other,
        ),
{
    assert(headers.push((name, value)).drop_last() =~= headers);
}

/// A request names the page and the host first, carries the cookies and the
/// referer in headers of their own, and ends with an empty line.
pub proof fn law_request_names_the_page(
    host_port: Seq<char>,
    path: Seq<char>,
    cookie: Seq<char>,
    referer: Seq<char>,
)
    ensures
        ({
            let r = page_request(host_port, path, cookie, referer);
            let line = "GET "@ + path + " HTTP/1.1\r\nHost: "@ + host_port + "\r\n"@;
            &&& text::has_prefix(r, line)
            &&& text::has_part(r, "\r\nCookie: "@ + cookie + "\r\nReferer: "@ + referer + "\r\n"@)
            &&& r.len() >= 4 && r.skip(r.len() - 4) == "\r\n\r\n"@
        }),
{
    reveal_strlit("GET ");
    reveal_strlit(" HTTP/1.1\r\nHost: ");
    reveal_strlit("\r\n");
    reveal_strlit("\r\n\r\n");
    reveal_strlit("\r\nCookie: ");
    reveal_strlit("\r\nReferer: ");
    reveal_strlit("\r\nConnection: keep-alive\r\n\r\n");
    reveal_strlit(
        "\r\nUser-Agent: Mozilla/5.0 SV1\r\nAccept: */*\r\nAccept-Encoding: identity\r\nPragma: no-cache\r\nCache-Control: no-store, no-cache, must-revalidate\r\nIf-Modified-Since: Sat, 1 Jan 2000 00:00:00 GMT\r\nCookie: ",
    );
    let r = page_request(host_port, path, cookie, referer);
    let line = "GET "@ + path + " HTTP/1.1\r\nHost: "@ + host_port + "\r\n"@;
    let fixed =
        "\r\nUser-Agent: Mozilla/5.0 SV1\r\nAccept: */*\r\nAccept-Encoding: identity\r\nPragma: no-cache\r\nCache-Control: no-store, no-cache, must-revalidate\r\nIf-Modified-Since: Sat, 1 Jan 2000 00:00:00 GMT\r\nCookie: "@;
    let front = "GET "@ + path + " HTTP/1.1\r\nHost: "@ + host_port;
    let end = "\r\nConnection: keep-alive\r\n\r\n"@;
    assert(r =~= front + fixed + cookie + "\r\nReferer: "@ + referer + end);
    assert(fixed.take(2) =~= "\r\n"@);
    assert(r.subrange(0, line.len() as int) =~= line);
    let mark = "\r\nCookie: "@;
    let at = front.len() + fixed.len() - mark.len();
    assert(fixed.skip(fixed.len() - mark.len()) =~= mark);
    let part = mark + cookie + "\r\nReferer: "@ + referer + "\r\n"@;
    assert forall|k: int| 0 <= k < part.len() implies r[at + k] == part[k] by {
        if k < mark.len() {
            assert(fixed.skip(fixed.len() - mark.len())[k] == mark[k]);
        }
    }
    assert(r.subrange(at, at + part.len()) =~= part);
    assert(text::occurs_at(r, part, at));
    assert(end.skip(end.len() - 4) =~= "\r\n\r\n"@);
    assert(r.skip(r.len() - 4) =~= end.skip(end.len() - 4));
}

/// The request for the tunnel carries the cookies and nothing else of the
/// session.
pub proof fn law_tunnel_request_carries_cookies(cookie: Seq<char>)
    ensures
        tunnel_request(cookie)
            == "GET /remote/sslvpn-tunnel HTTP/1.1\r\nHost: sslvpn\r\nCookie: "@ + cookie
            + "\r\n\r\n"@,
{
}

/// A cookie keeps its name and its value and loses the white space around the
/// two; one without a value, and an empty segment, is dropped; a segment
/// without an equals sign is kept.
pub proof fn law_segment_is_cleaned(
    front: Seq<char>,
    name: Seq<char>,
    middle: Seq<char>,
    value: Seq<char>,
    back: Seq<char>,
)
    requires
        forall|i: int| 0 <= i < front.len() ==> text::is_space(#[trigger] front[i]),
        forall|i: int| 0 <= i < middle.len() ==> text::is_space(#[trigger] middle[i]),
        forall|i: int| 0 <= i < back.len() ==> text::is_space(#[trigger] back[i]),
        name.len() > 0,
        !text::is_space(name[0]) && !text::is_space(name.last()),
        !name.contains('='),
        value.len() > 0,
        !text::is_space(value[0]) && !text::is_space(value.last()),
    ensures
        clean_segment(front + (name + middle + seq!['='] + middle + value) + back) == Some(
            name + seq!['='] + value,
        ),
        clean_segment(front + (name + seq!['=']) + back) is None,
        clean_segment(front + name + back) == Some(name),
        clean_segment(front + Seq::empty() + back) is None,
{
    reveal_strlit("=");
    assert("="@ =~= seq!['=']);
    let s = name + middle + seq!['='] + middle + value;
    assert(s[0] == name[0] && s.last() == value.last());
    text::law_trimming_takes_white_space(s, front, back);
    let head = name + middle;
    assert forall|k: int| 0 <= k < head.len() implies s[k] != '=' by {
        if k < name.len() {
            assert(name.contains(name[k]));
        } else {
            assert(text::is_space(middle[k - name.len()]));
        }
    }
    text::lemma_reach_is(s, '=', head.len() as int);
    let none = Seq::<char>::empty();
    assert(s.take(head.len() as int) =~= none + name + middle);
    assert(s.skip(head.len() as int + 1) =~= middle + value + none);
    text::law_trimming_takes_white_space(name, none, middle);
    text::law_trimming_takes_white_space(value, middle, none);
    let t = name + seq!['='];
    assert(t[0] == name[0] && t.last() == '=');
    text::law_trimming_takes_white_space(t, front, back);
    assert forall|k: int| 0 <= k < name.len() implies t[k] != '=' && name[k] != '=' by {
        assert(name.contains(name[k]));
    }
    text::lemma_reach_is(t, '=', name.len() as int);
    assert(t.skip(name.len() as int + 1) =~= none);
    text::law_trimming_takes_white_space(name, front, back);
    text::lemma_reach_is(name, '=', name.len() as int);
    text::law_trimming_takes_white_space(none, front, back);
}

/// The cookies that are kept are kept in order, one for each segment that has
/// a clean form, with a semicolon and a space between two of them.
pub proof fn law_clean_cookies_keep_order(
    segments: Seq<Seq<char>>,
    segment: Seq<char>,
    cookie: Seq<char>,
)
    ensures
        clean_segment(segment) matches Some(c) ==> clean_segments(segments.push(segment))
            == clean_segments(segments).push(c),
        clean_segment(segment) is None ==> clean_segments(segments.push(segment))
            == clean_segments(segments),
        clean_segments(Seq::empty()).len() == 0,
        !is_blank(cookie) ==> clean_cookies(cookie) == text::joined(
            clean_segments(text::pieces(cookie, ';')),
            seq![';', ' '],
        ),
        is_blank(cookie) ==> clean_cookies(cookie) == text::trimmed(cookie),
{
    reveal_strlit("; ");
    assert("; "@ =~= seq![';', ' ']);
    assert(segments.push(segment).drop_last() =~= segments);
}

/// The head ends behind its first empty line.
pub proof fn law_head_ends_at_the_empty_line(data: Seq<u8>, blank: Seq<u8>, at: int)
    requires
        blank == seq![0x0du8, 0x0au8, 0x0du8, 0x0au8],
        text::occurs_at(data, blank, at),
        forall|k: int| 0 <= k < at ==> !#[trigger] text::occurs_at(data, blank, k),
    ensures
        head_end(data) == Some(at + 4),
{
    assert(blank =~= blank_line());
    text::lemma_find_is(data, blank_line(), 0, at);
}

/// The status is the number in the second word of the first line.
pub proof fn law_status_is_the_second_word(line: Seq<char>, code: u16, rest: Seq<u8>)
    requires
        !text::has_part(encode_utf8(line), seq![0x0du8, 0x0au8]),
        text::words_of(line).len() >= 2,
        text::words_of(line)[1] == numbers::decimal(code as nat),
    ensures
        status_in(encode_utf8(line) + seq![0x0du8, 0x0au8] + rest) == Ok::<u16, Seq<char>>(code),
{
    let first = encode_utf8(line);
    let end = seq![0x0du8, 0x0au8];
    let head = first + end + rest;
    let at = first.len() as int;
    assert(crlf() =~= end);
    assert(head.subrange(at, at + 2) =~= end);
    assert forall|k: int| 0 <= k < at implies !#[trigger] text::occurs_at(head, crlf(), k) by {
        if k + 1 < at {
            assert(head.subrange(k, k + 2) =~= first.subrange(k, k + 2));
            assert(!text::occurs_at(first, end, k));
        } else {
            assert(head.subrange(k, k + 2)[1] == head[at]);
        }
    }
    text::lemma_find_is(head, crlf(), 0, at);
    assert(head.take(at) =~= first);
    encode_utf8_valid_utf8(line);
    encode_utf8_decode_utf8(line);
    numbers::lemma_decimal_reads_back(code as nat);
}

/// A header line gives the name in lower case and the value, both without
/// white space around them, in front of what the lines behind it give. A line
/// without a colon gives nothing, and an empty line ends the headers.
pub proof fn law_header_line_is_read(name: Seq<char>, value: Seq<char>, lines: Seq<Seq<char>>)
    requires
        !name.contains(':'),
    ensures
        headers_in(seq![name + seq![':'] + value] + lines) == seq![
            (text::lowered(text::trimmed(name)), text::trimmed(value)),
        ] + headers_in(lines),
        name.len() > 0 ==> headers_in(seq![name] + lines) == headers_in(lines),
        headers_in(seq![Seq::empty()] + lines).len() == 0,
        headers_in(Seq::empty()).len() == 0,
{
    let line = name + seq![':'] + value;
    let all = seq![line] + lines;
    assert(all.skip(1) =~= lines);
    assert((seq![name] + lines).skip(1) =~= lines);
    assert forall|k: int| 0 <= k < name.len() implies line[k] != ':' && name[k] != ':' by {
        assert(name.contains(name[k]));
    }
    text::lemma_reach_is(line, ':', name.len() as int);
    text::lemma_reach_is(name, ':', name.len() as int);
    assert(line.take(name.len() as int) =~= name);
    assert(line.skip(name.len() as int + 1) =~= value);
}

/// The lines of a text with the ends of lines between them are the text again,
/// and no line holds such an end.
pub proof fn law_lines_join_back(s: Seq<char>)
    ensures
        text::joined(crlf_lines(s), seq!['\r', '\n']) == s,
        crlf_lines(s).len() > 0,
        forall|i: int|
            0 <= i < crlf_lines(s).len() ==> !text::has_part(
                #[trigger] crlf_lines(s)[i],
                "\r\n"@,
            ),
    decreases s.len(),
{
    reveal_strlit("\r\n");
    assert("\r\n"@ =~= seq!['\r', '\n']);
    text::lemma_find_from(s, "\r\n"@, 0);
    if let Some(i) = text::first_at(s, "\r\n"@) {
        assert(text::occurs_at(s, "\r\n"@, i));
        let head = s.take(i);
        let tail = s.skip(i + 2);
        law_lines_join_back(tail);
        text::lemma_joined_front(head, crlf_lines(tail), seq!['\r', '\n']);
        assert(s.subrange(i, i + 2) =~= seq!['\r', '\n']);
        assert(s =~= head + s.subrange(i, i + 2) + tail);
        assert(!text::has_part(head, "\r\n"@)) by {
            assert forall|k: int| !#[trigger] text::occurs_at(head, "\r\n"@, k) by {
                if text::occurs_at(head, "\r\n"@, k) {
                    assert(head.subrange(k, k + 2) =~= s.subrange(k, k + 2));
                    assert(text::occurs_at(s, "\r\n"@, k));
                }
            }
        }
        let all = crlf_lines(s);
        assert forall|k: int| 0 <= k < all.len() implies !text::has_part(
            #[trigger] all[k],
            "\r\n"@,
        ) by {
            if k > 0 {
                assert(all[k] == crlf_lines(tail)[k - 1]);
            }
        }
    }
}

/// A head that can be read gives the status of its first line and the headers
/// of the lines behind it.
pub proof fn law_head_is_read(head: Seq<u8>, status: u16)
    requires
        status_in(head) == Ok::<u16, Seq<char>>(status),
        valid_utf8(head),
    ensures
        head_in(head) matches Ok((s, headers)) && s == status && headers == headers_in(
            crlf_lines(decode_utf8(head)).skip(1),
        ),
{
}

/// A redirect to a path is followed as it is. One to an address is followed to
/// the path behind the host, whatever the case of the scheme; without a path,
/// and under any other scheme, it is not followed.
pub proof fn law_redirect_keeps_the_path(
    scheme: Seq<char>,
    host: Seq<char>,
    path: Seq<char>,
)
    requires
        text::lowered(scheme) == "https://"@ || text::lowered(scheme) == "http://"@,
        !host.contains('/'),
        path.len() > 0,
        path[0] == '/',
        !text::is_space(path.last()),
        host.len() > 0,
        !text::is_space(host.last()),
    ensures
        redirect_path(path) == Ok::<Seq<char>, Seq<char>>(path),
        redirect_path(scheme + host + path) == Ok::<Seq<char>, Seq<char>>(path),
        redirect_path(scheme + host) is Err,
{
    reveal_strlit("https://");
    reveal_strlit("http://");
    reveal_strlit("/");
    assert(text::lowered(scheme).len() == scheme.len());
    assert(text::lowered(scheme)[0] == 'h' && text::lowered(scheme)[4] == text::lowered(
        scheme,
    )[4]);
    assert(path.subrange(0, 1) =~= "/"@);
    assert(text::trimmed(path) == path);
    lemma_address(scheme, host, path);
    lemma_address(scheme, host, Seq::empty());
    assert(scheme + host + Seq::<char>::empty() =~= scheme + host);
}

/// The path in an address.
proof fn lemma_address(scheme: Seq<char>, host: Seq<char>, path: Seq<char>)
    requires
        text::lowered(scheme) == "https://"@ || text::lowered(scheme) == "http://"@,
        !host.contains('/'),
        path.len() > 0 ==> path[0] == '/' && !text::is_space(path.last()),
        host.len() > 0,
        !text::is_space(host.last()),
    ensures
        path.len() > 0 ==> redirect_path(scheme + host + path) == Ok::<Seq<char>, Seq<char>>(path),
        path.len() == 0 ==> redirect_path(scheme + host + path) is Err,
{
    reveal_strlit("https://");
    reveal_strlit("http://");
    reveal_strlit("/");
    let loc = scheme + host + path;
    let n = scheme.len() as int;
    let low = text::lowered(loc);
    assert(text::lowered(scheme).len() == n);
    assert(text::lowered(scheme)[0] == 'h');
    assert(loc[0] == scheme[0]);
    assert(!text::is_space(loc[0]) && loc[0] != '/');
    assert(!text::is_space(loc.last())) by {
        if path.len() == 0 {
            assert(loc.last() == host.last());
        } else {
            assert(loc.last() == path.last());
        }
    }
    assert(text::trimmed(loc) == loc);
    assert(!text::has_prefix(loc, "/"@)) by {
        if text::has_prefix(loc, "/"@) {
            assert(loc.subrange(0, 1)[0] == '/');
        }
    }
    assert(low.subrange(0, n) =~= text::lowered(scheme));
    if text::lowered(scheme) == "http://"@ {
        assert(text::lowered(scheme)[4] == ':');
        assert(low[4] == ':');
        if text::has_prefix(low, "https://"@) {
            assert(low.subrange(0, 8)[4] == 's');
        }
        assert(text::has_prefix(low, "http://"@));
    } else {
        assert(text::has_prefix(low, "https://"@));
    }
    let rest = loc.skip(n);
    assert(rest =~= host + path);
    assert forall|k: int| 0 <= k < host.len() implies rest[k] != '/' by {
        assert(host.contains(host[k]));
    }
    text::lemma_reach_is(rest, '/', host.len() as int);
    assert(rest.skip(host.len() as int) =~= path);
}

} // verus!
