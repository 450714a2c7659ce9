//! The tunnel configuration that the gateway sends as XML.

use vstd::prelude::*;
use vstd::slice::slice_subrange;
use vstd::string::*;
use vstd::utf8::*;

use crate::auth::{VpnConfig, VpnConfigView};
use crate::bytes;
use crate::numbers;
use crate::text;
use crate::xml;
use crate::xml::{AttributesView, ElementView, EventView, XmlElement, XmlEvent};

verus! {

// ---------------------------------------------------------------------------
// Names and addresses
// ---------------------------------------------------------------------------

/// The longest end of `s` that holds no `x`.
pub open spec fn after_last(s: Seq<u8>, x: u8) -> Seq<u8>
    decreases s.len(),
{
    if s.len() == 0 || s.last() == x {
        Seq::empty()
    } else {
        after_last(s.drop_last(), x).push(s.last())
    }
}

/// The name without its namespace, written as `{namespace}name` or as
/// `prefix:name`.
pub open spec fn local_name(name: Seq<u8>) -> Seq<u8> {
    let end = text::reach(name, 0x7d);
    if name.len() > 0 && name[0] == 0x7b && end + 1 < name.len() {
        name.skip(end + 1)
    } else {
        after_last(name, 0x3a)
    }
}

/// The name, without its namespace, is the expected one but for case.
pub open spec fn names(name: Seq<u8>, expected: Seq<char>) -> bool {
    bytes::same_ignoring_case(local_name(name), encode_utf8(expected))
}

/// The name is that of the element with the assigned address.
pub open spec fn names_assigned_addr(name: Seq<u8>) -> bool {
    names(name, "assigned-addr"@) || names(name, "assigned_addr"@)
}

/// The address that the text is but for white space around it.
pub open spec fn address_in(content: Seq<u8>) -> Option<Seq<char>> {
    let t = text::trimmed(bytes::lossy(content));
    if numbers::is_dotted_quad(t) {
        Some(t)
    } else {
        None
    }
}

/// The address in an attribute whose name says that it holds one.
pub open spec fn attribute_address(key: Seq<u8>, value: Seq<u8>) -> Option<Seq<char>> {
    if names(key, "ipv4"@) || names(key, "ip"@) || names(key, "address"@) {
        address_in(value)
    } else {
        None
    }
}

/// The first address among the attributes.
pub open spec fn first_address(attributes: AttributesView) -> Option<Seq<char>>
    decreases attributes.len(),
{
    if attributes.len() == 0 {
        None
    } else {
        let here = match attributes[0] {
            Some((key, value)) => attribute_address(key, value),
            None => None,
        };
        if here is Some {
            here
        } else {
            first_address(attributes.skip(1))
        }
    }
}

/// The value of the last attribute of that name, empty if there is none.
pub open spec fn last_value(attributes: AttributesView, key: Seq<char>) -> Seq<char>
    decreases attributes.len(),
{
    if attributes.len() == 0 {
        Seq::empty()
    } else {
        match attributes.last() {
            Some((k, v)) => if names(k, key) {
                bytes::lossy(v)
            } else {
                last_value(attributes.drop_last(), key)
            },
            None => last_value(attributes.drop_last(), key),
        }
    }
}

// ---------------------------------------------------------------------------
// Events
// ---------------------------------------------------------------------------

/// The configuration before the first event.
pub open spec fn empty_config() -> VpnConfigView {
    VpnConfigView {
        assigned_ip: Seq::empty(),
        dns_servers: Seq::empty(),
        dns_suffix: None,
        split_routes: Seq::empty(),
    }
}

/// The configuration with the address, unless it has one already.
pub open spec fn with_address(c: VpnConfigView, ip: Option<Seq<char>>) -> VpnConfigView {
    match ip {
        Some(a) => if c.assigned_ip.len() == 0 {
            VpnConfigView { assigned_ip: a, ..c }
        } else {
            c
        },
        None => c,
    }
}

/// The configuration with what the attributes of a `dns` element add: a
/// server for each `ip`, and the last `domain` as the suffix.
pub open spec fn with_dns(c: VpnConfigView, attributes: AttributesView) -> VpnConfigView
    decreases attributes.len(),
{
    if attributes.len() == 0 {
        c
    } else {
        let before = with_dns(c, attributes.drop_last());
        match attributes.last() {
            Some((key, value)) => VpnConfigView {
                dns_servers: if names(key, "ip"@) {
                    before.dns_servers.push(bytes::lossy(value))
                } else {
                    before.dns_servers
                },
                dns_suffix: if names(key, "domain"@) {
                    Some(bytes::lossy(value))
                } else {
                    before.dns_suffix
                },
                ..before
            },
            None => before,
        }
    }
}

/// The configuration with the network that an `addr` element names, if it
/// names both its address and its mask.
pub open spec fn with_route(c: VpnConfigView, attributes: AttributesView) -> VpnConfigView {
    let ip = last_value(attributes, "ip"@);
    let mask = last_value(attributes, "mask"@);
    if ip.len() > 0 && mask.len() > 0 {
        VpnConfigView { split_routes: c.split_routes.push((ip, mask)), ..c }
    } else {
        c
    }
}

/// The configuration with what a tag adds to it.
pub open spec fn with_element(c: VpnConfigView, e: ElementView) -> VpnConfigView {
    let found = if names_assigned_addr(e.name) || names(e.name, "ipv4"@) {
        with_address(c, first_address(e.attributes))
    } else {
        c
    };
    if names(e.name, "dns"@) {
        with_dns(found, e.attributes)
    } else if names(e.name, "addr"@) {
        with_route(found, e.attributes)
    } else {
        found
    }
}

/// The configuration and the number of open elements for the assigned
/// address after one more event.
pub open spec fn after_event(c: VpnConfigView, open: int, e: EventView) -> (VpnConfigView, int) {
    match e {
        EventView::Start(tag) => (
            with_element(c, tag),
            if names_assigned_addr(tag.name) {
                open + 1
            } else {
                open
            },
        ),
        EventView::Empty(tag) => (with_element(c, tag), open),
        EventView::Text(t) | EventView::CData(t) => (
            if open > 0 {
                with_address(c, address_in(t))
            } else {
                c
            },
            open,
        ),
        EventView::End(name) => (
            c,
            if names_assigned_addr(name) {
                open - 1
            } else {
                open
            },
        ),
        _ => (c, open),
    }
}

/// The configuration that the events up to the last one describe.
pub open spec fn after_events(c: VpnConfigView, open: int, events: Seq<EventView>) -> Result<
    VpnConfigView,
    Seq<char>,
>
    decreases events.len(),
{
    if events.len() == 0 {
        Ok(c)
    } else {
        match events[0] {
            EventView::Eof => Ok(c),
            EventView::Failed(words) => Err("XML parse error: "@ + words),
            e => {
                let (c1, open1) = after_event(c, open, e);
                after_events(c1, open1, events.skip(1))
            },
        }
    }
}

// ---------------------------------------------------------------------------
// The search in the raw text
// ---------------------------------------------------------------------------

/// The white space of ASCII, without the vertical tab.
pub open spec fn is_blank(c: char) -> bool {
    c == ' ' || c == '\t' || c == '\n' || c == '\u{c}' || c == '\r'
}

/// The text without its leading blanks.
pub open spec fn after_blanks(s: Seq<char>) -> Seq<char>
    decreases s.len(),
{
    if s.len() > 0 && is_blank(s[0]) {
        after_blanks(s.skip(1))
    } else {
        s
    }
}

/// The address in quotes behind the first `attr=` of the text.
pub open spec fn quoted_address(fragment: Seq<char>, attr: Seq<char>) -> Option<Seq<char>> {
    match text::first_at(text::lowered(fragment), text::lowered(attr).push('=')) {
        None => None,
        Some(at) => {
            let rest = after_blanks(fragment.skip(at + attr.len() + 1));
            if rest.len() == 0 || (rest[0] != '"' && rest[0] != '\'') {
                None
            } else {
                let body = rest.skip(1);
                let end = text::reach(body, rest[0]);
                let value = text::trimmed(body.take(end));
                if end < body.len() && numbers::is_dotted_quad(value) {
                    Some(value)
                } else {
                    None
                }
            }
        },
    }
}

/// The first address in quotes behind one of the attribute names.
pub open spec fn any_quoted_address(fragment: Seq<char>) -> Option<Seq<char>> {
    if quoted_address(fragment, "ipv4"@) is Some {
        quoted_address(fragment, "ipv4"@)
    } else if quoted_address(fragment, "ip"@) is Some {
        quoted_address(fragment, "ip"@)
    } else {
        quoted_address(fragment, "address"@)
    }
}

/// How far the search looks behind the end of a tag, in bytes.
pub const SEARCH_BYTES: usize = 480;

/// What the search looks at: up to 480 bytes from the end of the first tag
/// on, or from the start of the text if no tag ends. `None` if that cuts a
/// character in two.
pub open spec fn search_window(rest: Seq<char>) -> Option<Seq<char>> {
    let tag_end = if text::reach(rest, '>') < rest.len() {
        text::reach(rest, '>')
    } else {
        0
    };
    let tail = rest.skip(tag_end);
    if text::byte_len(tail) <= SEARCH_BYTES {
        Some(rest)
    } else {
        match text::chars_in_bytes(tail, SEARCH_BYTES as int) {
            Some(n) => Some(rest.take(tag_end + n)),
            None => None,
        }
    }
}

/// What came of the search in the raw text.
pub enum Search {
    /// This address.
    Found(String),
    /// No address.
    Missing,
    /// A character stood across the end of the window.
    Cut,
}

/// The outcome of the search without its representation.
pub enum SearchView {
    Found(Seq<char>),
    Missing,
    Cut,
}

impl View for Search {
    type V = SearchView;

    open spec fn view(&self) -> SearchView {
        match self {
            Search::Found(ip) => SearchView::Found(ip@),
            Search::Missing => SearchView::Missing,
            Search::Cut => SearchView::Cut,
        }
    }
}

/// The outcome of the search behind the occurrences of a tag name from a
/// position on.
pub open spec fn search_from(xml: Seq<char>, tag: Seq<char>, from: int) -> SearchView
    decreases xml.len() - from,
{
    match text::find_from(text::lowered(xml), tag, from) {
        None => SearchView::Missing,
        Some(at) => match search_window(xml.skip(at)) {
            None => SearchView::Cut,
            Some(window) => match any_quoted_address(window) {
                Some(ip) => SearchView::Found(ip),
                None => if from <= at < at + tag.len() <= xml.len() {
                    search_from(xml, tag, at + tag.len() as int)
                } else {
                    SearchView::Missing
                },
            },
        },
    }
}

/// The outcome of the search behind the two tag names.
pub open spec fn search_text(xml: Seq<char>) -> SearchView {
    match search_from(xml, "assigned-addr"@, 0) {
        SearchView::Missing => search_from(xml, "assigned_addr"@, 0),
        other => other,
    }
}

// ---------------------------------------------------------------------------
// The whole
// ---------------------------------------------------------------------------

/// The configuration that the events and, where they hold no address, the
/// raw text describe. `None` if the search in the raw text is cut.
pub open spec fn described_config(events: Seq<EventView>, xml: Seq<char>) -> Option<
    Result<VpnConfigView, Seq<char>>,
> {
    match after_events(empty_config(), 0, events) {
        Err(m) => Some(Err(m)),
        Ok(c) => if c.assigned_ip.len() > 0 {
            Some(Ok(c))
        } else {
            match search_text(xml) {
                SearchView::Found(ip) => Some(Ok(VpnConfigView { assigned_ip: ip, ..c })),
                SearchView::Missing => Some(
                    Err(
                        "No assigned IP in VPN config XML (assigned-addr / ipv4); schema gateway non standard o risposta vuota."@,
                    ),
                ),
                SearchView::Cut => None,
            }
        },
    }
}

/// The text without a byte order mark and leading white space.
pub open spec fn xml_body(xml: Seq<char>) -> Seq<char> {
    text::trimmed_start(
        if xml.len() > 0 && xml[0] == '\u{feff}' {
            xml.skip(1)
        } else {
            xml
        },
    )
}

/// The configuration in an XML text. `None` if the search in the raw text
/// is cut.
pub open spec fn config_in(xml: Seq<char>) -> Option<Result<VpnConfigView, Seq<char>>> {
    described_config(xml::xml_events(xml_body(xml), true), xml_body(xml))
}

// ---------------------------------------------------------------------------
// Code: names and addresses
// ---------------------------------------------------------------------------

/// The name without its namespace.
pub fn xml_local_name(name: &[u8]) -> (r: &[u8])
    ensures
        r@ == local_name(name@),
{
    let end: usize = bytes::byte_position(name, 0x7d);
    if name.len() > 0 && name[0] == 0x7b && end < name.len() && end + 1 < name.len() {
        return slice_subrange(name, end + 1, name.len());
    }
    let mut k: usize = name.len();
    proof {
        assert(name@.take(k as int) =~= name@);
        assert(after_last(name@, 0x3a) + name@.skip(k as int) =~= after_last(name@, 0x3a));
    }
    while k > 0 && name[k - 1] != 0x3a
        invariant
            k <= name@.len(),
            after_last(name@, 0x3a) == after_last(name@.take(k as int), 0x3a) + name@.skip(
                k as int,
            ),
        decreases k,
    {
        proof {
            assert(name@.take(k as int).drop_last() =~= name@.take(k - 1));
            assert(after_last(name@.take(k - 1), 0x3a).push(name@[k - 1]) + name@.skip(k as int)
                =~= after_last(name@.take(k - 1), 0x3a) + name@.skip(k - 1));
        }
        k = k - 1;
    }
    proof {
        assert(Seq::<u8>::empty() + name@.skip(k as int) =~= name@.subrange(
            k as int,
            name@.len() as int,
        ));
    }
    slice_subrange(name, k, name.len())
}

/// Whether the name, without its namespace, is the expected one.
pub fn tag_is(name: &[u8], expected: &str) -> (r: bool)
    ensures
        r == names(name@, expected@),
{
    bytes::eq_ignore_case(xml_local_name(name), expected.as_bytes())
}

/// Whether the name is that of the element with the assigned address.
pub fn is_assigned_addr_tag(name: &[u8]) -> (r: bool)
    ensures
        r == names_assigned_addr(name@),
{
    tag_is(name, "assigned-addr") || tag_is(name, "assigned_addr")
}

/// Whether the name is that of an IPv4 block or leaf.
pub fn is_ipv4_tunnel_tag(name: &[u8]) -> (r: bool)
    ensures
        r == names(name@, "ipv4"@),
{
    tag_is(name, "ipv4")
}

/// The address that the text is but for white space around it.
pub fn parse_ipv4_trimmed(content: &[u8]) -> (r: Option<String>)
    ensures
        text::opt_view(r) == address_in(content@),
{
    let s = bytes::lossy_text(content);
    let cs = text::to_chars(s.as_str());
    let t = text::trim(cs.as_slice());
    if numbers::check_dotted_quad(t) {
        Some(text::to_text(t))
    } else {
        None
    }
}

/// The address in an attribute whose name says that it holds one.
pub fn attribute_assigned_ip(attr_key: &[u8], attr_val: &[u8]) -> (r: Option<String>)
    ensures
        text::opt_view(r) == attribute_address(attr_key@, attr_val@),
{
    if tag_is(attr_key, "ipv4") || tag_is(attr_key, "ip") || tag_is(attr_key, "address") {
        parse_ipv4_trimmed(attr_val)
    } else {
        None
    }
}

/// The first address among the attributes of a tag.
fn try_take_ip_from_element_attrs(e: &XmlElement) -> (r: Option<String>)
    ensures
        text::opt_view(r) == first_address(e@.attributes),
{
    let ghost all = e@.attributes;
    let mut i: usize = 0;
    proof {
        assert(all.skip(0) =~= all);
    }
    while i < e.attributes.len()
        invariant
            all == e@.attributes,
            i <= e.attributes@.len(),
            first_address(all) == first_address(all.skip(i as int)),
        decreases e.attributes.len() - i,
    {
        proof {
            assert(all.skip(i as int)[0] == all[i as int]);
            assert(all.skip(i as int).skip(1) =~= all.skip(i + 1));
        }
        if let Some((key, value)) = &e.attributes[i] {
            let found = attribute_assigned_ip(key.as_slice(), value.as_slice());
            if found.is_some() {
                return found;
            }
        }
        i = i + 1;
    }
    None
}

// ---------------------------------------------------------------------------
// Code: events
// ---------------------------------------------------------------------------

/// Adds what the attributes of a `dns` element say.
fn take_dns(e: &XmlElement, config: &mut VpnConfig)
    ensures
        final(config)@ == with_dns(old(config)@, e@.attributes),
{
    let ghost all = e@.attributes;
    let ghost before = config@;
    let mut i: usize = 0;
    proof {
        assert(all.take(0) =~= Seq::empty());
    }
    while i < e.attributes.len()
        invariant
            all == e@.attributes,
            i <= e.attributes@.len(),
            before == old(config)@,
            config@ == with_dns(before, all.take(i as int)),
        decreases e.attributes.len() - i,
    {
        let ghost c = config@;
        proof {
            assert(all.take(i + 1).drop_last() =~= all.take(i as int));
            assert(all.take(i + 1).last() == all[i as int]);
        }
        if let Some((key, value)) = &e.attributes[i] {
            if tag_is(key.as_slice(), "ip") {
                config.dns_servers.push(bytes::lossy_text(value.as_slice()));
                proof {
                    assert(config@.dns_servers =~= c.dns_servers.push(bytes::lossy(value@)));
                }
            }
            if tag_is(key.as_slice(), "domain") {
                config.dns_suffix = Some(bytes::lossy_text(value.as_slice()));
            }
        }
        i = i + 1;
    }
    proof {
        assert(all.take(i as int) =~= all);
    }
}

/// The value of the last attribute of that name.
fn value_of(e: &XmlElement, key: &str) -> (r: String)
    ensures
        r@ == last_value(e@.attributes, key@),
{
    let ghost all = e@.attributes;
    let mut found = String::new();
    let mut i: usize = 0;
    proof {
        assert(all.take(0) =~= Seq::empty());
    }
    while i < e.attributes.len()
        invariant
            all == e@.attributes,
            i <= e.attributes@.len(),
            found@ == last_value(all.take(i as int), key@),
        decreases e.attributes.len() - i,
    {
        proof {
            assert(all.take(i + 1).drop_last() =~= all.take(i as int));
            assert(all.take(i + 1).last() == all[i as int]);
        }
        if let Some((k, value)) = &e.attributes[i] {
            if tag_is(k.as_slice(), key) {
                found = bytes::lossy_text(value.as_slice());
            }
        }
        i = i + 1;
    }
    proof {
        assert(all.take(i as int) =~= all);
    }
    found
}

/// Adds what a tag says: an address, name servers or a network.
fn match_element_children(e: &XmlElement, config: &mut VpnConfig)
    ensures
        final(config)@ == with_element(old(config)@, e@),
{
    let ghost before = config@;
    if config.assigned_ip.as_str().is_empty() && (is_assigned_addr_tag(e.name.as_slice())
        || is_ipv4_tunnel_tag(e.name.as_slice())) {
        if let Some(ip) = try_take_ip_from_element_attrs(e) {
            config.assigned_ip = ip;
        }
    }
    if tag_is(e.name.as_slice(), "dns") {
        take_dns(e, config);
    } else if tag_is(e.name.as_slice(), "addr") {
        let ip = value_of(e, "ip");
        let mask = value_of(e, "mask");
        if !ip.as_str().is_empty() && !mask.as_str().is_empty() {
            let ghost had = config@;
            config.split_routes.push((ip, mask));
            proof {
                assert(config@.split_routes =~= had.split_routes.push((ip@, mask@)));
            }
        }
    }
}

/// Takes the address that a text is, if the configuration has none yet.
fn take_text(content: &[u8], config: &mut VpnConfig)
    ensures
        final(config)@ == with_address(old(config)@, address_in(content@)),
{
    if config.assigned_ip.as_str().is_empty() {
        if let Some(ip) = parse_ipv4_trimmed(content) {
            config.assigned_ip = ip;
        }
    }
}

/// The configuration that the events describe.
fn scan_events(events: &Vec<XmlEvent>) -> (r: Result<VpnConfig, String>)
    ensures
        match r {
            Ok(c) => after_events(empty_config(), 0, xml::event_views(events@)) == Ok::<
                VpnConfigView,
                Seq<char>,
            >(c@),
            Err(m) => after_events(empty_config(), 0, xml::event_views(events@)) == Err::<
                VpnConfigView,
                Seq<char>,
            >(m@),
        },
{
    let ghost all = xml::event_views(events@);
    let mut config = VpnConfig {
        assigned_ip: String::new(),
        dns_servers: Vec::new(),
        dns_suffix: None,
        split_routes: Vec::new(),
    };
    let mut assigned_nesting: i128 = 0;
    let mut i: usize = 0;
    proof {
        assert(all.skip(0) =~= all);
        assert(config@ =~= empty_config());
    }
    while i < events.len()
        invariant
            all == xml::event_views(events@),
            i <= events@.len(),
            -i <= assigned_nesting <= i,
            after_events(empty_config(), 0, all) == after_events(
                config@,
                assigned_nesting as int,
                all.skip(i as int),
            ),
        decreases events.len() - i,
    {
        proof {
            assert(all.skip(i as int)[0] == all[i as int]);
            assert(all[i as int] == events@[i as int]@);
            assert(all.skip(i as int).skip(1) =~= all.skip(i + 1));
        }
        match &events[i] {
            XmlEvent::Empty(e) => {
                match_element_children(e, &mut config);
            },
            XmlEvent::Start(e) => {
                if is_assigned_addr_tag(e.name.as_slice()) {
                    assigned_nesting = assigned_nesting + 1;
                }
                match_element_children(e, &mut config);
            },
            XmlEvent::Text(t) => {
                if assigned_nesting > 0 {
                    take_text(t.as_slice(), &mut config);
                }
            },
            XmlEvent::CData(t) => {
                if assigned_nesting > 0 {
                    take_text(t.as_slice(), &mut config);
                }
            },
            XmlEvent::End(name) => {
                if is_assigned_addr_tag(name.as_slice()) {
                    assigned_nesting = assigned_nesting - 1;
                }
            },
            XmlEvent::Eof => {
                return Ok(config);
            },
            XmlEvent::Failed(words) => {
                let mut m: String = "XML parse error: ".to_string();
                m.append(words.as_str());
                return Err(m);
            },
            XmlEvent::Other => {},
        }
        i = i + 1;
    }
    Ok(config)
}

// ---------------------------------------------------------------------------
// Code: the search in the raw text
// ---------------------------------------------------------------------------

/// The text without its leading blanks.
fn skip_blanks(cs: &[char]) -> (r: &[char])
    ensures
        r@ == after_blanks(cs@),
{
    let mut i: usize = 0;
    proof {
        assert(cs@.skip(0) =~= cs@);
    }
    while i < cs.len() && (cs[i] == ' ' || cs[i] == '\t' || cs[i] == '\n' || cs[i] == '\u{c}'
        || cs[i] == '\r')
        invariant
            i <= cs@.len(),
            after_blanks(cs@) == after_blanks(cs@.skip(i as int)),
        decreases cs.len() - i,
    {
        proof {
            assert(cs@.skip(i as int).skip(1) =~= cs@.skip(i + 1));
        }
        i = i + 1;
    }
    proof {
        assert(cs@.skip(i as int) =~= cs@.subrange(i as int, cs@.len() as int));
    }
    slice_subrange(cs, i, cs.len())
}

/// The address in quotes behind the first `attr=` of the text.
pub fn scan_quoted_ipv4_attr(fragment: &[char], attr: &str) -> (r: Option<String>)
    ensures
        text::opt_view(r) == quoted_address(fragment@, attr@),
{
    let size: usize = fragment.len();
    let lower = text::lower(fragment);
    let name = text::to_chars(attr);
    let mut needle = text::lower(name.as_slice());
    needle.push('=');
    let at: usize = match text::find(lower.as_slice(), needle.as_slice()) {
        Some(at) => at,
        None => {
            return None;
        },
    };
    proof {
        text::lemma_find_from(lower@, needle@, 0);
        assert(text::occurs_at(lower@, needle@, at as int));
        assert(fragment@.skip(at + needle@.len()) =~= fragment@.subrange(
            at + needle@.len(),
            fragment@.len() as int,
        ));
    }
    let rest = skip_blanks(slice_subrange(fragment, at + needle.len(), size));
    if rest.len() == 0 {
        return None;
    }
    let q: char = rest[0];
    if q != '"' && q != '\'' {
        return None;
    }
    let body = slice_subrange(rest, 1, rest.len());
    let end: usize = text::position(body, q);
    proof {
        assert(body@ =~= rest@.skip(1));
        assert(body@.subrange(0, end as int) =~= body@.take(end as int));
    }
    if end == body.len() {
        return None;
    }
    let value = text::trim(slice_subrange(body, 0, end));
    if numbers::check_dotted_quad(value) {
        Some(text::to_text(value))
    } else {
        None
    }
}

/// The first address in quotes behind one of the attribute names.
fn scan_window(window: &[char]) -> (r: Option<String>)
    ensures
        text::opt_view(r) == any_quoted_address(window@),
{
    let first = scan_quoted_ipv4_attr(window, "ipv4");
    if first.is_some() {
        return first;
    }
    let second = scan_quoted_ipv4_attr(window, "ip");
    if second.is_some() {
        return second;
    }
    scan_quoted_ipv4_attr(window, "address")
}

/// What the search looks at.
fn take_window(rest: &[char]) -> (r: Option<&[char]>)
    ensures
        match r {
            Some(w) => search_window(rest@) == Some(w@),
            None => search_window(rest@) is None,
        },
{
    let found: usize = text::position(rest, '>');
    let tag_end: usize = if found < rest.len() {
        found
    } else {
        0
    };
    let tail = slice_subrange(rest, tag_end, rest.len());
    proof {
        assert(tail@ =~= rest@.skip(tag_end as int));
    }
    if !text::has_bytes(tail, SEARCH_BYTES + 1) {
        return Some(rest);
    }
    match text::cut_at(tail, SEARCH_BYTES as u128) {
        Some(n) => {
            proof {
                assert(rest@.subrange(0, tag_end + n) =~= rest@.take(tag_end + n));
            }
            Some(slice_subrange(rest, 0, tag_end + n))
        },
        None => None,
    }
}

/// Searches behind the occurrences of a tag name.
fn search_tag(cs: &[char], lower: &[char], tag: &[char]) -> (r: Search)
    requires
        lower@ == text::lowered(cs@),
        tag@.len() > 0,
    ensures
        r@ == search_from(cs@, tag@, 0),
{
    let mut from: usize = 0;
    loop
        invariant
            lower@ == text::lowered(cs@),
            tag@.len() > 0,
            from <= cs@.len(),
            search_from(cs@, tag@, 0) == search_from(cs@, tag@, from as int),
        decreases cs@.len() - from,
    {
        let at: usize = match text::find_after(lower, tag, from) {
            Some(at) => at,
            None => {
                return Search::Missing;
            },
        };
        proof {
            text::lemma_find_from(lower@, tag@, from as int);
            assert(cs@.skip(at as int) =~= cs@.subrange(at as int, cs@.len() as int));
        }
        match take_window(slice_subrange(cs, at, cs.len())) {
            None => {
                return Search::Cut;
            },
            Some(window) => {
                if let Some(ip) = scan_window(window) {
                    return Search::Found(ip);
                }
            },
        }
        from = at + tag.len();
    }
}

/// Searches the raw text for an address behind the two tag names.
pub fn fallback_assigned_ipv4(xml: &str) -> (r: Search)
    ensures
        r@ == search_text(xml@),
{
    let cs = text::to_chars(xml);
    let lower = text::lower(cs.as_slice());
    let first = text::to_chars("assigned-addr");
    let second = text::to_chars("assigned_addr");
    proof {
        reveal_strlit("assigned-addr");
        reveal_strlit("assigned_addr");
    }
    match search_tag(cs.as_slice(), lower.as_slice(), first.as_slice()) {
        Search::Missing => search_tag(cs.as_slice(), lower.as_slice(), second.as_slice()),
        other => other,
    }
}

// ---------------------------------------------------------------------------
// Code: the whole
// ---------------------------------------------------------------------------

/// The result `r` is the one that is described.
pub open spec fn is_described(
    r: Result<VpnConfig, String>,
    wanted: Result<VpnConfigView, Seq<char>>,
) -> bool {
    match (r, wanted) {
        (Ok(c), Ok(v)) => c@ == v,
        (Err(m), Err(w)) => m@ == w,
        _ => false,
    }
}

/// The configuration that the events and, where they hold no address, the
/// raw text describe.
pub fn config_from_events(events: &Vec<XmlEvent>, xml: &str) -> (r: Result<VpnConfig, String>)
    requires
        described_config(xml::event_views(events@), xml@) is Some,
    ensures
        is_described(r, described_config(xml::event_views(events@), xml@)->0),
{
    let mut config: VpnConfig = match scan_events(events) {
        Ok(c) => c,
        Err(m) => {
            return Err(m);
        },
    };
    if !config.assigned_ip.as_str().is_empty() {
        return Ok(config);
    }
    match fallback_assigned_ipv4(xml) {
        Search::Found(ip) => {
            config.assigned_ip = ip;
            Ok(config)
        },
        _ => Err(
            "No assigned IP in VPN config XML (assigned-addr / ipv4); schema gateway non standard o risposta vuota.".to_string(),
        ),
    }
}

/// The text without a byte order mark and leading white space.
fn strip_head(xml: &str) -> (r: String)
    ensures
        r@ == xml_body(xml@),
{
    let cs = text::to_chars(xml);
    let start: usize = if cs.len() > 0 && cs[0] == '\u{feff}' {
        1
    } else {
        0
    };
    let rest = slice_subrange(cs.as_slice(), start, cs.len());
    proof {
        assert(rest@ =~= if start == 1 {
            xml@.skip(1)
        } else {
            xml@
        });
    }
    text::to_text(text::trim_start(rest))
}

/// The configuration in an XML text, for a text in which the search for an
/// address, if it comes to that, cuts no character in two.
pub fn parse_vpn_config_xml(xml: &str) -> (r: Result<VpnConfig, String>)
    requires
        config_in(xml@) is Some,
    ensures
        is_described(r, config_in(xml@)->0),
{
    let body = strip_head(xml);
    let events = xml::read_events(body.as_str(), true);
    config_from_events(&events, body.as_str())
}

/// The configuration in any XML text; `None` if the search for an address
/// cuts a character in two.
pub fn try_parse_vpn_config_xml(xml: &str) -> (r: Option<Result<VpnConfig, String>>)
    ensures
        match config_in(xml@) {
            Some(wanted) => r is Some && is_described(r->0, wanted),
            None => r is None,
        },
{
    let body = strip_head(xml);
    match fallback_assigned_ipv4(body.as_str()) {
        Search::Cut => {
            let events = xml::read_events(body.as_str(), true);
            let no_address: bool = match scan_events(&events) {
                Ok(config) => config.assigned_ip.as_str().is_empty(),
                Err(_) => false,
            };
            if no_address {
                None
            } else {
                Some(config_from_events(&events, body.as_str()))
            }
        },
        _ => Some(parse_vpn_config_xml(xml)),
    }
}

// ---------------------------------------------------------------------------
// Laws
// ---------------------------------------------------------------------------

/// A configuration that is handed out has a dotted IPv4 address.
pub proof fn law_assigned_address_is_dotted(xml: Seq<char>)
    ensures
        config_in(xml) matches Some(Ok(c)) ==> numbers::is_dotted_quad(c.assigned_ip),
{
    let body = xml_body(xml);
    lemma_events_keep_address(empty_config(), 0, xml::xml_events(body, true));
    lemma_search_finds_address(body, "assigned-addr"@, 0);
    lemma_search_finds_address(body, "assigned_addr"@, 0);
}

/// The configuration has no address or a dotted one.
spec fn sound_address(c: VpnConfigView) -> bool {
    c.assigned_ip.len() > 0 ==> numbers::is_dotted_quad(c.assigned_ip)
}

/// The first address among attributes is a dotted one.
proof fn lemma_first_address(attributes: AttributesView)
    ensures
        first_address(attributes) matches Some(ip) ==> numbers::is_dotted_quad(ip),
    decreases attributes.len(),
{
    if attributes.len() > 0 {
        lemma_first_address(attributes.skip(1));
    }
}

/// The attributes of a `dns` element leave the address alone.
proof fn lemma_dns_keeps_address(c: VpnConfigView, attributes: AttributesView)
    ensures
        with_dns(c, attributes).assigned_ip == c.assigned_ip,
    decreases attributes.len(),
{
    if attributes.len() > 0 {
        lemma_dns_keeps_address(c, attributes.drop_last());
    }
}

/// Events bring in dotted addresses only.
proof fn lemma_events_keep_address(c: VpnConfigView, open: int, events: Seq<EventView>)
    requires
        sound_address(c),
    ensures
        after_events(c, open, events) matches Ok(d) ==> sound_address(d),
    decreases events.len(),
{
    if events.len() > 0 && !xml::is_last(events[0]) {
        let (c1, open1) = after_event(c, open, events[0]);
        match events[0] {
            EventView::Start(tag) | EventView::Empty(tag) => {
                lemma_first_address(tag.attributes);
                lemma_dns_keeps_address(
                    with_address(c, first_address(tag.attributes)),
                    tag.attributes,
                );
                lemma_dns_keeps_address(c, tag.attributes);
            },
            _ => {},
        }
        lemma_events_keep_address(c1, open1, events.skip(1));
    }
}

/// Every network of a configuration that is handed out has an address and a
/// mask.
pub proof fn law_networks_are_whole(xml: Seq<char>)
    ensures
        config_in(xml) matches Some(Ok(c)) ==> whole_networks(c),
{
    lemma_events_keep_networks(empty_config(), 0, xml::xml_events(xml_body(xml), true));
}

/// No network lacks its address or its mask.
pub open spec fn whole_networks(c: VpnConfigView) -> bool {
    forall|i: int|
        0 <= i < c.split_routes.len() ==> (#[trigger] c.split_routes[i]).0.len() > 0
            && c.split_routes[i].1.len() > 0
}

/// The attributes of a `dns` element leave the networks alone.
proof fn lemma_dns_keeps_networks(c: VpnConfigView, attributes: AttributesView)
    ensures
        with_dns(c, attributes).split_routes == c.split_routes,
    decreases attributes.len(),
{
    if attributes.len() > 0 {
        lemma_dns_keeps_networks(c, attributes.drop_last());
    }
}

/// Events bring in whole networks only.
proof fn lemma_events_keep_networks(c: VpnConfigView, open: int, events: Seq<EventView>)
    requires
        whole_networks(c),
    ensures
        after_events(c, open, events) matches Ok(d) ==> whole_networks(d),
    decreases events.len(),
{
    if events.len() > 0 && !xml::is_last(events[0]) {
        let (c1, open1) = after_event(c, open, events[0]);
        match events[0] {
            EventView::Start(tag) | EventView::Empty(tag) => {
                lemma_dns_keeps_networks(
                    with_address(c, first_address(tag.attributes)),
                    tag.attributes,
                );
                lemma_dns_keeps_networks(c, tag.attributes);
            },
            _ => {},
        }
        lemma_events_keep_networks(c1, open1, events.skip(1));
    }
}

/// The search in the raw text finds dotted addresses only.
proof fn lemma_search_finds_address(xml: Seq<char>, tag: Seq<char>, from: int)
    ensures
        search_from(xml, tag, from) matches SearchView::Found(ip) ==> numbers::is_dotted_quad(ip),
    decreases xml.len() - from,
{
    if let Some(at) = text::find_from(text::lowered(xml), tag, from) {
        if from <= at < at + tag.len() <= xml.len() {
            lemma_search_finds_address(xml, tag, at + tag.len() as int);
        }
    }
}

/// The first address that comes up stays, whatever follows.
pub proof fn law_first_address_stays(c: VpnConfigView, open: int, events: Seq<EventView>)
    requires
        c.assigned_ip.len() > 0,
    ensures
        after_events(c, open, events) matches Ok(d) ==> d.assigned_ip == c.assigned_ip,
    decreases events.len(),
{
    if events.len() > 0 && !xml::is_last(events[0]) {
        let (c1, open1) = after_event(c, open, events[0]);
        match events[0] {
            EventView::Start(tag) | EventView::Empty(tag) => {
                lemma_dns_keeps_address(c, tag.attributes);
            },
            _ => {},
        }
        law_first_address_stays(c1, open1, events.skip(1));
    }
}

/// The tag is one for the assigned address and has a dotted address among its
/// attributes.
pub open spec fn has_address(e: EventView) -> bool {
    match e {
        EventView::Start(tag) | EventView::Empty(tag) => (names_assigned_addr(tag.name) || names(
            tag.name,
            "ipv4"@,
        )) && first_address(tag.attributes) is Some,
        _ => false,
    }
}

/// A text without errors that has a tag with the address is a configuration.
pub proof fn law_address_is_taken(events: Seq<EventView>, xml: Seq<char>, at: int)
    requires
        0 <= at < events.len(),
        has_address(events[at]),
        forall|k: int| 0 <= k < at ==> !((#[trigger] events[k]) is Eof),
        forall|k: int| 0 <= k < events.len() ==> !((#[trigger] events[k]) is Failed),
    ensures
        described_config(events, xml) matches Some(Ok(c)) && numbers::is_dotted_quad(
            c.assigned_ip,
        ),
{
    lemma_address_is_taken(empty_config(), 0, events, at);
    lemma_events_keep_address(empty_config(), 0, events);
}

/// Events without an error describe a configuration, and a tag with the
/// address brings one in.
proof fn lemma_address_is_taken(c: VpnConfigView, open: int, events: Seq<EventView>, at: int)
    requires
        at >= events.len() || (0 <= at && has_address(events[at])) || c.assigned_ip.len() > 0,
        forall|k: int| 0 <= k < at && k < events.len() ==> !((#[trigger] events[k]) is Eof),
        forall|k: int| 0 <= k < events.len() ==> !((#[trigger] events[k]) is Failed),
    ensures
        after_events(c, open, events) is Ok,
        c.assigned_ip.len() > 0 || 0 <= at < events.len() ==> after_events(
            c,
            open,
            events,
        )->Ok_0.assigned_ip.len() > 0,
    decreases events.len(),
{
    if events.len() > 0 && !xml::is_last(events[0]) {
        let (c1, open1) = after_event(c, open, events[0]);
        let rest = events.skip(1);
        assert forall|k: int| 0 <= k < rest.len() implies !((#[trigger] rest[k]) is Failed) by {
            assert(rest[k] == events[k + 1]);
        }
        assert forall|k: int| 0 <= k < at - 1 && k < rest.len() implies !((#[trigger] rest[k])
            is Eof) by {
            assert(rest[k] == events[k + 1]);
        }
        match events[0] {
            EventView::Start(tag) | EventView::Empty(tag) => {
                let found = with_address(c, first_address(tag.attributes));
                lemma_first_address(tag.attributes);
                lemma_dns_keeps_address(found, tag.attributes);
                lemma_dns_keeps_address(c, tag.attributes);
            },
            _ => {},
        }
        if at > 0 && at < events.len() {
            assert(rest[at - 1] == events[at]);
        }
        lemma_address_is_taken(c1, open1, rest, at - 1);
    }
}

/// The tag that an event opens.
pub open spec fn tag_of(e: EventView) -> Option<ElementView> {
    match e {
        EventView::Start(tag) | EventView::Empty(tag) => Some(tag),
        _ => None,
    }
}

/// The values of all attributes of that name, in order.
pub open spec fn values_of(attributes: AttributesView, key: Seq<char>) -> Seq<Seq<char>>
    decreases attributes.len(),
{
    if attributes.len() == 0 {
        Seq::empty()
    } else {
        let rest = values_of(attributes.skip(1), key);
        match attributes[0] {
            Some((k, v)) => if names(k, key) {
                seq![bytes::lossy(v)] + rest
            } else {
                rest
            },
            None => rest,
        }
    }
}

/// The last of the values, or nothing.
pub open spec fn last_or_empty(values: Seq<Seq<char>>) -> Seq<char> {
    if values.len() > 0 {
        values.last()
    } else {
        Seq::empty()
    }
}

/// The network that an event names: an `addr` tag with an `ip` and a `mask`
/// that are not empty.
pub open spec fn network_of(e: EventView) -> Seq<(Seq<char>, Seq<char>)> {
    match tag_of(e) {
        Some(tag) => {
            let ip = last_or_empty(values_of(tag.attributes, "ip"@));
            let mask = last_or_empty(values_of(tag.attributes, "mask"@));
            if !names(tag.name, "dns"@) && names(tag.name, "addr"@) && ip.len() > 0 && mask.len()
                > 0 {
                seq![(ip, mask)]
            } else {
                Seq::empty()
            }
        },
        None => Seq::empty(),
    }
}

/// The values of an attribute of the `dns` tag that an event opens.
pub open spec fn dns_values(e: EventView, key: Seq<char>) -> Seq<Seq<char>> {
    match tag_of(e) {
        Some(tag) => if names(tag.name, "dns"@) {
            values_of(tag.attributes, key)
        } else {
            Seq::empty()
        },
        None => Seq::empty(),
    }
}

/// The networks that the events name, in the order of the document.
pub open spec fn networks_named(events: Seq<EventView>) -> Seq<(Seq<char>, Seq<char>)>
    decreases events.len(),
{
    if events.len() == 0 || events[0] is Eof {
        Seq::empty()
    } else {
        network_of(events[0]) + networks_named(events.skip(1))
    }
}

/// The values of an attribute of all the `dns` tags, in the order of the
/// document.
pub open spec fn all_dns_values(events: Seq<EventView>, key: Seq<char>) -> Seq<Seq<char>>
    decreases events.len(),
{
    if events.len() == 0 || events[0] is Eof {
        Seq::empty()
    } else {
        dns_values(events[0], key) + all_dns_values(events.skip(1), key)
    }
}

/// The dotted addresses among the attributes whose name says that they hold
/// one, in order.
pub open spec fn addresses_of(attributes: AttributesView) -> Seq<Seq<char>>
    decreases attributes.len(),
{
    if attributes.len() == 0 {
        Seq::empty()
    } else {
        let rest = addresses_of(attributes.skip(1));
        match attributes[0] {
            Some((k, v)) => {
                let t = text::trimmed(bytes::lossy(v));
                if (names(k, "ipv4"@) || names(k, "ip"@) || names(k, "address"@))
                    && numbers::is_dotted_quad(t) {
                    seq![t] + rest
                } else {
                    rest
                }
            },
            None => rest,
        }
    }
}

/// The addresses for the tunnel that the events name, in the order of the
/// document: those in the tags for the address, and what stands between an
/// opening and a closing `assigned-addr` tag. `open` such tags are open at the
/// start.
pub open spec fn addresses_named(open: int, events: Seq<EventView>) -> Seq<Seq<char>>
    decreases events.len(),
{
    if events.len() == 0 || events[0] is Eof {
        Seq::empty()
    } else {
        let rest = events.skip(1);
        match events[0] {
            EventView::Start(tag) => if names(tag.name, "assigned-addr"@) || names(
                tag.name,
                "assigned_addr"@,
            ) {
                addresses_of(tag.attributes) + addresses_named(open + 1, rest)
            } else if names(tag.name, "ipv4"@) {
                addresses_of(tag.attributes) + addresses_named(open, rest)
            } else {
                addresses_named(open, rest)
            },
            EventView::Empty(tag) => if names(tag.name, "assigned-addr"@) || names(
                tag.name,
                "assigned_addr"@,
            ) || names(tag.name, "ipv4"@) {
                addresses_of(tag.attributes) + addresses_named(open, rest)
            } else {
                addresses_named(open, rest)
            },
            EventView::Text(t) | EventView::CData(t) => {
                let a = text::trimmed(bytes::lossy(t));
                if open > 0 && numbers::is_dotted_quad(a) {
                    seq![a] + addresses_named(open, rest)
                } else {
                    addresses_named(open, rest)
                }
            },
            EventView::End(name) => if names(name, "assigned-addr"@) || names(
                name,
                "assigned_addr"@,
            ) {
                addresses_named(open - 1, rest)
            } else {
                addresses_named(open, rest)
            },
            _ => addresses_named(open, rest),
        }
    }
}

/// The networks of a configuration are those of all the `addr` tags that name
/// an address and a mask, one for each tag, in the order of the document, and
/// they come behind those that were there before.
pub proof fn law_networks_are_listed(c: VpnConfigView, open: int, events: Seq<EventView>)
    ensures
        after_events(c, open, events) matches Ok(d) ==> d.split_routes == c.split_routes
            + networks_named(events),
    decreases events.len(),
{
    if events.len() == 0 || xml::is_last(events[0]) {
        assert(c.split_routes + Seq::empty() =~= c.split_routes);
    } else {
        let (c1, open1) = after_event(c, open, events[0]);
        lemma_event_lists(c, open, events[0]);
        law_networks_are_listed(c1, open1, events.skip(1));
        assert(c.split_routes + network_of(events[0]) + networks_named(events.skip(1))
            =~= c.split_routes + networks_named(events));
    }
}

/// The name servers of a configuration are the `ip` values of all the `dns`
/// tags, in the order of the document, behind those that were there before.
/// The suffix is the last `domain` value of these tags; where there is none,
/// it stays as it was.
pub proof fn law_name_servers_are_listed(c: VpnConfigView, open: int, events: Seq<EventView>)
    ensures
        after_events(c, open, events) matches Ok(d) ==> d.dns_servers == c.dns_servers
            + all_dns_values(events, "ip"@) && d.dns_suffix == if all_dns_values(
            events,
            "domain"@,
        ).len() > 0 {
            Some(all_dns_values(events, "domain"@).last())
        } else {
            c.dns_suffix
        },
    decreases events.len(),
{
    if events.len() == 0 || xml::is_last(events[0]) {
        assert(c.dns_servers + Seq::empty() =~= c.dns_servers);
    } else {
        let (c1, open1) = after_event(c, open, events[0]);
        lemma_event_lists(c, open, events[0]);
        law_name_servers_are_listed(c1, open1, events.skip(1));
        assert(c.dns_servers + dns_values(events[0], "ip"@) + all_dns_values(
            events.skip(1),
            "ip"@,
        ) =~= c.dns_servers + all_dns_values(events, "ip"@));
        let later = all_dns_values(events.skip(1), "domain"@);
        let all = all_dns_values(events, "domain"@);
        assert(all == dns_values(events[0], "domain"@) + later);
        if later.len() > 0 {
            assert(all.last() == later.last());
        } else if all.len() > 0 {
            assert(all.last() == dns_values(events[0], "domain"@).last());
        }
    }
}

/// The address of a configuration without one is the first that the events
/// name; without any it stays empty.
pub proof fn law_first_address_is_taken(c: VpnConfigView, open: int, events: Seq<EventView>)
    requires
        c.assigned_ip.len() == 0,
    ensures
        after_events(c, open, events) matches Ok(d) ==> d.assigned_ip == if addresses_named(
            open,
            events,
        ).len() > 0 {
            addresses_named(open, events)[0]
        } else {
            Seq::empty()
        },
    decreases events.len(),
{
    if events.len() == 0 || xml::is_last(events[0]) {
        assert(c.assigned_ip =~= Seq::empty());
    } else {
        let (c1, open1) = after_event(c, open, events[0]);
        let rest = events.skip(1);
        match events[0] {
            EventView::Start(tag) | EventView::Empty(tag) => {
                lemma_addresses_of(tag.attributes);
                lemma_first_address(tag.attributes);
                lemma_dns_keeps_address(
                    with_address(c, first_address(tag.attributes)),
                    tag.attributes,
                );
                lemma_dns_keeps_address(c, tag.attributes);
            },
            _ => {},
        }
        if c1.assigned_ip.len() == 0 {
            law_first_address_is_taken(c1, open1, rest);
            assert(Seq::<Seq<char>>::empty() + addresses_named(open1, rest) =~= addresses_named(
                open1,
                rest,
            ));
        } else {
            law_first_address_stays(c1, open1, rest);
        }
        assert(addresses_named(open, events).len() > 0 && c1.assigned_ip.len() > 0
            ==> addresses_named(open, events)[0] == c1.assigned_ip);
    }
}

/// The first address among attributes heads the list of them.
proof fn lemma_addresses_of(attributes: AttributesView)
    ensures
        first_address(attributes) == if addresses_of(attributes).len() > 0 {
            Some(addresses_of(attributes)[0])
        } else {
            None
        },
    decreases attributes.len(),
{
    if attributes.len() > 0 {
        lemma_addresses_of(attributes.skip(1));
    }
}

/// The values of attributes, with the last attribute taken apart.
proof fn lemma_values_of(attributes: AttributesView, key: Seq<char>)
    requires
        attributes.len() > 0,
    ensures
        values_of(attributes, key) == values_of(attributes.drop_last(), key) + values_of(
            seq![attributes.last()],
            key,
        ),
    decreases attributes.len(),
{
    reveal_with_fuel(values_of, 2);
    if attributes.len() == 1 {
        assert(attributes =~= seq![attributes.last()]);
        assert(attributes.drop_last() =~= Seq::empty());
        assert(values_of(attributes.drop_last(), key) + values_of(seq![attributes.last()], key)
            =~= values_of(seq![attributes.last()], key));
    } else {
        lemma_values_of(attributes.skip(1), key);
        assert(attributes.drop_last().skip(1) =~= attributes.skip(1).drop_last());
        assert(attributes.skip(1).last() == attributes.last());
        assert(attributes.drop_last()[0] == attributes[0]);
        let head = match attributes[0] {
            Some((k, v)) => if names(k, key) {
                seq![bytes::lossy(v)]
            } else {
                Seq::empty()
            },
            None => Seq::empty(),
        };
        let mid = values_of(attributes.skip(1).drop_last(), key);
        let end = values_of(seq![attributes.last()], key);
        assert(values_of(attributes, key) =~= head + (mid + end));
        assert(values_of(attributes.drop_last(), key) =~= head + mid);
        assert(head + (mid + end) =~= (head + mid) + end);
    }
}

/// The last value is the last of all the values.
proof fn lemma_last_value(attributes: AttributesView, key: Seq<char>)
    ensures
        last_value(attributes, key) == last_or_empty(values_of(attributes, key)),
    decreases attributes.len(),
{
    if attributes.len() > 0 {
        reveal_with_fuel(values_of, 2);
        lemma_values_of(attributes, key);
        lemma_last_value(attributes.drop_last(), key);
        let end = values_of(seq![attributes.last()], key);
        assert(seq![attributes.last()].skip(1) =~= Seq::empty());
        if end.len() == 0 {
            assert(values_of(attributes, key) =~= values_of(attributes.drop_last(), key));
        }
    }
}

/// What the attributes of a `dns` element add.
proof fn lemma_dns_lists(c: VpnConfigView, attributes: AttributesView)
    ensures
        with_dns(c, attributes).dns_servers == c.dns_servers + values_of(attributes, "ip"@),
        with_dns(c, attributes).dns_suffix == if values_of(attributes, "domain"@).len() > 0 {
            Some(values_of(attributes, "domain"@).last())
        } else {
            c.dns_suffix
        },
    decreases attributes.len(),
{
    if attributes.len() == 0 {
        assert(c.dns_servers + Seq::empty() =~= c.dns_servers);
    } else {
        reveal_with_fuel(values_of, 2);
        let before = attributes.drop_last();
        lemma_dns_lists(c, before);
        lemma_values_of(attributes, "ip"@);
        lemma_values_of(attributes, "domain"@);
        assert(seq![attributes.last()].skip(1) =~= Seq::empty());
        assert(with_dns(c, attributes).dns_servers =~= c.dns_servers + values_of(before, "ip"@)
            + values_of(seq![attributes.last()], "ip"@));
        assert(c.dns_servers + values_of(before, "ip"@) + values_of(
            seq![attributes.last()],
            "ip"@,
        ) =~= c.dns_servers + values_of(attributes, "ip"@));
        let end = values_of(seq![attributes.last()], "domain"@);
        if end.len() == 0 {
            assert(values_of(attributes, "domain"@) =~= values_of(before, "domain"@));
        }
    }
}

/// What one event adds to the lists.
proof fn lemma_event_lists(c: VpnConfigView, open: int, e: EventView)
    ensures
        after_event(c, open, e).0.split_routes == c.split_routes + network_of(e),
        after_event(c, open, e).0.dns_servers == c.dns_servers + dns_values(e, "ip"@),
        after_event(c, open, e).0.dns_suffix == if dns_values(e, "domain"@).len() > 0 {
            Some(dns_values(e, "domain"@).last())
        } else {
            c.dns_suffix
        },
{
    assert(c.split_routes + Seq::empty() =~= c.split_routes);
    assert(c.dns_servers + Seq::empty() =~= c.dns_servers);
    match e {
        EventView::Start(tag) | EventView::Empty(tag) => {
            let found = if names_assigned_addr(tag.name) || names(tag.name, "ipv4"@) {
                with_address(c, first_address(tag.attributes))
            } else {
                c
            };
            lemma_dns_lists(found, tag.attributes);
            lemma_dns_keeps_networks(found, tag.attributes);
            lemma_last_value(tag.attributes, "ip"@);
            lemma_last_value(tag.attributes, "mask"@);
            let network = (
                last_value(tag.attributes, "ip"@),
                last_value(tag.attributes, "mask"@),
            );
            assert(c.split_routes.push(network) =~= c.split_routes + seq![network]);
        },
        _ => {},
    }
}

/// A configuration that is handed out lists the networks, the name servers and
/// the suffix of the document, and its address is the first that the document
/// names. Only where it names none is the address looked for elsewhere.
pub proof fn law_configuration_is_the_documents(events: Seq<EventView>, xml: Seq<char>)
    ensures
        described_config(events, xml) matches Some(Ok(c)) ==> {
            &&& c.split_routes == networks_named(events)
            &&& c.dns_servers == all_dns_values(events, "ip"@)
            &&& c.dns_suffix == if all_dns_values(events, "domain"@).len() > 0 {
                Some(all_dns_values(events, "domain"@).last())
            } else {
                None
            }
            &&& addresses_named(0, events).len() > 0 ==> c.assigned_ip == addresses_named(
                0,
                events,
            )[0]
            &&& addresses_named(0, events).len() == 0 ==> search_text(xml) == SearchView::Found(
                c.assigned_ip,
            )
        },
{
    let c = empty_config();
    law_networks_are_listed(c, 0, events);
    law_name_servers_are_listed(c, 0, events);
    law_first_address_is_taken(c, 0, events);
    lemma_addresses_are_not_empty(0, events);
    assert(c.split_routes + networks_named(events) =~= networks_named(events));
    assert(c.dns_servers + all_dns_values(events, "ip"@) =~= all_dns_values(events, "ip"@));
}

/// Where the raw text names an address in quotes behind the first
/// `assigned-addr` and the first `ipv4=` after it, the search finds just that
/// address. The case of the letters makes no difference.
pub proof fn law_raw_address_is_found(
    before: Seq<char>,
    tag: Seq<char>,
    between: Seq<char>,
    key: Seq<char>,
    quote: char,
    ip: Seq<char>,
    rest: Seq<char>,
)
    requires
        text::lowered(tag) == "assigned-addr"@,
        text::lowered(key) == "ipv4="@,
        quote == '"' || quote == '\'',
        numbers::is_dotted_quad(ip),
        ({
            let behind = tag + between + key + seq![quote] + ip + seq![quote] + rest;
            &&& text::first_at(text::lowered(before + behind), "assigned-addr"@) == Some(
                before.len() as int,
            )
            &&& text::first_at(text::lowered(behind), "ipv4="@) == Some(
                (tag + between).len() as int,
            )
            &&& text::byte_len(behind) <= 480
        }),
    ensures
        search_text(
            before + (tag + between + key + seq![quote] + ip + seq![quote] + rest),
        ) == SearchView::Found(ip),
{
    let behind = tag + between + key + seq![quote] + ip + seq![quote] + rest;
    let xml = before + behind;
    reveal_strlit("ipv4=");
    reveal_strlit("ipv4");
    assert(text::lowered(key).len() == key.len());
    assert(xml.skip(before.len() as int) =~= behind);
    assert(search_window(behind) == Some(behind)) by {
        text::lemma_reach(behind, '>');
        lemma_tail_is_shorter(behind, text::reach(behind, '>'));
        assert(behind.skip(0) =~= behind);
    }
    assert(text::lowered("ipv4"@).push('=') =~= "ipv4="@);
    let found = behind.skip((tag + between).len() as int + 4 + 1);
    let value = seq![quote] + ip + seq![quote] + rest;
    assert(found =~= value);
    assert(after_blanks(found) == found);
    let body = found.skip(1);
    assert(body =~= ip + seq![quote] + rest);
    numbers::lemma_quad_characters(ip);
    text::lemma_reach_is(body, quote, ip.len() as int);
    assert(body.take(ip.len() as int) =~= ip);
    assert(!text::is_space(ip[0]) && !text::is_space(ip.last()));
    assert(text::trimmed(ip) == ip);
    assert(quoted_address(behind, "ipv4"@) == Some(ip));
    assert(any_quoted_address(behind) == Some(ip));
}

/// The end of a text takes no more bytes than the text.
proof fn lemma_tail_is_shorter(s: Seq<char>, n: int)
    requires
        0 <= n <= s.len(),
    ensures
        text::byte_len(s.skip(n)) <= text::byte_len(s),
    decreases n,
{
    if n == 0 {
        assert(s.skip(0) =~= s);
    } else {
        text::lemma_byte_len_skip(s);
        assert(s.skip(1).skip(n - 1) =~= s.skip(n));
        lemma_tail_is_shorter(s.skip(1), n - 1);
    }
}

/// A name stands for an expected one if they are the same but for the case of
/// the letters A to Z; a namespace in front makes no difference.
pub proof fn law_names_ignore_case(prefix: Seq<u8>, name: Seq<u8>, expected: Seq<char>)
    requires
        prefix.len() > 0 ==> prefix[0] != 0x7b,
        !name.contains(0x3a),
    ensures
        names(prefix + seq![0x3au8] + name, expected) <==> name.len() == encode_utf8(expected).len()
            && forall|i: int|
            0 <= i < name.len() ==> {
                let a = #[trigger] name[i];
                let b = encode_utf8(expected)[i];
                a == b || 0x41 <= a <= 0x5a && b == a + 32 || 0x41 <= b <= 0x5a && a == b + 32
            },
{
    law_prefix_is_dropped(prefix, name);
    let e = encode_utf8(expected);
    if name.len() == e.len() && forall|i: int|
        0 <= i < name.len() ==> {
            let a = #[trigger] name[i];
            let b = e[i];
            a == b || 0x41 <= a <= 0x5a && b == a + 32 || 0x41 <= b <= 0x5a && a == b + 32
        } {
        assert forall|i: int| 0 <= i < name.len() implies bytes::low_byte(#[trigger] name[i])
            == bytes::low_byte(e[i]) by {}
    }
    if bytes::same_ignoring_case(name, e) {
        assert forall|i: int| 0 <= i < name.len() implies ({
            let a = #[trigger] name[i];
            let b = e[i];
            a == b || 0x41 <= a <= 0x5a && b == a + 32 || 0x41 <= b <= 0x5a && a == b + 32
        }) by {
            assert(bytes::low_byte(name[i]) == bytes::low_byte(e[i]));
        }
    }
}

/// An address that is named is not empty.
proof fn lemma_addresses_are_not_empty(open: int, events: Seq<EventView>)
    ensures
        addresses_named(open, events).len() > 0 ==> addresses_named(open, events)[0].len() > 0,
    decreases events.len(),
{
    if events.len() > 0 && !(events[0] is Eof) {
        let rest = events.skip(1);
        lemma_addresses_are_not_empty(open, rest);
        lemma_addresses_are_not_empty(open + 1, rest);
        lemma_addresses_are_not_empty(open - 1, rest);
        match events[0] {
            EventView::Start(tag) | EventView::Empty(tag) => {
                lemma_addresses_of(tag.attributes);
                lemma_first_address(tag.attributes);
                assert(Seq::<Seq<char>>::empty() + addresses_named(open, rest)
                    =~= addresses_named(open, rest));
                assert(Seq::<Seq<char>>::empty() + addresses_named(open + 1, rest)
                    =~= addresses_named(open + 1, rest));
            },
            _ => {},
        }
        numbers::lemma_quad_is_not_empty(addresses_named(open, events)[0]);
    }
}

/// A byte order mark in front makes no difference.
pub proof fn law_byte_order_mark_is_ignored(xml: Seq<char>)
    requires
        xml.len() > 0 ==> xml[0] != '\u{feff}',
    ensures
        config_in(seq!['\u{feff}'] + xml) == config_in(xml),
{
    assert((seq!['\u{feff}'] + xml).skip(1) =~= xml);
}

/// A namespace prefix does not belong to the local name.
pub proof fn law_prefix_is_dropped(prefix: Seq<u8>, name: Seq<u8>)
    requires
        prefix.len() > 0 ==> prefix[0] != 0x7b,
        !name.contains(0x3a),
    ensures
        local_name(prefix + seq![0x3au8] + name) == name,
{
    lemma_after_last(prefix, 0x3a, name);
}

/// A namespace in braces does not belong to the local name.
pub proof fn law_expanded_namespace_is_dropped(namespace: Seq<u8>, name: Seq<u8>)
    requires
        !namespace.contains(0x7d),
        name.len() > 0,
    ensures
        local_name(seq![0x7bu8] + namespace + seq![0x7du8] + name) == name,
{
    let s = seq![0x7bu8] + namespace + seq![0x7du8] + name;
    let end = namespace.len() as int + 1;
    assert forall|k: int| 0 <= k < end implies s[k] != 0x7d by {
        if k > 0 {
            assert(namespace.contains(namespace[k - 1]));
        }
    }
    text::lemma_reach_is(s, 0x7d, end);
    assert(s.skip(end + 1) =~= name);
}

/// What follows the last separator.
proof fn lemma_after_last(a: Seq<u8>, sep: u8, b: Seq<u8>)
    requires
        !b.contains(sep),
    ensures
        after_last(a + seq![sep] + b, sep) == b,
    decreases b.len(),
{
    let s = a + seq![sep] + b;
    if b.len() == 0 {
        assert(s.last() == sep);
        assert(b =~= Seq::empty());
    } else {
        assert(b.contains(b.last()));
        assert forall|x: u8| b.drop_last().contains(x) implies b.contains(x) by {
            let i = choose|i: int| 0 <= i < b.drop_last().len() && b.drop_last()[i] == x;
            assert(b[i] == x);
        }
        lemma_after_last(a, sep, b.drop_last());
        assert(s.drop_last() =~= a + seq![sep] + b.drop_last());
        assert(b.drop_last().push(b.last()) =~= b);
    }
}

/// The search in the raw text looks no further than 480 bytes behind the end
/// of the tag; a shorter text it sees whole.
pub proof fn law_search_is_limited(rest: Seq<char>)
    ensures
        ({
            let tag_end = if text::reach(rest, '>') < rest.len() {
                text::reach(rest, '>')
            } else {
                0
            };
            &&& search_window(rest) matches Some(w) ==> tag_end <= w.len() <= rest.len() && w
                == rest.take(w.len() as int) && text::byte_len(w.skip(tag_end)) <= 480
            &&& text::byte_len(rest.skip(tag_end)) <= 480 ==> search_window(rest) == Some(rest)
            &&& text::byte_len(rest.skip(tag_end)) > 480 ==> (search_window(rest) matches Some(w)
                ==> text::byte_len(w.skip(tag_end)) == 480)
        }),
{
    text::lemma_reach(rest, '>');
    let tag_end = if text::reach(rest, '>') < rest.len() {
        text::reach(rest, '>')
    } else {
        0
    };
    let tail = rest.skip(tag_end);
    assert(rest.take(rest.len() as int) =~= rest);
    if text::byte_len(tail) > 480 {
        lemma_counted_bytes(tail, 480);
        if let Some(n) = text::chars_in_bytes(tail, 480) {
            let w = rest.take(tag_end + n);
            assert(w.skip(tag_end) =~= tail.take(n));
            assert(w =~= rest.take(w.len() as int));
        }
    }
}

/// The characters that were counted take up that many bytes.
proof fn lemma_counted_bytes(s: Seq<char>, n: int)
    ensures
        text::chars_in_bytes(s, n) matches Some(k) ==> 0 <= k <= s.len() && text::byte_len(s.take(k))
            == n,
    decreases s.len(),
{
    if n == 0 {
        assert(s.take(0) =~= Seq::empty());
    } else if n > 0 && s.len() > 0 {
        lemma_counted_bytes(s.skip(1), n - text::char_width(s[0]));
        if let Some(k) = text::chars_in_bytes(s.skip(1), n - text::char_width(s[0])) {
            let t = s.take(k + 1);
            text::lemma_byte_len_skip(t);
            assert(t.skip(1) =~= s.skip(1).take(k));
            assert(t[0] == s[0]);
        }
    }
}

/// White space in front of the text makes no difference.
pub proof fn law_leading_white_space_is_ignored(c: char, xml: Seq<char>)
    requires
        text::is_space(c),
        xml.len() > 0 ==> xml[0] != '\u{feff}',
    ensures
        config_in(seq![c] + xml) == config_in(xml),
{
    assert((seq![c] + xml).skip(1) =~= xml);
}

/// A text that is not XML is refused with the words of the reader; one without
/// an address anywhere is refused too.
pub proof fn law_bad_text_is_refused(before: Seq<EventView>, words: Seq<char>, xml: Seq<char>)
    requires
        forall|i: int| 0 <= i < before.len() ==> !xml::is_last(#[trigger] before[i]),
    ensures
        described_config(before.push(EventView::Failed(words)), xml) == Some(
            Err::<VpnConfigView, Seq<char>>("XML parse error: "@ + words),
        ),
        addresses_named(0, before).len() == 0 && search_text(xml) is Missing ==> (described_config(
            before,
            xml,
        ) matches Some(r) && r is Err),
{
    lemma_failure_ends(empty_config(), 0, before, words);
    law_first_address_is_taken(empty_config(), 0, before);
}

/// An error in the text ends the events.
proof fn lemma_failure_ends(
    c: VpnConfigView,
    open: int,
    before: Seq<EventView>,
    words: Seq<char>,
)
    requires
        forall|i: int| 0 <= i < before.len() ==> !xml::is_last(#[trigger] before[i]),
    ensures
        after_events(c, open, before.push(EventView::Failed(words))) == Err::<
            VpnConfigView,
            Seq<char>,
        >("XML parse error: "@ + words),
    decreases before.len(),
{
    let all = before.push(EventView::Failed(words));
    if before.len() > 0 {
        assert(all[0] == before[0]);
        assert(!xml::is_last(before[0]));
        assert(all.skip(1) =~= before.skip(1).push(EventView::Failed(words)));
        assert forall|i: int| 0 <= i < before.skip(1).len() implies !xml::is_last(
            #[trigger] before.skip(1)[i],
        ) by {
            assert(before.skip(1)[i] == before[i + 1]);
        }
        let (c1, open1) = after_event(c, open, before[0]);
        lemma_failure_ends(c1, open1, before.skip(1), words);
    }
}

} // verus!
