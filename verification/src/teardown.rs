//! Undoing what a session changed in the network settings.

use vstd::prelude::*;
use vstd::string::*;

use crate::bytes;
use crate::net_command;
use crate::net_command::{NetCommand, NetCommandView};
use crate::net_windows;
use crate::net_windows::{DnsView, InstalledDns, InstalledRoute, NrptRule, NrptView, RouteView};
use crate::snapshot;
use crate::snapshot::{NetState, NetStateView};
use crate::text;

verus! {

/// Something to undo.
pub enum Undo {
    Rule(NrptRule),
    Dns(InstalledDns),
    Route(InstalledRoute),
    /// The route to the gateway past the tunnel.
    Pin(InstalledRoute),
}

/// Something to undo, without its representation.
pub enum UndoView {
    Rule(NrptView),
    Dns(DnsView),
    Route(RouteView),
    Pin(RouteView),
}

impl View for Undo {
    type V = UndoView;

    open spec fn view(&self) -> UndoView {
        match self {
            Undo::Rule(r) => UndoView::Rule(r@),
            Undo::Dns(d) => UndoView::Dns(d@),
            Undo::Route(r) => UndoView::Route(r@),
            Undo::Pin(r) => UndoView::Pin(r@),
        }
    }
}

/// The things to undo of a list.
pub open spec fn undo_views(v: Seq<Undo>) -> Seq<UndoView> {
    v.map_values(|x: Undo| x@)
}

/// The command that undoes it; none where nothing was set.
pub open spec fn undo_command(u: UndoView) -> Option<NetCommandView> {
    match u {
        UndoView::Rule(r) => if r.namespace.len() > 0 {
            Some(net_windows::rule_removal(r))
        } else {
            None
        },
        UndoView::Dns(d) => if d.had_servers {
            Some(net_windows::dns_reset(d))
        } else {
            None
        },
        UndoView::Route(r) | UndoView::Pin(r) => Some(net_windows::removal_of(r)),
    }
}

/// The rules to undo.
pub open spec fn rule_undos(rules: Seq<NrptView>) -> Seq<UndoView> {
    rules.map_values(|r: NrptView| UndoView::Rule(r))
}

/// The routes to undo.
pub open spec fn route_undos(routes: Seq<RouteView>) -> Seq<UndoView> {
    routes.map_values(|r: RouteView| UndoView::Route(r))
}

/// What is to be undone, in order: the rules, the name servers, the routes,
/// and last the route that kept the gateway in reach.
pub open spec fn undo_list(net: NetStateView) -> Seq<UndoView> {
    rule_undos(net.nrpt) + match net.dns {
        Some(d) => seq![UndoView::Dns(d)],
        None => Seq::empty(),
    } + route_undos(net.routes) + match net.wan_host {
        Some(p) => seq![UndoView::Pin(p)],
        None => Seq::empty(),
    }
}

/// What is to be undone, in order. Nothing is in place any more once it is
/// handed out.
pub fn take_undo_list(net: &mut NetState) -> (r: Vec<Undo>)
    ensures
        undo_views(r@) == undo_list(old(net)@),
        final(net)@ == snapshot::untouched(),
{
    let mut out: Vec<Undo> = Vec::new();
    let mut i: usize = 0;
    let ghost rules = rule_undos(net@.nrpt);
    while i < net.nrpt.len()
        invariant
            net@ == old(net)@,
            rules == rule_undos(net@.nrpt),
            i <= net.nrpt@.len(),
            undo_views(out@) =~= rules.take(i as int),
        decreases net.nrpt.len() - i,
    {
        let ghost had = undo_views(out@);
        out.push(Undo::Rule(net.nrpt[i].clone()));
        proof {
            assert(net@.nrpt[i as int] == net.nrpt@[i as int]@);
            assert(undo_views(out@) =~= had.push(rules[i as int]));
        }
        i = i + 1;
    }
    proof {
        assert(rules.take(i as int) =~= rules);
    }
    let ghost first = match net@.dns {
        Some(d) => rules.push(UndoView::Dns(d)),
        None => rules,
    };
    if let Some(d) = &net.dns {
        out.push(Undo::Dns(d.clone()));
        proof {
            assert(undo_views(out@) =~= first);
        }
    }
    let mut k: usize = 0;
    let ghost routes = route_undos(net@.routes);
    proof {
        assert(undo_views(out@) =~= first + routes.take(0));
    }
    while k < net.routes.len()
        invariant
            net@ == old(net)@,
            routes == route_undos(net@.routes),
            k <= net.routes@.len(),
            undo_views(out@) =~= first + routes.take(k as int),
        decreases net.routes.len() - k,
    {
        let ghost had = undo_views(out@);
        out.push(Undo::Route(net.routes[k].clone()));
        proof {
            assert(net@.routes[k as int] == net.routes@[k as int]@);
            assert(undo_views(out@) =~= had.push(routes[k as int]));
            assert(routes.take(k + 1) =~= routes.take(k as int).push(routes[k as int]));
        }
        k = k + 1;
    }
    proof {
        assert(routes.take(k as int) =~= routes);
    }
    let ghost had = undo_views(out@);
    if let Some(p) = &net.wan_host {
        out.push(Undo::Pin(p.clone()));
        proof {
            assert(undo_views(out@) =~= had.push(UndoView::Pin(p@)));
        }
    }
    proof {
        assert(undo_views(out@) =~= undo_list(net@));
    }
    *net = NetState::new();
    out
}

impl Undo {
    /// The command that undoes it.
    pub fn command(&self) -> (r: Option<NetCommand>)
        ensures
            match r {
                Some(c) => undo_command(self@) == Some(c@),
                None => undo_command(self@) is None,
            },
    {
        match self {
            Undo::Rule(r) => net_windows::nrpt_remove(r),
            Undo::Dns(d) => net_windows::clear_dns(d),
            Undo::Route(r) => Some(net_windows::del_split_route(r)),
            Undo::Pin(r) => Some(net_windows::del_split_route(r)),
        }
    }
}

/// The words in front of a failure to undo.
pub open spec fn undo_label(u: UndoView) -> Seq<char> {
    match u {
        UndoView::Rule(r) => "NRPT remove "@ + r.namespace + ": "@,
        UndoView::Dns(d) => "Clear DNS «"@ + d.iface_alias + "»: "@,
        UndoView::Route(r) => "Del route "@ + r.prefix_cidr + ": "@,
        UndoView::Pin(r) => "Del route pin VPN sulla WAN ("@ + r.prefix_cidr + "/"@
            + r.iface_alias + "): "@,
    }
}

/// What is said where the thing to undo was not there; `None` where that
/// counts as a failure.
pub open spec fn missing_message(u: UndoView, e: Seq<char>) -> Option<Seq<char>> {
    match u {
        UndoView::Rule(_) => None,
        UndoView::Dns(d) => Some(
            "[net] Avviso: ripristino DNS DHCP su «"@ + d.iface_alias + "» fallito ("@ + e + ")"@,
        ),
        UndoView::Route(_) | UndoView::Pin(_) => Some(
            "[net] Avviso: route assente o già rimossa durante la pulizia ("@ + e + ")"@,
        ),
    }
}

/// A message: a remark on what the system did, or a line for the log.
pub enum Note {
    Remark(String),
    Line(String),
}

/// A message without its representation.
pub enum NoteView {
    Remark(Seq<char>),
    Line(Seq<char>),
}

/// The message that may be there.
pub open spec fn opt_note(n: Option<Note>) -> Option<NoteView> {
    match n {
        Some(Note::Remark(s)) => Some(NoteView::Remark(s@)),
        Some(Note::Line(s)) => Some(NoteView::Line(s@)),
        None => None,
    }
}

/// What the user is told after the command, if anything: that the thing was
/// not there, or why it could not be undone.
pub open spec fn undo_message(u: UndoView, result: Result<Seq<char>, Seq<char>>) -> Option<
    NoteView,
> {
    match result {
        Ok(_) => None,
        Err(e) => if net_command::says_missing(bytes::unicode_lower(e)) && missing_message(
            u,
            e,
        ) is Some {
            Some(NoteView::Remark(missing_message(u, e)->0))
        } else {
            Some(NoteView::Line(undo_label(u) + e))
        },
    }
}

/// The words in front of a failure to undo.
fn label(u: &Undo) -> (r: String)
    ensures
        r@ == undo_label(u@),
{
    match u {
        Undo::Rule(r) => text::cat3("NRPT remove ", r.namespace.as_str(), ": "),
        Undo::Dns(d) => text::cat3("Clear DNS «", d.iface_alias.as_str(), "»: "),
        Undo::Route(r) => text::cat3("Del route ", r.prefix_cidr.as_str(), ": "),
        Undo::Pin(r) => text::cat5(
            "Del route pin VPN sulla WAN (",
            r.prefix_cidr.as_str(),
            "/",
            r.iface_alias.as_str(),
            "): ",
        ),
    }
}

/// What the user is told after the command, if anything.
pub fn undo_finished(u: &Undo, result: Result<String, String>) -> (r: Option<Note>)
    ensures
        opt_note(r) == undo_message(u@, net_command::result_view(result)),
{
    let settled = match u {
        Undo::Rule(_) => match result {
            Ok(_) => net_windows::UndoResult { message: None, result: Ok(()) },
            Err(e) => net_windows::UndoResult { message: None, result: Err(e) },
        },
        Undo::Dns(d) => net_windows::dns_cleared(d, result),
        Undo::Route(_) => net_windows::route_removed(result),
        Undo::Pin(_) => net_windows::route_removed(result),
    };
    match settled.result {
        Ok(_) => match settled.message {
            Some(m) => Some(Note::Remark(m)),
            None => None,
        },
        Err(e) => Some(Note::Line(text::cat2(label(u).as_str(), e.as_str()))),
    }
}

// ---------------------------------------------------------------------------
// Laws
// ---------------------------------------------------------------------------

/// Everything that is in place is undone.
pub proof fn law_everything_is_undone(net: NetStateView)
    ensures
        forall|i: int|
            0 <= i < net.routes.len() ==> undo_list(net).contains(
                UndoView::Route(#[trigger] net.routes[i]),
            ),
        forall|i: int|
            0 <= i < net.nrpt.len() ==> undo_list(net).contains(
                UndoView::Rule(#[trigger] net.nrpt[i]),
            ),
        net.dns matches Some(d) ==> undo_list(net).contains(UndoView::Dns(d)),
        net.wan_host matches Some(p) ==> undo_list(net).contains(UndoView::Pin(p)),
{
    let list = undo_list(net);
    let rules = rule_undos(net.nrpt);
    let dns = match net.dns {
        Some(d) => seq![UndoView::Dns(d)],
        None => Seq::empty(),
    };
    let routes = route_undos(net.routes);
    assert forall|i: int| 0 <= i < net.routes.len() implies list.contains(
        UndoView::Route(#[trigger] net.routes[i]),
    ) by {
        assert(list[rules.len() + dns.len() + i] == routes[i]);
    }
    assert forall|i: int| 0 <= i < net.nrpt.len() implies list.contains(
        UndoView::Rule(#[trigger] net.nrpt[i]),
    ) by {
        assert(list[i] == rules[i]);
    }
    if let Some(d) = net.dns {
        assert(list[rules.len() as int] == UndoView::Dns(d));
    }
    if let Some(p) = net.wan_host {
        assert(list[list.len() - 1] == UndoView::Pin(p));
    }
}

/// The route that keeps the gateway in reach goes last.
pub proof fn law_pin_goes_last(net: NetStateView)
    ensures
        net.wan_host matches Some(p) ==> undo_list(net).last() == UndoView::Pin(p),
        forall|i: int|
            0 <= i < undo_list(net).len() - 1 ==> !(#[trigger] undo_list(net)[i] is Pin),
{
    let list = undo_list(net);
    let rules = rule_undos(net.nrpt);
    let dns = match net.dns {
        Some(d) => seq![UndoView::Dns(d)],
        None => Seq::empty(),
    };
    let routes = route_undos(net.routes);
    assert forall|i: int| 0 <= i < list.len() - 1 implies !(#[trigger] list[i] is Pin) by {
        if i < rules.len() {
            assert(list[i] == rules[i]);
        } else if i < rules.len() + dns.len() {
            assert(list[i] == dns[i - rules.len()]);
        } else {
            assert(list[i] == routes[i - rules.len() - dns.len()]);
        }
    }
}

/// What is undone is what is in place and nothing else, each once: first the
/// rules in order, then the name servers, then the routes in order, then the
/// route to the gateway.
pub proof fn law_undo_comes_in_order(net: NetStateView, i: int)
    ensures
        ({
            let list = undo_list(net);
            let rules = net.nrpt.len() as int;
            let dns: int = if net.dns is Some {
                1
            } else {
                0
            };
            let routes = net.routes.len() as int;
            let pin: int = if net.wan_host is Some {
                1
            } else {
                0
            };
            &&& list.len() == rules + dns + routes + pin
            &&& 0 <= i < rules ==> list[i] == UndoView::Rule(net.nrpt[i])
            &&& net.dns matches Some(d) ==> list[rules] == UndoView::Dns(d)
            &&& 0 <= i < routes ==> list[rules + dns + i] == UndoView::Route(net.routes[i])
            &&& net.wan_host matches Some(p) ==> list[rules + dns + routes] == UndoView::Pin(p)
        }),
{
    let list = undo_list(net);
    let a = rule_undos(net.nrpt);
    let b = match net.dns {
        Some(d) => seq![UndoView::Dns(d)],
        None => Seq::empty(),
    };
    let c = route_undos(net.routes);
    let d = match net.wan_host {
        Some(p) => seq![UndoView::Pin(p)],
        None => Seq::empty(),
    };
    assert(list == a + b + c + d);
    if 0 <= i < net.nrpt.len() {
        assert(list[i] == a[i]);
    }
    if 0 <= i < net.routes.len() {
        assert(list[a.len() + b.len() + i] == c[i]);
    }
}

/// Each thing is undone by the command that takes back just it; a rule that is
/// none and name servers that were never set need no command.
pub proof fn law_each_is_undone_by_its_command(rule: NrptView, dns: DnsView, route: RouteView)
    ensures
        undo_command(UndoView::Rule(rule)) == if rule.namespace.len() > 0 {
            Some(net_windows::rule_removal(rule))
        } else {
            None
        },
        undo_command(UndoView::Dns(dns)) == if dns.had_servers {
            Some(net_windows::dns_reset(dns))
        } else {
            None
        },
        undo_command(UndoView::Route(route)) == Some(net_windows::removal_of(route)),
        undo_command(UndoView::Pin(route)) == Some(net_windows::removal_of(route)),
{
}

/// What was undone is not spoken of. A failure is told with what failed in
/// front; that name servers or a route are gone already is a remark only.
pub proof fn law_undo_is_told(
    u: UndoView,
    out: Seq<char>,
    e: Seq<char>,
)
    ensures
        undo_message(u, Ok(out)) is None,
        undo_message(u, Err(e)) is Some,
        u is Rule || !net_command::says_missing(bytes::unicode_lower(e)) ==> undo_message(u, Err(e))
            == Some(NoteView::Line(undo_label(u) + e)),
        !(u is Rule) && net_command::says_missing(bytes::unicode_lower(e)) ==> undo_message(
            u,
            Err(e),
        )->0 is Remark,
        u matches UndoView::Rule(r) ==> undo_label(u) == "NRPT remove "@ + r.namespace + ": "@,
        u matches UndoView::Dns(d) ==> undo_label(u) == "Clear DNS «"@ + d.iface_alias + "»: "@,
        u matches UndoView::Route(r) ==> undo_label(u) == "Del route "@ + r.prefix_cidr + ": "@,
        u matches UndoView::Pin(r) ==> undo_label(u) == "Del route pin VPN sulla WAN ("@
            + r.prefix_cidr + "/"@ + r.iface_alias + "): "@,
{
}

} // verus!
