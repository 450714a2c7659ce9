//! What a session changed in the system's network settings, kept on disk so
//! that it can be undone after the application was closed.

use vstd::prelude::*;
use vstd::string::*;

use crate::net_windows::{
    DnsView,
    InstalledDns,
    InstalledRoute,
    NrptRule,
    NrptView,
    RouteView,
};

verus! {

// ---------------------------------------------------------------------------
// What is in place
// ---------------------------------------------------------------------------

/// What a session has changed in the network settings.
pub struct NetState {
    pub routes: Vec<InstalledRoute>,
    pub dns: Option<InstalledDns>,
    pub nrpt: Vec<NrptRule>,
    /// The route to the gateway past the tunnel.
    pub wan_host: Option<InstalledRoute>,
}

/// The changes without their representation.
#[verifier::ext_equal]
pub struct NetStateView {
    pub routes: Seq<RouteView>,
    pub dns: Option<DnsView>,
    pub nrpt: Seq<NrptView>,
    pub wan_host: Option<RouteView>,
}

/// The routes of a list.
pub open spec fn route_views(v: Seq<InstalledRoute>) -> Seq<RouteView> {
    v.map_values(|x: InstalledRoute| x@)
}

/// The rules of a list.
pub open spec fn nrpt_views(v: Seq<NrptRule>) -> Seq<NrptView> {
    v.map_values(|x: NrptRule| x@)
}

/// The route that may be there.
pub open spec fn opt_route(v: Option<InstalledRoute>) -> Option<RouteView> {
    match v {
        Some(r) => Some(r@),
        None => None,
    }
}

/// The name servers that may be there.
pub open spec fn opt_dns(v: Option<InstalledDns>) -> Option<DnsView> {
    match v {
        Some(d) => Some(d@),
        None => None,
    }
}

impl View for NetState {
    type V = NetStateView;

    open spec fn view(&self) -> NetStateView {
        NetStateView {
            routes: route_views(self.routes@),
            dns: opt_dns(self.dns),
            nrpt: nrpt_views(self.nrpt@),
            wan_host: opt_route(self.wan_host),
        }
    }
}

/// Nothing was changed.
pub open spec fn untouched() -> NetStateView {
    NetStateView { routes: Seq::empty(), dns: None, nrpt: Seq::empty(), wan_host: None }
}

impl NetState {
    /// Nothing was changed.
    pub fn new() -> (r: Self)
        ensures
            r@ == untouched(),
    {
        let r = NetState { routes: Vec::new(), dns: None, nrpt: Vec::new(), wan_host: None };
        proof {
            assert(r@ =~= untouched());
        }
        r
    }
}

// ---------------------------------------------------------------------------
// The file
// ---------------------------------------------------------------------------

/// A route in the file.
#[derive(Debug)]
pub struct RouteSnap {
    pub prefix_cidr: String,
    pub iface_alias: String,
}

/// Name servers in the file.
#[derive(Debug)]
pub struct DnsSnap {
    pub iface_alias: String,
    pub had_servers: bool,
}

/// A rule in the file.
#[derive(Debug)]
pub struct NrptSnap {
    pub namespace: String,
}

/// The changes in the file.
#[derive(Debug)]
pub struct WindowsNetSnapshot {
    pub routes: Vec<RouteSnap>,
    pub dns: Option<DnsSnap>,
    pub nrpt: Vec<NrptSnap>,
    pub wan_host: Option<RouteSnap>,
}

/// The file.
#[derive(Debug)]
pub struct VpnSessionSnapshot {
    /// The version of the file.
    pub v: u32,
    /// The session was up.
    pub active: bool,
    pub windows: Option<WindowsNetSnapshot>,
}

/// A route of the file, without its representation.
pub open spec fn route_snap_view(s: RouteSnap) -> RouteView {
    RouteView { prefix_cidr: s.prefix_cidr@, iface_alias: s.iface_alias@ }
}

/// The changes in the file, without their representation.
pub open spec fn snapshot_view(s: WindowsNetSnapshot) -> NetStateView {
    NetStateView {
        routes: s.routes@.map_values(|x: RouteSnap| route_snap_view(x)),
        dns: match s.dns {
            Some(d) => Some(
                DnsView { iface_alias: d.iface_alias@, had_servers: d.had_servers },
            ),
            None => None,
        },
        nrpt: s.nrpt@.map_values(|x: NrptSnap| NrptView { namespace: x.namespace@ }),
        wan_host: match s.wan_host {
            Some(r) => Some(route_snap_view(r)),
            None => None,
        },
    }
}

/// The file without its representation.
pub struct SnapshotFileView {
    pub v: u32,
    pub active: bool,
    pub windows: Option<NetStateView>,
}

impl View for VpnSessionSnapshot {
    type V = SnapshotFileView;

    open spec fn view(&self) -> SnapshotFileView {
        SnapshotFileView {
            v: self.v,
            active: self.active,
            windows: match self.windows {
                Some(w) => Some(snapshot_view(w)),
                None => None,
            },
        }
    }
}

/// The file for a session that is up.
pub open spec fn active_file(net: NetStateView) -> SnapshotFileView {
    SnapshotFileView { v: 1, active: true, windows: Some(net) }
}

/// A route for the file.
fn snap_route(r: &InstalledRoute) -> (s: RouteSnap)
    ensures
        route_snap_view(s) == r@,
{
    RouteSnap { prefix_cidr: r.prefix_cidr.clone(), iface_alias: r.iface_alias.clone() }
}

/// The file for a session that is up.
pub fn write_active_session(net: &NetState) -> (r: VpnSessionSnapshot)
    ensures
        r@ == active_file(net@),
{
    let mut routes: Vec<RouteSnap> = Vec::new();
    let mut i: usize = 0;
    while i < net.routes.len()
        invariant
            i <= net.routes@.len(),
            routes@.map_values(|x: RouteSnap| route_snap_view(x)) =~= net@.routes.take(i as int),
        decreases net.routes.len() - i,
    {
        let ghost had = routes@.map_values(|x: RouteSnap| route_snap_view(x));
        let s = snap_route(&net.routes[i]);
        routes.push(s);
        proof {
            assert(routes@.map_values(|x: RouteSnap| route_snap_view(x)) =~= had.push(
                net@.routes[i as int],
            ));
        }
        i = i + 1;
    }
    let mut nrpt: Vec<NrptSnap> = Vec::new();
    let mut k: usize = 0;
    while k < net.nrpt.len()
        invariant
            k <= net.nrpt@.len(),
            nrpt@.map_values(|x: NrptSnap| NrptView { namespace: x.namespace@ })
                =~= net@.nrpt.take(k as int),
        decreases net.nrpt.len() - k,
    {
        let ghost had = nrpt@.map_values(|x: NrptSnap| NrptView { namespace: x.namespace@ });
        nrpt.push(NrptSnap { namespace: net.nrpt[k].namespace.clone() });
        proof {
            assert(nrpt@.map_values(|x: NrptSnap| NrptView { namespace: x.namespace@ })
                =~= had.push(net@.nrpt[k as int]));
        }
        k = k + 1;
    }
    let dns: Option<DnsSnap> = match &net.dns {
        Some(d) => Some(
            DnsSnap { iface_alias: d.iface_alias.clone(), had_servers: d.had_servers },
        ),
        None => None,
    };
    let wan_host: Option<RouteSnap> = match &net.wan_host {
        Some(r) => Some(snap_route(r)),
        None => None,
    };
    let w = WindowsNetSnapshot { routes, dns, nrpt, wan_host };
    proof {
        assert(net@.routes.take(i as int) =~= net@.routes);
        assert(net@.nrpt.take(k as int) =~= net@.nrpt);
        assert(snapshot_view(w) =~= net@);
    }
    VpnSessionSnapshot { v: 1, active: true, windows: Some(w) }
}

/// What a file says of the session that was up before.
pub enum Restored {
    /// There is no file.
    Nothing,
    /// The file is of no use and goes.
    Discard,
    /// The session was up, and this is in place.
    Active(NetState),
}

/// The answer without its representation.
pub enum RestoredView {
    Nothing,
    Discard,
    Active(NetStateView),
}

impl View for Restored {
    type V = RestoredView;

    open spec fn view(&self) -> RestoredView {
        match self {
            Restored::Nothing => RestoredView::Nothing,
            Restored::Discard => RestoredView::Discard,
            Restored::Active(net) => RestoredView::Active(net@),
        }
    }
}

/// What a file says of the session that was up before. One that says that no
/// session was up, or that does not say what is in place, is of no use.
pub open spec fn restored(file: Option<SnapshotFileView>) -> RestoredView {
    match file {
        None => RestoredView::Nothing,
        Some(s) => match s.windows {
            Some(net) => if s.active {
                RestoredView::Active(net)
            } else {
                RestoredView::Discard
            },
            None => RestoredView::Discard,
        },
    }
}

/// A route from the file.
fn restore_route(s: &RouteSnap) -> (r: InstalledRoute)
    ensures
        r@ == route_snap_view(*s),
{
    InstalledRoute { prefix_cidr: s.prefix_cidr.clone(), iface_alias: s.iface_alias.clone() }
}

/// The changes in the file.
fn restore_changes(w: &WindowsNetSnapshot) -> (r: NetState)
    ensures
        r@ == snapshot_view(*w),
{
    let ghost all = snapshot_view(*w);
    let mut routes: Vec<InstalledRoute> = Vec::new();
    let mut i: usize = 0;
    while i < w.routes.len()
        invariant
            all == snapshot_view(*w),
            i <= w.routes@.len(),
            route_views(routes@) =~= all.routes.take(i as int),
        decreases w.routes.len() - i,
    {
        let ghost had = route_views(routes@);
        routes.push(restore_route(&w.routes[i]));
        proof {
            assert(route_views(routes@) =~= had.push(all.routes[i as int]));
        }
        i = i + 1;
    }
    let mut nrpt: Vec<NrptRule> = Vec::new();
    let mut k: usize = 0;
    while k < w.nrpt.len()
        invariant
            all == snapshot_view(*w),
            k <= w.nrpt@.len(),
            nrpt_views(nrpt@) =~= all.nrpt.take(k as int),
        decreases w.nrpt.len() - k,
    {
        let ghost had = nrpt_views(nrpt@);
        nrpt.push(NrptRule { namespace: w.nrpt[k].namespace.clone() });
        proof {
            assert(nrpt_views(nrpt@) =~= had.push(all.nrpt[k as int]));
        }
        k = k + 1;
    }
    let dns: Option<InstalledDns> = match &w.dns {
        Some(d) => Some(
            InstalledDns { iface_alias: d.iface_alias.clone(), had_servers: d.had_servers },
        ),
        None => None,
    };
    let wan_host: Option<InstalledRoute> = match &w.wan_host {
        Some(r) => Some(restore_route(r)),
        None => None,
    };
    let net = NetState { routes, dns, nrpt, wan_host };
    proof {
        assert(all.routes.take(i as int) =~= all.routes);
        assert(all.nrpt.take(k as int) =~= all.nrpt);
        assert(net@ =~= all);
    }
    net
}

/// What a file says of the session that was up before.
pub fn restore_into_state(snapshot: &Option<VpnSessionSnapshot>) -> (r: Restored)
    ensures
        r@ == restored(
            match *snapshot {
                Some(s) => Some(s@),
                None => None,
            },
        ),
{
    match snapshot {
        None => Restored::Nothing,
        Some(s) => {
            if !s.active {
                return Restored::Discard;
            }
            match &s.windows {
                Some(w) => Restored::Active(restore_changes(w)),
                None => Restored::Discard,
            }
        },
    }
}

// ---------------------------------------------------------------------------
// Laws
// ---------------------------------------------------------------------------

/// The file of a session that is up gives back what is in place.
pub proof fn law_snapshot_reads_back(net: NetStateView)
    ensures
        restored(Some(active_file(net))) == RestoredView::Active(net),
{
}

/// A session is taken over only from a file that says it was up and holds what
/// is in place; that is taken over as it is. Any other file is of no use, and
/// without a file there is nothing.
pub proof fn law_only_active_sessions_are_restored(
    v: u32,
    active: bool,
    windows: Option<NetStateView>,
)
    ensures
        restored(None) is Nothing,
        active ==> (windows matches Some(net) ==> restored(
            Some(SnapshotFileView { v, active, windows }),
        ) == RestoredView::Active(net)),
        !active || windows is None ==> restored(Some(SnapshotFileView { v, active, windows }))
            is Discard,
{
}

/// The file of a session that is up says so, in the first version of the file,
/// and holds all that is in place.
pub proof fn law_active_session_is_written(net: NetStateView)
    ensures
        active_file(net).active,
        active_file(net).v == 1,
        active_file(net).windows == Some(net),
{
}

/// The file keeps every route, the name servers, every rule and the route to
/// the gateway, each with all that it takes to undo it.
pub proof fn law_file_keeps_everything(s: VpnSessionSnapshot, w: WindowsNetSnapshot, i: int)
    requires
        s.windows == Some(w),
    ensures
        s@.v == s.v && s@.active == s.active,
        s@.windows matches Some(net) && {
            &&& net.routes.len() == w.routes@.len()
            &&& 0 <= i < w.routes@.len() ==> net.routes[i].prefix_cidr == w.routes@[i].prefix_cidr@
                && net.routes[i].iface_alias == w.routes@[i].iface_alias@
            &&& net.nrpt.len() == w.nrpt@.len()
            &&& 0 <= i < w.nrpt@.len() ==> net.nrpt[i].namespace == w.nrpt@[i].namespace@
            &&& net.dns is Some <==> w.dns is Some
            &&& w.dns matches Some(d) ==> net.dns == Some(
                DnsView { iface_alias: d.iface_alias@, had_servers: d.had_servers },
            )
            &&& net.wan_host is Some <==> w.wan_host is Some
            &&& w.wan_host matches Some(r) ==> net.wan_host == Some(
                RouteView { prefix_cidr: r.prefix_cidr@, iface_alias: r.iface_alias@ },
            )
        },
{
}

/// What is in place is every route, the name servers, every rule and the route
/// to the gateway; before a session changes anything there is none of them.
pub proof fn law_nothing_is_left_out(net: NetState, i: int)
    ensures
        net@.routes.len() == net.routes@.len(),
        0 <= i < net.routes@.len() ==> net@.routes[i] == net.routes@[i]@,
        net@.nrpt.len() == net.nrpt@.len(),
        0 <= i < net.nrpt@.len() ==> net@.nrpt[i] == net.nrpt@[i]@,
        net.dns is Some <==> net@.dns is Some,
        net.dns matches Some(d) ==> net@.dns == Some(d@),
        net.wan_host is Some <==> net@.wan_host is Some,
        net.wan_host matches Some(r) ==> net@.wan_host == Some(r@),
        untouched().routes.len() == 0 && untouched().nrpt.len() == 0 && untouched().dns is None
            && untouched().wan_host is None,
{
}

} // verus!
