//! Bringing a session up, step by step: each step says what to tell the user
//! and what to do next, and takes in what came of that.

use vstd::prelude::*;
use vstd::slice::slice_subrange;
use vstd::string::*;

use crate::auth::{VpnConfig, VpnConfigView};
use crate::net_windows::{
    DnsView,
    InstalledDns,
    InstalledRoute,
    NrptRule,
    NrptView,
    RouteView,
    WanDefault,
    WanView,
};
use crate::numbers;
use crate::session::{StatusView, VpnStatus};
use crate::snapshot;
use crate::snapshot::{NetState, NetStateView};
use crate::text;

verus! {

// ---------------------------------------------------------------------------
// What is said and done
// ---------------------------------------------------------------------------

/// Something to do at once, in order.
pub enum Effect {
    /// Add a line to the log and show it.
    Log(String),
    /// Show where the session stands.
    Status(VpnStatus),
    /// Undo what is in place in the network settings.
    UndoNetwork,
    /// Stop the exchange of packets.
    StopIo,
    /// Forget whose credentials were saved.
    ForgetUser,
    /// Remove the file that says that a session is up.
    ForgetSnapshot,
    /// Show the remarks of what follows as lines of the log.
    CollectRemarks,
}

/// An effect without its representation.
pub enum EffectView {
    Log(Seq<char>),
    Status(StatusView),
    UndoNetwork,
    StopIo,
    ForgetUser,
    ForgetSnapshot,
    CollectRemarks,
}

impl View for Effect {
    type V = EffectView;

    open spec fn view(&self) -> EffectView {
        match self {
            Effect::Log(s) => EffectView::Log(s@),
            Effect::Status(s) => EffectView::Status(s@),
            Effect::UndoNetwork => EffectView::UndoNetwork,
            Effect::StopIo => EffectView::StopIo,
            Effect::ForgetUser => EffectView::ForgetUser,
            Effect::ForgetSnapshot => EffectView::ForgetSnapshot,
            Effect::CollectRemarks => EffectView::CollectRemarks,
        }
    }
}

/// The effects of a list.
pub open spec fn effect_views(v: Seq<Effect>) -> Seq<EffectView> {
    v.map_values(|x: Effect| x@)
}

/// What to do next, and whose outcome to hand in.
pub enum Action {
    /// Set up the client of the portal.
    CreateClient,
    Login,
    /// Have the gateway set up a tunnel.
    Allocate,
    /// Connect for the configuration.
    ConnectForConfig,
    FetchConfig,
    /// Connect for the tunnel.
    ConnectForTunnel,
    OpenTunnel,
    NegotiateLcp,
    /// Negotiate, starting from the address.
    NegotiateIpcp(String),
    /// Create the interface with the address.
    CreateTun(String),
    /// Find the system's name for the interface.
    ResolveAlias(String),
    /// Find the address of the gateway.
    ResolveGateway(String),
    /// Find the default route.
    ReadWan,
    /// Keep the address in reach past the tunnel.
    AddHostRoute(String, WanDefault),
    /// Send everything through the interface to the address.
    AddHalves(String, String),
    /// Set the name servers of the configuration on the interface.
    ApplyDns(String),
    /// Send the names of the domain to the name servers of the configuration.
    AddRule(String),
    /// Send a network through the interface: its address and mask, and the
    /// address to send to.
    AddSplitRoute(String, String, String, String),
    /// Start the exchange of packets.
    StartIo,
    SaveCredentials,
    /// Remember whose credentials were saved.
    WriteMeta,
    /// Write the file that says that a session is up.
    WriteSnapshot,
    /// The session is up.
    Finish,
    /// There is no session, for this reason.
    GiveUp(String),
}

/// An action without its representation.
pub enum ActionView {
    CreateClient,
    Login,
    Allocate,
    ConnectForConfig,
    FetchConfig,
    ConnectForTunnel,
    OpenTunnel,
    NegotiateLcp,
    NegotiateIpcp(Seq<char>),
    CreateTun(Seq<char>),
    ResolveAlias(Seq<char>),
    ResolveGateway(Seq<char>),
    ReadWan,
    AddHostRoute(Seq<char>, WanView),
    AddHalves(Seq<char>, Seq<char>),
    ApplyDns(Seq<char>),
    AddRule(Seq<char>),
    AddSplitRoute(Seq<char>, Seq<char>, Seq<char>, Seq<char>),
    StartIo,
    SaveCredentials,
    WriteMeta,
    WriteSnapshot,
    Finish,
    GiveUp(Seq<char>),
}

impl View for Action {
    type V = ActionView;

    open spec fn view(&self) -> ActionView {
        match self {
            Action::CreateClient => ActionView::CreateClient,
            Action::Login => ActionView::Login,
            Action::Allocate => ActionView::Allocate,
            Action::ConnectForConfig => ActionView::ConnectForConfig,
            Action::FetchConfig => ActionView::FetchConfig,
            Action::ConnectForTunnel => ActionView::ConnectForTunnel,
            Action::OpenTunnel => ActionView::OpenTunnel,
            Action::NegotiateLcp => ActionView::NegotiateLcp,
            Action::NegotiateIpcp(ip) => ActionView::NegotiateIpcp(ip@),
            Action::CreateTun(ip) => ActionView::CreateTun(ip@),
            Action::ResolveAlias(name) => ActionView::ResolveAlias(name@),
            Action::ResolveGateway(h) => ActionView::ResolveGateway(h@),
            Action::ReadWan => ActionView::ReadWan,
            Action::AddHostRoute(ip, wan) => ActionView::AddHostRoute(ip@, wan@),
            Action::AddHalves(alias, ip) => ActionView::AddHalves(alias@, ip@),
            Action::ApplyDns(alias) => ActionView::ApplyDns(alias@),
            Action::AddRule(domain) => ActionView::AddRule(domain@),
            Action::AddSplitRoute(alias, net, mask, ip) => ActionView::AddSplitRoute(
                alias@,
                net@,
                mask@,
                ip@,
            ),
            Action::StartIo => ActionView::StartIo,
            Action::SaveCredentials => ActionView::SaveCredentials,
            Action::WriteMeta => ActionView::WriteMeta,
            Action::WriteSnapshot => ActionView::WriteSnapshot,
            Action::Finish => ActionView::Finish,
            Action::GiveUp(m) => ActionView::GiveUp(m@),
        }
    }
}

/// Which outcome is awaited.
#[derive(Clone, Copy, PartialEq, Eq, Structural)]
pub enum Phase {
    Client,
    Login,
    Allocation,
    ConfigTls,
    Config,
    TunnelTls,
    Tunnel,
    Lcp,
    Ipcp,
    Tun,
    Alias,
    GatewayIp,
    Wan,
    HostRoute,
    Halves,
    FullDns,
    FullRule,
    SplitRoute,
    SplitDns,
    SplitRule,
    Io,
    Keyring,
    Meta,
    Snapshot,
    Ended,
}

/// What came of an action.
pub enum Outcome {
    /// It succeeded.
    Done,
    /// It succeeded and gave this text: the cookies of the session, an
    /// address, a name.
    Text(String),
    Config(VpnConfig),
    Wan(WanDefault),
    Route(InstalledRoute),
    Routes(Vec<InstalledRoute>),
    Dns(InstalledDns),
    Rule(NrptRule),
    /// It failed, for this reason.
    Failed(String),
    /// The user cannot be told what happens, for this reason.
    Unheard(String),
}

/// An outcome without its representation.
pub enum OutcomeView {
    Done,
    Text(Seq<char>),
    Config(VpnConfigView),
    Wan(WanView),
    Route(RouteView),
    Routes(Seq<RouteView>),
    Dns(DnsView),
    Rule(NrptView),
    Failed(Seq<char>),
    Unheard(Seq<char>),
}

impl View for Outcome {
    type V = OutcomeView;

    open spec fn view(&self) -> OutcomeView {
        match self {
            Outcome::Done => OutcomeView::Done,
            Outcome::Text(s) => OutcomeView::Text(s@),
            Outcome::Config(c) => OutcomeView::Config(c@),
            Outcome::Wan(w) => OutcomeView::Wan(w@),
            Outcome::Route(r) => OutcomeView::Route(r@),
            Outcome::Routes(rs) => OutcomeView::Routes(snapshot::route_views(rs@)),
            Outcome::Dns(d) => OutcomeView::Dns(d@),
            Outcome::Rule(r) => OutcomeView::Rule(r@),
            Outcome::Failed(e) => OutcomeView::Failed(e@),
            Outcome::Unheard(e) => OutcomeView::Unheard(e@),
        }
    }
}

/// A session on its way up.
pub struct Connecting {
    /// The gateway's host name and port.
    pub gateway: String,
    pub port: u16,
    /// The user wants the credentials remembered.
    pub remember: bool,
    /// The network settings are those of Windows.
    pub windows: bool,
    /// All traffic goes through the tunnel.
    pub full_tunnel: bool,
    pub phase: Phase,
    pub config: VpnConfig,
    /// The address of this end of the tunnel.
    pub assigned_ip: String,
    /// The system's name for the interface.
    pub alias: String,
    /// The address of the gateway.
    pub vpn_ip: String,
    /// The networks that were dealt with, and those of them that have a route.
    pub next_route: usize,
    pub ok_routes: usize,
    /// What is in place.
    pub net: NetState,
}

/// The session without its representation.
#[verifier::ext_equal]
pub struct ConnectingView {
    pub gateway: Seq<char>,
    pub port: u16,
    pub remember: bool,
    pub windows: bool,
    pub full_tunnel: bool,
    pub phase: Phase,
    pub config: VpnConfigView,
    pub assigned_ip: Seq<char>,
    pub alias: Seq<char>,
    pub vpn_ip: Seq<char>,
    pub next_route: nat,
    pub ok_routes: nat,
    pub net: NetStateView,
}

impl View for Connecting {
    type V = ConnectingView;

    open spec fn view(&self) -> ConnectingView {
        ConnectingView {
            gateway: self.gateway@,
            port: self.port,
            remember: self.remember,
            windows: self.windows,
            full_tunnel: self.full_tunnel,
            phase: self.phase,
            config: self.config@,
            assigned_ip: self.assigned_ip@,
            alias: self.alias@,
            vpn_ip: self.vpn_ip@,
            next_route: self.next_route as nat,
            ok_routes: self.ok_routes as nat,
            net: self.net@,
        }
    }
}

/// What to do at once, and what to do next.
pub struct ConnectStep {
    pub effects: Vec<Effect>,
    pub action: Action,
}

/// A step with the session after it.
#[verifier::ext_equal]
pub struct StepView {
    pub state: ConnectingView,
    pub effects: Seq<EffectView>,
    pub action: ActionView,
}

// ---------------------------------------------------------------------------
// Steps
// ---------------------------------------------------------------------------

/// The outcome is one that the phase awaits. Finding the interface's name and
/// starting the exchange of packets do not fail. The cookies can be cut for
/// the log.
pub open spec fn is_awaited(phase: Phase, outcome: OutcomeView) -> bool {
    match outcome {
        OutcomeView::Unheard(_) => phase != Phase::Ended,
        OutcomeView::Failed(_) => phase != Phase::Ended && phase != Phase::Alias && phase
            != Phase::Io,
        OutcomeView::Done => match phase {
            Phase::Client | Phase::Allocation | Phase::ConfigTls | Phase::TunnelTls
            | Phase::Tunnel | Phase::Lcp | Phase::Io | Phase::Keyring | Phase::Meta
            | Phase::Snapshot => true,
            _ => false,
        },
        OutcomeView::Text(s) => match phase {
            Phase::Login => !text::cuts_char(s, 20),
            Phase::Ipcp | Phase::Tun | Phase::Alias | Phase::GatewayIp => true,
            _ => false,
        },
        OutcomeView::Config(_) => phase == Phase::Config,
        OutcomeView::Wan(_) => phase == Phase::Wan,
        OutcomeView::Route(_) => phase == Phase::HostRoute || phase == Phase::SplitRoute,
        OutcomeView::Routes(_) => phase == Phase::Halves,
        OutcomeView::Dns(_) => phase == Phase::FullDns || phase == Phase::SplitDns,
        OutcomeView::Rule(_) => phase == Phase::FullRule || phase == Phase::SplitRule,
    }
}

/// The words in front of the reason for which the session is given up;
/// `None` where the session comes up all the same.
pub open spec fn failure_words(phase: Phase) -> Option<Seq<char>> {
    match phase {
        Phase::Client => Some("Failed to create client: "@),
        Phase::Login => Some("Autenticazione fallita: "@),
        Phase::Allocation => Some("Allocazione VPN fallita: "@),
        Phase::ConfigTls => Some("TLS dati (XML) fallita: "@),
        Phase::Config => Some("Config sulla sessione TLS: "@),
        Phase::TunnelTls => Some("TLS tunnel (dopo XML) fallita: "@),
        Phase::Tunnel => Some("Tunnel start failed: "@),
        Phase::Lcp => Some("LCP failed: "@),
        Phase::Ipcp => Some("IPCP failed: "@),
        Phase::Tun => Some("TUN creation failed: "@),
        Phase::GatewayIp => Some("Full-tunnel: "@),
        Phase::Wan => Some("Full-tunnel (default WAN): "@),
        Phase::HostRoute => Some("Full-tunnel (route host verso WAN): "@),
        Phase::Halves => Some("Full-tunnel (half-default sulla TUN): "@),
        _ => None,
    }
}

/// What `format!("{:?}")` gives for a list of texts.
pub uninterp spec fn debug_list(list: Seq<Seq<char>>) -> Seq<char>;

/// The step: nothing to say, and this to do next.
pub open spec fn quiet(state: ConnectingView, phase: Phase, action: ActionView) -> StepView {
    StepView { state: ConnectingView { phase, ..state }, effects: Seq::empty(), action }
}

/// The step: one line for the log, and this to do next.
pub open spec fn telling(
    state: ConnectingView,
    phase: Phase,
    line: Seq<char>,
    action: ActionView,
) -> StepView {
    StepView {
        state: ConnectingView { phase, ..state },
        effects: seq![EffectView::Log(line)],
        action,
    }
}

/// The step with effects in front of it.
pub open spec fn after(effects: Seq<EffectView>, step: StepView) -> StepView {
    StepView { effects: effects + step.effects, ..step }
}

/// The step: the session is given up.
pub open spec fn given_up(state: ConnectingView, why: Seq<char>) -> StepView {
    quiet(state, Phase::Ended, ActionView::GiveUp(why))
}

/// The step: the exchange of packets is started.
pub open spec fn io_started(state: ConnectingView) -> StepView {
    telling(state, Phase::Io, "Avvio scambio traffico IP nel tunnel..."@, ActionView::StartIo)
}

/// The step: the name servers are set, for the phase.
pub open spec fn dns_wanted(state: ConnectingView, phase: Phase) -> StepView {
    quiet(state, phase, ActionView::ApplyDns(state.alias))
}

/// The step after the name servers where networks go through the tunnel one
/// by one: a rule for the domain of the configuration, if it names one.
pub open spec fn split_rule_wanted(state: ConnectingView) -> StepView {
    match state.config.dns_suffix {
        Some(suffix) => if suffix.len() > 0 {
            quiet(state, Phase::SplitRule, ActionView::AddRule(suffix))
        } else {
            io_started(state)
        },
        None => io_started(state),
    }
}

/// What is said when all networks were dealt with.
pub open spec fn split_summary(state: ConnectingView) -> Seq<EffectView> {
    let all = state.config.split_routes.len();
    if all == 0 {
        seq![
            EffectView::Log(
                "Nessuna route split dall’XML: il traffico LAN non verrà reindirizzato (chiedere al firewall di pubblicare gli <addr>)."@,
            ),
        ]
    } else if state.ok_routes > 0 {
        seq![
            EffectView::Log(
                "Aggiunte "@ + numbers::decimal(state.ok_routes) + "/"@ + numbers::decimal(
                    all,
                ) + " route split su «"@ + state.alias + "» (nexthop "@ + state.assigned_ip
                    + ")."@,
            ),
        ]
    } else {
        Seq::empty()
    }
}

/// The step with the next network, or the one after all of them.
pub open spec fn split_next(state: ConnectingView) -> StepView {
    if state.next_route < state.config.split_routes.len() {
        let (net, mask) = state.config.split_routes[state.next_route as int];
        quiet(
            state,
            Phase::SplitRoute,
            ActionView::AddSplitRoute(state.alias, net, mask, state.assigned_ip),
        )
    } else {
        after(
            split_summary(state),
            if state.config.dns_servers.len() > 0 {
                dns_wanted(state, Phase::SplitDns)
            } else {
                io_started(state)
            },
        )
    }
}

/// The first twenty bytes of the cookies.
pub open spec fn cookie_preview(cookie: Seq<char>) -> Seq<char> {
    match text::chars_in_bytes(cookie, 20) {
        Some(n) => cookie.take(n),
        None => cookie,
    }
}

/// A line of the log for each name server.
pub open spec fn server_lines(servers: Seq<Seq<char>>) -> Seq<EffectView> {
    servers.map_values(|s: Seq<char>| EffectView::Log("DNS server: "@ + s))
}

/// The first step.
pub open spec fn connect_begun(state: ConnectingView) -> StepView {
    StepView {
        state: ConnectingView { phase: Phase::Client, ..state },
        effects: (if state.windows {
            seq![EffectView::UndoNetwork]
        } else {
            Seq::empty()
        }) + seq![
            EffectView::StopIo,
            EffectView::Status(StatusView::Authenticating),
            EffectView::Log(
                "Connessione a "@ + state.gateway + ":"@ + numbers::decimal(state.port as nat)
                    + "..."@,
            ),
        ],
        action: ActionView::CreateClient,
    }
}

/// The step after an action that succeeded without a result.
pub open spec fn after_done(state: ConnectingView) -> StepView {
    match state.phase {
        Phase::Client => telling(
            state,
            Phase::Login,
            "Autenticazione in corso..."@,
            ActionView::Login,
        ),
        Phase::Allocation => StepView {
            state: ConnectingView { phase: Phase::ConfigTls, ..state },
            effects: seq![
                EffectView::Log("Scaricamento configurazione VPN..."@),
                EffectView::CollectRemarks,
            ],
            action: ActionView::ConnectForConfig,
        },
        Phase::ConfigTls => quiet(state, Phase::Config, ActionView::FetchConfig),
        Phase::TunnelTls => quiet(state, Phase::Tunnel, ActionView::OpenTunnel),
        Phase::Tunnel => quiet(state, Phase::Lcp, ActionView::NegotiateLcp),
        Phase::Lcp => quiet(
            state,
            Phase::Ipcp,
            ActionView::NegotiateIpcp(state.config.assigned_ip),
        ),
        Phase::Io => after(
            seq![
                EffectView::Status(StatusView::Connected),
                EffectView::Log("VPN connessa!"@),
            ],
            if state.remember {
                quiet(state, Phase::Keyring, ActionView::SaveCredentials)
            } else {
                quiet(state, Phase::Snapshot, ActionView::WriteSnapshot)
            },
        ),
        Phase::Keyring => quiet(state, Phase::Meta, ActionView::WriteMeta),
        Phase::Meta => quiet(state, Phase::Snapshot, ActionView::WriteSnapshot),
        _ => quiet(state, Phase::Ended, ActionView::Finish),
    }
}

/// The step after the login.
pub open spec fn after_login(state: ConnectingView, cookie: Seq<char>) -> StepView {
    StepView {
        state: ConnectingView { phase: Phase::Allocation, ..state },
        effects: seq![
            EffectView::Log(
                "Autenticazione riuscita. Cookie: "@ + cookie_preview(cookie) + "..."@,
            ),
        ] + (if state.remember {
            Seq::empty()
        } else {
            seq![EffectView::ForgetUser]
        }) + seq![
            EffectView::Status(StatusView::Connecting),
            EffectView::Log("Richiesta allocazione VPN..."@),
        ],
        action: ActionView::Allocate,
    }
}

/// The step after the configuration came.
pub open spec fn after_config(state: ConnectingView, config: VpnConfigView) -> StepView {
    StepView {
        state: ConnectingView { phase: Phase::TunnelTls, config, ..state },
        effects: seq![EffectView::Log("IP assegnato: "@ + config.assigned_ip)] + server_lines(
            config.dns_servers,
        ) + seq![EffectView::Log("Avvio tunnel..."@)],
        action: ActionView::ConnectForTunnel,
    }
}

/// The step after the address of this end was agreed on.
pub open spec fn after_ipcp(state: ConnectingView, ip: Seq<char>) -> StepView {
    StepView {
        state: ConnectingView { phase: Phase::Tun, assigned_ip: ip, ..state },
        effects: seq![
            EffectView::Log("PPP ok. Local IP: "@ + ip),
            EffectView::Log("Creazione scheda di rete virtuale (TUN)..."@),
        ],
        action: ActionView::CreateTun(ip),
    }
}

/// The step after the interface was created. Only on Windows are the network
/// settings changed.
pub open spec fn after_tun(state: ConnectingView, name: Seq<char>) -> StepView {
    after(
        seq![EffectView::Log("TUN "@ + name + " created"@)],
        if state.windows {
            quiet(state, Phase::Alias, ActionView::ResolveAlias(name))
        } else {
            after(
                if state.config.split_routes.len() > 0 {
                    seq![
                        EffectView::Log(
                            "Route split: su questa piattaforma usa vpn-cli / vpn-helper manualmente."@,
                        ),
                    ]
                } else {
                    Seq::empty()
                },
                io_started(state),
            )
        },
    )
}

/// The step after the interface's name was found. Nothing of this session is
/// in place yet.
pub open spec fn after_alias(state: ConnectingView, alias: Seq<char>) -> StepView {
    let named = ConnectingView {
        alias,
        net: NetStateView {
            routes: Seq::empty(),
            dns: None,
            nrpt: Seq::empty(),
            wan_host: state.net.wan_host,
        },
        ..state
    };
    after(
        seq![EffectView::Log("Alias interfaccia Windows (netsh): «"@ + alias + "»"@)],
        if state.full_tunnel {
            telling(
                named,
                Phase::GatewayIp,
                "Modalità full-tunnel IPv4 attiva."@,
                ActionView::ResolveGateway(state.gateway),
            )
        } else {
            split_next(ConnectingView { next_route: 0, ok_routes: 0, ..named })
        },
    )
}

/// The step after the gateway's address was found.
pub open spec fn after_gateway_ip(state: ConnectingView, ip: Seq<char>) -> StepView {
    telling(
        ConnectingView { vpn_ip: ip, ..state },
        Phase::Wan,
        "Server VPN risolto: "@ + ip + " (route /32 sulla WAN per evitare loop TLS)."@,
        ActionView::ReadWan,
    )
}

/// The step after an action that gave a text.
pub open spec fn after_text(state: ConnectingView, s: Seq<char>) -> StepView {
    match state.phase {
        Phase::Login => after_login(state, s),
        Phase::Ipcp => after_ipcp(state, s),
        Phase::Tun => after_tun(state, s),
        Phase::Alias => after_alias(state, s),
        _ => after_gateway_ip(state, s),
    }
}

/// The step after the default route was found.
pub open spec fn after_wan(state: ConnectingView, wan: WanView) -> StepView {
    telling(
        state,
        Phase::HostRoute,
        "WAN per pin del server: alias «"@ + wan.alias + "», next-hop «"@ + wan.next_hop
            + "», if_index "@ + numbers::decimal(wan.if_index as nat) + "."@,
        ActionView::AddHostRoute(state.vpn_ip, wan),
    )
}

/// The step after a route is in place.
pub open spec fn after_route(state: ConnectingView, route: RouteView) -> StepView {
    if state.phase == Phase::HostRoute {
        quiet(
            ConnectingView {
                net: NetStateView { wan_host: Some(route), ..state.net },
                ..state
            },
            Phase::Halves,
            ActionView::AddHalves(state.alias, state.assigned_ip),
        )
    } else {
        split_next(
            ConnectingView {
                net: NetStateView { routes: state.net.routes.push(route), ..state.net },
                next_route: state.next_route + 1,
                ok_routes: state.ok_routes + 1,
                ..state
            },
        )
    }
}

/// The step after everything goes through the tunnel.
pub open spec fn after_halves(state: ConnectingView, routes: Seq<RouteView>) -> StepView {
    let routed = ConnectingView {
        net: NetStateView { routes: state.net.routes + routes, ..state.net },
        ..state
    };
    after(
        seq![
            EffectView::Log(
                "Full-tunnel: "@ + numbers::decimal(routes.len())
                    + " route (0.0.0.0/1 + 128.0.0.0/1) su «"@ + state.alias + "» nexthop "@
                    + state.assigned_ip + "."@,
            ),
        ],
        if state.config.dns_servers.len() > 0 {
            dns_wanted(routed, Phase::FullDns)
        } else {
            after(
                seq![
                    EffectView::Log(
                        "WARN full-tunnel senza DNS nell’XML: risoluzione DNS e navigazione potrebbero fallire."@,
                    ),
                ],
                io_started(routed),
            )
        },
    )
}

/// The step that follows the name servers, whether they are set or not.
pub open spec fn past_dns(state: ConnectingView) -> StepView {
    if state.phase == Phase::FullDns {
        quiet(state, Phase::FullRule, ActionView::AddRule("."@))
    } else {
        split_rule_wanted(state)
    }
}

/// The step after the name servers are set.
pub open spec fn after_dns(state: ConnectingView, dns: DnsView) -> StepView {
    after(
        seq![
            EffectView::Log(
                "DNS applicati sulla TUN ("@ + state.alias + "): "@ + debug_list(
                    state.config.dns_servers,
                ),
            ),
        ],
        past_dns(
            ConnectingView { net: NetStateView { dns: Some(dns), ..state.net }, ..state },
        ),
    )
}

/// The step after a rule for names was added, if one was needed.
pub open spec fn after_rule(state: ConnectingView, rule: NrptView) -> StepView {
    if rule.namespace.len() == 0 {
        io_started(state)
    } else {
        after(
            seq![
                EffectView::Log(
                    (if state.phase == Phase::FullRule {
                        "NRPT catch-all («.») → server DNS "@
                    } else {
                        "NRPT ("@ + rule.namespace + ") → server DNS "@
                    }) + debug_list(state.config.dns_servers),
                ),
            ],
            io_started(
                ConnectingView {
                    net: NetStateView { nrpt: state.net.nrpt.push(rule), ..state.net },
                    ..state
                },
            ),
        )
    }
}

/// The step after something failed that the session can do without.
pub open spec fn despite(state: ConnectingView, e: Seq<char>) -> StepView {
    match state.phase {
        Phase::FullDns => after(
            seq![EffectView::Log("Full-tunnel: apply DNS fallito (continuo): "@ + e)],
            past_dns(state),
        ),
        Phase::FullRule => after(
            seq![EffectView::Log("Full-tunnel: NRPT catch-all fallito: "@ + e)],
            io_started(state),
        ),
        Phase::SplitRoute => {
            let (net, mask) = state.config.split_routes[state.next_route as int];
            after(
                seq![EffectView::Log("Route "@ + net + " mask "@ + mask + ": "@ + e)],
                split_next(
                    ConnectingView { next_route: state.next_route + 1, ..state },
                ),
            )
        },
        Phase::SplitDns => after(
            seq![
                EffectView::Log("Apply DNS fallito (continuo senza DNS su TUN): "@ + e),
            ],
            past_dns(state),
        ),
        Phase::SplitRule => after(
            seq![
                EffectView::Log(
                    "NRPT suffix «"@ + state.config.dns_suffix->0 + "» fallito: "@ + e,
                ),
            ],
            io_started(state),
        ),
        Phase::Keyring => telling(
            state,
            Phase::Snapshot,
            "VPN connessa, ma salvataggio portachiavi fallito: "@ + e,
            ActionView::WriteSnapshot,
        ),
        Phase::Meta => telling(
            state,
            Phase::Snapshot,
            "Metadati «ricorda» non salvati: "@ + e,
            ActionView::WriteSnapshot,
        ),
        _ => telling(
            state,
            Phase::Ended,
            "Salvataggio stato sessione su disco fallito: "@ + e,
            ActionView::Finish,
        ),
    }
}

/// The step after something failed. A login that failed is shown in the log
/// too.
pub open spec fn after_failure(state: ConnectingView, e: Seq<char>) -> StepView {
    match failure_words(state.phase) {
        Some(words) => if state.phase == Phase::Login {
            after(seq![EffectView::Log(words + e)], given_up(state, words + e))
        } else {
            given_up(state, words + e)
        },
        None => despite(state, e),
    }
}

/// The step after an outcome.
pub open spec fn after_outcome(state: ConnectingView, outcome: OutcomeView) -> StepView {
    match outcome {
        OutcomeView::Done => after_done(state),
        OutcomeView::Text(s) => after_text(state, s),
        OutcomeView::Config(c) => after_config(state, c),
        OutcomeView::Wan(w) => after_wan(state, w),
        OutcomeView::Route(r) => after_route(state, r),
        OutcomeView::Routes(rs) => after_halves(state, rs),
        OutcomeView::Dns(d) => after_dns(state, d),
        OutcomeView::Rule(r) => after_rule(state, r),
        OutcomeView::Failed(e) => after_failure(state, e),
        OutcomeView::Unheard(e) => given_up(state, e),
    }
}

// ---------------------------------------------------------------------------
// Code
// ---------------------------------------------------------------------------

/// `format!("{:?}")` shows a list of texts; what it shows depends on the list
/// alone.
#[verifier::external_body]
fn show_list(list: &Vec<String>) -> (r: String)
    ensures
        r@ == debug_list(text::str_views(list@)),
{
    format!("{:?}", list)
}

/// One line for the log.
fn one_line(line: String) -> (r: Vec<Effect>)
    ensures
        effect_views(r@) == seq![EffectView::Log(line@)],
{
    let mut v: Vec<Effect> = Vec::new();
    v.push(Effect::Log(line));
    proof {
        assert(effect_views(v@) =~= seq![EffectView::Log(line@)]);
    }
    v
}

/// Appends an effect.
fn put(effects: &mut Vec<Effect>, e: Effect)
    ensures
        effect_views(final(effects)@) == effect_views(old(effects)@).push(e@),
{
    let ghost before = effect_views(effects@);
    effects.push(e);
    proof {
        assert(effect_views(effects@) =~= before.push(e@));
    }
}

/// No effects.
fn no_effects() -> (r: Vec<Effect>)
    ensures
        effect_views(r@) == Seq::<EffectView>::empty(),
{
    let v: Vec<Effect> = Vec::new();
    proof {
        assert(effect_views(v@) =~= Seq::empty());
    }
    v
}

/// The step and the session are those wanted.
pub open spec fn is_step(state: ConnectingView, step: ConnectStep, wanted: StepView) -> bool {
    state == wanted.state && effect_views(step.effects@) == wanted.effects && step.action@
        == wanted.action
}

/// The step with effects in front of it.
fn in_front(front: Vec<Effect>, step: ConnectStep) -> (r: ConnectStep)
    ensures
        effect_views(r.effects@) == effect_views(front@) + effect_views(step.effects@),
        r.action@ == step.action@,
{
    let mut effects: Vec<Effect> = front;
    let mut rest: Vec<Effect> = step.effects;
    effects.append(&mut rest);
    proof {
        assert(effect_views(effects@) =~= effect_views(front@) + effect_views(step.effects@));
    }
    ConnectStep { effects, action: step.action }
}

impl ConnectingView {
    /// A network is being dealt with only if there is one, no more networks
    /// have a route than were dealt with, and a rule is being added only for
    /// a domain that the configuration names.
    pub open spec fn sound(self) -> bool {
        &&& self.ok_routes <= self.next_route
        &&& self.phase == Phase::SplitRoute ==> self.next_route < self.config.split_routes.len()
        &&& self.phase == Phase::SplitRule ==> self.config.dns_suffix is Some
    }
}

/// The session before its first step.
pub open spec fn fresh(
    gateway: Seq<char>,
    port: u16,
    remember: bool,
    windows: bool,
    full_tunnel: bool,
    net: NetStateView,
) -> ConnectingView {
    ConnectingView {
        gateway,
        port,
        remember,
        windows,
        full_tunnel,
        phase: Phase::Client,
        config: VpnConfigView {
            assigned_ip: Seq::empty(),
            dns_servers: Seq::empty(),
            dns_suffix: None,
            split_routes: Seq::empty(),
        },
        assigned_ip: Seq::empty(),
        alias: Seq::empty(),
        vpn_ip: Seq::empty(),
        next_route: 0,
        ok_routes: 0,
        net,
    }
}

impl Connecting {
    /// A session with the gateway of that host name; `net` is what is in
    /// place from before.
    pub fn new(
        gateway: &str,
        port: u16,
        remember: bool,
        windows: bool,
        full_tunnel: bool,
        net: NetState,
    ) -> (r: Self)
        ensures
            r@ == fresh(gateway@, port, remember, windows, full_tunnel, net@),
            r@.sound(),
    {
        let config = VpnConfig {
            assigned_ip: String::new(),
            dns_servers: Vec::new(),
            dns_suffix: None,
            split_routes: Vec::new(),
        };
        proof {
            assert(config@.dns_servers =~= Seq::empty());
            assert(config@.split_routes =~= Seq::empty());
        }
        Connecting {
            gateway: gateway.to_string(),
            port,
            remember,
            windows,
            full_tunnel,
            phase: Phase::Client,
            config,
            assigned_ip: String::new(),
            alias: String::new(),
            vpn_ip: String::new(),
            next_route: 0,
            ok_routes: 0,
            net,
        }
    }

    /// The first step.
    pub fn begin(&mut self) -> (r: ConnectStep)
        requires
            old(self)@.sound(),
        ensures
            is_step(final(self)@, r, connect_begun(old(self)@)),
            final(self)@.sound(),
    {
        let mut effects = no_effects();
        if self.windows {
            put(&mut effects, Effect::UndoNetwork);
        }
        put(&mut effects, Effect::StopIo);
        put(&mut effects, Effect::Status(VpnStatus::Authenticating));
        let line = text::cat5(
            "Connessione a ",
            self.gateway.as_str(),
            ":",
            numbers::decimal_text(self.port as u64).as_str(),
            "...",
        );
        put(&mut effects, Effect::Log(line));
        self.phase = Phase::Client;
        proof {
            assert(effect_views(effects@) =~= connect_begun(old(self)@).effects);
        }
        ConnectStep { effects, action: Action::CreateClient }
    }

    /// Nothing to say, and this to do next.
    fn say_nothing(&mut self, phase: Phase, action: Action) -> (r: ConnectStep)
        ensures
            is_step(final(self)@, r, quiet(old(self)@, phase, action@)),
    {
        self.phase = phase;
        ConnectStep { effects: no_effects(), action }
    }

    /// One line for the log, and this to do next.
    fn say(&mut self, phase: Phase, line: String, action: Action) -> (r: ConnectStep)
        ensures
            is_step(final(self)@, r, telling(old(self)@, phase, line@, action@)),
    {
        self.phase = phase;
        ConnectStep { effects: one_line(line), action }
    }

    /// The exchange of packets is started.
    fn start_io(&mut self) -> (r: ConnectStep)
        ensures
            is_step(final(self)@, r, io_started(old(self)@)),
    {
        self.say(
            Phase::Io,
            "Avvio scambio traffico IP nel tunnel...".to_string(),
            Action::StartIo,
        )
    }

    /// The name servers are set, for the phase.
    fn want_dns(&mut self, phase: Phase) -> (r: ConnectStep)
        ensures
            is_step(final(self)@, r, dns_wanted(old(self)@, phase)),
    {
        let alias = self.alias.clone();
        self.say_nothing(phase, Action::ApplyDns(alias))
    }

    /// A rule for the domain of the configuration, if it names one.
    fn want_split_rule(&mut self) -> (r: ConnectStep)
        ensures
            is_step(final(self)@, r, split_rule_wanted(old(self)@)),
    {
        let wanted: Option<String> = match &self.config.dns_suffix {
            Some(suffix) => {
                if suffix.as_str().is_empty() {
                    None
                } else {
                    Some(suffix.clone())
                }
            },
            None => None,
        };
        match wanted {
            Some(suffix) => self.say_nothing(Phase::SplitRule, Action::AddRule(suffix)),
            None => self.start_io(),
        }
    }

    /// What is said when all networks were dealt with.
    fn summarize_split(&self) -> (r: Vec<Effect>)
        ensures
            effect_views(r@) == split_summary(self@),
    {
        let all: usize = self.config.split_routes.len();
        if all == 0 {
            return one_line(
                "Nessuna route split dall’XML: il traffico LAN non verrà reindirizzato (chiedere al firewall di pubblicare gli <addr>).".to_string(),
            );
        }
        if self.ok_routes > 0 {
            let mut line = text::cat5(
                "Aggiunte ",
                numbers::decimal_text(self.ok_routes as u64).as_str(),
                "/",
                numbers::decimal_text(all as u64).as_str(),
                " route split su «",
            );
            line.append(self.alias.as_str());
            line.append("» (nexthop ");
            line.append(self.assigned_ip.as_str());
            line.append(").");
            return one_line(line);
        }
        no_effects()
    }

    /// The next network, or what comes after all of them.
    fn next_split(&mut self) -> (r: ConnectStep)
        ensures
            is_step(final(self)@, r, split_next(old(self)@)),
    {
        if self.next_route < self.config.split_routes.len() {
            let net = self.config.split_routes[self.next_route].0.clone();
            let mask = self.config.split_routes[self.next_route].1.clone();
            let alias = self.alias.clone();
            let ip = self.assigned_ip.clone();
            return self.say_nothing(
                Phase::SplitRoute,
                Action::AddSplitRoute(alias, net, mask, ip),
            );
        }
        let front = self.summarize_split();
        let step = if self.config.dns_servers.len() > 0 {
            self.want_dns(Phase::SplitDns)
        } else {
            self.start_io()
        };
        in_front(front, step)
    }

    /// An action succeeded without a result.
    fn on_done(&mut self) -> (r: ConnectStep)
        ensures
            is_step(final(self)@, r, after_done(old(self)@)),
    {
        match self.phase {
            Phase::Client => self.say(
                Phase::Login,
                "Autenticazione in corso...".to_string(),
                Action::Login,
            ),
            Phase::Allocation => {
                let mut effects = one_line("Scaricamento configurazione VPN...".to_string());
                put(&mut effects, Effect::CollectRemarks);
                self.phase = Phase::ConfigTls;
                proof {
                    assert(effect_views(effects@) =~= after_done(old(self)@).effects);
                }
                ConnectStep { effects, action: Action::ConnectForConfig }
            },
            Phase::ConfigTls => self.say_nothing(Phase::Config, Action::FetchConfig),
            Phase::TunnelTls => self.say_nothing(Phase::Tunnel, Action::OpenTunnel),
            Phase::Tunnel => self.say_nothing(Phase::Lcp, Action::NegotiateLcp),
            Phase::Lcp => {
                let ip = self.config.assigned_ip.clone();
                self.say_nothing(Phase::Ipcp, Action::NegotiateIpcp(ip))
            },
            Phase::Io => {
                let mut front = no_effects();
                put(&mut front, Effect::Status(VpnStatus::Connected));
                put(&mut front, Effect::Log("VPN connessa!".to_string()));
                proof {
                    assert(effect_views(front@) =~= seq![
                        EffectView::Status(StatusView::Connected),
                        EffectView::Log("VPN connessa!"@),
                    ]);
                }
                let step = if self.remember {
                    self.say_nothing(Phase::Keyring, Action::SaveCredentials)
                } else {
                    self.say_nothing(Phase::Snapshot, Action::WriteSnapshot)
                };
                in_front(front, step)
            },
            Phase::Keyring => self.say_nothing(Phase::Meta, Action::WriteMeta),
            Phase::Meta => self.say_nothing(Phase::Snapshot, Action::WriteSnapshot),
            _ => self.say_nothing(Phase::Ended, Action::Finish),
        }
    }

    /// The login succeeded.
    fn on_login(&mut self, cookie: &str) -> (r: ConnectStep)
        requires
            !text::cuts_char(cookie@, 20),
        ensures
            is_step(final(self)@, r, after_login(old(self)@, cookie@)),
    {
        let cs = text::to_chars(cookie);
        let shown: usize = match text::cut_at(cs.as_slice(), 20) {
            Some(n) => n,
            None => cs.len(),
        };
        let preview = text::to_text(slice_subrange(cs.as_slice(), 0, shown));
        proof {
            assert(preview@ =~= cookie_preview(cookie@));
        }
        let mut effects = one_line(
            text::cat3("Autenticazione riuscita. Cookie: ", preview.as_str(), "..."),
        );
        if !self.remember {
            put(&mut effects, Effect::ForgetUser);
        }
        put(&mut effects, Effect::Status(VpnStatus::Connecting));
        put(&mut effects, Effect::Log("Richiesta allocazione VPN...".to_string()));
        self.phase = Phase::Allocation;
        proof {
            assert(effect_views(effects@) =~= after_login(old(self)@, cookie@).effects);
        }
        ConnectStep { effects, action: Action::Allocate }
    }

    /// The configuration came.
    fn on_config(&mut self, config: VpnConfig) -> (r: ConnectStep)
        ensures
            is_step(final(self)@, r, after_config(old(self)@, config@)),
    {
        let mut effects = one_line(text::cat2("IP assegnato: ", config.assigned_ip.as_str()));
        let ghost first = effect_views(effects@);
        let ghost lines = server_lines(config@.dns_servers);
        let mut i: usize = 0;
        proof {
            assert(effect_views(effects@) =~= first + lines.take(0));
        }
        while i < config.dns_servers.len()
            invariant
                lines == server_lines(config@.dns_servers),
                i <= config.dns_servers@.len(),
                effect_views(effects@) == first + lines.take(i as int),
            decreases config.dns_servers.len() - i,
        {
            let line = text::cat2("DNS server: ", config.dns_servers[i].as_str());
            put(&mut effects, Effect::Log(line));
            proof {
                assert(config@.dns_servers[i as int] == config.dns_servers@[i as int]@);
                assert(lines[i as int] == EffectView::Log(line@));
                assert(effect_views(effects@) =~= first + lines.take(i + 1));
            }
            i = i + 1;
        }
        put(&mut effects, Effect::Log("Avvio tunnel...".to_string()));
        proof {
            assert(lines.take(i as int) =~= lines);
            assert(effect_views(effects@) =~= after_config(old(self)@, config@).effects);
        }
        self.config = config;
        self.phase = Phase::TunnelTls;
        ConnectStep { effects, action: Action::ConnectForTunnel }
    }

    /// The address of this end was agreed on.
    fn on_ipcp(&mut self, ip: String) -> (r: ConnectStep)
        ensures
            is_step(final(self)@, r, after_ipcp(old(self)@, ip@)),
    {
        let mut effects = one_line(text::cat2("PPP ok. Local IP: ", ip.as_str()));
        put(
            &mut effects,
            Effect::Log("Creazione scheda di rete virtuale (TUN)...".to_string()),
        );
        proof {
            assert(effect_views(effects@) =~= after_ipcp(old(self)@, ip@).effects);
        }
        self.assigned_ip = ip.clone();
        self.phase = Phase::Tun;
        ConnectStep { effects, action: Action::CreateTun(ip) }
    }

    /// The interface was created.
    fn on_tun(&mut self, name: String) -> (r: ConnectStep)
        ensures
            is_step(final(self)@, r, after_tun(old(self)@, name@)),
    {
        let front = one_line(text::cat3("TUN ", name.as_str(), " created"));
        let step = if self.windows {
            self.say_nothing(Phase::Alias, Action::ResolveAlias(name))
        } else {
            let hint = if self.config.split_routes.len() > 0 {
                one_line(
                    "Route split: su questa piattaforma usa vpn-cli / vpn-helper manualmente.".to_string(),
                )
            } else {
                no_effects()
            };
            let started = self.start_io();
            in_front(hint, started)
        };
        in_front(front, step)
    }

    /// The interface's name was found.
    fn on_alias(&mut self, alias: String) -> (r: ConnectStep)
        ensures
            is_step(final(self)@, r, after_alias(old(self)@, alias@)),
    {
        let front = one_line(
            text::cat3("Alias interfaccia Windows (netsh): «", alias.as_str(), "»"),
        );
        self.alias = alias;
        self.net.routes = Vec::new();
        self.net.dns = None;
        self.net.nrpt = Vec::new();
        proof {
            assert(self.net@.routes =~= Seq::empty());
            assert(self.net@.nrpt =~= Seq::empty());
        }
        let step = if self.full_tunnel {
            let gateway = self.gateway.clone();
            self.say(
                Phase::GatewayIp,
                "Modalità full-tunnel IPv4 attiva.".to_string(),
                Action::ResolveGateway(gateway),
            )
        } else {
            self.next_route = 0;
            self.ok_routes = 0;
            self.next_split()
        };
        in_front(front, step)
    }

    /// An action gave a text.
    fn on_text(&mut self, s: String) -> (r: ConnectStep)
        requires
            old(self).phase == Phase::Login ==> !text::cuts_char(s@, 20),
        ensures
            is_step(final(self)@, r, after_text(old(self)@, s@)),
    {
        match self.phase {
            Phase::Login => self.on_login(s.as_str()),
            Phase::Ipcp => self.on_ipcp(s),
            Phase::Tun => self.on_tun(s),
            Phase::Alias => self.on_alias(s),
            _ => {
                let line = text::cat3(
                    "Server VPN risolto: ",
                    s.as_str(),
                    " (route /32 sulla WAN per evitare loop TLS).",
                );
                self.vpn_ip = s;
                self.say(Phase::Wan, line, Action::ReadWan)
            },
        }
    }

    /// The default route was found.
    fn on_wan(&mut self, wan: WanDefault) -> (r: ConnectStep)
        ensures
            is_step(final(self)@, r, after_wan(old(self)@, wan@)),
    {
        let mut line = text::cat5(
            "WAN per pin del server: alias «",
            wan.alias.as_str(),
            "», next-hop «",
            wan.next_hop.as_str(),
            "», if_index ",
        );
        line.append(numbers::decimal_text(wan.if_index as u64).as_str());
        line.append(".");
        let ip = self.vpn_ip.clone();
        self.say(Phase::HostRoute, line, Action::AddHostRoute(ip, wan))
    }

    /// A route is in place.
    fn on_route(&mut self, route: InstalledRoute) -> (r: ConnectStep)
        requires
            old(self)@.sound(),
            old(self).phase == Phase::HostRoute || old(self).phase == Phase::SplitRoute,
        ensures
            is_step(final(self)@, r, after_route(old(self)@, route@)),
    {
        match self.phase {
            Phase::HostRoute => {
                self.net.wan_host = Some(route);
                let alias = self.alias.clone();
                let ip = self.assigned_ip.clone();
                self.say_nothing(Phase::Halves, Action::AddHalves(alias, ip))
            },
            _ => {
                let ghost before = self.net@.routes;
                let many: usize = self.config.split_routes.len();
                self.net.routes.push(route);
                proof {
                    assert(self.net@.routes =~= before.push(route@));
                    assert(self@.config.split_routes.len() == many);
                }
                self.next_route = self.next_route + 1;
                self.ok_routes = self.ok_routes + 1;
                self.next_split()
            },
        }
    }

    /// Everything goes through the tunnel.
    fn on_halves(&mut self, routes: Vec<InstalledRoute>) -> (r: ConnectStep)
        ensures
            is_step(
                final(self)@,
                r,
                after_halves(old(self)@, snapshot::route_views(routes@)),
            ),
    {
        let mut line = text::cat5(
            "Full-tunnel: ",
            numbers::decimal_text(routes.len() as u64).as_str(),
            " route (0.0.0.0/1 + 128.0.0.0/1) su «",
            self.alias.as_str(),
            "» nexthop ",
        );
        line.append(self.assigned_ip.as_str());
        line.append(".");
        let ghost before = self.net@.routes;
        let ghost added = snapshot::route_views(routes@);
        let mut more: Vec<InstalledRoute> = routes;
        self.net.routes.append(&mut more);
        proof {
            assert(self.net@.routes =~= before + added);
        }
        let front = one_line(line);
        let step = if self.config.dns_servers.len() > 0 {
            self.want_dns(Phase::FullDns)
        } else {
            let warning = one_line(
                "WARN full-tunnel senza DNS nell’XML: risoluzione DNS e navigazione potrebbero fallire.".to_string(),
            );
            let started = self.start_io();
            in_front(warning, started)
        };
        in_front(front, step)
    }

    /// What follows the name servers, whether they are set or not.
    fn pass_dns(&mut self) -> (r: ConnectStep)
        ensures
            is_step(final(self)@, r, past_dns(old(self)@)),
    {
        match self.phase {
            Phase::FullDns => self.say_nothing(Phase::FullRule, Action::AddRule(".".to_string())),
            _ => self.want_split_rule(),
        }
    }

    /// The name servers are set.
    fn on_dns(&mut self, dns: InstalledDns) -> (r: ConnectStep)
        ensures
            is_step(final(self)@, r, after_dns(old(self)@, dns@)),
    {
        let front = one_line(
            text::cat4(
                "DNS applicati sulla TUN (",
                self.alias.as_str(),
                "): ",
                show_list(&self.config.dns_servers).as_str(),
            ),
        );
        self.net.dns = Some(dns);
        let step = self.pass_dns();
        in_front(front, step)
    }

    /// A rule for names was added, if one was needed.
    fn on_rule(&mut self, rule: NrptRule) -> (r: ConnectStep)
        ensures
            is_step(final(self)@, r, after_rule(old(self)@, rule@)),
    {
        if rule.namespace.as_str().is_empty() {
            return self.start_io();
        }
        let shown = show_list(&self.config.dns_servers);
        let line = match self.phase {
            Phase::FullRule => text::cat2("NRPT catch-all («.») → server DNS ", shown.as_str()),
            _ => text::cat4(
                "NRPT (",
                rule.namespace.as_str(),
                ") → server DNS ",
                shown.as_str(),
            ),
        };
        let ghost before = self.net@.nrpt;
        self.net.nrpt.push(rule);
        proof {
            assert(self.net@.nrpt =~= before.push(rule@));
        }
        let front = one_line(line);
        let step = self.start_io();
        in_front(front, step)
    }

    /// The session is given up.
    fn give_up(&mut self, why: String) -> (r: ConnectStep)
        ensures
            is_step(final(self)@, r, given_up(old(self)@, why@)),
    {
        self.say_nothing(Phase::Ended, Action::GiveUp(why))
    }

    /// Something failed that the session can do without.
    fn on_minor_failure(&mut self, e: &str) -> (r: ConnectStep)
        requires
            old(self)@.sound(),
        ensures
            is_step(final(self)@, r, despite(old(self)@, e@)),
    {
        match self.phase {
            Phase::FullDns => {
                let front = one_line(
                    text::cat2("Full-tunnel: apply DNS fallito (continuo): ", e),
                );
                let step = self.pass_dns();
                in_front(front, step)
            },
            Phase::FullRule => {
                let front = one_line(text::cat2("Full-tunnel: NRPT catch-all fallito: ", e));
                let step = self.start_io();
                in_front(front, step)
            },
            Phase::SplitRoute => {
                let many: usize = self.config.split_routes.len();
                proof {
                    assert(self@.config.split_routes.len() == many);
                }
                let net = self.config.split_routes[self.next_route].0.clone();
                let mask = self.config.split_routes[self.next_route].1.clone();
                let mut line = text::cat5("Route ", net.as_str(), " mask ", mask.as_str(), ": ");
                line.append(e);
                let front = one_line(line);
                self.next_route = self.next_route + 1;
                let step = self.next_split();
                in_front(front, step)
            },
            Phase::SplitDns => {
                let front = one_line(
                    text::cat2("Apply DNS fallito (continuo senza DNS su TUN): ", e),
                );
                let step = self.pass_dns();
                in_front(front, step)
            },
            Phase::SplitRule => {
                let suffix: String = match &self.config.dns_suffix {
                    Some(s) => s.clone(),
                    None => String::new(),
                };
                let front = one_line(
                    text::cat4("NRPT suffix «", suffix.as_str(), "» fallito: ", e),
                );
                let step = self.start_io();
                in_front(front, step)
            },
            Phase::Keyring => self.say(
                Phase::Snapshot,
                text::cat2("VPN connessa, ma salvataggio portachiavi fallito: ", e),
                Action::WriteSnapshot,
            ),
            Phase::Meta => self.say(
                Phase::Snapshot,
                text::cat2("Metadati «ricorda» non salvati: ", e),
                Action::WriteSnapshot,
            ),
            _ => self.say(
                Phase::Ended,
                text::cat2("Salvataggio stato sessione su disco fallito: ", e),
                Action::Finish,
            ),
        }
    }

    /// Something failed.
    fn on_failure(&mut self, e: &str) -> (r: ConnectStep)
        requires
            old(self)@.sound(),
        ensures
            is_step(final(self)@, r, after_failure(old(self)@, e@)),
    {
        match phase_failure(self.phase) {
            Some(words) => {
                let why = text::cat2(words.as_str(), e);
                match self.phase {
                    Phase::Login => {
                        let front = one_line(why.clone());
                        let step = self.give_up(why);
                        in_front(front, step)
                    },
                    _ => self.give_up(why),
                }
            },
            None => self.on_minor_failure(e),
        }
    }

    /// Takes in what came of an action.
    pub fn proceed(&mut self, outcome: Outcome) -> (r: ConnectStep)
        requires
            old(self)@.sound(),
            is_awaited(old(self)@.phase, outcome@),
        ensures
            is_step(final(self)@, r, after_outcome(old(self)@, outcome@)),
            final(self)@.sound(),
    {
        proof {
            lemma_step_is_sound(self@, outcome@);
        }
        match outcome {
            Outcome::Done => self.on_done(),
            Outcome::Text(s) => self.on_text(s),
            Outcome::Config(c) => self.on_config(c),
            Outcome::Wan(w) => self.on_wan(w),
            Outcome::Route(route) => self.on_route(route),
            Outcome::Routes(routes) => self.on_halves(routes),
            Outcome::Dns(d) => self.on_dns(d),
            Outcome::Rule(rule) => self.on_rule(rule),
            Outcome::Failed(e) => self.on_failure(e.as_str()),
            Outcome::Unheard(e) => self.give_up(e),
        }
    }
}

/// The words in front of the reason for which the session is given up.
fn phase_failure(phase: Phase) -> (r: Option<String>)
    ensures
        text::opt_view(r) == failure_words(phase),
{
    match phase {
        Phase::Client => Some("Failed to create client: ".to_string()),
        Phase::Login => Some("Autenticazione fallita: ".to_string()),
        Phase::Allocation => Some("Allocazione VPN fallita: ".to_string()),
        Phase::ConfigTls => Some("TLS dati (XML) fallita: ".to_string()),
        Phase::Config => Some("Config sulla sessione TLS: ".to_string()),
        Phase::TunnelTls => Some("TLS tunnel (dopo XML) fallita: ".to_string()),
        Phase::Tunnel => Some("Tunnel start failed: ".to_string()),
        Phase::Lcp => Some("LCP failed: ".to_string()),
        Phase::Ipcp => Some("IPCP failed: ".to_string()),
        Phase::Tun => Some("TUN creation failed: ".to_string()),
        Phase::GatewayIp => Some("Full-tunnel: ".to_string()),
        Phase::Wan => Some("Full-tunnel (default WAN): ".to_string()),
        Phase::HostRoute => Some("Full-tunnel (route host verso WAN): ".to_string()),
        Phase::Halves => Some("Full-tunnel (half-default sulla TUN): ".to_string()),
        _ => None,
    }
}

/// A step keeps the session sound.
proof fn lemma_step_is_sound(state: ConnectingView, outcome: OutcomeView)
    requires
        state.sound(),
        is_awaited(state.phase, outcome),
    ensures
        after_outcome(state, outcome).state.sound(),
{
    match outcome {
        OutcomeView::Done => {},
        OutcomeView::Text(s) => {
            if state.phase == Phase::Alias {
                assert(after_alias(state, s).state.sound());
            }
        },
        OutcomeView::Route(r) => {
            assert(after_route(state, r).state.sound());
        },
        OutcomeView::Failed(e) => {
            assert(after_failure(state, e).state.sound());
        },
        _ => {},
    }
}

// ---------------------------------------------------------------------------
// Going down
// ---------------------------------------------------------------------------

/// What is done at once after a session was given up.
pub open spec fn failure_effects(windows: bool) -> Seq<EffectView> {
    seq![EffectView::ForgetSnapshot] + (if windows {
        seq![EffectView::UndoNetwork]
    } else {
        Seq::empty()
    }) + seq![EffectView::StopIo, EffectView::Status(StatusView::Disconnected)]
}

/// What is done at once when the user disconnects.
pub open spec fn disconnect_effects(windows: bool) -> Seq<EffectView> {
    seq![
        EffectView::Status(StatusView::Disconnecting),
        EffectView::Log("Disconnessione in corso..."@),
    ] + (if windows {
        seq![EffectView::UndoNetwork]
    } else {
        Seq::empty()
    }) + seq![
        EffectView::StopIo,
        EffectView::Status(StatusView::Disconnected),
        EffectView::Log("VPN disconnessa."@),
        EffectView::ForgetSnapshot,
    ]
}

/// What is done at once after a session was given up.
pub fn clean_up_after_failure(windows: bool) -> (r: Vec<Effect>)
    ensures
        effect_views(r@) == failure_effects(windows),
{
    let mut effects = no_effects();
    put(&mut effects, Effect::ForgetSnapshot);
    if windows {
        put(&mut effects, Effect::UndoNetwork);
    }
    put(&mut effects, Effect::StopIo);
    put(&mut effects, Effect::Status(VpnStatus::Disconnected));
    proof {
        assert(effect_views(effects@) =~= failure_effects(windows));
    }
    effects
}

/// What is done at once when the user disconnects.
pub fn run_user_disconnect(windows: bool) -> (r: Vec<Effect>)
    ensures
        effect_views(r@) == disconnect_effects(windows),
{
    let mut effects = no_effects();
    put(&mut effects, Effect::Status(VpnStatus::Disconnecting));
    put(&mut effects, Effect::Log("Disconnessione in corso...".to_string()));
    if windows {
        put(&mut effects, Effect::UndoNetwork);
    }
    put(&mut effects, Effect::StopIo);
    put(&mut effects, Effect::Status(VpnStatus::Disconnected));
    put(&mut effects, Effect::Log("VPN disconnessa.".to_string()));
    put(&mut effects, Effect::ForgetSnapshot);
    proof {
        assert(effect_views(effects@) =~= disconnect_effects(windows));
    }
    effects
}

/// What is done at once when the application starts and finds that a session
/// was up: it is shown as up, so that the user can clean up.
pub fn resume_after_restart() -> (r: Vec<Effect>)
    ensures
        effect_views(r@) == seq![
            EffectView::Status(StatusView::Connected),
            EffectView::Log(
                "Sessione precedente: la VPN risultava connessa. Dopo la chiusura dell’app il tunnel non è più attivo — usa «Disconnetti» per ripulire route/DNS oppure riconnettiti."@,
            ),
        ],
{
    let mut effects = no_effects();
    put(&mut effects, Effect::Status(VpnStatus::Connected));
    put(
        &mut effects,
        Effect::Log(
            "Sessione precedente: la VPN risultava connessa. Dopo la chiusura dell’app il tunnel non è più attivo — usa «Disconnetti» per ripulire route/DNS oppure riconnettiti.".to_string(),
        ),
    );
    proof {
        assert(effect_views(effects@) =~= seq![
            EffectView::Status(StatusView::Connected),
            EffectView::Log(
                "Sessione precedente: la VPN risultava connessa. Dopo la chiusura dell’app il tunnel non è più attivo — usa «Disconnetti» per ripulire route/DNS oppure riconnettiti."@,
            ),
        ]);
    }
    effects
}

// ---------------------------------------------------------------------------
// Laws
// ---------------------------------------------------------------------------

/// What is in place after an outcome: what was reported is added, and nothing
/// is dropped but at the point where the session begins to change settings.
pub open spec fn in_place_after(state: ConnectingView, outcome: OutcomeView) -> NetStateView {
    let net = state.net;
    match outcome {
        OutcomeView::Route(r) => if state.phase == Phase::HostRoute {
            NetStateView { wan_host: Some(r), ..net }
        } else {
            NetStateView { routes: net.routes.push(r), ..net }
        },
        OutcomeView::Routes(rs) => NetStateView { routes: net.routes + rs, ..net },
        OutcomeView::Dns(d) => NetStateView { dns: Some(d), ..net },
        OutcomeView::Rule(r) => if r.namespace.len() > 0 {
            NetStateView { nrpt: net.nrpt.push(r), ..net }
        } else {
            net
        },
        OutcomeView::Text(_) => if state.phase == Phase::Alias {
            NetStateView { routes: Seq::empty(), dns: None, nrpt: Seq::empty(), ..net }
        } else {
            net
        },
        _ => net,
    }
}

/// Every change in the network settings that is reported is recorded, so that
/// it can be undone, and nothing that is recorded gets lost.
pub proof fn law_changes_are_recorded(state: ConnectingView, outcome: OutcomeView)
    requires
        state.sound(),
        is_awaited(state.phase, outcome),
    ensures
        after_outcome(state, outcome).state.net == in_place_after(state, outcome),
{
    match outcome {
        OutcomeView::Text(s) => {
            if state.phase == Phase::Alias {
                assert(after_alias(state, s).state.net == in_place_after(state, outcome));
            }
        },
        OutcomeView::Route(r) => {
            assert(after_route(state, r).state.net == in_place_after(state, outcome));
        },
        OutcomeView::Failed(e) => {
            assert(after_failure(state, e).state.net == state.net);
        },
        _ => {},
    }
}

/// The session is shown as up only once the exchange of packets was started.
pub proof fn law_connected_means_up(state: ConnectingView, outcome: OutcomeView)
    requires
        state.sound(),
        is_awaited(state.phase, outcome),
        after_outcome(state, outcome).effects.contains(
            EffectView::Status(StatusView::Connected),
        ),
    ensures
        state.phase == Phase::Io && outcome is Done,
{
    let effects = after_outcome(state, outcome).effects;
    let i = choose|i: int|
        0 <= i < effects.len() && effects[i] == EffectView::Status(StatusView::Connected);
    assert(effects[i] == EffectView::Status(StatusView::Connected));
    match outcome {
        OutcomeView::Done => {
            lemma_quiet_done(state);
        },
        OutcomeView::Text(s) => {
            lemma_quiet_text(state, s);
        },
        OutcomeView::Config(c) => {
            lemma_quiet_config(state, c);
        },
        OutcomeView::Route(r) => {
            lemma_quiet_route(state, r);
        },
        OutcomeView::Failed(e) => {
            lemma_quiet_failure(state, e);
        },
        _ => {},
    }
}

/// The credentials are saved in one place only: once the exchange of packets
/// was started, and only if they are to be remembered.
pub proof fn law_saving_is_asked_for(state: ConnectingView, outcome: OutcomeView)
    requires
        state.sound(),
        is_awaited(state.phase, outcome),
    ensures
        after_outcome(state, outcome).action == ActionView::SaveCredentials <==> state.phase
            == Phase::Io && outcome is Done && state.remember,
{
}

/// No effect shows the session as up.
pub open spec fn says_not_up(effects: Seq<EffectView>) -> bool {
    forall|i: int|
        0 <= i < effects.len() ==> #[trigger] effects[i] != EffectView::Status(
            StatusView::Connected,
        )
}

/// An action without a result shows the session as up in one phase only.
proof fn lemma_quiet_done(state: ConnectingView)
    ensures
        state.phase != Phase::Io ==> says_not_up(after_done(state).effects),
{
}

/// Dealing with networks does not show the session as up.
proof fn lemma_quiet_split(state: ConnectingView)
    ensures
        says_not_up(split_next(state).effects),
{
}

/// A text does not show the session as up.
proof fn lemma_quiet_text(state: ConnectingView, s: Seq<char>)
    ensures
        says_not_up(after_text(state, s).effects),
{
    let named = ConnectingView {
        alias: s,
        net: NetStateView {
            routes: Seq::empty(),
            dns: None,
            nrpt: Seq::empty(),
            wan_host: state.net.wan_host,
        },
        ..state
    };
    lemma_quiet_split(ConnectingView { next_route: 0, ok_routes: 0, ..named });
}

/// A configuration does not show the session as up.
proof fn lemma_quiet_config(state: ConnectingView, config: VpnConfigView)
    ensures
        says_not_up(after_config(state, config).effects),
{
    let lines = server_lines(config.dns_servers);
    let all = after_config(state, config).effects;
    assert forall|i: int| 0 <= i < all.len() implies #[trigger] all[i] != EffectView::Status(
        StatusView::Connected,
    ) by {
        if 1 <= i < lines.len() + 1 {
            assert(all[i] == lines[i - 1]);
        }
    }
}

/// A route does not show the session as up.
proof fn lemma_quiet_route(state: ConnectingView, route: RouteView)
    ensures
        says_not_up(after_route(state, route).effects),
{
    lemma_quiet_split(
        ConnectingView {
            net: NetStateView { routes: state.net.routes.push(route), ..state.net },
            next_route: state.next_route + 1,
            ok_routes: state.ok_routes + 1,
            ..state
        },
    );
}

/// A failure does not show the session as up.
proof fn lemma_quiet_failure(state: ConnectingView, e: Seq<char>)
    ensures
        says_not_up(after_failure(state, e).effects),
{
    lemma_quiet_split(ConnectingView { next_route: state.next_route + 1, ..state });
}

/// Up to the interface, each success leads to the next piece of work: log in,
/// have a tunnel set up, connect and fetch the configuration, connect again
/// and open the tunnel, negotiate LCP and then IPCP from the address of the
/// configuration, and create the interface with the address that was agreed
/// on.
pub proof fn law_session_comes_up_in_order(state: ConnectingView, outcome: OutcomeView)
    requires
        is_awaited(state.phase, outcome),
    ensures
        ({
            let step = after_outcome(state, outcome);
            let next = step.state.phase;
            &&& state.phase == Phase::Client && outcome is Done ==> step.action is Login && next
                == Phase::Login
            &&& state.phase == Phase::Login && outcome is Text ==> step.action is Allocate && next
                == Phase::Allocation
            &&& state.phase == Phase::Allocation && outcome is Done ==> step.action
                is ConnectForConfig && next == Phase::ConfigTls
            &&& state.phase == Phase::ConfigTls && outcome is Done ==> step.action is FetchConfig
                && next == Phase::Config
            &&& outcome matches OutcomeView::Config(c) ==> step.action is ConnectForTunnel && next
                == Phase::TunnelTls && step.state.config == c
            &&& state.phase == Phase::TunnelTls && outcome is Done ==> step.action is OpenTunnel
                && next == Phase::Tunnel
            &&& state.phase == Phase::Tunnel && outcome is Done ==> step.action is NegotiateLcp
                && next == Phase::Lcp
            &&& state.phase == Phase::Lcp && outcome is Done ==> step.action
                == ActionView::NegotiateIpcp(state.config.assigned_ip) && next == Phase::Ipcp
            &&& outcome matches OutcomeView::Text(ip) ==> (state.phase == Phase::Ipcp
                ==> step.action == ActionView::CreateTun(ip) && next == Phase::Tun
                && step.state.assigned_ip == ip)
            &&& outcome matches OutcomeView::Text(name) ==> (state.phase == Phase::Tun
                && state.windows ==> step.action == ActionView::ResolveAlias(name) && next
                == Phase::Alias)
            &&& state.phase == Phase::Tun && outcome is Text && !state.windows ==> step.action
                is StartIo && next == Phase::Io
        }),
{
}

/// Where everything goes through the tunnel, the gateway is looked up first,
/// then kept in reach by a route to the address that was found, past the
/// default route that was found; only then do the two halves follow, on the
/// interface and to the address of the tunnel. Name servers and the rule for
/// all names come last, and none of the two keeps the traffic from starting.
pub proof fn law_full_tunnel_is_set_up(state: ConnectingView, outcome: OutcomeView)
    requires
        is_awaited(state.phase, outcome),
    ensures
        ({
            let step = after_outcome(state, outcome);
            let next = step.state.phase;
            &&& outcome matches OutcomeView::Text(alias) ==> (state.phase == Phase::Alias
                && state.full_tunnel ==> step.action == ActionView::ResolveGateway(state.gateway)
                && next == Phase::GatewayIp && step.state.alias == alias)
            &&& outcome matches OutcomeView::Text(ip) ==> (state.phase == Phase::GatewayIp
                ==> step.action is ReadWan && next == Phase::Wan && step.state.vpn_ip == ip)
            &&& outcome matches OutcomeView::Wan(w) ==> step.action == ActionView::AddHostRoute(
                state.vpn_ip,
                w,
            ) && next == Phase::HostRoute
            &&& state.phase == Phase::HostRoute && outcome is Route ==> step.action
                == ActionView::AddHalves(state.alias, state.assigned_ip) && next == Phase::Halves
            &&& outcome is Routes && state.config.dns_servers.len() > 0 ==> step.action
                == ActionView::ApplyDns(state.alias) && next == Phase::FullDns
            &&& outcome is Routes && state.config.dns_servers.len() == 0 ==> step.action is StartIo
                && next == Phase::Io
            &&& state.phase == Phase::FullDns && (outcome is Dns || outcome is Failed)
                ==> step.action == ActionView::AddRule("."@) && next == Phase::FullRule
            &&& state.phase == Phase::FullRule && (outcome is Rule || outcome is Failed)
                ==> step.action is StartIo && next == Phase::Io
        }),
{
}

/// What comes next where networks go through the tunnel one by one and the
/// first `at` of them were dealt with: the network at that place, on the
/// interface and to the address of the tunnel; after the last one the name
/// servers, if there are any; else the traffic.
pub open spec fn deals_with(
    step: StepView,
    at: int,
    alias: Seq<char>,
    config: VpnConfigView,
    ip: Seq<char>,
) -> bool {
    &&& step.state.next_route == at
    &&& at < config.split_routes.len() ==> step.action == ActionView::AddSplitRoute(
        alias,
        config.split_routes[at].0,
        config.split_routes[at].1,
        ip,
    ) && step.state.phase == Phase::SplitRoute
    &&& at >= config.split_routes.len() && config.dns_servers.len() > 0 ==> step.action
        == ActionView::ApplyDns(alias) && step.state.phase == Phase::SplitDns
    &&& at >= config.split_routes.len() && config.dns_servers.len() == 0 ==> step.action is StartIo
        && step.state.phase == Phase::Io
}

/// Where networks go through the tunnel one by one, each of them is asked for
/// once and in order, whether the one before it succeeded or not, and those
/// that succeeded are counted. Then come the name servers, if there are any,
/// and, whether they could be set or not, the rule for the domain of the
/// configuration, if it names one. The traffic starts only after that.
pub proof fn law_split_tunnel_is_set_up(state: ConnectingView, outcome: OutcomeView)
    requires
        is_awaited(state.phase, outcome),
    ensures
        ({
            let step = after_outcome(state, outcome);
            let next = step.state.phase;
            &&& outcome matches OutcomeView::Text(alias) ==> (state.phase == Phase::Alias
                && !state.full_tunnel ==> deals_with(
                step,
                0,
                alias,
                state.config,
                state.assigned_ip,
            ) && step.state.alias == alias && step.state.ok_routes == 0)
            &&& state.phase == Phase::SplitRoute && outcome is Route ==> deals_with(
                step,
                state.next_route as int + 1,
                state.alias,
                state.config,
                state.assigned_ip,
            ) && step.state.ok_routes == state.ok_routes + 1
            &&& state.phase == Phase::SplitRoute && outcome is Failed ==> deals_with(
                step,
                state.next_route as int + 1,
                state.alias,
                state.config,
                state.assigned_ip,
            ) && step.state.ok_routes == state.ok_routes
            &&& state.phase == Phase::SplitDns && (outcome is Dns || outcome is Failed) ==> (
            state.config.dns_suffix matches Some(suffix) ==> (suffix.len() > 0 ==> step.action
                == ActionView::AddRule(suffix) && next == Phase::SplitRule))
            &&& state.phase == Phase::SplitDns && (outcome is Dns || outcome is Failed) && !(
            state.config.dns_suffix matches Some(suffix) && suffix.len() > 0) ==> step.action
                is StartIo && next == Phase::Io
            &&& state.phase == Phase::SplitRule && (outcome is Rule || outcome is Failed)
                ==> step.action is StartIo && next == Phase::Io
        }),
{
}

/// The exchange of packets is started at the end of the work on the network
/// settings and nowhere else: after the rule for names, or where there is
/// nothing left to set.
pub proof fn law_traffic_starts_last(state: ConnectingView, outcome: OutcomeView)
    requires
        state.sound(),
        is_awaited(state.phase, outcome),
        after_outcome(state, outcome).action is StartIo,
    ensures
        ({
            let all_routed = state.next_route + 1 >= state.config.split_routes.len();
            let servers = state.config.dns_servers.len();
            ||| state.phase == Phase::Tun && !state.windows
            ||| state.phase == Phase::Alias && !state.full_tunnel
                && state.config.split_routes.len() == 0 && servers == 0
            ||| state.phase == Phase::SplitRoute && all_routed && servers == 0
            ||| state.phase == Phase::SplitDns && !(state.config.dns_suffix matches Some(suffix)
                && suffix.len() > 0)
            ||| state.phase == Phase::SplitRule
            ||| state.phase == Phase::Halves && servers == 0
            ||| state.phase == Phase::FullRule
        }),
{
}

/// Once packets are exchanged the session is up and stays up: what follows is
/// saving, each piece after the other, and a failure there only skips what
/// depends on it.
pub proof fn law_saving_follows_in_order(state: ConnectingView, outcome: OutcomeView)
    requires
        is_awaited(state.phase, outcome),
        !(outcome is Unheard),
    ensures
        ({
            let step = after_outcome(state, outcome);
            let next = step.state.phase;
            &&& state.phase == Phase::Io && state.remember ==> step.action is SaveCredentials
                && next == Phase::Keyring
            &&& state.phase == Phase::Io && !state.remember ==> step.action is WriteSnapshot
                && next == Phase::Snapshot
            &&& state.phase == Phase::Keyring && outcome is Done ==> step.action is WriteMeta
                && next == Phase::Meta
            &&& state.phase == Phase::Keyring && outcome is Failed ==> step.action is WriteSnapshot
                && next == Phase::Snapshot
            &&& state.phase == Phase::Meta ==> step.action is WriteSnapshot && next
                == Phase::Snapshot
            &&& state.phase == Phase::Snapshot ==> step.action is Finish && next == Phase::Ended
        }),
{
}

/// The phases whose failure ends the session.
pub open spec fn is_needed(phase: Phase) -> bool {
    place(phase) <= 9 || 11 <= place(phase) <= 14
}

/// A failure up to the interface, or in the routes that keep everything in
/// the tunnel, ends the session with its words at the end of the reason; any
/// other failure does not. A user who cannot be told ends it too, with those
/// words alone.
pub proof fn law_needed_work_fails_the_session(state: ConnectingView, outcome: OutcomeView)
    requires
        state.sound(),
        is_awaited(state.phase, outcome),
    ensures
        after_outcome(state, outcome).action is GiveUp <==> outcome is Unheard || outcome is Failed
            && is_needed(state.phase),
        outcome matches OutcomeView::Unheard(e) ==> after_outcome(state, outcome).action
            == ActionView::GiveUp(e),
        outcome matches OutcomeView::Failed(e) ==> (is_needed(state.phase) ==> (after_outcome(
            state,
            outcome,
        ).action matches ActionView::GiveUp(why) && why.len() >= e.len() && why.skip(
            why.len() - e.len(),
        ) == e)),
{
    if let OutcomeView::Failed(e) = outcome {
        if let Some(words) = failure_words(state.phase) {
            assert((words + e).skip((words + e).len() - e.len()) =~= e);
        }
    }
}

/// What the user asked for never changes on the way, and the configuration,
/// the addresses and the name of the interface change only when they come in.
pub proof fn law_session_keeps_what_it_knows(state: ConnectingView, outcome: OutcomeView)
    requires
        is_awaited(state.phase, outcome),
    ensures
        ({
            let later = after_outcome(state, outcome).state;
            &&& later.gateway == state.gateway && later.port == state.port
            &&& later.remember == state.remember && later.windows == state.windows
            &&& later.full_tunnel == state.full_tunnel
            &&& !(outcome is Config) ==> later.config == state.config
            &&& !(outcome is Text && state.phase == Phase::Ipcp) ==> later.assigned_ip
                == state.assigned_ip
            &&& !(outcome is Text && state.phase == Phase::Alias) ==> later.alias == state.alias
            &&& !(outcome is Text && state.phase == Phase::GatewayIp) ==> later.vpn_ip
                == state.vpn_ip
        }),
{
}

/// All that is done at once is telling the user.
pub open spec fn only_tells(effects: Seq<EffectView>) -> bool {
    forall|i: int| 0 <= i < effects.len() ==> (#[trigger] effects[i]) is Log
}

/// A new session begins from nothing: what is in place is undone, which is
/// done on Windows, an exchange of packets is stopped, and the user sees that
/// the login goes on, with the gateway and the port.
pub proof fn law_session_begins_from_nothing(state: ConnectingView)
    ensures
        connect_begun(state).action is CreateClient,
        connect_begun(state).state == (ConnectingView { phase: Phase::Client, ..state }),
        connect_begun(state).effects.contains(EffectView::UndoNetwork) <==> state.windows,
        connect_begun(state).effects.contains(EffectView::StopIo),
        connect_begun(state).effects.contains(EffectView::Status(StatusView::Authenticating)),
        connect_begun(state).effects.last() == EffectView::Log(
            "Connessione a "@ + state.gateway + ":"@ + numbers::decimal(state.port as nat)
                + "..."@,
        ),
{
    let effects = connect_begun(state).effects;
    let n = effects.len() as int;
    assert(effects[n - 3] == EffectView::StopIo);
    assert(effects[n - 2] == EffectView::Status(StatusView::Authenticating));
    if state.windows {
        assert(effects[0] == EffectView::UndoNetwork);
    }
}

/// What is done at once besides telling the user: after the login the session
/// is shown as connecting, and a user who is not to be remembered is
/// forgotten; before the configuration is fetched the remarks are collected;
/// once packets are exchanged the session is shown as up.
pub proof fn law_effects_of_a_step(state: ConnectingView, outcome: OutcomeView)
    requires
        is_awaited(state.phase, outcome),
    ensures
        ({
            let effects = after_outcome(state, outcome).effects;
            let login = state.phase == Phase::Login && outcome is Text;
            let fetch = state.phase == Phase::Allocation && outcome is Done;
            let up = state.phase == Phase::Io && outcome is Done;
            &&& !login && !fetch && !up ==> only_tells(effects)
            &&& login ==> effects.contains(EffectView::Status(StatusView::Connecting))
            &&& login ==> (effects.contains(EffectView::ForgetUser) <==> !state.remember)
            &&& fetch ==> effects.contains(EffectView::CollectRemarks)
            &&& up ==> effects.contains(EffectView::Status(StatusView::Connected))
        }),
{
    let effects = after_outcome(state, outcome).effects;
    match outcome {
        OutcomeView::Text(s) => {
            if state.phase == Phase::Login {
                let n = effects.len() as int;
                assert(effects[n - 2] == EffectView::Status(StatusView::Connecting));
                if !state.remember {
                    assert(effects[1] == EffectView::ForgetUser);
                }
            }
        },
        OutcomeView::Done => {
            if state.phase == Phase::Allocation {
                assert(effects[1] == EffectView::CollectRemarks);
            }
            if state.phase == Phase::Io {
                assert(effects[0] == EffectView::Status(StatusView::Connected));
            }
        },
        OutcomeView::Config(c) => {
            let lines = server_lines(c.dns_servers);
            assert forall|i: int| 0 <= i < effects.len() implies (#[trigger] effects[i])
                is Log by {
                if 1 <= i < lines.len() + 1 {
                    assert(effects[i] == lines[i - 1]);
                }
            }
        },
        _ => {},
    }
}

/// The user is told the address of the configuration, and each of its name
/// servers, in order.
pub proof fn law_configuration_is_told(state: ConnectingView, config: VpnConfigView)
    ensures
        after_config(state, config).effects.len() == config.dns_servers.len() + 2,
        after_config(state, config).effects[0] == EffectView::Log(
            "IP assegnato: "@ + config.assigned_ip,
        ),
        forall|i: int|
            0 <= i < config.dns_servers.len() ==> after_config(state, config).effects[i + 1]
                == EffectView::Log("DNS server: "@ + #[trigger] config.dns_servers[i]),
{
    let all = after_config(state, config).effects;
    let lines = server_lines(config.dns_servers);
    assert forall|i: int| 0 <= i < config.dns_servers.len() implies all[i + 1] == EffectView::Log(
        "DNS server: "@ + #[trigger] config.dns_servers[i],
    ) by {
        assert(all[i + 1] == lines[i]);
    }
}

/// After the last network the user is told how many of all networks have a
/// route, if any has.
pub proof fn law_networks_are_counted_for_the_user(state: ConnectingView)
    requires
        0 < state.ok_routes,
        0 < state.config.split_routes.len() <= state.next_route,
    ensures
        split_next(state).effects[0] == EffectView::Log(
            "Aggiunte "@ + numbers::decimal(state.ok_routes) + "/"@ + numbers::decimal(
                state.config.split_routes.len(),
            ) + " route split su «"@ + state.alias + "» (nexthop "@ + state.assigned_ip + ")."@,
        ),
{
}

/// Giving up and disconnecting both undo what is in place, which is done on
/// Windows, stop the exchange of packets, forget that a session is up, and
/// show the user that there is none; the network settings are undone before
/// the packets stop.
pub proof fn law_end_of_a_session(windows: bool)
    ensures
        ends_session(failure_effects(windows), windows),
        ends_session(disconnect_effects(windows), windows),
        disconnect_effects(windows)[0] == EffectView::Status(StatusView::Disconnecting),
{
    let f = failure_effects(windows);
    let d = disconnect_effects(windows);
    assert(f[0] == EffectView::ForgetSnapshot);
    assert(f[f.len() - 2] == EffectView::StopIo);
    assert(f[f.len() - 1] == EffectView::Status(StatusView::Disconnected));
    assert(d[d.len() - 1] == EffectView::ForgetSnapshot);
    assert(d[d.len() - 3] == EffectView::Status(StatusView::Disconnected));
    assert(d[d.len() - 4] == EffectView::StopIo);
    if windows {
        assert(f[1] == EffectView::UndoNetwork);
        assert(d[2] == EffectView::UndoNetwork);
    }
}

/// The effects end a session.
pub open spec fn ends_session(effects: Seq<EffectView>, windows: bool) -> bool {
    &&& effects.contains(EffectView::UndoNetwork) <==> windows
    &&& effects.contains(EffectView::StopIo)
    &&& effects.contains(EffectView::ForgetSnapshot)
    &&& effects.contains(EffectView::Status(StatusView::Disconnected))
    &&& forall|i: int, j: int|
        0 <= i < effects.len() && 0 <= j < effects.len() && (#[trigger] effects[i])
            is UndoNetwork && (#[trigger] effects[j]) is StopIo ==> i < j
}

/// The place of a phase in the order in which they come.
pub open spec fn place(phase: Phase) -> nat {
    match phase {
        Phase::Client => 0,
        Phase::Login => 1,
        Phase::Allocation => 2,
        Phase::ConfigTls => 3,
        Phase::Config => 4,
        Phase::TunnelTls => 5,
        Phase::Tunnel => 6,
        Phase::Lcp => 7,
        Phase::Ipcp => 8,
        Phase::Tun => 9,
        Phase::Alias => 10,
        Phase::GatewayIp => 11,
        Phase::Wan => 12,
        Phase::HostRoute => 13,
        Phase::Halves => 14,
        Phase::FullDns => 15,
        Phase::FullRule => 16,
        Phase::SplitRoute => 17,
        Phase::SplitDns => 18,
        Phase::SplitRule => 19,
        Phase::Io => 20,
        Phase::Keyring => 21,
        Phase::Meta => 22,
        Phase::Snapshot => 23,
        Phase::Ended => 24,
    }
}

/// A session comes to its end: each outcome takes it to a later phase, or on
/// to the next network. It has ended just when there is nothing more to do.
pub proof fn law_connect_advances(state: ConnectingView, outcome: OutcomeView)
    requires
        state.sound(),
        is_awaited(state.phase, outcome),
    ensures
        ({
            let step = after_outcome(state, outcome);
            &&& place(step.state.phase) > place(state.phase) || (step.state.phase == state.phase
                && state.phase == Phase::SplitRoute && step.state.next_route == state.next_route + 1
                && step.state.config == state.config)
            &&& step.state.phase == Phase::Ended <==> step.action is Finish || step.action is GiveUp
        }),
{
    match outcome {
        OutcomeView::Text(s) => {
            if state.phase == Phase::Alias {
                assert(place(after_alias(state, s).state.phase) > 10);
            }
        },
        OutcomeView::Route(r) => {
            assert(place(after_route(state, r).state.phase) >= place(state.phase));
        },
        OutcomeView::Failed(e) => {
            assert(place(after_failure(state, e).state.phase) >= place(state.phase));
        },
        _ => {},
    }
}

/// A new session knows what the user asked for and what is in place, and
/// nothing else yet.
pub proof fn law_new_session_knows_the_wish(
    gateway: Seq<char>,
    port: u16,
    remember: bool,
    windows: bool,
    full_tunnel: bool,
    net: NetStateView,
)
    ensures
        ({
            let s = fresh(gateway, port, remember, windows, full_tunnel, net);
            &&& s.gateway == gateway && s.port == port && s.remember == remember
            &&& s.windows == windows && s.full_tunnel == full_tunnel && s.net == net
            &&& s.config.split_routes.len() == 0 && s.config.dns_servers.len() == 0
            &&& s.next_route == 0 && s.ok_routes == 0
        }),
{
}

/// Of the cookies no more than twenty bytes get into the log.
pub proof fn law_cookies_are_cut_for_the_log(head: Seq<char>, rest: Seq<char>)
    requires
        text::byte_len(head) == 20,
    ensures
        cookie_preview(head + rest) == head,
{
    lemma_head_is_counted(head, rest);
    assert((head + rest).take(head.len() as int) =~= head);
}

/// The bytes of a start of a text count its characters.
proof fn lemma_head_is_counted(head: Seq<char>, rest: Seq<char>)
    ensures
        text::chars_in_bytes(head + rest, text::byte_len(head) as int) == Some(head.len() as int),
    decreases head.len(),
{
    let s = head + rest;
    if head.len() > 0 {
        text::lemma_byte_len_skip(head);
        assert(s.skip(1) =~= head.skip(1) + rest);
        assert(s[0] == head[0]);
        lemma_head_is_counted(head.skip(1), rest);
    }
}

/// The user is told what was found and what was agreed on, each with the very
/// value.
pub proof fn law_findings_are_told(state: ConnectingView, outcome: OutcomeView)
    requires
        is_awaited(state.phase, outcome),
    ensures
        ({
            let told = after_outcome(state, outcome).effects;
            &&& outcome matches OutcomeView::Text(s) ==> {
                &&& state.phase == Phase::Login ==> told[0] == EffectView::Log(
                    "Autenticazione riuscita. Cookie: "@ + cookie_preview(s) + "..."@,
                )
                &&& state.phase == Phase::Ipcp ==> told[0] == EffectView::Log(
                    "PPP ok. Local IP: "@ + s,
                )
                &&& state.phase == Phase::Tun ==> told[0] == EffectView::Log(
                    "TUN "@ + s + " created"@,
                )
                &&& state.phase == Phase::Alias ==> told[0] == EffectView::Log(
                    "Alias interfaccia Windows (netsh): «"@ + s + "»"@,
                )
                &&& state.phase == Phase::GatewayIp ==> told[0] == EffectView::Log(
                    "Server VPN risolto: "@ + s
                        + " (route /32 sulla WAN per evitare loop TLS)."@,
                )
            }
            &&& outcome matches OutcomeView::Wan(w) ==> told[0] == EffectView::Log(
                "WAN per pin del server: alias «"@ + w.alias + "», next-hop «"@ + w.next_hop
                    + "», if_index "@ + numbers::decimal(w.if_index as nat) + "."@,
            )
            &&& outcome matches OutcomeView::Routes(rs) ==> told[0] == EffectView::Log(
                "Full-tunnel: "@ + numbers::decimal(rs.len())
                    + " route (0.0.0.0/1 + 128.0.0.0/1) su «"@ + state.alias + "» nexthop "@
                    + state.assigned_ip + "."@,
            )
            &&& outcome is Dns ==> told[0] == EffectView::Log(
                "DNS applicati sulla TUN ("@ + state.alias + "): "@ + debug_list(
                    state.config.dns_servers,
                ),
            )
            &&& outcome matches OutcomeView::Rule(r) ==> (r.namespace.len() > 0 ==> told[0]
                == EffectView::Log(
                (if state.phase == Phase::FullRule {
                    "NRPT catch-all («.») → server DNS "@
                } else {
                    "NRPT ("@ + r.namespace + ") → server DNS "@
                }) + debug_list(state.config.dns_servers),
            ))
        }),
{
}

/// The user is told every failure that the session comes up in spite of, with
/// the words of the failure, and of a network which one it was.
pub proof fn law_failures_are_told(state: ConnectingView, e: Seq<char>)
    requires
        state.sound(),
        is_awaited(state.phase, OutcomeView::Failed(e)),
        !is_needed(state.phase),
    ensures
        ({
            let told = after_outcome(state, OutcomeView::Failed(e)).effects;
            &&& told.len() > 0
            &&& told[0] matches EffectView::Log(line) && line.len() >= e.len() && line.skip(
                line.len() - e.len(),
            ) == e
            &&& state.phase == Phase::SplitRoute ==> told[0] == EffectView::Log(
                "Route "@ + state.config.split_routes[state.next_route as int].0 + " mask "@
                    + state.config.split_routes[state.next_route as int].1 + ": "@ + e,
            )
        }),
{
    let told = after_outcome(state, OutcomeView::Failed(e)).effects;
    if let EffectView::Log(line) = told[0] {
        assert forall|k: int| 0 <= k < e.len() implies line[line.len() - e.len() + k] == e[k] by {}
        assert(line.skip(line.len() - e.len()) =~= e);
    }
}

/// The words in front of the reason say what failed.
pub proof fn law_reason_says_what_failed(state: ConnectingView, e: Seq<char>)
    requires
        is_awaited(state.phase, OutcomeView::Failed(e)),
    ensures
        ({
            let action = after_outcome(state, OutcomeView::Failed(e)).action;
            &&& state.phase == Phase::Client ==> action == ActionView::GiveUp(
                "Failed to create client: "@ + e,
            )
            &&& state.phase == Phase::Login ==> action == ActionView::GiveUp(
                "Autenticazione fallita: "@ + e,
            )
            &&& state.phase == Phase::Allocation ==> action == ActionView::GiveUp(
                "Allocazione VPN fallita: "@ + e,
            )
            &&& state.phase == Phase::ConfigTls ==> action == ActionView::GiveUp(
                "TLS dati (XML) fallita: "@ + e,
            )
            &&& state.phase == Phase::Config ==> action == ActionView::GiveUp(
                "Config sulla sessione TLS: "@ + e,
            )
            &&& state.phase == Phase::TunnelTls ==> action == ActionView::GiveUp(
                "TLS tunnel (dopo XML) fallita: "@ + e,
            )
            &&& state.phase == Phase::Tunnel ==> action == ActionView::GiveUp(
                "Tunnel start failed: "@ + e,
            )
            &&& state.phase == Phase::Lcp ==> action == ActionView::GiveUp("LCP failed: "@ + e)
            &&& state.phase == Phase::Ipcp ==> action == ActionView::GiveUp("IPCP failed: "@ + e)
            &&& state.phase == Phase::Tun ==> action == ActionView::GiveUp(
                "TUN creation failed: "@ + e,
            )
            &&& state.phase == Phase::GatewayIp ==> action == ActionView::GiveUp(
                "Full-tunnel: "@ + e,
            )
            &&& state.phase == Phase::Wan ==> action == ActionView::GiveUp(
                "Full-tunnel (default WAN): "@ + e,
            )
            &&& state.phase == Phase::HostRoute ==> action == ActionView::GiveUp(
                "Full-tunnel (route host verso WAN): "@ + e,
            )
            &&& state.phase == Phase::Halves ==> action == ActionView::GiveUp(
                "Full-tunnel (half-default sulla TUN): "@ + e,
            )
        }),
{
}

} // verus!
