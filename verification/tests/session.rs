use vpn_core::auth::{AuthError, VpnConfig};
use vpn_core::build_env::{compiler_settings, parse_polivpn_env_file, BuildVars};
use vpn_core::connect::{
    clean_up_after_failure, resume_after_restart, run_user_disconnect, Action, ConnectStep,
    Connecting, Effect, Outcome,
};
use vpn_core::error_chain::format_error_chain;
use vpn_core::net_windows::{InstalledDns, InstalledRoute, NrptRule, WanDefault};
use vpn_core::session::{
    brand_title, close_needs_decision, credentials_payload, get_install_defaults,
    read_credentials, remembered_user, store_log, vpn_full_tunnel, vpn_status_tag, LogEntry,
    SessionMeta, VpnStatus,
};
use vpn_core::snapshot::{restore_into_state, write_active_session, NetState, Restored};
use vpn_core::teardown::{take_undo_list, undo_finished, Note, Undo};
use vpn_core::{tunnel_mtu_from_env, VpnError, DEFAULT_TUNNEL_MTU};

fn some(s: &str) -> Option<String> {
    Some(s.to_string())
}

fn route(prefix: &str) -> InstalledRoute {
    InstalledRoute { prefix_cidr: prefix.to_string(), iface_alias: "tun".to_string() }
}

fn shown(effects: &[Effect]) -> Vec<String> {
    effects
        .iter()
        .map(|e| match e {
            Effect::Log(s) => s.clone(),
            Effect::Status(s) => format!("<{}>", vpn_status_tag(s)),
            Effect::UndoNetwork => "<undo>".to_string(),
            Effect::StopIo => "<stop>".to_string(),
            Effect::ForgetUser => "<forget user>".to_string(),
            Effect::ForgetSnapshot => "<forget snapshot>".to_string(),
            Effect::CollectRemarks => "<remarks>".to_string(),
        })
        .collect()
}

fn strings(list: &[&str]) -> Vec<String> {
    list.iter().map(|s| s.to_string()).collect()
}

#[test]
fn receive_units() {
    assert_eq!(tunnel_mtu_from_env(&None), DEFAULT_TUNNEL_MTU);
    assert_eq!(tunnel_mtu_from_env(&some(" 1400 ")), 1400);
    assert_eq!(tunnel_mtu_from_env(&some("576")), 576);
    assert_eq!(tunnel_mtu_from_env(&some("1500")), 1500);
    assert_eq!(tunnel_mtu_from_env(&some("575")), 1300);
    assert_eq!(tunnel_mtu_from_env(&some("1501")), 1300);
    assert_eq!(tunnel_mtu_from_env(&some("70000")), 1300);
    assert_eq!(tunnel_mtu_from_env(&some("x")), 1300);
}

#[test]
fn words_of_a_failed_session() {
    let m = |e: VpnError| e.message();
    assert_eq!(
        m(VpnError::Auth(AuthError::NoCookie)),
        "Authentication error: No SVPNCOOKIE in response"
    );
    assert_eq!(m(VpnError::Tls("x".to_string())), "TLS error: x");
    assert_eq!(m(VpnError::Tun("x".to_string())), "TUN device error: x");
    assert_eq!(m(VpnError::Ppp("x".to_string())), "PPP negotiation error: x");
    assert_eq!(m(VpnError::Io("x".to_string())), "IO error: x");
    assert_eq!(m(VpnError::Route("x".to_string())), "Route configuration error: x");
}

#[test]
fn errors_with_their_causes() {
    assert_eq!(format_error_chain(&strings(&["outer", "middle", "inner"])), "outer: middle: inner");
    assert_eq!(format_error_chain(&strings(&["only"])), "only");
}

#[test]
fn statuses() {
    assert_eq!(vpn_status_tag(&VpnStatus::Disconnecting), "Disconnecting");
    assert_eq!(vpn_status_tag(&VpnStatus::Error("x".to_string())), "Error");
    assert!(close_needs_decision(&VpnStatus::Connected));
    assert!(!close_needs_decision(&VpnStatus::Connecting));
}

#[test]
fn the_log_keeps_the_newest_lines() {
    let mut log = Vec::new();
    for i in 0..1003 {
        store_log(
            &mut log,
            LogEntry { timestamp: "12:00:00".to_string(), message: format!("{}", i) },
        );
    }
    assert_eq!(log.len(), 1000);
    assert_eq!(log[0].message, "3");
    assert_eq!(log[999].message, "1002");
}

#[test]
fn settings_of_an_installation() {
    assert!(vpn_full_tunnel(&None));
    assert!(vpn_full_tunnel(&some("FULL")));
    assert!(!vpn_full_tunnel(&some(" Split ")));
    assert_eq!(brand_title(&None), "Connessione VPN");
    assert_eq!(brand_title(&some("  ")), "Connessione VPN");
    assert_eq!(brand_title(&some(" Acme ")), "Acme");
    let d = get_install_defaults(&some(" https://vpn.example.com/ "), &some(" 8443 "), &None);
    assert_eq!(d.gateway, some("vpn.example.com"));
    assert_eq!(d.port, Some(8443));
    assert_eq!(d.title, "Connessione VPN");
    let d = get_install_defaults(&some("qualità.it"), &None, &None);
    assert_eq!(d.gateway, some("qualità.it"));
    let d = get_install_defaults(&some(" "), &some("70000"), &some("T"));
    assert_eq!((d.gateway, d.port), (None, None));
}

#[test]
fn saved_credentials_are_read_back() {
    let payload = credentials_payload("vpn \"x\"", 443, "p\\ä\n");
    assert!(payload.starts_with('{') && payload.contains("\"port\":443"));
    let c = match read_credentials("mario", &payload) {
        Ok(c) => c,
        Err(m) => panic!("{}", m),
    };
    assert_eq!(c.username, "mario");
    assert_eq!(c.gateway, "vpn \"x\"");
    assert_eq!(c.port, Some(443));
    assert_eq!(c.password, "p\\ä\n");
    assert!(c.remember_credentials);
}

#[test]
fn credentials_in_other_forms() {
    let read = |payload: &str| match read_credentials("u", payload) {
        Ok(c) => (c.gateway, c.port, c.password),
        Err(m) => panic!("{}", m),
    };
    assert_eq!(
        read("{\"gateway\": 5, \"port\": \"8443\"}"),
        ("".to_string(), Some(8443), "".to_string())
    );
    assert_eq!(read("{\"port\": 65979}").1, Some(443));
    assert_eq!(read("{\"port\": -1}").1, None);
    assert_eq!(read("{\"port\": \"x\"}").1, None);
    assert_eq!(read("[]").1, None);
    assert!(read_credentials("u", "{").is_err());
    assert_eq!(
        remembered_user(&Some(SessionMeta { username: "u".to_string(), remember_credentials: true })),
        some("u")
    );
    assert_eq!(
        remembered_user(&Some(SessionMeta { username: "u".to_string(), remember_credentials: false })),
        None
    );
    assert_eq!(remembered_user(&None), None);
}

fn everything() -> NetState {
    NetState {
        routes: vec![route("10.0.0.0/8"), route("11.0.0.0/8")],
        dns: Some(InstalledDns { iface_alias: "tun".to_string(), had_servers: true }),
        nrpt: vec![NrptRule { namespace: ".corp".to_string() }],
        wan_host: Some(route("1.2.3.4/32")),
    }
}

#[test]
fn a_snapshot_is_read_back() {
    let file = write_active_session(&everything());
    assert_eq!((file.v, file.active), (1, true));
    let net = match restore_into_state(&Some(file)) {
        Restored::Active(net) => net,
        _ => panic!("not active"),
    };
    let prefixes: Vec<&str> = net.routes.iter().map(|r| r.prefix_cidr.as_str()).collect();
    assert_eq!(prefixes, vec!["10.0.0.0/8", "11.0.0.0/8"]);
    assert!(net.dns.unwrap().had_servers);
    assert_eq!(net.nrpt[0].namespace, ".corp");
    assert_eq!(net.wan_host.unwrap().prefix_cidr, "1.2.3.4/32");
}

#[test]
fn a_snapshot_of_no_use_goes() {
    assert!(matches!(restore_into_state(&None), Restored::Nothing));
    let mut file = write_active_session(&NetState::new());
    file.active = false;
    assert!(matches!(restore_into_state(&Some(file)), Restored::Discard));
    let mut file = write_active_session(&NetState::new());
    file.windows = None;
    assert!(matches!(restore_into_state(&Some(file)), Restored::Discard));
}

#[test]
fn everything_is_undone_and_the_pin_goes_last() {
    let mut net = everything();
    let list = take_undo_list(&mut net);
    let operations: Vec<String> = list.iter().map(|u| u.command().unwrap().operation).collect();
    assert_eq!(
        operations,
        strings(&[
            "Rimuovi regole NRPT DNS: dominio «.corp»",
            "Ripristina DNS da DHCP su «tun»",
            "Elimina route «10.0.0.0/8» da «tun»",
            "Elimina route «11.0.0.0/8» da «tun»",
            "Elimina route «1.2.3.4/32» da «tun»",
        ])
    );
    assert!(matches!(list[4], Undo::Pin(_)));
    assert!(net.routes.is_empty() && net.dns.is_none() && net.nrpt.is_empty() && net.wan_host.is_none());
    assert!(take_undo_list(&mut net).is_empty());
}

#[test]
fn what_is_said_after_undoing() {
    let said = |u: Undo, e: &str| match undo_finished(&u, Err(e.to_string())) {
        Some(Note::Remark(s)) => (true, s),
        Some(Note::Line(s)) => (false, s),
        None => panic!("nothing said"),
    };
    let rule = || Undo::Rule(NrptRule { namespace: ".c".to_string() });
    let dns = || Undo::Dns(InstalledDns { iface_alias: "tun".to_string(), had_servers: true });
    assert_eq!(said(rule(), "not found"), (false, "NRPT remove .c: not found".to_string()));
    assert_eq!(said(dns(), "x"), (false, "Clear DNS «tun»: x".to_string()));
    assert!(said(dns(), "not found").0);
    assert_eq!(said(Undo::Route(route("p")), "x"), (false, "Del route p: x".to_string()));
    assert_eq!(
        said(Undo::Pin(route("p")), "x"),
        (false, "Del route pin VPN sulla WAN (p/tun): x".to_string())
    );
    assert_eq!(
        said(Undo::Pin(route("p")), "Not Found"),
        (true, "[net] Avviso: route assente o già rimossa durante la pulizia (Not Found)".to_string())
    );
    assert!(undo_finished(&rule(), Ok("".to_string())).is_none());
}

fn config(servers: &[&str], suffix: Option<&str>, routes: &[(&str, &str)]) -> VpnConfig {
    VpnConfig {
        assigned_ip: "10.9.0.2".to_string(),
        dns_servers: strings(servers),
        dns_suffix: suffix.map(|s| s.to_string()),
        split_routes: routes.iter().map(|(n, m)| (n.to_string(), m.to_string())).collect(),
    }
}

/// Takes a session to the point where its interface has been created.
fn up_to_tun(c: &mut Connecting, cfg: VpnConfig) -> ConnectStep {
    let first = c.begin();
    assert!(matches!(first.action, Action::CreateClient));
    assert!(matches!(c.proceed(Outcome::Done).action, Action::Login));
    let step = c.proceed(Outcome::Text("SVPNCOOKIE=0123456789abcdef".to_string()));
    assert_eq!(
        shown(&step.effects)[0],
        "Autenticazione riuscita. Cookie: SVPNCOOKIE=012345678..."
    );
    assert!(matches!(step.action, Action::Allocate));
    let step = c.proceed(Outcome::Done);
    assert_eq!(shown(&step.effects), strings(&["Scaricamento configurazione VPN...", "<remarks>"]));
    assert!(matches!(step.action, Action::ConnectForConfig));
    assert!(matches!(c.proceed(Outcome::Done).action, Action::FetchConfig));
    assert!(matches!(c.proceed(Outcome::Config(cfg)).action, Action::ConnectForTunnel));
    assert!(matches!(c.proceed(Outcome::Done).action, Action::OpenTunnel));
    assert!(matches!(c.proceed(Outcome::Done).action, Action::NegotiateLcp));
    let step = c.proceed(Outcome::Done);
    assert!(matches!(step.action, Action::NegotiateIpcp(ip) if ip == "10.9.0.2"));
    let step = c.proceed(Outcome::Text("10.9.0.3".to_string()));
    assert!(matches!(step.action, Action::CreateTun(ip) if ip == "10.9.0.3"));
    c.proceed(Outcome::Text("tun0".to_string()))
}

#[test]
fn a_session_without_changes_to_the_network() {
    let mut c = Connecting::new("vpn", 443, false, false, true, NetState::new());
    let step = c.begin();
    assert_eq!(
        shown(&step.effects),
        strings(&["<stop>", "<Authenticating>", "Connessione a vpn:443..."])
    );
    let mut c = Connecting::new("vpn", 443, false, false, true, NetState::new());
    let step = up_to_tun(&mut c, config(&[], None, &[("10.0.0.0", "255.0.0.0")]));
    assert_eq!(
        shown(&step.effects),
        strings(&[
            "TUN tun0 created",
            "Route split: su questa piattaforma usa vpn-cli / vpn-helper manualmente.",
            "Avvio scambio traffico IP nel tunnel..."
        ])
    );
    assert!(matches!(step.action, Action::StartIo));
    let step = c.proceed(Outcome::Done);
    assert_eq!(shown(&step.effects), strings(&["<Connected>", "VPN connessa!"]));
    assert!(matches!(step.action, Action::WriteSnapshot));
    assert!(matches!(c.proceed(Outcome::Done).action, Action::Finish));
}

#[test]
fn a_session_with_everything_through_the_tunnel() {
    let mut c = Connecting::new("vpn", 443, true, true, true, NetState::new());
    let step = up_to_tun(&mut c, config(&["10.0.0.53", "a\"b"], None, &[]));
    assert!(matches!(step.action, Action::ResolveAlias(n) if n == "tun0"));
    let step = c.proceed(Outcome::Text("Tunnel".to_string()));
    assert_eq!(
        shown(&step.effects),
        strings(&[
            "Alias interfaccia Windows (netsh): «Tunnel»",
            "Modalità full-tunnel IPv4 attiva."
        ])
    );
    assert!(matches!(step.action, Action::ResolveGateway(h) if h == "vpn"));
    let step = c.proceed(Outcome::Text("1.2.3.4".to_string()));
    assert!(matches!(step.action, Action::ReadWan));
    let wan = WanDefault {
        next_hop: "192.168.1.1".to_string(),
        if_index: 7,
        alias: "Ethernet".to_string(),
    };
    let step = c.proceed(Outcome::Wan(wan));
    assert_eq!(
        shown(&step.effects),
        strings(&["WAN per pin del server: alias «Ethernet», next-hop «192.168.1.1», if_index 7."])
    );
    assert!(matches!(step.action, Action::AddHostRoute(ip, w) if ip == "1.2.3.4" && w.if_index == 7));
    let step = c.proceed(Outcome::Route(route("1.2.3.4/32")));
    assert!(matches!(step.action, Action::AddHalves(a, ip) if a == "Tunnel" && ip == "10.9.0.3"));
    let step = c.proceed(Outcome::Routes(vec![route("0.0.0.0/1"), route("128.0.0.0/1")]));
    assert_eq!(
        shown(&step.effects),
        strings(&["Full-tunnel: 2 route (0.0.0.0/1 + 128.0.0.0/1) su «Tunnel» nexthop 10.9.0.3."])
    );
    assert!(matches!(step.action, Action::ApplyDns(a) if a == "Tunnel"));
    let dns = InstalledDns { iface_alias: "Tunnel".to_string(), had_servers: true };
    let step = c.proceed(Outcome::Dns(dns));
    assert_eq!(
        shown(&step.effects),
        strings(&["DNS applicati sulla TUN (Tunnel): [\"10.0.0.53\", \"a\\\"b\"]"])
    );
    assert!(matches!(step.action, Action::AddRule(d) if d == "."));
    let step = c.proceed(Outcome::Rule(NrptRule { namespace: ".".to_string() }));
    assert_eq!(
        shown(&step.effects)[0],
        "NRPT catch-all («.») → server DNS [\"10.0.0.53\", \"a\\\"b\"]"
    );
    assert!(matches!(step.action, Action::StartIo));
    assert_eq!(c.net.routes.len(), 2);
    assert!(c.net.dns.is_some() && c.net.wan_host.is_some());
    assert_eq!(c.net.nrpt.len(), 1);
    assert!(matches!(c.proceed(Outcome::Done).action, Action::SaveCredentials));
    assert!(matches!(c.proceed(Outcome::Done).action, Action::WriteMeta));
    let step = c.proceed(Outcome::Failed("x".to_string()));
    assert_eq!(shown(&step.effects), strings(&["Metadati «ricorda» non salvati: x"]));
    let step = c.proceed(Outcome::Failed("y".to_string()));
    assert_eq!(shown(&step.effects), strings(&["Salvataggio stato sessione su disco fallito: y"]));
    assert!(matches!(step.action, Action::Finish));
}

#[test]
fn a_session_with_some_networks_through_the_tunnel() {
    let mut c = Connecting::new("vpn", 443, true, true, false, NetState::new());
    let nets = [("10.0.0.0", "255.0.0.0"), ("bad", "mask"), ("11.0.0.0", "255.0.0.0")];
    up_to_tun(&mut c, config(&["10.0.0.53"], Some("corp"), &nets));
    let step = c.proceed(Outcome::Text("Tunnel".to_string()));
    assert!(matches!(step.action, Action::AddSplitRoute(a, n, m, ip)
        if a == "Tunnel" && n == "10.0.0.0" && m == "255.0.0.0" && ip == "10.9.0.3"));
    let step = c.proceed(Outcome::Route(route("10.0.0.0/8")));
    assert!(matches!(step.action, Action::AddSplitRoute(_, n, _, _) if n == "bad"));
    let step = c.proceed(Outcome::Failed("no mask".to_string()));
    assert_eq!(shown(&step.effects), strings(&["Route bad mask mask: no mask"]));
    let step = c.proceed(Outcome::Route(route("11.0.0.0/8")));
    assert_eq!(
        shown(&step.effects),
        strings(&["Aggiunte 2/3 route split su «Tunnel» (nexthop 10.9.0.3)."])
    );
    assert!(matches!(step.action, Action::ApplyDns(_)));
    let step = c.proceed(Outcome::Failed("x".to_string()));
    assert_eq!(
        shown(&step.effects),
        strings(&["Apply DNS fallito (continuo senza DNS su TUN): x"])
    );
    assert!(matches!(step.action, Action::AddRule(d) if d == "corp"));
    let step = c.proceed(Outcome::Failed("x".to_string()));
    assert_eq!(shown(&step.effects)[0], "NRPT suffix «corp» fallito: x");
    assert!(matches!(step.action, Action::StartIo));
    c.proceed(Outcome::Done);
    let step = c.proceed(Outcome::Failed("x".to_string()));
    assert_eq!(
        shown(&step.effects),
        strings(&["VPN connessa, ma salvataggio portachiavi fallito: x"])
    );
    assert!(matches!(step.action, Action::WriteSnapshot));
}

#[test]
fn a_session_without_networks_or_name_servers() {
    let mut c = Connecting::new("vpn", 443, false, true, false, NetState::new());
    up_to_tun(&mut c, config(&[], Some("corp"), &[]));
    let step = c.proceed(Outcome::Text("Tunnel".to_string()));
    assert_eq!(shown(&step.effects).len(), 3);
    assert!(shown(&step.effects)[1].starts_with("Nessuna route split dall’XML: "));
    assert!(matches!(step.action, Action::StartIo));
}

#[test]
fn a_session_that_is_given_up() {
    let mut c = Connecting::new("vpn", 443, false, true, true, NetState::new());
    assert_eq!(shown(&c.begin().effects)[0], "<undo>");
    c.proceed(Outcome::Done);
    let step = c.proceed(Outcome::Failed("x".to_string()));
    assert_eq!(shown(&step.effects), strings(&["Autenticazione fallita: x"]));
    assert!(matches!(step.action, Action::GiveUp(m) if m == "Autenticazione fallita: x"));

    let mut c = Connecting::new("vpn", 443, false, true, true, NetState::new());
    up_to_tun(&mut c, config(&[], None, &[]));
    let step = c.proceed(Outcome::Unheard("gone".to_string()));
    assert!(matches!(step.action, Action::GiveUp(m) if m == "gone"));

    let mut c = Connecting::new("vpn", 443, false, true, true, NetState::new());
    up_to_tun(&mut c, config(&[], None, &[]));
    c.proceed(Outcome::Text("Tunnel".to_string()));
    let step = c.proceed(Outcome::Failed("x".to_string()));
    assert!(step.effects.is_empty());
    assert!(matches!(step.action, Action::GiveUp(m) if m == "Full-tunnel: x"));
}

#[test]
fn going_down() {
    assert_eq!(
        shown(&clean_up_after_failure(true)),
        strings(&["<forget snapshot>", "<undo>", "<stop>", "<Disconnected>"])
    );
    assert_eq!(
        shown(&clean_up_after_failure(false)),
        strings(&["<forget snapshot>", "<stop>", "<Disconnected>"])
    );
    assert_eq!(
        shown(&run_user_disconnect(true)),
        strings(&[
            "<Disconnecting>", "Disconnessione in corso...", "<undo>", "<stop>",
            "<Disconnected>", "VPN disconnessa.", "<forget snapshot>"
        ])
    );
    assert_eq!(shown(&resume_after_restart())[0], "<Connected>");
}

#[test]
fn settings_of_a_build() {
    let text = "# comment\n\n POLIVPN_DEFAULT_GATEWAY = \"vpn.example.com\" \r\nVPN_TYPE='SPLIT'\nTITLE=\nOTHER=x\nPOLIVPN_TITLE=a=b\n";
    let v = parse_polivpn_env_file(text).unwrap();
    assert_eq!(v.gateway, some("vpn.example.com"));
    assert_eq!(v.vpn_type, some("SPLIT"));
    assert_eq!(v.title, some("a=b"));
    assert_eq!((v.port.clone(), v.show_logo.clone()), (None, None));
    assert_eq!(
        compiler_settings(&v),
        strings(&[
            "cargo:rustc-env=POLIVPN_DEFAULT_GATEWAY=vpn.example.com",
            "cargo:rustc-env=POLIVPN_VPN_TYPE=SPLIT",
            "cargo:rustc-env=POLIVPN_TITLE=a=b"
        ])
    );
    assert!(parse_polivpn_env_file("no setting\nTITLE=x").is_none());
    assert!(parse_polivpn_env_file("OTHER=x").is_none());
    assert_eq!(parse_polivpn_env_file("SHOW_LOGO=\"").unwrap().show_logo, some("\""));
}

#[test]
fn later_files_win() {
    let mut v = BuildVars::new();
    v.merge(parse_polivpn_env_file("TITLE=a\nPOLIVPN_DEFAULT_PORT=1").unwrap());
    v.merge(parse_polivpn_env_file("TITLE=b\nSHOW_LOGO=0").unwrap());
    assert_eq!(v.title, some("b"));
    assert_eq!(v.port, some("1"));
    assert_eq!(v.show_logo, some("0"));
    assert!(v.gateway.is_none());
}
