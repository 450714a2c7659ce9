use vpn_core::net_command::{
    command_started, is_noise_success_stdout, is_not_found_failure, is_route_already_exists,
    log_success_stdout, report_exit, run_cmd, CmdOutcome, NetCommand,
};
use vpn_core::net_windows::{
    accept_wan_default, add_default_via_tunnel, add_host_route_via_wan, add_split_route, apply_dns,
    clear_dns, del_split_route, dns_cleared, dns_servers_summary_for_log, escape_ps_single,
    extract_iface_name_after_state, find_name_in_line, line_has_connected_state, list_interfaces,
    needs_lookup, nrpt_add, nrpt_remove, read_wan_default, resolve_gateway_ip,
    resolve_iface_alias, route_removed, wan_answer_error, Address, InstalledDns, InstalledRoute, LineName,
    LookupAnswer, NrptRule, WanDefault,
};
use vpn_core::netmask::{count_mask_bits, netmask_to_cidr};
use vpn_core::routes::{
    add_route, del_route, helper_finished, route_added, route_deleted, Platform, RouteManager,
};

fn strings(list: &[&str]) -> Vec<String> {
    list.iter().map(|s| s.to_string()).collect()
}

fn exited(success: bool, code: Option<i32>, stdout: &str, stderr: &str) -> CmdOutcome {
    CmdOutcome::Exited {
        success,
        code,
        stdout: stdout.as_bytes().to_vec(),
        stderr: stderr.as_bytes().to_vec(),
    }
}

fn script(c: &NetCommand) -> &str {
    assert_eq!(c.program, "powershell");
    assert_eq!(
        c.args[..5],
        strings(&["-NoProfile", "-NonInteractive", "-ExecutionPolicy", "Bypass", "-Command"])[..]
    );
    assert_eq!(c.args.len(), 6);
    &c.args[5]
}

#[test]
fn masks_as_prefix_lengths() {
    assert_eq!(netmask_to_cidr("255.255.255.0"), Ok(24));
    assert_eq!(netmask_to_cidr("0.0.0.0"), Ok(0));
    assert_eq!(netmask_to_cidr("255.255.255.255"), Ok(32));
    assert_eq!(netmask_to_cidr("511.255.0.0"), Ok(16));
    assert_eq!(netmask_to_cidr("255.0.255.0"), Err("netmask 255.0.255.0: non contigua".to_string()));
    assert_eq!(
        netmask_to_cidr("255.255.0"),
        Err("netmask 255.255.0: richiesti 4 ottetti IPv4".to_string())
    );
    assert_eq!(
        netmask_to_cidr("255.x.0.0"),
        Err("netmask 255.x.0.0: invalid digit found in string".to_string())
    );
    assert_eq!(
        netmask_to_cidr("255..0.0"),
        Err("netmask 255..0.0: cannot parse integer from empty string".to_string())
    );
    for n in 0..=32u32 {
        let m: u32 = if n == 0 { 0 } else { u32::MAX << (32 - n) };
        let text = format!("{}.{}.{}.{}", m >> 24, m >> 16 & 255, m >> 8 & 255, m & 255);
        assert_eq!(netmask_to_cidr(&text), Ok(n as u8));
        assert_eq!(count_mask_bits(&text), Some(n as u8));
    }
}

#[test]
fn ones_are_counted_in_any_mask() {
    assert_eq!(count_mask_bits("255.0.255.x"), Some(16));
    assert_eq!(count_mask_bits("nothing"), Some(0));
    let mut long = String::from("4294967295");
    for _ in 0..7 {
        long.push_str(".4294967295");
    }
    assert_eq!(count_mask_bits(&long), None);
}

#[test]
fn outcomes_of_commands() {
    assert_eq!(command_started("Op"), "[net] Op");
    let r = run_cmd("Op", exited(true, Some(0), "  done\r\n twice ", ""));
    assert_eq!(r.result, Ok("done\r\n twice".to_string()));
    assert_eq!(r.messages, strings(&["[net] Op: done twice"]));
    let r = run_cmd("Op", exited(true, Some(0), " Ok. \r\n", "noise"));
    assert_eq!(r.result, Ok("Ok.".to_string()));
    assert!(r.messages.is_empty());
    let r = run_cmd("Op", exited(false, Some(1), "", "L'OGGETTO ESISTE GIÀ"));
    assert_eq!(r.result, Ok("".to_string()));
    assert_eq!(r.messages, strings(&["[net] Route già presente (operazione ignorata): Op"]));
    let r = run_cmd("Op", exited(false, None, "", " bad "));
    assert_eq!(r.result, Err("Op: uscita -1 — stderr=bad stdout=<vuoto>".to_string()));
    assert_eq!(r.messages, strings(&["[net] Errore: Op: uscita -1 — stderr=bad stdout=<vuoto>"]));
    let r = run_cmd("Op", CmdOutcome::NotStarted("no".to_string()));
    assert_eq!(r.result, Err("Op: avvio comando fallito: no".to_string()));
    assert!(r.messages.is_empty());
    let r = run_cmd(
        "Op",
        CmdOutcome::Exited { success: true, code: Some(0), stdout: vec![0x61, 0xff], stderr: vec![] },
    );
    assert_eq!(r.result, Ok("a\u{fffd}".to_string()));
}

#[test]
fn what_an_output_says() {
    assert!(is_noise_success_stdout(" o K !.. "));
    assert!(is_noise_success_stdout("..!"));
    assert!(!is_noise_success_stdout("okay"));
    assert!(is_route_already_exists("x already present"));
    assert!(is_route_already_exists("oggetto che esiste"));
    assert!(!is_route_already_exists("oggetto"));
    assert!(is_not_found_failure("Element NOT FOUND."));
    assert!(is_not_found_failure("NON È STATO TROVATO"));
    assert!(!is_not_found_failure("denied"));
    let long = "ab ".repeat(200);
    let mut shown = "ab ".repeat(94);
    shown.truncate(280);
    assert_eq!(log_success_stdout("Op", &long), vec![format!("[net] Op: {}…", shown)]);
    let r = report_exit("Op", false, Some(5), "out".to_string(), "", "nothing of note");
    assert_eq!(r.result, Err("Op: uscita 5 — stderr=<vuoto> stdout=out".to_string()));
}

#[test]
fn the_address_of_the_gateway() {
    assert!(!needs_lookup(" 10.0.0.1 "));
    assert!(needs_lookup("vpn.example.com"));
    assert!(needs_lookup("010.0.0.1"));
    let v4 = |a: &str| Address::V4(a.to_string());
    let found = |list| resolve_gateway_ip("v", LookupAnswer::Found(list));
    assert_eq!(
        resolve_gateway_ip(" 10.0.0.1 ", LookupAnswer::Found(vec![])),
        Ok("10.0.0.1".to_string())
    );
    assert_eq!(found(vec![v4("1.2.3.4"), v4("5.6.7.8")]), Ok("1.2.3.4".to_string()));
    assert_eq!(found(vec![Address::V6, v4("1.2.3.4")]), Ok("1.2.3.4".to_string()));
    assert_eq!(
        resolve_gateway_ip("v", LookupAnswer::Failed("x".to_string())),
        Err("Risoluzione DNS gateway «v»: x".to_string())
    );
    assert_eq!(
        found(vec![]),
        Err("Risoluzione DNS gateway «v»: nessun indirizzo".to_string())
    );
    assert_eq!(
        found(vec![Address::V6, Address::V6]),
        Err("Gateway «v» risolve solo in IPv6; serve IPv4 per il ping TLS/route".to_string())
    );
}

#[test]
fn quotes_are_doubled() {
    assert_eq!(escape_ps_single("a'b''"), "a''b''''");
    let c = read_wan_default(&strings(&["Wintun", "it's"]));
    assert_eq!(c.operation, "Rileva interfaccia WAN predefinita (IPv4)");
    assert!(script(&c).starts_with("\n$skips = @('Wintun','it''s')\n$cands = Get-NetRoute "));
    assert!(script(&c).ends_with("\nexit 1\n"));
    assert!(script(&c).contains("\n  [pscustomobject]@{\n    NextHop = $route.NextHop\n"));
}

#[test]
fn the_default_route() {
    let w = accept_wan_default(" 192.168.1.1 ", 7, " Ethernet ").unwrap();
    assert_eq!((w.next_hop.as_str(), w.if_index, w.alias.as_str()), ("192.168.1.1", 7, "Ethernet"));
    assert_eq!(
        accept_wan_default(" ", 7, "Ethernet").err(),
        Some("Default WAN: NextHop o Alias vuoti".to_string())
    );
    assert_eq!(
        accept_wan_default("1.1.1.1", 7, "").err(),
        Some("Default WAN: NextHop o Alias vuoti".to_string())
    );
    let answer = format!(" {} ", "y".repeat(300));
    assert_eq!(
        wan_answer_error("e", &answer),
        format!("JSON default WAN inatteso (e): {}", "y".repeat(200))
    );
}

#[test]
fn routes_past_and_through_the_tunnel() {
    let wan = WanDefault {
        next_hop: "192.168.1.1".to_string(),
        if_index: 7,
        alias: "Ethernet ".to_string(),
    };
    let p = add_host_route_via_wan(" 1.2.3.4 ", &wan);
    assert_eq!(p.command.operation, "Aggiungi route host 1.2.3.4/32 verso WAN («Ethernet»)");
    assert_eq!(p.command.program, "netsh");
    assert_eq!(
        p.command.args,
        strings(&[
            "interface", "ipv4", "add", "route", "prefix=1.2.3.4/32", "interface=Ethernet",
            "nexthop=192.168.1.1", "metric=1", "store=active"
        ])
    );
    assert_eq!(p.route.prefix_cidr, "1.2.3.4/32");
    assert_eq!(p.route.iface_alias, "Ethernet ");
    assert_eq!(del_split_route(&p.route).args[4..], p.command.args[4..6]);
    let halves = add_default_via_tunnel(" tun ", "10.0.0.2");
    let prefixes: Vec<&str> = halves.iter().map(|h| h.route.prefix_cidr.as_str()).collect();
    assert_eq!(prefixes, vec!["0.0.0.0/1", "128.0.0.0/1"]);
    assert_eq!(halves[1].command.operation, "Aggiungi route «128.0.0.0/1» su interfaccia «tun»");
    assert_eq!(halves[1].command.args[4], "prefix=128.0.0.0/1");
    assert_eq!(halves[0].route.iface_alias, "tun");
    for half in &halves {
        assert_eq!(del_split_route(&half.route).args[4..], half.command.args[4..6]);
    }
}

#[test]
fn a_split_route_is_undone() {
    let p = match add_split_route("tun", " 10.1.0.0 ", " 255.255.0.0 ", "10.0.0.2") {
        Ok(p) => p,
        Err(m) => panic!("{}", m),
    };
    assert!(p.warning.is_none());
    assert_eq!(p.plan.command.operation, "Aggiungi route split «10.1.0.0/16» su «tun»");
    assert_eq!(
        p.plan.command.args,
        strings(&[
            "interface", "ipv4", "add", "route", "prefix=10.1.0.0/16", "interface=tun",
            "nexthop=10.0.0.2", "store=active"
        ])
    );
    let undo = del_split_route(&p.plan.route);
    assert_eq!(undo.operation, "Elimina route «10.1.0.0/16» da «tun»");
    assert_eq!(
        undo.args,
        strings(&["interface", "ipv4", "delete", "route", "prefix=10.1.0.0/16", "interface=tun"])
    );
    let all = add_split_route("tun", "0.0.0.0", "0.0.0.0", "x");
    assert!(all.is_ok_and(|p| p.warning.unwrap().starts_with("[net] Avviso: route predefinita 0.0.0.0/0")));
    assert_eq!(
        add_split_route("tun", "1.1.1.1", "255", "x").err(),
        Some("netmask 255: richiesti 4 ottetti IPv4".to_string())
    );
}

#[test]
fn what_is_missing_counts_as_removed() {
    let r = route_removed(Err("Op: not found".to_string()));
    assert!(r.result.is_ok());
    assert_eq!(
        r.message,
        Some("[net] Avviso: route assente o già rimossa durante la pulizia (Op: not found)".to_string())
    );
    let r = route_removed(Err("denied".to_string()));
    assert_eq!(r.result, Err("denied".to_string()));
    assert!(r.message.is_none());
    assert!(route_removed(Ok("".to_string())).result.is_ok());
    let dns = InstalledDns { iface_alias: "tun".to_string(), had_servers: true };
    let r = dns_cleared(&dns, Err("COULD NOT FIND".to_string()));
    assert_eq!(
        r.message,
        Some("[net] Avviso: ripristino DNS DHCP su «tun» fallito (COULD NOT FIND)".to_string())
    );
    assert_eq!(dns_cleared(&dns, Err("x".to_string())).result, Err("x".to_string()));
}

#[test]
fn name_servers_are_set_and_cleared() {
    let p = apply_dns("tun", &strings(&[" 10.0.0.53 ", "10.0.0.54", "10.0.0.55"]));
    assert_eq!(p.commands.len(), 3);
    assert_eq!(p.commands[0].operation, "Imposta DNS primario (10.0.0.53) su «tun»");
    assert_eq!(
        p.commands[0].args,
        strings(&[
            "interface", "ipv4", "set", "dnsservers", "name=tun", "static", "10.0.0.53",
            "validate=no"
        ])
    );
    assert_eq!(
        p.commands[2].operation,
        "Aggiunge server DNS secondario (10.0.0.55) su «tun» (indice 3)"
    );
    assert_eq!(
        p.commands[2].args,
        strings(&[
            "interface", "ipv4", "add", "dnsservers", "name=tun", "10.0.0.55", "index=3",
            "validate=no"
        ])
    );
    assert!(p.dns.had_servers);
    let undo = clear_dns(&p.dns).unwrap();
    assert_eq!(undo.operation, "Ripristina DNS da DHCP su «tun»");
    assert_eq!(
        undo.args,
        strings(&["interface", "ipv4", "set", "dnsservers", "name=tun", "source=dhcp"])
    );
    let none = apply_dns("tun", &vec![]);
    assert!(none.commands.is_empty() && !none.dns.had_servers);
    assert!(clear_dns(&none.dns).is_none());
}

#[test]
fn name_servers_in_messages() {
    assert_eq!(dns_servers_summary_for_log(&strings(&[" a ", " ", "b"])), "a, b");
    let long = "é".repeat(50);
    assert_eq!(dns_servers_summary_for_log(&vec![long.clone()]), format!("{}…", long));
    let exact = "x".repeat(96);
    assert_eq!(dns_servers_summary_for_log(&vec![exact.clone()]), exact);
    assert_eq!(dns_servers_summary_for_log(&vec!["x".repeat(97)]), format!("{}…", exact));
}

#[test]
fn a_rule_is_undone() {
    let p = nrpt_add(" corp.o'neil ", &strings(&[" 10.0.0.53 ", "x'y"]));
    assert_eq!(p.rule.namespace, ".corp.o'neil");
    let c = p.command.unwrap();
    assert_eq!(
        c.operation,
        "Aggiungi regola NRPT DNS: dominio «.corp.o'neil» — server 10.0.0.53, x'y"
    );
    assert_eq!(
        script(&c),
        "Add-DnsClientNrptRule -Namespace '.corp.o''neil' -NameServers ('10.0.0.53','x''y') -DisplayName 'PoliVPN'"
    );
    let undo = nrpt_remove(&p.rule).unwrap();
    assert_eq!(undo.operation, "Rimuovi regole NRPT DNS: dominio «.corp.o'neil»");
    assert_eq!(
        script(&undo),
        "Get-DnsClientNrptRule | Where-Object { $_.Namespace -eq '.corp.o''neil' -and $_.DisplayName -eq 'PoliVPN' } | Remove-DnsClientNrptRule -Force"
    );
    assert_eq!(nrpt_add(".", &strings(&["1.1.1.1"])).rule.namespace, ".");
    for p in [nrpt_add(" ", &strings(&["1.1.1.1"])), nrpt_add("x", &vec![])] {
        assert!(p.command.is_none() && p.rule.namespace.is_empty());
        assert!(nrpt_remove(&p.rule).is_none());
    }
    assert!(nrpt_remove(&NrptRule { namespace: String::new() }).is_none());
}

const LISTING: &str = "\
Idx     Met         MTU          State                Name\r\n\
---  ----------  ----------  ------------  ---------------------------\r\n\
  1          75  4294967295  connected     Loopback Pseudo-Interface 1\r\n\
 12          25        1500  disconnected  PoliVPN old\r\n\
 27           5        1354  connected     PoliVPN Tünnel 2\r\n";

#[test]
fn the_interface_is_found() {
    assert_eq!(
        list_interfaces().args,
        strings(&["interface", "ipv4", "show", "interfaces"])
    );
    let c = resolve_iface_alias("poliVPN", Ok(LISTING.to_string())).unwrap();
    assert_eq!(c.alias, "PoliVPN Tünnel 2");
    assert_eq!(
        c.message,
        "[net] Interfaccia di rete individuata: «PoliVPN Tünnel 2» (da tun_name «poliVPN»)"
    );
    let c = resolve_iface_alias("tun0", Ok("".to_string())).unwrap();
    assert_eq!(c.alias, "tun0");
    assert_eq!(
        c.message,
        "[net] Avviso: nessun alias in netsh per «tun0», si usa il nome TUN direttamente"
    );
    let c = resolve_iface_alias("tun0", Err("x".to_string())).unwrap();
    assert_eq!(c.alias, "tun0");
    assert_eq!(
        c.message,
        "[net] Avviso: elenco interfacce IPv4 non disponibile (x); uso nome TUN «tun0»"
    );
}

#[test]
fn a_line_whose_case_changes_its_length_is_noticed() {
    assert!(resolve_iface_alias("x", Ok("İİİ wintun connected".to_string())).is_none());
}

#[test]
fn lines_of_the_listing() {
    assert!(line_has_connected_state(" 1 connected x"));
    assert!(!line_has_connected_state("disconnected connected"));
    assert!(!line_has_connected_state("unconnected"));
    assert!(matches!(
        extract_iface_name_after_state("1 Connected  A b ", "1 connected  a b "),
        LineName::Name(n) if n == "A b"
    ));
    assert!(matches!(extract_iface_name_after_state("connected", "connected"), LineName::Missing));
    assert!(matches!(extract_iface_name_after_state("x", "x"), LineName::Missing));
    assert!(matches!(extract_iface_name_after_state("x", "connected"), LineName::Cut));
    let names = vec!["tun".chars().collect()];
    assert!(matches!(
        find_name_in_line("9 connected tun", "9 connected tun", &names),
        LineName::Name(n) if n == "tun"
    ));
    assert!(matches!(find_name_in_line("9 connected x", "9 connected x", &names), LineName::Missing));
    assert!(matches!(
        find_name_in_line("--- connected tun", "--- connected tun", &names),
        LineName::Missing
    ));
    assert!(matches!(
        find_name_in_line("idx connected tun", "idx connected tun", &names),
        LineName::Missing
    ));
}

#[test]
fn routes_of_the_helper() {
    let m = RouteManager::new("/opt/vpn-helper");
    let c = m.add_route("10.0.0.0", "255.0.0.0", "1.1.1.1");
    assert_eq!(c.program, "/opt/vpn-helper");
    assert_eq!(c.args, strings(&["add-route", "10.0.0.0", "255.0.0.0", "1.1.1.1"]));
    assert_eq!(m.del_route("10.0.0.0", "255.0.0.0").args, strings(&["del-route", "10.0.0.0", "255.0.0.0"]));
    assert_eq!(helper_finished(exited(true, Some(0), "", "x")), Ok(()));
    assert_eq!(helper_finished(exited(false, Some(1), "", "Error: x\n")), Err("Error: x\n".to_string()));
    assert_eq!(
        helper_finished(CmdOutcome::NotStarted("y".to_string())),
        Err("Failed to spawn vpn-helper: y".to_string())
    );
}

#[test]
fn routes_of_the_systems() {
    let add = |p| add_route(p, "10.0.0.0", "255.0.0.0", "1.1.1.1").map(|c| (c.program, c.args));
    let del = |p| del_route(p, "10.0.0.0", "255.0.0.0").map(|c| (c.program, c.args));
    assert_eq!(
        add(Platform::MacOs),
        Some(("route".to_string(), strings(&["-n", "add", "10.0.0.0/8", "1.1.1.1"])))
    );
    assert_eq!(
        add(Platform::Windows),
        Some(("route".to_string(), strings(&["add", "10.0.0.0", "mask", "255.0.0.0", "1.1.1.1"])))
    );
    assert_eq!(add(Platform::Other), None);
    assert_eq!(
        del(Platform::MacOs),
        Some(("route".to_string(), strings(&["-n", "delete", "10.0.0.0/8"])))
    );
    assert_eq!(
        del(Platform::Windows),
        Some(("route".to_string(), strings(&["delete", "10.0.0.0", "mask", "255.0.0.0"])))
    );
    assert_eq!(del(Platform::Other), None);
    assert_eq!(route_added(exited(true, Some(0), "", "")), Ok(()));
    assert_eq!(route_added(exited(false, Some(1), "", "x")), Err("route add failed: x".to_string()));
    assert_eq!(
        route_added(CmdOutcome::NotStarted("x".to_string())),
        Err("Failed to run route add: x".to_string())
    );
    assert_eq!(route_deleted(exited(true, Some(0), "", "")), Ok(None));
    assert_eq!(
        route_deleted(exited(false, Some(1), "", "x")),
        Ok(Some("Warning: route delete failed: x".to_string()))
    );
    assert_eq!(
        route_deleted(CmdOutcome::NotStarted("x".to_string())),
        Err("Failed to run route delete: x".to_string())
    );
}

#[test]
fn copies_are_alike() {
    let r = InstalledRoute { prefix_cidr: "p".to_string(), iface_alias: "i".to_string() };
    let c = r.clone();
    assert_eq!((c.prefix_cidr, c.iface_alias), (r.prefix_cidr, r.iface_alias));
}
