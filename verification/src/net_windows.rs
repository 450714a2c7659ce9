//! Routes and name servers on Windows: which commands set them up, which
//! undo that, and what their outcome means.

use vstd::prelude::*;
use vstd::slice::slice_subrange;
use vstd::string::*;

use crate::bytes;
use crate::net_command;
use crate::net_command::{NetCommand, NetCommandView};
use crate::netmask;
use crate::numbers;
use crate::text;

verus! {

// ---------------------------------------------------------------------------
// What is set up
// ---------------------------------------------------------------------------

/// A route that was installed.
#[derive(Debug)]
pub struct InstalledRoute {
    pub prefix_cidr: String,
    pub iface_alias: String,
}

/// Name servers that were set on an interface.
#[derive(Debug)]
pub struct InstalledDns {
    pub iface_alias: String,
    pub had_servers: bool,
}

/// A rule that sends the names of a domain to certain name servers. The
/// domain `.` stands for all names; an empty one for no rule.
#[derive(Debug)]
pub struct NrptRule {
    pub namespace: String,
}

/// The default route to the Internet.
#[derive(Debug)]
pub struct WanDefault {
    pub next_hop: String,
    pub if_index: u32,
    pub alias: String,
}

/// A route without its representation.
pub struct RouteView {
    pub prefix_cidr: Seq<char>,
    pub iface_alias: Seq<char>,
}

/// Name servers without their representation.
pub struct DnsView {
    pub iface_alias: Seq<char>,
    pub had_servers: bool,
}

/// A rule without its representation.
pub struct NrptView {
    pub namespace: Seq<char>,
}

/// A default route without its representation.
pub struct WanView {
    pub next_hop: Seq<char>,
    pub if_index: u32,
    pub alias: Seq<char>,
}

impl View for InstalledRoute {
    type V = RouteView;

    open spec fn view(&self) -> RouteView {
        RouteView { prefix_cidr: self.prefix_cidr@, iface_alias: self.iface_alias@ }
    }
}

impl View for InstalledDns {
    type V = DnsView;

    open spec fn view(&self) -> DnsView {
        DnsView { iface_alias: self.iface_alias@, had_servers: self.had_servers }
    }
}

impl View for NrptRule {
    type V = NrptView;

    open spec fn view(&self) -> NrptView {
        NrptView { namespace: self.namespace@ }
    }
}

impl View for WanDefault {
    type V = WanView;

    open spec fn view(&self) -> WanView {
        WanView { next_hop: self.next_hop@, if_index: self.if_index, alias: self.alias@ }
    }
}

impl Clone for InstalledRoute {
    fn clone(&self) -> (r: Self)
        ensures
            r@ == self@,
    {
        InstalledRoute {
            prefix_cidr: self.prefix_cidr.clone(),
            iface_alias: self.iface_alias.clone(),
        }
    }
}

impl Clone for InstalledDns {
    fn clone(&self) -> (r: Self)
        ensures
            r@ == self@,
    {
        InstalledDns { iface_alias: self.iface_alias.clone(), had_servers: self.had_servers }
    }
}

impl Clone for NrptRule {
    fn clone(&self) -> (r: Self)
        ensures
            r@ == self@,
    {
        NrptRule { namespace: self.namespace.clone() }
    }
}

impl Clone for WanDefault {
    fn clone(&self) -> (r: Self)
        ensures
            r@ == self@,
    {
        WanDefault {
            next_hop: self.next_hop.clone(),
            if_index: self.if_index,
            alias: self.alias.clone(),
        }
    }
}

/// A command that installs a route, and the route.
pub struct RoutePlan {
    pub command: NetCommand,
    pub route: InstalledRoute,
}

/// A plan without its representation.
#[verifier::ext_equal]
pub struct RoutePlanView {
    pub command: NetCommandView,
    pub route: RouteView,
}

impl View for RoutePlan {
    type V = RoutePlanView;

    open spec fn view(&self) -> RoutePlanView {
        RoutePlanView { command: self.command@, route: self.route@ }
    }
}

/// The plans of a list.
pub open spec fn plan_views(v: Seq<RoutePlan>) -> Seq<RoutePlanView> {
    v.map_values(|x: RoutePlan| x@)
}

// ---------------------------------------------------------------------------
// The gateway and the Internet
// ---------------------------------------------------------------------------

/// An address that a lookup gave.
pub enum Address {
    V4(String),
    V6,
}

/// What looking up a host name gave.
pub enum LookupAnswer {
    /// The lookup failed, with the words of the error.
    Failed(String),
    /// These addresses, in order.
    Found(Vec<Address>),
}

/// The first IPv4 address of a list.
pub open spec fn first_v4(list: Seq<Address>) -> Option<Seq<char>>
    decreases list.len(),
{
    if list.len() == 0 {
        None
    } else {
        match list[0] {
            Address::V4(a) => Some(a@),
            Address::V6 => first_v4(list.skip(1)),
        }
    }
}

/// The name has to be looked up.
pub open spec fn is_name(host: Seq<char>) -> bool {
    !numbers::is_dotted_quad(text::trimmed(host))
}

/// The address of the gateway, from what looking up its name gave if it is a
/// name.
pub open spec fn gateway_address(host: Seq<char>, answer: LookupAnswer) -> Result<
    Seq<char>,
    Seq<char>,
> {
    let h = text::trimmed(host);
    if !is_name(host) {
        Ok(h)
    } else {
        match answer {
            LookupAnswer::Failed(e) => Err("Risoluzione DNS gateway «"@ + h + "»: "@ + e@),
            LookupAnswer::Found(list) => match first_v4(list@) {
                Some(a) => Ok(a),
                None => if list@.len() == 0 {
                    Err("Risoluzione DNS gateway «"@ + h + "»: nessun indirizzo"@)
                } else {
                    Err(
                        "Gateway «"@ + h
                            + "» risolve solo in IPv6; serve IPv4 per il ping TLS/route"@,
                    )
                },
            },
        }
    }
}

/// Whether the name has to be looked up.
pub fn needs_lookup(host: &str) -> (r: bool)
    ensures
        r == is_name(host@),
{
    let cs = text::to_chars(host);
    !numbers::check_dotted_quad(text::trim(cs.as_slice()))
}

/// The first IPv4 address of a list.
fn find_v4(list: &Vec<Address>) -> (r: Option<String>)
    ensures
        text::opt_view(r) == first_v4(list@),
{
    let mut i: usize = 0;
    proof {
        assert(list@.skip(0) =~= list@);
    }
    while i < list.len()
        invariant
            i <= list@.len(),
            first_v4(list@) == first_v4(list@.skip(i as int)),
        decreases list.len() - i,
    {
        proof {
            assert(list@.skip(i as int)[0] == list@[i as int]);
            assert(list@.skip(i as int).skip(1) =~= list@.skip(i + 1));
        }
        if let Address::V4(a) = &list[i] {
            return Some(a.clone());
        }
        i = i + 1;
    }
    None
}

/// The address of the gateway.
pub fn resolve_gateway_ip(host: &str, answer: LookupAnswer) -> (r: Result<String, String>)
    ensures
        net_command::result_view(r) == gateway_address(host@, answer),
{
    let h = text::trim_text(host);
    if !needs_lookup(host) {
        return Ok(h);
    }
    match answer {
        LookupAnswer::Failed(e) => Err(
            text::cat4("Risoluzione DNS gateway «", h.as_str(), "»: ", e.as_str()),
        ),
        LookupAnswer::Found(list) => match find_v4(&list) {
            Some(a) => Ok(a),
            None => {
                if list.len() == 0 {
                    return Err(
                        text::cat3(
                            "Risoluzione DNS gateway «",
                            h.as_str(),
                            "»: nessun indirizzo",
                        ),
                    );
                }
                Err(
                    text::cat3(
                        "Gateway «",
                        h.as_str(),
                        "» risolve solo in IPv6; serve IPv4 per il ping TLS/route",
                    ),
                )
            },
        },
    }
}

/// The text with each single quote doubled, as PowerShell wants it between
/// single quotes.
pub open spec fn escaped(s: Seq<char>) -> Seq<char>
    decreases s.len(),
{
    if s.len() == 0 {
        s
    } else if s[0] == '\'' {
        seq!['\'', '\''] + escaped(s.skip(1))
    } else {
        seq![s[0]] + escaped(s.skip(1))
    }
}

/// The text between single quotes.
pub open spec fn quoted(s: Seq<char>) -> Seq<char> {
    "'"@ + escaped(s) + "'"@
}

/// The texts between single quotes.
pub open spec fn all_quoted(list: Seq<Seq<char>>) -> Seq<Seq<char>> {
    list.map_values(|s: Seq<char>| quoted(s))
}

/// The text with each single quote doubled.
pub fn escape_ps_single(s: &str) -> (r: String)
    ensures
        r@ == escaped(s@),
{
    let cs = text::to_chars(s);
    let mut out: Vec<char> = Vec::new();
    let mut i: usize = 0;
    proof {
        assert(cs@.skip(0) =~= cs@);
        assert(out@ + escaped(cs@) =~= escaped(cs@));
    }
    while i < cs.len()
        invariant
            i <= cs@.len(),
            out@ + escaped(cs@.skip(i as int)) == escaped(cs@),
        decreases cs.len() - i,
    {
        let ghost had = out@;
        let ghost rest = escaped(cs@.skip(i + 1));
        proof {
            assert(cs@.skip(i as int).skip(1) =~= cs@.skip(i + 1));
        }
        let c: char = cs[i];
        out.push(c);
        if c == '\'' {
            out.push(c);
            proof {
                assert(had + (seq!['\'', '\''] + rest) =~= out@ + rest);
            }
        } else {
            proof {
                assert(had + (seq![c] + rest) =~= out@ + rest);
            }
        }
        i = i + 1;
    }
    proof {
        assert(cs@.skip(i as int) =~= Seq::empty());
        assert(out@ + escaped(cs@.skip(i as int)) =~= out@);
    }
    text::to_text(out.as_slice())
}

/// The texts between single quotes, with commas between them.
fn quote_list(list: &Vec<Vec<char>>) -> (r: String)
    ensures
        r@ == text::joined(all_quoted(text::char_views(list@)), ","@),
{
    let ghost wanted = all_quoted(text::char_views(list@));
    let mut out: Vec<Vec<char>> = Vec::new();
    let mut i: usize = 0;
    while i < list.len()
        invariant
            wanted == all_quoted(text::char_views(list@)),
            i <= list@.len(),
            text::char_views(out@) =~= wanted.take(i as int),
        decreases list.len() - i,
    {
        let ghost had = text::char_views(out@);
        let item = text::to_text(list[i].as_slice());
        let q = text::cat3("'", escape_ps_single(item.as_str()).as_str(), "'");
        out.push(text::to_chars(q.as_str()));
        proof {
            assert(text::char_views(list@)[i as int] == list@[i as int]@);
            assert(wanted[i as int] == quoted(list@[i as int]@));
            assert(text::char_views(out@) =~= had.push(wanted[i as int]));
        }
        i = i + 1;
    }
    proof {
        assert(wanted.take(i as int) =~= wanted);
    }
    text::join(&out, ",")
}

/// The script that finds the default route: the one with the lowest metric
/// whose interface is not among those to skip.
pub open spec fn wan_script(skips: Seq<Seq<char>>) -> Seq<char> {
    "\n$skips = @("@ + text::joined(all_quoted(skips), ","@)
        + ")\n$cands = Get-NetRoute -AddressFamily IPv4 -DestinationPrefix '0.0.0.0/0' |\n  Where-Object { $_.NextHop -and ($_.NextHop -ne '0.0.0.0') } |\n  Sort-Object RouteMetric, InterfaceMetric\nforeach ($route in $cands) {\n  $name = $route.InterfaceAlias\n  if ([string]::IsNullOrWhiteSpace($name)) { continue }\n  $skip = $false\n  foreach ($s in $skips) {\n    if ($name -ieq $s) { $skip = $true; break }\n  }\n  if ($skip) { continue }\n  [pscustomobject]@{\n    NextHop = $route.NextHop\n    IfIndex = [int]$route.InterfaceIndex\n    Alias = $name\n  } | ConvertTo-Json -Compress\n  exit 0\n}\nWrite-Error 'Nessuna default route IPv4 con gateway valido (WAN).'\nexit 1\n"@
}

/// The command that finds the default route.
pub fn read_wan_default(skip_aliases: &Vec<String>) -> (r: NetCommand)
    ensures
        r@ == net_command::powershell(
            "Rileva interfaccia WAN predefinita (IPv4)"@,
            wan_script(text::str_views(skip_aliases@)),
        ),
{
    let names = chars_of(skip_aliases);
    let script = text::cat3(
        "\n$skips = @(",
        quote_list(&names).as_str(),
        ")\n$cands = Get-NetRoute -AddressFamily IPv4 -DestinationPrefix '0.0.0.0/0' |\n  Where-Object { $_.NextHop -and ($_.NextHop -ne '0.0.0.0') } |\n  Sort-Object RouteMetric, InterfaceMetric\nforeach ($route in $cands) {\n  $name = $route.InterfaceAlias\n  if ([string]::IsNullOrWhiteSpace($name)) { continue }\n  $skip = $false\n  foreach ($s in $skips) {\n    if ($name -ieq $s) { $skip = $true; break }\n  }\n  if ($skip) { continue }\n  [pscustomobject]@{\n    NextHop = $route.NextHop\n    IfIndex = [int]$route.InterfaceIndex\n    Alias = $name\n  } | ConvertTo-Json -Compress\n  exit 0\n}\nWrite-Error 'Nessuna default route IPv4 con gateway valido (WAN).'\nexit 1\n",
    );
    net_command::make_powershell(
        "Rileva interfaccia WAN predefinita (IPv4)".to_string(),
        script.as_str(),
    )
}

/// The strings of a list as characters.
fn chars_of(list: &Vec<String>) -> (r: Vec<Vec<char>>)
    ensures
        text::char_views(r@) == text::str_views(list@),
{
    let mut out: Vec<Vec<char>> = Vec::new();
    let mut i: usize = 0;
    while i < list.len()
        invariant
            i <= list@.len(),
            text::char_views(out@) =~= text::str_views(list@).take(i as int),
        decreases list.len() - i,
    {
        let ghost had = text::char_views(out@);
        out.push(text::to_chars(list[i].as_str()));
        proof {
            assert(text::char_views(out@) =~= had.push(list@[i as int]@));
        }
        i = i + 1;
    }
    proof {
        assert(text::str_views(list@).take(i as int) =~= text::str_views(list@));
    }
    out
}

/// How many characters of an unexpected answer are shown.
pub const ANSWER_PREVIEW: usize = 200;

/// What is said of an answer that is no default route.
pub fn wan_answer_error(words: &str, answer: &str) -> (r: String)
    ensures
        r@ == "JSON default WAN inatteso ("@ + words@ + "): "@ + text::at_most(
            text::trimmed(answer@),
            ANSWER_PREVIEW as int,
        ),
{
    let cs = text::to_chars(answer);
    let shown = text::to_text(text::take_chars(text::trim(cs.as_slice()), ANSWER_PREVIEW));
    text::cat4("JSON default WAN inatteso (", words, "): ", shown.as_str())
}

/// The default route in an answer, if it has an interface and a next hop.
pub open spec fn wan_in(next_hop: Seq<char>, if_index: u32, alias: Seq<char>) -> Option<WanView> {
    let w = WanView { next_hop: text::trimmed(next_hop), if_index, alias: text::trimmed(alias) };
    if w.next_hop.len() > 0 && w.alias.len() > 0 {
        Some(w)
    } else {
        None
    }
}

/// The default route in an answer; it must have an interface and a next hop.
pub fn accept_wan_default(next_hop: &str, if_index: u32, alias: &str) -> (r: Result<
    WanDefault,
    String,
>)
    ensures
        match r {
            Ok(w) => wan_in(next_hop@, if_index, alias@) == Some(w@),
            Err(m) => wan_in(next_hop@, if_index, alias@) is None && m@
                == "Default WAN: NextHop o Alias vuoti"@,
        },
{
    let next_hop = text::trim_text(next_hop);
    let alias = text::trim_text(alias);
    if next_hop.as_str().is_empty() || alias.as_str().is_empty() {
        return Err("Default WAN: NextHop o Alias vuoti".to_string());
    }
    Ok(WanDefault { next_hop, if_index, alias })
}

// ---------------------------------------------------------------------------
// Routes
// ---------------------------------------------------------------------------

/// The arguments of a route with the best metric.
pub open spec fn strong_route_args(prefix: Seq<char>, alias: Seq<char>, nexthop: Seq<char>) -> Seq<
    Seq<char>,
> {
    seq![
        "interface"@,
        "ipv4"@,
        "add"@,
        "route"@,
        "prefix="@ + prefix,
        "interface="@ + text::trimmed(alias),
        "nexthop="@ + text::trimmed(nexthop),
        "metric=1"@,
        "store=active"@,
    ]
}

/// The arguments of a route with the best metric, as a command.
fn strong_route(operation: String, prefix: &str, alias: &str, nexthop: &str) -> (r: NetCommand)
    ensures
        r@ == net_command::netsh(operation@, strong_route_args(prefix@, alias@, nexthop@)),
{
    let p = text::cat2("prefix=", prefix);
    let a = text::cat2("interface=", text::trim_text(alias).as_str());
    let n = text::cat2("nexthop=", text::trim_text(nexthop).as_str());
    let args: [&str; 9] = [
        "interface",
        "ipv4",
        "add",
        "route",
        p.as_str(),
        a.as_str(),
        n.as_str(),
        "metric=1",
        "store=active",
    ];
    proof {
        assert(net_command::ref_views(args@) =~= strong_route_args(prefix@, alias@, nexthop@));
    }
    net_command::make_netsh(operation, args.as_slice())
}

/// The route to the gateway itself past the tunnel.
pub open spec fn host_route_plan(server: Seq<char>, wan: WanView) -> RoutePlanView {
    let prefix = text::trimmed(server) + "/32"@;
    RoutePlanView {
        command: net_command::netsh(
            "Aggiungi route host "@ + prefix + " verso WAN («"@ + text::trimmed(wan.alias) + "»)"@,
            strong_route_args(prefix, wan.alias, wan.next_hop),
        ),
        route: RouteView { prefix_cidr: prefix, iface_alias: wan.alias },
    }
}

/// The route to the gateway itself past the tunnel, so that the tunnel does
/// not carry itself.
pub fn add_host_route_via_wan(vpn_server_ip: &str, wan: &WanDefault) -> (r: RoutePlan)
    ensures
        r@ == host_route_plan(vpn_server_ip@, wan@),
{
    let prefix = text::cat2(text::trim_text(vpn_server_ip).as_str(), "/32");
    let operation = text::cat5(
        "Aggiungi route host ",
        prefix.as_str(),
        " verso WAN («",
        text::trim_text(wan.alias.as_str()).as_str(),
        "»)",
    );
    let command = strong_route(
        operation,
        prefix.as_str(),
        wan.alias.as_str(),
        wan.next_hop.as_str(),
    );
    RoutePlan {
        command,
        route: InstalledRoute { prefix_cidr: prefix, iface_alias: wan.alias.clone() },
    }
}

/// One half of the address space through the tunnel.
pub open spec fn half_plan(prefix: Seq<char>, alias: Seq<char>, nexthop: Seq<char>)
    -> RoutePlanView {
    RoutePlanView {
        command: net_command::netsh(
            "Aggiungi route «"@ + prefix + "» su interfaccia «"@ + text::trimmed(alias) + "»"@,
            strong_route_args(prefix, alias, nexthop),
        ),
        route: RouteView { prefix_cidr: prefix, iface_alias: text::trimmed(alias) },
    }
}

/// One half of the address space through the tunnel.
fn half_route(prefix: &str, alias: &str, nexthop: &str) -> (r: RoutePlan)
    ensures
        r@ == half_plan(prefix@, alias@, nexthop@),
{
    let operation = text::cat5(
        "Aggiungi route «",
        prefix,
        "» su interfaccia «",
        text::trim_text(alias).as_str(),
        "»",
    );
    RoutePlan {
        command: strong_route(operation, prefix, alias, nexthop),
        route: InstalledRoute {
            prefix_cidr: prefix.to_string(),
            iface_alias: text::trim_text(alias),
        },
    }
}

/// The plans that send everything through the tunnel.
pub open spec fn tunnel_plans(alias: Seq<char>, nexthop: Seq<char>) -> Seq<RoutePlanView> {
    seq![half_plan("0.0.0.0/1"@, alias, nexthop), half_plan("128.0.0.0/1"@, alias, nexthop)]
}

/// Everything through the tunnel: two halves, so that the default route stays
/// as it is. The plans are carried out in order up to the first that fails.
pub fn add_default_via_tunnel(tun_alias: &str, tunnel_nexthop: &str) -> (r: Vec<RoutePlan>)
    ensures
        plan_views(r@) == tunnel_plans(tun_alias@, tunnel_nexthop@),
{
    let mut out: Vec<RoutePlan> = Vec::new();
    out.push(half_route("0.0.0.0/1", tun_alias, tunnel_nexthop));
    out.push(half_route("128.0.0.0/1", tun_alias, tunnel_nexthop));
    proof {
        assert(plan_views(out@) =~= tunnel_plans(tun_alias@, tunnel_nexthop@));
    }
    out
}

/// The prefix of a network.
pub open spec fn network_prefix(net: Seq<char>, length: nat) -> Seq<char> {
    text::trimmed(net) + "/"@ + numbers::decimal(length)
}

/// A network through the tunnel.
pub open spec fn split_plan(alias: Seq<char>, net: Seq<char>, length: nat, nexthop: Seq<char>)
    -> RoutePlanView {
    let prefix = network_prefix(net, length);
    RoutePlanView {
        command: net_command::netsh(
            "Aggiungi route split «"@ + prefix + "» su «"@ + text::trimmed(alias) + "»"@,
            seq![
                "interface"@,
                "ipv4"@,
                "add"@,
                "route"@,
                "prefix="@ + prefix,
                "interface="@ + alias,
                "nexthop="@ + text::trimmed(nexthop),
                "store=active"@,
            ],
        ),
        route: RouteView { prefix_cidr: prefix, iface_alias: alias },
    }
}

/// The network is everything.
pub open spec fn is_everything(net: Seq<char>, length: nat) -> bool {
    text::trimmed(net) == "0.0.0.0"@ && length == 0
}

/// A network through the tunnel, with a warning if it is everything.
pub struct SplitPlan {
    pub warning: Option<String>,
    pub plan: RoutePlan,
}

/// The plan for a network with its mask, and whether to warn that it is
/// everything.
pub open spec fn split_result(
    alias: Seq<char>,
    net: Seq<char>,
    mask: Seq<char>,
    nexthop: Seq<char>,
) -> Result<(RoutePlanView, bool), Seq<char>> {
    match netmask::prefix_of(text::trimmed(mask)) {
        Ok(n) => Ok((split_plan(alias, net, n, nexthop), is_everything(net, n))),
        Err(m) => Err(m),
    }
}

/// A network through the tunnel. Fails if the mask is none.
pub fn add_split_route(alias: &str, net: &str, mask: &str, nexthop: &str) -> (r: Result<
    SplitPlan,
    String,
>)
    ensures
        match r {
            Ok(p) => split_result(alias@, net@, mask@, nexthop@) matches Ok((plan, warned))
                && p.plan@ == plan && text::opt_view(p.warning) == if warned {
                Some(
                    "[net] Avviso: route predefinita 0.0.0.0/0 dall’XML in split-tunnel; viene applicata comunque — potresti perdere Internet finché sei connesso."@,
                )
            } else {
                None
            },
            Err(m) => split_result(alias@, net@, mask@, nexthop@) == Err::<
                (RoutePlanView, bool),
                Seq<char>,
            >(m@),
        },
{
    let cidr: u8 = match netmask::netmask_to_cidr(text::trim_text(mask).as_str()) {
        Ok(n) => n,
        Err(m) => {
            return Err(m);
        },
    };
    let ns = text::to_chars(net);
    let warning: Option<String> = if cidr == 0 && text::same_text(
        text::trim(ns.as_slice()),
        "0.0.0.0",
    ) {
        Some(
            "[net] Avviso: route predefinita 0.0.0.0/0 dall’XML in split-tunnel; viene applicata comunque — potresti perdere Internet finché sei connesso.".to_string(),
        )
    } else {
        None
    };
    let prefix = text::cat3(
        text::trim_text(net).as_str(),
        "/",
        numbers::decimal_text(cidr as u64).as_str(),
    );
    let p = text::cat2("prefix=", prefix.as_str());
    let a = text::cat2("interface=", alias);
    let n = text::cat2("nexthop=", text::trim_text(nexthop).as_str());
    let args: [&str; 8] = [
        "interface",
        "ipv4",
        "add",
        "route",
        p.as_str(),
        a.as_str(),
        n.as_str(),
        "store=active",
    ];
    let operation = text::cat5(
        "Aggiungi route split «",
        prefix.as_str(),
        "» su «",
        text::trim_text(alias).as_str(),
        "»",
    );
    let command = net_command::make_netsh(operation, args.as_slice());
    let ghost wanted = split_plan(alias@, net@, cidr as nat, nexthop@);
    proof {
        assert(command@.args =~= wanted.command.args);
    }
    Ok(
        SplitPlan {
            warning,
            plan: RoutePlan {
                command,
                route: InstalledRoute { prefix_cidr: prefix, iface_alias: alias.to_string() },
            },
        },
    )
}

/// The command that removes a route.
pub open spec fn removal_of(route: RouteView) -> NetCommandView {
    net_command::netsh(
        "Elimina route «"@ + text::trimmed(route.prefix_cidr) + "» da «"@ + text::trimmed(
            route.iface_alias,
        ) + "»"@,
        seq![
            "interface"@,
            "ipv4"@,
            "delete"@,
            "route"@,
            "prefix="@ + text::trimmed(route.prefix_cidr),
            "interface="@ + text::trimmed(route.iface_alias),
        ],
    )
}

/// The command that removes a route.
pub fn del_split_route(route: &InstalledRoute) -> (r: NetCommand)
    ensures
        r@ == removal_of(route@),
{
    let prefix = text::trim_text(route.prefix_cidr.as_str());
    let alias = text::trim_text(route.iface_alias.as_str());
    let p = text::cat2("prefix=", prefix.as_str());
    let a = text::cat2("interface=", alias.as_str());
    let args: [&str; 6] = [
        "interface",
        "ipv4",
        "delete",
        "route",
        p.as_str(),
        a.as_str(),
    ];
    let operation = text::cat5(
        "Elimina route «",
        prefix.as_str(),
        "» da «",
        alias.as_str(),
        "»",
    );
    let command = net_command::make_netsh(operation, args.as_slice());
    proof {
        assert(command@.args =~= removal_of(route@).args);
    }
    command
}

/// What came of undoing something: a message if it was not there, or why it
/// failed.
pub struct UndoResult {
    pub message: Option<String>,
    pub result: Result<(), String>,
}

/// What counts as the outcome of undoing something: what is not there is as
/// good as undone.
pub open spec fn undo_outcome(result: Result<Seq<char>, Seq<char>>) -> Result<(), Seq<char>> {
    match result {
        Ok(_) => Ok(()),
        Err(e) => if net_command::says_missing(bytes::unicode_lower(e)) {
            Ok(())
        } else {
            Err(e)
        },
    }
}

/// The outcome of undoing something without its representation.
pub open spec fn outcome_view(r: Result<(), String>) -> Result<(), Seq<char>> {
    match r {
        Ok(u) => Ok(u),
        Err(m) => Err(m@),
    }
}

/// What came of removing a route: one that is not there is as good as
/// removed.
pub fn route_removed(result: Result<String, String>) -> (r: UndoResult)
    ensures
        outcome_view(r.result) == undo_outcome(net_command::result_view(result)),
        match result {
            Ok(_) => r.message is None && r.result is Ok,
            Err(e) => if net_command::says_missing(bytes::unicode_lower(e@)) {
                text::opt_view(r.message) == Some(
                    "[net] Avviso: route assente o già rimossa durante la pulizia ("@ + e@ + ")"@,
                ) && r.result is Ok
            } else {
                r.message is None && (r.result matches Err(m) && m@ == e@)
            },
        },
{
    match result {
        Ok(_) => UndoResult { message: None, result: Ok(()) },
        Err(e) => {
            if net_command::is_not_found_failure(e.as_str()) {
                return UndoResult {
                    message: Some(
                        text::cat3(
                            "[net] Avviso: route assente o già rimossa durante la pulizia (",
                            e.as_str(),
                            ")",
                        ),
                    ),
                    result: Ok(()),
                };
            }
            UndoResult { message: None, result: Err(e) }
        },
    }
}

// ---------------------------------------------------------------------------
// Name servers
// ---------------------------------------------------------------------------

/// The command for the first name server.
pub open spec fn first_server_command(alias: Seq<char>, server: Seq<char>) -> NetCommandView {
    let s = text::trimmed(server);
    net_command::netsh(
        "Imposta DNS primario ("@ + s + ") su «"@ + alias + "»"@,
        seq![
            "interface"@,
            "ipv4"@,
            "set"@,
            "dnsservers"@,
            "name="@ + alias,
            "static"@,
            s,
            "validate=no"@,
        ],
    )
}

/// The command for another name server, with its place in the list.
pub open spec fn next_server_command(alias: Seq<char>, server: Seq<char>, place: nat)
    -> NetCommandView {
    let s = text::trimmed(server);
    net_command::netsh(
        "Aggiunge server DNS secondario ("@ + s + ") su «"@ + alias + "» (indice "@
            + numbers::decimal(place) + ")"@,
        seq![
            "interface"@,
            "ipv4"@,
            "add"@,
            "dnsservers"@,
            "name="@ + alias,
            s,
            "index="@ + numbers::decimal(place),
            "validate=no"@,
        ],
    )
}

/// The commands that set the name servers.
pub open spec fn dns_commands(alias: Seq<char>, servers: Seq<Seq<char>>) -> Seq<NetCommandView> {
    Seq::new(
        servers.len(),
        |i: int|
            if i == 0 {
                first_server_command(alias, servers[0])
            } else {
                next_server_command(alias, servers[i], (i + 1) as nat)
            },
    )
}

/// Commands that set name servers, and what is set when all have succeeded.
pub struct DnsPlan {
    pub commands: Vec<NetCommand>,
    pub dns: InstalledDns,
}

/// The command for the first name server.
fn set_first_server(alias: &str, server: &str) -> (r: NetCommand)
    ensures
        r@ == first_server_command(alias@, server@),
{
    let s = text::trim_text(server);
    let name = text::cat2("name=", alias);
    let args: [&str; 8] = [
        "interface",
        "ipv4",
        "set",
        "dnsservers",
        name.as_str(),
        "static",
        s.as_str(),
        "validate=no",
    ];
    let operation = text::cat5("Imposta DNS primario (", s.as_str(), ") su «", alias, "»");
    let command = net_command::make_netsh(operation, args.as_slice());
    proof {
        assert(command@.args =~= first_server_command(alias@, server@).args);
    }
    command
}

/// The command for another name server.
fn add_next_server(alias: &str, server: &str, place: u64) -> (r: NetCommand)
    ensures
        r@ == next_server_command(alias@, server@, place as nat),
{
    let s = text::trim_text(server);
    let number = numbers::decimal_text(place);
    let name = text::cat2("name=", alias);
    let index = text::cat2("index=", number.as_str());
    let args: [&str; 8] = [
        "interface",
        "ipv4",
        "add",
        "dnsservers",
        name.as_str(),
        s.as_str(),
        index.as_str(),
        "validate=no",
    ];
    let mut operation = text::cat5(
        "Aggiunge server DNS secondario (",
        s.as_str(),
        ") su «",
        alias,
        "» (indice ",
    );
    operation.append(number.as_str());
    operation.append(")");
    let command = net_command::make_netsh(operation, args.as_slice());
    proof {
        assert(command@.args =~= next_server_command(alias@, server@, place as nat).args);
    }
    command
}

/// The commands that set the name servers on an interface; they are carried
/// out in order up to the first that fails.
pub fn apply_dns(alias: &str, servers: &Vec<String>) -> (r: DnsPlan)
    ensures
        net_command::command_views(r.commands@) == dns_commands(
            alias@,
            text::str_views(servers@),
        ),
        r.dns@ == (DnsView { iface_alias: alias@, had_servers: servers@.len() > 0 }),
{
    let ghost all = text::str_views(servers@);
    let ghost wanted = dns_commands(alias@, all);
    let mut commands: Vec<NetCommand> = Vec::new();
    let mut i: usize = 0;
    while i < servers.len()
        invariant
            all == text::str_views(servers@),
            wanted == dns_commands(alias@, all),
            i <= servers@.len(),
            net_command::command_views(commands@) =~= wanted.take(i as int),
        decreases servers.len() - i,
    {
        let ghost had = net_command::command_views(commands@);
        let command = if i == 0 {
            set_first_server(alias, servers[i].as_str())
        } else {
            add_next_server(alias, servers[i].as_str(), i as u64 + 1)
        };
        proof {
            assert(all[i as int] == servers@[i as int]@);
            assert(wanted[i as int] == command@);
        }
        commands.push(command);
        proof {
            assert(net_command::command_views(commands@) =~= had.push(wanted[i as int]));
        }
        i = i + 1;
    }
    proof {
        assert(wanted.take(i as int) =~= wanted);
    }
    DnsPlan {
        commands,
        dns: InstalledDns { iface_alias: alias.to_string(), had_servers: servers.len() > 0 },
    }
}

/// The command that takes the name servers off again.
pub open spec fn dns_reset(dns: DnsView) -> NetCommandView {
    net_command::netsh(
        "Ripristina DNS da DHCP su «"@ + text::trimmed(dns.iface_alias) + "»"@,
        seq![
            "interface"@,
            "ipv4"@,
            "set"@,
            "dnsservers"@,
            "name="@ + text::trimmed(dns.iface_alias),
            "source=dhcp"@,
        ],
    )
}

/// The command that takes the name servers off again, if any were set.
pub fn clear_dns(applied: &InstalledDns) -> (r: Option<NetCommand>)
    ensures
        match r {
            Some(c) => applied.had_servers && c@ == dns_reset(applied@),
            None => !applied.had_servers,
        },
{
    if !applied.had_servers {
        return None;
    }
    let alias = text::trim_text(applied.iface_alias.as_str());
    let name = text::cat2("name=", alias.as_str());
    let args: [&str; 6] = [
        "interface",
        "ipv4",
        "set",
        "dnsservers",
        name.as_str(),
        "source=dhcp",
    ];
    let operation = text::cat3("Ripristina DNS da DHCP su «", alias.as_str(), "»");
    let command = net_command::make_netsh(operation, args.as_slice());
    proof {
        assert(command@.args =~= dns_reset(applied@).args);
    }
    Some(command)
}

/// What came of taking name servers off: an interface that is gone has none.
pub fn dns_cleared(applied: &InstalledDns, result: Result<String, String>) -> (r: UndoResult)
    ensures
        outcome_view(r.result) == undo_outcome(net_command::result_view(result)),
        match result {
            Ok(_) => r.message is None && r.result is Ok,
            Err(e) => if net_command::says_missing(bytes::unicode_lower(e@)) {
                text::opt_view(r.message) == Some(
                    "[net] Avviso: ripristino DNS DHCP su «"@ + applied@.iface_alias
                        + "» fallito ("@ + e@ + ")"@,
                ) && r.result is Ok
            } else {
                r.message is None && (r.result matches Err(m) && m@ == e@)
            },
        },
{
    match result {
        Ok(_) => UndoResult { message: None, result: Ok(()) },
        Err(e) => {
            if net_command::is_not_found_failure(e.as_str()) {
                return UndoResult {
                    message: Some(
                        text::cat5(
                            "[net] Avviso: ripristino DNS DHCP su «",
                            applied.iface_alias.as_str(),
                            "» fallito (",
                            e.as_str(),
                            ")",
                        ),
                    ),
                    result: Ok(()),
                };
            }
            UndoResult { message: None, result: Err(e) }
        },
    }
}

/// How many bytes of a list of name servers are shown.
pub const SERVERS_PREVIEW: usize = 96;

/// The servers that are more than white space, without the white space.
pub open spec fn named_servers(servers: Seq<Seq<char>>) -> Seq<Seq<char>>
    decreases servers.len(),
{
    if servers.len() == 0 {
        Seq::empty()
    } else {
        let before = named_servers(servers.drop_last());
        let t = text::trimmed(servers.last());
        if t.len() == 0 {
            before
        } else {
            before.push(t)
        }
    }
}

/// The servers for a message.
pub open spec fn servers_summary(servers: Seq<Seq<char>>) -> Seq<char> {
    let all = text::joined(named_servers(servers), ", "@);
    if text::byte_len(all) <= SERVERS_PREVIEW {
        all
    } else {
        text::at_most(all, SERVERS_PREVIEW as int) + "…"@
    }
}

/// The servers for a message.
pub fn dns_servers_summary_for_log(servers: &Vec<String>) -> (r: String)
    ensures
        r@ == servers_summary(text::str_views(servers@)),
{
    let ghost all = text::str_views(servers@);
    let mut named: Vec<Vec<char>> = Vec::new();
    let mut i: usize = 0;
    proof {
        assert(all.take(0) =~= Seq::empty());
        assert(text::char_views(named@) =~= Seq::empty());
    }
    while i < servers.len()
        invariant
            all == text::str_views(servers@),
            i <= servers@.len(),
            text::char_views(named@) == named_servers(all.take(i as int)),
        decreases servers.len() - i,
    {
        proof {
            assert(all.take(i + 1).drop_last() =~= all.take(i as int));
            assert(all.take(i + 1).last() == servers@[i as int]@);
        }
        let t = text::trim_text(servers[i].as_str());
        if !t.as_str().is_empty() {
            let ghost had = text::char_views(named@);
            named.push(text::to_chars(t.as_str()));
            proof {
                assert(text::char_views(named@) =~= had.push(t@));
            }
        }
        i = i + 1;
    }
    proof {
        assert(all.take(i as int) =~= all);
    }
    let joined = text::join(&named, ", ");
    let cs = text::to_chars(joined.as_str());
    if !text::has_bytes(cs.as_slice(), SERVERS_PREVIEW + 1) {
        return joined;
    }
    let shown = text::to_text(text::take_chars(cs.as_slice(), SERVERS_PREVIEW));
    text::cat2(shown.as_str(), "…")
}

// ---------------------------------------------------------------------------
// Name resolution rules
// ---------------------------------------------------------------------------

/// The domain of a rule: it begins with a full stop.
pub open spec fn rule_domain(namespace: Seq<char>) -> Seq<char> {
    let t = text::trimmed(namespace);
    if text::has_prefix(t, "."@) {
        t
    } else {
        "."@ + t
    }
}

/// The servers without white space around them.
pub open spec fn trimmed_all(servers: Seq<Seq<char>>) -> Seq<Seq<char>> {
    servers.map_values(|s: Seq<char>| text::trimmed(s))
}

/// The command that adds a rule for a domain.
pub open spec fn rule_command(domain: Seq<char>, servers: Seq<Seq<char>>) -> NetCommandView {
    net_command::powershell(
        "Aggiungi regola NRPT DNS: dominio «"@ + domain + "» — server "@ + servers_summary(
            servers,
        ),
        "Add-DnsClientNrptRule -Namespace "@ + quoted(domain) + " -NameServers ("@ + text::joined(
            all_quoted(trimmed_all(servers)),
            ","@,
        ) + ") -DisplayName 'PoliVPN'"@,
    )
}

/// The rule for a domain and servers, and the command that adds it if there
/// is one to add.
pub open spec fn rule_plan(namespace: Seq<char>, servers: Seq<Seq<char>>) -> (
    Option<NetCommandView>,
    NrptView,
) {
    if text::trimmed(namespace).len() == 0 || servers.len() == 0 {
        (None, NrptView { namespace: Seq::empty() })
    } else {
        (
            Some(rule_command(rule_domain(namespace), servers)),
            NrptView { namespace: rule_domain(namespace) },
        )
    }
}

/// A command that adds a rule, if one is needed, and the rule.
pub struct NrptPlan {
    pub command: Option<NetCommand>,
    pub rule: NrptRule,
}

/// The texts without white space around them.
fn trim_all(list: &Vec<String>) -> (r: Vec<Vec<char>>)
    ensures
        text::char_views(r@) == trimmed_all(text::str_views(list@)),
{
    let ghost wanted = trimmed_all(text::str_views(list@));
    let mut out: Vec<Vec<char>> = Vec::new();
    let mut i: usize = 0;
    while i < list.len()
        invariant
            wanted == trimmed_all(text::str_views(list@)),
            i <= list@.len(),
            text::char_views(out@) =~= wanted.take(i as int),
        decreases list.len() - i,
    {
        let ghost had = text::char_views(out@);
        let t = text::trim_text(list[i].as_str());
        out.push(text::to_chars(t.as_str()));
        proof {
            assert(text::str_views(list@)[i as int] == list@[i as int]@);
            assert(wanted[i as int] == t@);
            assert(text::char_views(out@) =~= had.push(t@));
        }
        i = i + 1;
    }
    proof {
        assert(wanted.take(i as int) =~= wanted);
    }
    out
}

/// The rule that sends the names of a domain to the servers. Without a domain
/// or without servers there is none.
pub fn nrpt_add(namespace: &str, servers: &Vec<String>) -> (r: NrptPlan)
    ensures
        r.rule@ == rule_plan(namespace@, text::str_views(servers@)).1,
        match r.command {
            Some(c) => rule_plan(namespace@, text::str_views(servers@)).0 == Some(c@),
            None => rule_plan(namespace@, text::str_views(servers@)).0 is None,
        },
{
    proof {
        assert(text::str_views(servers@).len() == servers@.len());
    }
    let t = text::trim_text(namespace);
    if t.as_str().is_empty() || servers.len() == 0 {
        return NrptPlan { command: None, rule: NrptRule { namespace: String::new() } };
    }
    let cs = text::to_chars(t.as_str());
    let dot = text::to_chars(".");
    let ns: String = if text::starts_with(cs.as_slice(), dot.as_slice()) {
        t
    } else {
        text::cat2(".", t.as_str())
    };
    let summary = dns_servers_summary_for_log(servers);
    let operation = text::cat4(
        "Aggiungi regola NRPT DNS: dominio «",
        ns.as_str(),
        "» — server ",
        summary.as_str(),
    );
    let domain = text::cat3("'", escape_ps_single(ns.as_str()).as_str(), "'");
    let list = trim_all(servers);
    let script = text::cat5(
        "Add-DnsClientNrptRule -Namespace ",
        domain.as_str(),
        " -NameServers (",
        quote_list(&list).as_str(),
        ") -DisplayName 'PoliVPN'",
    );
    NrptPlan {
        command: Some(net_command::make_powershell(operation, script.as_str())),
        rule: NrptRule { namespace: ns },
    }
}

/// The command that removes the rules of this client for a domain. Rules of
/// others for the same domain stay.
pub open spec fn rule_removal(rule: NrptView) -> NetCommandView {
    net_command::powershell(
        "Rimuovi regole NRPT DNS: dominio «"@ + text::trimmed(rule.namespace) + "»"@,
        "Get-DnsClientNrptRule | Where-Object { $_.Namespace -eq "@ + quoted(rule.namespace)
            + " -and $_.DisplayName -eq 'PoliVPN' } | Remove-DnsClientNrptRule -Force"@,
    )
}

/// The command that removes a rule, if it is one.
pub fn nrpt_remove(rule: &NrptRule) -> (r: Option<NetCommand>)
    ensures
        match r {
            Some(c) => rule@.namespace.len() > 0 && c@ == rule_removal(rule@),
            None => rule@.namespace.len() == 0,
        },
{
    if rule.namespace.as_str().is_empty() {
        return None;
    }
    let operation = text::cat3(
        "Rimuovi regole NRPT DNS: dominio «",
        text::trim_text(rule.namespace.as_str()).as_str(),
        "»",
    );
    let domain = text::cat3("'", escape_ps_single(rule.namespace.as_str()).as_str(), "'");
    let script = text::cat3(
        "Get-DnsClientNrptRule | Where-Object { $_.Namespace -eq ",
        domain.as_str(),
        " -and $_.DisplayName -eq 'PoliVPN' } | Remove-DnsClientNrptRule -Force",
    );
    Some(net_command::make_powershell(operation, script.as_str()))
}

// ---------------------------------------------------------------------------
// The name of the tunnel's interface
// ---------------------------------------------------------------------------

/// The line, in lower case, is about an interface that is connected.
pub open spec fn is_connected_line(lower: Seq<char>) -> bool {
    text::words_of(lower).contains("connected"@) && !text::has_part(lower, "disconnect"@)
        && !text::has_part(lower, "disconnecting"@)
}

/// Whether the line, in lower case, is about an interface that is connected.
pub fn line_has_connected_state(lower: &str) -> (r: bool)
    ensures
        r == is_connected_line(lower@),
{
    let cs = text::to_chars(lower);
    let words = text::split_words(cs.as_slice());
    let ghost all = text::words_of(lower@);
    let mut found: bool = false;
    let mut i: usize = 0;
    proof {
        assert(text::char_views(words@).len() == words@.len());
    }
    while i < words.len()
        invariant
            all == text::words_of(lower@),
            text::char_views(words@) == all,
            all.len() == words@.len(),
            i <= words@.len(),
            found <==> exists|k: int| 0 <= k < i && #[trigger] all[k] == "connected"@,
        decreases words.len() - i,
    {
        proof {
            assert(all[i as int] == words@[i as int]@);
        }
        if text::same_text(words[i].as_slice(), "connected") {
            found = true;
        }
        i = i + 1;
    }
    found && !text::contains_text(cs.as_slice(), "disconnect") && !text::contains_text(
        cs.as_slice(),
        "disconnecting",
    )
}

/// A name found in a line.
pub enum LineName {
    Name(String),
    Missing,
    /// The place of the name falls inside a character or beyond the line.
    Cut,
}

/// A name without its representation.
pub enum LineNameView {
    Name(Seq<char>),
    Missing,
    Cut,
}

impl View for LineName {
    type V = LineNameView;

    open spec fn view(&self) -> LineNameView {
        match self {
            LineName::Name(n) => LineNameView::Name(n@),
            LineName::Missing => LineNameView::Missing,
            LineName::Cut => LineNameView::Cut,
        }
    }
}

/// The name that follows the state in a line. The place of the state is
/// looked for in the line in lower case, and counted in bytes.
pub open spec fn name_behind_state(line: Seq<char>, lower: Seq<char>) -> LineNameView {
    match text::first_at(lower, "connected"@) {
        None => LineNameView::Missing,
        Some(at) => match text::chars_in_bytes(line, text::byte_len(lower.take(at)) as int + 9) {
            None => LineNameView::Cut,
            Some(k) => {
                let name = text::trimmed(line.skip(k));
                if name.len() == 0 {
                    LineNameView::Missing
                } else {
                    LineNameView::Name(name)
                }
            },
        },
    }
}

/// The name that follows the state in a line, with the line in lower case.
pub fn extract_iface_name_after_state(line: &str, lower: &str) -> (r: LineName)
    ensures
        r@ == name_behind_state(line@, lower@),
{
    let cs = text::to_chars(line);
    let ls = text::to_chars(lower);
    let wanted = text::to_chars("connected");
    let at: usize = match text::find(ls.as_slice(), wanted.as_slice()) {
        Some(at) => at,
        None => {
            return LineName::Missing;
        },
    };
    proof {
        text::lemma_find_from(ls@, wanted@, 0);
        assert(text::occurs_at(ls@, wanted@, at as int));
        assert(ls@.subrange(0, at as int) =~= ls@.take(at as int));
    }
    let before: u128 = text::count_bytes(slice_subrange(ls.as_slice(), 0, at));
    match text::cut_at(cs.as_slice(), before + 9) {
        None => LineName::Cut,
        Some(k) => {
            let rest = slice_subrange(cs.as_slice(), k, cs.len());
            proof {
                assert(rest@ =~= cs@.skip(k as int));
            }
            let name = text::trim(rest);
            if name.len() == 0 {
                LineName::Missing
            } else {
                LineName::Name(text::to_text(name))
            }
        },
    }
}

/// The line, in lower case, mentions one of the names.
pub open spec fn mentions_any(lower: Seq<char>, names: Seq<Seq<char>>) -> bool {
    exists|i: int| 0 <= i < names.len() && text::has_part(lower, #[trigger] names[i])
}

/// The name of the interface in a line of the list of interfaces, if the
/// line is about a connected one and mentions one of the names.
pub open spec fn name_in_line(line: Seq<char>, lower: Seq<char>, names: Seq<Seq<char>>)
    -> LineNameView {
    if line.len() == 0 || !is_connected_line(lower) || text::has_part(lower, " idx "@)
        || text::has_prefix(line, "---"@) || text::has_prefix(lower, "idx "@) || !mentions_any(
        lower,
        names,
    ) {
        LineNameView::Missing
    } else {
        name_behind_state(line, lower)
    }
}

/// The name of the interface in a line, with the line and the names to look
/// for in lower case.
pub fn find_name_in_line(line: &str, lower: &str, names: &Vec<Vec<char>>) -> (r: LineName)
    ensures
        r@ == name_in_line(line@, lower@, text::char_views(names@)),
{
    let cs = text::to_chars(line);
    let ls = text::to_chars(lower);
    let dashes = text::to_chars("---");
    let idx = text::to_chars("idx ");
    if cs.len() == 0 || !line_has_connected_state(lower) || text::contains_text(
        ls.as_slice(),
        " idx ",
    ) || text::starts_with(cs.as_slice(), dashes.as_slice()) || text::starts_with(
        ls.as_slice(),
        idx.as_slice(),
    ) {
        return LineName::Missing;
    }
    let ghost all = text::char_views(names@);
    let mut i: usize = 0;
    while i < names.len()
        invariant
            all == text::char_views(names@),
            ls@ == lower@,
            i <= names@.len(),
            forall|k: int| 0 <= k < i ==> !text::has_part(lower@, #[trigger] all[k]),
            line@.len() > 0,
            is_connected_line(lower@),
            !text::has_part(lower@, " idx "@),
            !text::has_prefix(line@, "---"@),
            !text::has_prefix(lower@, "idx "@),
        decreases names.len() - i,
    {
        proof {
            assert(all[i as int] == names@[i as int]@);
        }
        if text::contains(ls.as_slice(), names[i].as_slice()) {
            proof {
                assert(text::has_part(lower@, all[i as int]));
                assert(mentions_any(lower@, all));
            }
            return extract_iface_name_after_state(line, lower);
        }
        i = i + 1;
    }
    LineName::Missing
}

/// The name of the interface in the first of the lines that has it.
pub open spec fn name_in_lines(lines: Seq<Seq<char>>, names: Seq<Seq<char>>) -> LineNameView
    decreases lines.len(),
{
    if lines.len() == 0 {
        LineNameView::Missing
    } else {
        let line = text::trimmed(lines[0]);
        match name_in_line(line, bytes::unicode_lower(line), names) {
            LineNameView::Missing => name_in_lines(lines.skip(1), names),
            found => found,
        }
    }
}

/// The names with one more, unless it is there but for case.
pub open spec fn with_name(names: Seq<Seq<char>>, name: Seq<char>) -> Seq<Seq<char>> {
    if exists|i: int|
        0 <= i < names.len() && text::lowered(#[trigger] names[i]) == text::lowered(name) {
        names
    } else {
        names.push(name)
    }
}

/// The names to look for: that of the tunnel, and those that its driver
/// gives.
pub open spec fn interface_names(tun_name: Seq<char>) -> Seq<Seq<char>> {
    with_name(
        with_name(
            with_name(seq![text::trimmed(tun_name)], "PoliVPN"@),
            "Wintun Userspace Tunnel"@,
        ),
        "Wintun"@,
    )
}

/// The names in lower case.
pub open spec fn lower_all(names: Seq<Seq<char>>) -> Seq<Seq<char>> {
    names.map_values(|n: Seq<char>| bytes::unicode_lower(n))
}

/// The name of the interface in the list of interfaces.
pub open spec fn listed_name(tun_name: Seq<char>, listing: Seq<char>) -> LineNameView {
    name_in_lines(text::pieces(listing, '\n'), lower_all(interface_names(tun_name)))
}

/// Adds a name unless it is there but for case.
fn add_name(names: &mut Vec<Vec<char>>, name: &str)
    ensures
        text::char_views(final(names)@) == with_name(text::char_views(old(names)@), name@),
{
    let ghost all = text::char_views(names@);
    let cs = text::to_chars(name);
    let wanted = text::lower(cs.as_slice());
    let mut i: usize = 0;
    while i < names.len()
        invariant
            all == text::char_views(old(names)@),
            all == text::char_views(names@),
            wanted@ == text::lowered(name@),
            cs@ == name@,
            i <= names@.len(),
            forall|k: int|
                0 <= k < i ==> text::lowered(#[trigger] all[k]) != text::lowered(name@),
        decreases names.len() - i,
    {
        let have = text::lower(names[i].as_slice());
        proof {
            assert(all[i as int] == names@[i as int]@);
        }
        if text::same(have.as_slice(), wanted.as_slice()) {
            return;
        }
        i = i + 1;
    }
    names.push(cs);
    proof {
        assert(text::char_views(names@) =~= all.push(name@));
    }
}

/// The names to look for, in lower case.
fn wanted_names(tun_name: &str) -> (r: Vec<Vec<char>>)
    ensures
        text::char_views(r@) == lower_all(interface_names(tun_name@)),
{
    let mut names: Vec<Vec<char>> = Vec::new();
    let own = text::trim_text(tun_name);
    names.push(text::to_chars(own.as_str()));
    proof {
        assert(text::char_views(names@) =~= seq![text::trimmed(tun_name@)]);
    }
    add_name(&mut names, "PoliVPN");
    add_name(&mut names, "Wintun Userspace Tunnel");
    add_name(&mut names, "Wintun");
    let ghost all = text::char_views(names@);
    let ghost wanted = lower_all(all);
    let mut out: Vec<Vec<char>> = Vec::new();
    let mut i: usize = 0;
    while i < names.len()
        invariant
            all == text::char_views(names@),
            wanted == lower_all(all),
            i <= names@.len(),
            text::char_views(out@) =~= wanted.take(i as int),
        decreases names.len() - i,
    {
        let ghost had = text::char_views(out@);
        let lower = bytes::text_lower(text::to_text(names[i].as_slice()).as_str());
        out.push(text::to_chars(lower.as_str()));
        proof {
            assert(all[i as int] == names@[i as int]@);
            assert(wanted[i as int] == lower@);
            assert(text::char_views(out@) =~= had.push(lower@));
        }
        i = i + 1;
    }
    proof {
        assert(wanted.take(i as int) =~= wanted);
    }
    out
}

/// The name of the interface in the list of interfaces.
fn search_listing(tun_name: &str, listing: &str) -> (r: LineName)
    ensures
        r@ == listed_name(tun_name@, listing@),
{
    let names = wanted_names(tun_name);
    let cs = text::to_chars(listing);
    let lines = text::split(cs.as_slice(), '\n');
    let ghost all = text::pieces(listing@, '\n');
    let ghost wanted = text::char_views(names@);
    let mut i: usize = 0;
    proof {
        assert(all.skip(0) =~= all);
        assert(text::char_views(lines@).len() == lines@.len());
    }
    while i < lines.len()
        invariant
            all == text::pieces(listing@, '\n'),
            text::char_views(lines@) == all,
            lines@.len() == all.len(),
            wanted == text::char_views(names@),
            wanted == lower_all(interface_names(tun_name@)),
            i <= lines@.len(),
            name_in_lines(all, wanted) == name_in_lines(all.skip(i as int), wanted),
        decreases lines.len() - i,
    {
        proof {
            assert(all.skip(i as int)[0] == lines@[i as int]@);
            assert(all.skip(i as int).skip(1) =~= all.skip(i + 1));
        }
        let line = text::to_text(text::trim(lines[i].as_slice()));
        let lower = bytes::text_lower(line.as_str());
        match find_name_in_line(line.as_str(), lower.as_str(), &names) {
            LineName::Missing => {},
            found => {
                return found;
            },
        }
        i = i + 1;
    }
    LineName::Missing
}

/// The command that lists the interfaces.
pub fn list_interfaces() -> (r: NetCommand)
    ensures
        r@ == net_command::netsh(
            "Elenco interfacce IPv4 collegate"@,
            seq!["interface"@, "ipv4"@, "show"@, "interfaces"@],
        ),
{
    let args: [&str; 4] = ["interface", "ipv4", "show", "interfaces"];
    proof {
        assert(net_command::ref_views(args@) =~= seq![
            "interface"@,
            "ipv4"@,
            "show"@,
            "interfaces"@,
        ]);
    }
    net_command::make_netsh("Elenco interfacce IPv4 collegate".to_string(), args.as_slice())
}

/// The interface that is used, and what the user is told.
pub struct AliasChoice {
    pub alias: String,
    pub message: String,
}

/// The interface of the tunnel, from what listing the interfaces gave.
pub open spec fn chosen_alias(
    tun_name: Seq<char>,
    listing: Result<Seq<char>, Seq<char>>,
) -> Option<Seq<char>> {
    match listing {
        Err(_) => Some(tun_name),
        Ok(s) => match listed_name(tun_name, s) {
            LineNameView::Cut => None,
            LineNameView::Name(n) => Some(n),
            LineNameView::Missing => Some(tun_name),
        },
    }
}

/// The interface of the tunnel, from what listing the interfaces gave.
/// Without a list, or if the list does not have it, the name of the tunnel is
/// used as it is. `None` if the place of the name in its line falls inside a
/// character or beyond the line.
pub fn resolve_iface_alias(tun_name: &str, listing: Result<String, String>) -> (r: Option<
    AliasChoice,
>)
    ensures
        match r {
            Some(c) => chosen_alias(tun_name@, net_command::result_view(listing)) == Some(c.alias@),
            None => chosen_alias(tun_name@, net_command::result_view(listing)) is None,
        },
        match listing {
            Err(e) => r matches Some(c) && c.alias@ == tun_name@ && c.message@
                == "[net] Avviso: elenco interfacce IPv4 non disponibile ("@ + e@
                + "); uso nome TUN «"@ + tun_name@ + "»"@,
            Ok(s) => match listed_name(tun_name@, s@) {
                LineNameView::Cut => r is None,
                LineNameView::Name(n) => r matches Some(c) && c.alias@ == n && c.message@
                    == "[net] Interfaccia di rete individuata: «"@ + n + "» (da tun_name «"@
                    + tun_name@ + "»)"@,
                LineNameView::Missing => r matches Some(c) && c.alias@ == tun_name@ && c.message@
                    == "[net] Avviso: nessun alias in netsh per «"@ + tun_name@
                    + "», si usa il nome TUN direttamente"@,
            },
        },
{
    match listing {
        Err(e) => Some(
            AliasChoice {
                alias: tun_name.to_string(),
                message: text::cat5(
                    "[net] Avviso: elenco interfacce IPv4 non disponibile (",
                    e.as_str(),
                    "); uso nome TUN «",
                    tun_name,
                    "»",
                ),
            },
        ),
        Ok(s) => match search_listing(tun_name, s.as_str()) {
            LineName::Cut => None,
            LineName::Name(n) => {
                let message = text::cat5(
                    "[net] Interfaccia di rete individuata: «",
                    n.as_str(),
                    "» (da tun_name «",
                    tun_name,
                    "»)",
                );
                Some(AliasChoice { alias: n, message })
            },
            LineName::Missing => Some(
                AliasChoice {
                    alias: tun_name.to_string(),
                    message: text::cat3(
                        "[net] Avviso: nessun alias in netsh per «",
                        tun_name,
                        "», si usa il nome TUN direttamente",
                    ),
                },
            ),
        },
    }
}

// ---------------------------------------------------------------------------
// Laws
// ---------------------------------------------------------------------------

/// What PowerShell reads of a text behind an opening single quote: the text
/// in quotes and what follows the closing one. Two quotes stand for one.
pub open spec fn read_quoted(s: Seq<char>) -> Option<(Seq<char>, Seq<char>)>
    decreases s.len(),
{
    if s.len() == 0 {
        None
    } else if s[0] != '\'' {
        match read_quoted(s.skip(1)) {
            Some((t, rest)) => Some((seq![s[0]] + t, rest)),
            None => None,
        }
    } else if s.len() > 1 && s[1] == '\'' {
        match read_quoted(s.skip(2)) {
            Some((t, rest)) => Some((seq!['\''] + t, rest)),
            None => None,
        }
    } else {
        Some((Seq::empty(), s.skip(1)))
    }
}

/// A name that has an IPv4 address is never said to have none, whatever
/// addresses come in front of it.
pub proof fn law_ipv4_address_is_found(host: Seq<char>, answer: LookupAnswer, i: int)
    requires
        answer matches LookupAnswer::Found(list) && 0 <= i < list@.len() && list@[i] is V4,
    ensures
        gateway_address(host, answer) is Ok,
{
    if let LookupAnswer::Found(list) = answer {
        lemma_first_v4(list@, i);
    }
}

/// A list with an IPv4 address has a first one.
proof fn lemma_first_v4(list: Seq<Address>, i: int)
    requires
        0 <= i < list.len(),
        list[i] is V4,
    ensures
        first_v4(list) is Some,
    decreases list.len(),
{
    if i > 0 {
        assert(list.skip(1)[i - 1] == list[i]);
        lemma_first_v4(list.skip(1), i - 1);
    }
}

/// A dotted address is the address of the gateway, whatever a lookup gave. Of
/// a name it is the first IPv4 address that the lookup gave.
pub proof fn law_first_ipv4_address_is_used(
    host: Seq<char>,
    answer: LookupAnswer,
    i: int,
    ip: String,
)
    ensures
        numbers::is_dotted_quad(text::trimmed(host)) ==> gateway_address(host, answer) == Ok::<
            Seq<char>,
            Seq<char>,
        >(text::trimmed(host)),
        !numbers::is_dotted_quad(text::trimmed(host)) ==> (answer matches LookupAnswer::Found(list)
            && 0 <= i < list@.len() && list@[i] == Address::V4(ip) && (forall|k: int|
            0 <= k < i ==> (#[trigger] list@[k]) is V6) ==> gateway_address(host, answer) == Ok::<
            Seq<char>,
            Seq<char>,
        >(ip@)),
        !numbers::is_dotted_quad(text::trimmed(host)) && answer is Failed ==> gateway_address(
            host,
            answer,
        ) is Err,
{
    if let LookupAnswer::Found(list) = answer {
        if 0 <= i < list@.len() && list@[i] == Address::V4(ip) && (forall|k: int|
            0 <= k < i ==> (#[trigger] list@[k]) is V6) {
            lemma_first_v4_is(list@, i);
        }
    }
}

/// What comes before the first IPv4 address is passed over.
proof fn lemma_first_v4_is(list: Seq<Address>, i: int)
    requires
        0 <= i < list.len(),
        list[i] is V4,
        forall|k: int| 0 <= k < i ==> (#[trigger] list[k]) is V6,
    ensures
        first_v4(list) == Some(list[i]->V4_0@),
    decreases list.len(),
{
    if i > 0 {
        let rest = list.skip(1);
        assert(rest[i - 1] == list[i]);
        assert forall|k: int| 0 <= k < i - 1 implies (#[trigger] rest[k]) is V6 by {
            assert(rest[k] == list[k + 1]);
        }
        assert(list[0] is V6);
        lemma_first_v4_is(rest, i - 1);
    }
}

/// Where everything goes through the tunnel, each half of the address space
/// gets a route on the interface of the tunnel, to the address of the tunnel,
/// with the best metric and only until the next start.
pub proof fn law_halves_go_through_the_tunnel(alias: Seq<char>, nexthop: Seq<char>)
    ensures
        tunnel_plans(alias, nexthop).len() == 2,
        tunnel_plans(alias, nexthop)[0].route.prefix_cidr == "0.0.0.0/1"@,
        tunnel_plans(alias, nexthop)[1].route.prefix_cidr == "128.0.0.0/1"@,
        forall|i: int|
            0 <= i < 2 ==> {
                let plan = #[trigger] tunnel_plans(alias, nexthop)[i];
                &&& plan.route.iface_alias == text::trimmed(alias)
                &&& plan.command.program == "netsh"@
                &&& plan.command.args == seq![
                    "interface"@,
                    "ipv4"@,
                    "add"@,
                    "route"@,
                    "prefix="@ + plan.route.prefix_cidr,
                    "interface="@ + text::trimmed(alias),
                    "nexthop="@ + text::trimmed(nexthop),
                    "metric=1"@,
                    "store=active"@,
                ]
            },
{
}

/// The gateway itself gets a route of its own on the interface to the
/// Internet, to the next hop there, with the best metric.
pub proof fn law_gateway_goes_past_the_tunnel(server: Seq<char>, wan: WanView)
    ensures
        host_route_plan(server, wan).route.prefix_cidr == text::trimmed(server) + "/32"@,
        host_route_plan(server, wan).route.iface_alias == wan.alias,
        host_route_plan(server, wan).command.program == "netsh"@,
        host_route_plan(server, wan).command.args == seq![
            "interface"@,
            "ipv4"@,
            "add"@,
            "route"@,
            "prefix="@ + (text::trimmed(server) + "/32"@),
            "interface="@ + text::trimmed(wan.alias),
            "nexthop="@ + text::trimmed(wan.next_hop),
            "metric=1"@,
            "store=active"@,
        ],
{
}

/// A network with a mask of `n` leading ones gets a route with the prefix
/// length `n` on the interface of the tunnel, to the address of the tunnel. A
/// warning comes with the network of all addresses only.
pub proof fn law_network_goes_through_the_tunnel(
    alias: Seq<char>,
    net: Seq<char>,
    mask: Seq<char>,
    nexthop: Seq<char>,
    n: nat,
)
    requires
        n <= 32,
        text::trimmed(mask) == numbers::dotted(netmask::mask_bytes(netmask::mask_of(n) as nat)),
    ensures
        split_result(alias, net, mask, nexthop) matches Ok((plan, warned)) && warned == (n == 0
            && text::trimmed(net) == "0.0.0.0"@) && plan.route.prefix_cidr == text::trimmed(net)
            + "/"@ + numbers::decimal(n) && plan.route.iface_alias == alias && plan.command.program
            == "netsh"@ && plan.command.args == seq![
            "interface"@,
            "ipv4"@,
            "add"@,
            "route"@,
            "prefix="@ + (text::trimmed(net) + "/"@ + numbers::decimal(n)),
            "interface="@ + alias,
            "nexthop="@ + text::trimmed(nexthop),
            "store=active"@,
        ],
{
    netmask::law_dotted_mask_reads_back(n);
}

/// A route is removed by its prefix on its interface.
pub proof fn law_route_is_removed(route: RouteView)
    ensures
        removal_of(route).program == "netsh"@,
        removal_of(route).args == seq![
            "interface"@,
            "ipv4"@,
            "delete"@,
            "route"@,
            "prefix="@ + text::trimmed(route.prefix_cidr),
            "interface="@ + text::trimmed(route.iface_alias),
        ],
{
}

/// Every name server gets one command on the interface, in order: the first
/// takes the place of what was set, the others follow at places two, three
/// and so on.
pub proof fn law_name_servers_are_set(alias: Seq<char>, servers: Seq<Seq<char>>, i: int)
    requires
        0 <= i < servers.len(),
    ensures
        dns_commands(alias, servers).len() == servers.len(),
        dns_commands(alias, servers)[i].program == "netsh"@,
        i == 0 ==> dns_commands(alias, servers)[i].args == seq![
            "interface"@,
            "ipv4"@,
            "set"@,
            "dnsservers"@,
            "name="@ + alias,
            "static"@,
            text::trimmed(servers[i]),
            "validate=no"@,
        ],
        i > 0 ==> dns_commands(alias, servers)[i].args == seq![
            "interface"@,
            "ipv4"@,
            "add"@,
            "dnsservers"@,
            "name="@ + alias,
            text::trimmed(servers[i]),
            "index="@ + numbers::decimal((i + 1) as nat),
            "validate=no"@,
        ],
{
}

/// Name servers are taken off an interface by handing it back to DHCP.
pub proof fn law_name_servers_are_taken_off(dns: DnsView)
    ensures
        dns_reset(dns).program == "netsh"@,
        dns_reset(dns).args == seq![
            "interface"@,
            "ipv4"@,
            "set"@,
            "dnsservers"@,
            "name="@ + text::trimmed(dns.iface_alias),
            "source=dhcp"@,
        ],
{
}

/// The names of a domain are sent to the servers, all of them and in order,
/// each in quotes; the domain of the rule is the given one with one full stop
/// in front. Without a domain or without servers there is no rule.
pub proof fn law_names_are_sent_to_servers(namespace: Seq<char>, servers: Seq<Seq<char>>)
    ensures
        text::trimmed(namespace).len() == 0 || servers.len() == 0 ==> rule_plan(
            namespace,
            servers,
        ).0 is None && rule_plan(namespace, servers).1.namespace.len() == 0,
        text::trimmed(namespace).len() > 0 && servers.len() > 0 ==> {
            let domain = rule_plan(namespace, servers).1.namespace;
            let t = text::trimmed(namespace);
            &&& domain == if t[0] == '.' {
                t
            } else {
                seq!['.'] + t
            }
            &&& rule_plan(namespace, servers).0 matches Some(c)
            &&& c.program == "powershell"@
            &&& c.args.len() == 6
            &&& c.args[5] == "Add-DnsClientNrptRule -Namespace "@ + quoted(domain)
                + " -NameServers ("@ + text::joined(
                Seq::new(servers.len(), |i: int| quoted(text::trimmed(servers[i]))),
                ","@,
            ) + ") -DisplayName 'PoliVPN'"@
        },
{
    reveal_strlit(".");
    let t = text::trimmed(namespace);
    if t.len() > 0 {
        assert(t.subrange(0, 1) =~= seq![t[0]]);
        assert("."@ =~= seq!['.']);
        assert(text::has_prefix(t, "."@) <==> t[0] == '.') by {
            if t[0] == '.' {
                assert(t.subrange(0, 1) =~= "."@);
            } else if text::has_prefix(t, "."@) {
                assert(t.subrange(0, 1)[0] == '.');
            }
        }
    }
    assert(all_quoted(trimmed_all(servers)) =~= Seq::new(
        servers.len(),
        |i: int| quoted(text::trimmed(servers[i])),
    ));
}

/// A rule is removed by its whole domain, in quotes.
pub proof fn law_rule_is_removed(rule: NrptView)
    ensures
        rule_removal(rule).program == "powershell"@,
        rule_removal(rule).args.len() == 6,
        rule_removal(rule).args[5]
            == "Get-DnsClientNrptRule | Where-Object { $_.Namespace -eq "@ + quoted(rule.namespace)
            + " -and $_.DisplayName -eq 'PoliVPN' } | Remove-DnsClientNrptRule -Force"@,
{
}

/// What is undone may be gone already; any other failure is handed on with
/// its words.
pub proof fn law_missing_counts_as_undone(
    result: Result<Seq<char>, Seq<char>>,
    before: Seq<char>,
    rest: Seq<char>,
)
    ensures
        result is Ok ==> undo_outcome(result) is Ok,
        result matches Err(e) ==> undo_outcome(result) == Ok::<(), Seq<char>>(()) || undo_outcome(
            result,
        ) == Err::<(), Seq<char>>(e),
        result matches Err(e) ==> (bytes::unicode_lower(e) == before + "not found"@ + rest
            || bytes::unicode_lower(e) == before + "non trovato"@ + rest || bytes::unicode_lower(e)
            == before + "non è stato trovato"@ + rest || bytes::unicode_lower(e) == before
            + "could not find"@ + rest ==> undo_outcome(result) is Ok),
        result matches Err(e) ==> !text::has_part(bytes::unicode_lower(e), "not found"@)
            && !text::has_part(bytes::unicode_lower(e), "non trovato"@) && !text::has_part(
            bytes::unicode_lower(e),
            "non è stato trovato"@,
        ) && !text::has_part(bytes::unicode_lower(e), "could not find"@) ==> undo_outcome(result)
            == Err::<(), Seq<char>>(e),
{
    lemma_middle_part(before, "not found"@, rest);
    lemma_middle_part(before, "non trovato"@, rest);
    lemma_middle_part(before, "non è stato trovato"@, rest);
    lemma_middle_part(before, "could not find"@, rest);
}

/// A part between two others is found.
proof fn lemma_middle_part(before: Seq<char>, part: Seq<char>, rest: Seq<char>)
    ensures
        text::has_part(before + part + rest, part),
{
    let s = before + part + rest;
    let at = before.len() as int;
    assert(s.subrange(at, at + part.len()) =~= part);
    assert(text::occurs_at(s, part, at));
}

/// The default route is taken from an answer that has a next hop and an
/// interface, each where it belongs and without white space around it.
pub proof fn law_default_route_is_taken(next_hop: Seq<char>, if_index: u32, alias: Seq<char>)
    ensures
        wan_in(next_hop, if_index, alias) is Some <==> text::trimmed(next_hop).len() > 0
            && text::trimmed(alias).len() > 0,
        wan_in(next_hop, if_index, alias) matches Some(w) ==> w.next_hop == text::trimmed(next_hop)
            && w.alias == text::trimmed(alias) && w.if_index == if_index,
{
}

/// The interfaces to skip are all named in the script, each in quotes.
pub proof fn law_skipped_interfaces_are_named(skips: Seq<Seq<char>>, i: int)
    requires
        0 <= i < skips.len(),
    ensures
        text::has_part(wan_script(skips), quoted(skips[i])),
{
    let list = all_quoted(skips);
    text::lemma_joined_has_part(list, ","@, i);
    let middle = text::joined(list, ","@);
    assert(list[i] == quoted(skips[i]));
    let k = choose|k: int| #[trigger] text::occurs_at(middle, list[i], k);
    let front = "\n$skips = @("@;
    let s = wan_script(skips);
    let at = front.len() as int + k;
    assert(s.subrange(at, at + list[i].len()) =~= middle.subrange(k, k + list[i].len()));
    assert(text::occurs_at(s, quoted(skips[i]), at));
}

/// The name of a connected interface is what follows the word `connected` in
/// its line, without white space around it.
pub proof fn law_name_follows_the_state(
    front: Seq<char>,
    state: Seq<char>,
    name: Seq<char>,
    lower: Seq<char>,
)
    requires
        text::first_at(lower, "connected"@) matches Some(at) && text::byte_len(lower.take(at))
            == text::byte_len(front),
        text::byte_len(state) == 9,
    ensures
        name_behind_state(front + state + name, lower) == if text::trimmed(name).len() > 0 {
            LineNameView::Name(text::trimmed(name))
        } else {
            LineNameView::Missing
        },
{
    let line = front + state + name;
    let head = front + state;
    lemma_bytes_add(front, state);
    lemma_chars_counted(head, name);
    assert(line =~= head + name);
    assert(line.skip(head.len() as int) =~= name);
}

/// The bytes of two texts add up.
proof fn lemma_bytes_add(a: Seq<char>, b: Seq<char>)
    ensures
        text::byte_len(a + b) == text::byte_len(a) + text::byte_len(b),
    decreases b.len(),
{
    if b.len() == 0 {
        assert(a + b =~= a);
    } else {
        assert((a + b).drop_last() =~= a + b.drop_last());
        lemma_bytes_add(a, b.drop_last());
    }
}

/// The bytes of a start of a text count its characters.
proof fn lemma_chars_counted(head: Seq<char>, rest: Seq<char>)
    ensures
        text::chars_in_bytes(head + rest, text::byte_len(head) as int) == Some(head.len() as int),
    decreases head.len(),
{
    let s = head + rest;
    if head.len() > 0 {
        text::lemma_byte_len_skip(head);
        assert(s.skip(1) =~= head.skip(1) + rest);
        assert(s[0] == head[0]);
        lemma_chars_counted(head.skip(1), rest);
    }
}

/// The first line that names the interface counts, whatever lines stand
/// around it; the name is that of a connected interface that the line
/// mentions.
pub proof fn law_first_named_line_counts(
    before: Seq<Seq<char>>,
    line: Seq<char>,
    after: Seq<Seq<char>>,
    names: Seq<Seq<char>>,
)
    requires
        forall|i: int|
            0 <= i < before.len() ==> name_in_lines(seq![#[trigger] before[i]], names) is Missing,
        !(name_in_lines(seq![line], names) is Missing),
    ensures
        name_in_lines(before + seq![line] + after, names) == name_in_lines(seq![line], names),
    decreases before.len(),
{
    reveal_with_fuel(name_in_lines, 2);
    let all = before + seq![line] + after;
    assert(seq![line].skip(1) =~= Seq::empty());
    if before.len() == 0 {
        assert(all[0] == line);
    } else {
        assert(all[0] == before[0]);
        assert(seq![before[0]].skip(1) =~= Seq::empty());
        assert(all.skip(1) =~= before.skip(1) + seq![line] + after);
        assert forall|i: int| 0 <= i < before.skip(1).len() implies name_in_lines(
            seq![#[trigger] before.skip(1)[i]],
            names,
        ) is Missing by {
            assert(before.skip(1)[i] == before[i + 1]);
        }
        law_first_named_line_counts(before.skip(1), line, after, names);
    }
}

/// A name is taken from a line only if the line has the word `connected`,
/// says nothing of `disconnect`, and mentions the name of the tunnel or one of
/// those that its driver gives.
pub proof fn law_named_line_is_connected(
    line: Seq<char>,
    lower: Seq<char>,
    names: Seq<Seq<char>>,
)
    ensures
        !(name_in_line(line, lower, names) is Missing) ==> text::words_of(lower).contains(
            "connected"@,
        ) && !text::has_part(lower, "disconnect"@) && exists|i: int|
            0 <= i < names.len() && text::has_part(lower, #[trigger] names[i]),
        line.len() > 0 && text::words_of(lower).contains("connected"@) && !text::has_part(
            lower,
            "disconnect"@,
        ) && !text::has_part(lower, "disconnecting"@) && !text::has_part(lower, " idx "@)
            && !text::has_prefix(line, "---"@) && !text::has_prefix(lower, "idx "@) && (exists|
            i: int,
        |
            0 <= i < names.len() && text::has_part(lower, #[trigger] names[i])) ==> name_in_line(
            line,
            lower,
            names,
        ) == name_behind_state(line, lower),
{
}

/// The names to look for are that of the tunnel, first and without white space
/// around it, and those of the client and its driver, none of them twice.
pub proof fn law_names_to_look_for(tun_name: Seq<char>)
    ensures
        interface_names(tun_name)[0] == text::trimmed(tun_name),
        has_name(interface_names(tun_name), "PoliVPN"@),
        has_name(interface_names(tun_name), "Wintun Userspace Tunnel"@),
        has_name(interface_names(tun_name), "Wintun"@),
        interface_names(tun_name).len() <= 4,
{
    let a = seq![text::trimmed(tun_name)];
    let b = with_name(a, "PoliVPN"@);
    let c = with_name(b, "Wintun Userspace Tunnel"@);
    let d = with_name(c, "Wintun"@);
    lemma_with_name(a, "PoliVPN"@, "PoliVPN"@);
    lemma_with_name(b, "Wintun Userspace Tunnel"@, "PoliVPN"@);
    lemma_with_name(c, "Wintun"@, "PoliVPN"@);
    lemma_with_name(c, "Wintun"@, "Wintun Userspace Tunnel"@);
}

/// The name is there but for case.
pub open spec fn has_name(names: Seq<Seq<char>>, name: Seq<char>) -> bool {
    exists|i: int|
        0 <= i < names.len() && text::lowered(#[trigger] names[i]) == text::lowered(name)
}

/// Adding a name keeps the others.
proof fn lemma_with_name(names: Seq<Seq<char>>, name: Seq<char>, other: Seq<char>)
    ensures
        has_name(with_name(names, name), name),
        has_name(names, other) ==> has_name(with_name(names, name), other),
{
    let more = with_name(names, name);
    if !has_name(names, name) {
        assert(more[more.len() - 1] == name);
        if has_name(names, other) {
            let i = choose|i: int|
                0 <= i < names.len() && text::lowered(#[trigger] names[i]) == text::lowered(other);
            assert(more[i] == names[i]);
        }
    }
}

/// A list of interfaces that names the interface of the tunnel gives that
/// name; otherwise, and without a list, the name of the tunnel is used.
pub proof fn law_alias_falls_back(tun_name: Seq<char>, listing: Result<Seq<char>, Seq<char>>)
    ensures
        listing is Err ==> chosen_alias(tun_name, listing) == Some(tun_name),
        listing matches Ok(s) ==> (listed_name(tun_name, s) is Missing ==> chosen_alias(
            tun_name,
            listing,
        ) == Some(tun_name)) && (listed_name(tun_name, s) matches LineNameView::Name(n)
            ==> chosen_alias(tun_name, listing) == Some(n)),
{
}

/// The servers that are shown are those that are more than white space, in
/// order.
pub proof fn law_blank_servers_are_left_out(servers: Seq<Seq<char>>, server: Seq<char>)
    ensures
        named_servers(servers.push(server)) == if text::trimmed(server).len() == 0 {
            named_servers(servers)
        } else {
            named_servers(servers).push(text::trimmed(server))
        },
{
    assert(servers.push(server).drop_last() =~= servers);
}

/// A text in quotes is read back as it was, and ends where it should,
/// whatever it holds.
pub proof fn law_quoted_text_reads_back(s: Seq<char>, rest: Seq<char>)
    requires
        rest.len() > 0 ==> rest[0] != '\'',
    ensures
        quoted(s) + rest == seq!['\''] + (escaped(s) + seq!['\''] + rest),
        read_quoted(escaped(s) + seq!['\''] + rest) == Some((s, rest)),
    decreases s.len(),
{
    reveal_strlit("'");
    assert(quoted(s) + rest =~= seq!['\''] + (escaped(s) + seq!['\''] + rest));
    let all = escaped(s) + seq!['\''] + rest;
    if s.len() == 0 {
        assert(all =~= seq!['\''] + rest);
        assert(all.skip(1) =~= rest);
        assert(s =~= Seq::empty());
    } else {
        law_quoted_text_reads_back(s.skip(1), rest);
        let tail = escaped(s.skip(1)) + seq!['\''] + rest;
        if s[0] == '\'' {
            assert(all =~= seq!['\'', '\''] + tail);
            assert(all.skip(2) =~= tail);
            assert(seq!['\''] + s.skip(1) =~= s);
        } else {
            assert(all =~= seq![s[0]] + tail);
            assert(all.skip(1) =~= tail);
            assert(seq![s[0]] + s.skip(1) =~= s);
        }
    }
}

/// The route of a network is removed by the prefix and the interface that it
/// was added with, if the name of the interface has no white space around it.
pub proof fn law_split_route_is_undone(
    alias: Seq<char>,
    net: Seq<char>,
    length: nat,
    nexthop: Seq<char>,
)
    requires
        text::trimmed(alias) == alias,
    ensures
        ({
            let plan = split_plan(alias, net, length, nexthop);
            let undo = removal_of(plan.route);
            undo.args[4] == plan.command.args[4] && undo.args[5] == plan.command.args[5]
        }),
{
    reveal_strlit("/");
    let d = numbers::decimal(length);
    numbers::lemma_decimal_reads_back(length);
    lemma_prefix_stays(net, "/"@ + d);
    assert(network_prefix(net, length) =~= text::trimmed(net) + ("/"@ + d));
}

/// The prefix of a route is not trimmed when the route is removed.
proof fn lemma_prefix_stays(net: Seq<char>, length: Seq<char>)
    requires
        length.len() > 0,
        !text::is_space(length[0]),
        !text::is_space(length.last()),
    ensures
        text::trimmed(text::trimmed(net) + length) == text::trimmed(net) + length,
{
    let t = text::trimmed(net);
    let prefix = t + length;
    text::lemma_trimmed_start(net);
    text::lemma_trimmed_end(text::trimmed_start(net));
    if t.len() > 0 {
        assert(t[0] == text::trimmed_start(net)[0]);
        assert(prefix[0] == t[0]);
    } else {
        assert(prefix[0] == length[0]);
    }
    assert(prefix.last() == length.last());
    assert(text::trimmed_start(prefix) == prefix);
    assert(text::trimmed_end(prefix) == prefix);
}

/// The route to the gateway is removed by the prefix and the interface that
/// it was added with.
pub proof fn law_host_route_is_undone(server: Seq<char>, wan: WanView)
    ensures
        ({
            let plan = host_route_plan(server, wan);
            let undo = removal_of(plan.route);
            undo.args[4] == plan.command.args[4] && undo.args[5] == plan.command.args[5]
        }),
{
    reveal_strlit("/32");
    lemma_prefix_stays(server, "/32"@);
}

/// The routes of the two halves are removed by the prefixes and the interface
/// that they were added with.
pub proof fn law_halves_are_undone(alias: Seq<char>, nexthop: Seq<char>)
    ensures
        ({
            let low = half_plan("0.0.0.0/1"@, alias, nexthop);
            let high = half_plan("128.0.0.0/1"@, alias, nexthop);
            &&& removal_of(low.route).args[4] == low.command.args[4]
            &&& removal_of(low.route).args[5] == low.command.args[5]
            &&& removal_of(high.route).args[4] == high.command.args[4]
            &&& removal_of(high.route).args[5] == high.command.args[5]
        }),
{
    reveal_strlit("0.0.0.0/1");
    reveal_strlit("128.0.0.0/1");
    text::lemma_trimmed_twice(alias);
    let low = "0.0.0.0/1"@;
    let high = "128.0.0.0/1"@;
    assert(text::trimmed_start(low) == low && text::trimmed_end(low) == low);
    assert(text::trimmed_start(high) == high && text::trimmed_end(high) == high);
}

/// Name servers are taken off the interface that they were set on, if its
/// name has no white space around it.
pub proof fn law_dns_is_undone(alias: Seq<char>, servers: Seq<Seq<char>>, i: int)
    requires
        text::trimmed(alias) == alias,
        0 <= i < servers.len(),
    ensures
        dns_reset(DnsView { iface_alias: alias, had_servers: true }).args[4] == dns_commands(
            alias,
            servers,
        )[i].args[4],
{
}

/// A rule is removed under the domain and the display name that it was added
/// with.
pub proof fn law_rule_is_undone(namespace: Seq<char>, servers: Seq<Seq<char>>)
    requires
        text::trimmed(namespace).len() > 0,
    ensures
        ({
            let domain = rule_domain(namespace);
            let added = rule_command(domain, servers).args[5];
            let removed = rule_removal(NrptView { namespace: domain }).args[5];
            &&& text::has_part(added, "-Namespace "@ + quoted(domain))
            &&& text::has_part(added, "-DisplayName 'PoliVPN'"@)
            &&& text::has_part(removed, "$_.Namespace -eq "@ + quoted(domain))
            &&& text::has_part(removed, "$_.DisplayName -eq 'PoliVPN'"@)
        }),
{
    let domain = rule_domain(namespace);
    let q = quoted(domain);
    let added = rule_command(domain, servers).args[5];
    let removed = rule_removal(NrptView { namespace: domain }).args[5];
    reveal_strlit("Add-DnsClientNrptRule -Namespace ");
    reveal_strlit("-Namespace ");
    reveal_strlit(") -DisplayName 'PoliVPN'");
    reveal_strlit("-DisplayName 'PoliVPN'");
    reveal_strlit("Get-DnsClientNrptRule | Where-Object { $_.Namespace -eq ");
    reveal_strlit("$_.Namespace -eq ");
    reveal_strlit(" -and $_.DisplayName -eq 'PoliVPN' } | Remove-DnsClientNrptRule -Force");
    reveal_strlit("$_.DisplayName -eq 'PoliVPN'");
    lemma_part_at(added, "-Namespace "@ + q, 22);
    lemma_part_at(added, "-DisplayName 'PoliVPN'"@, added.len() - 22);
    lemma_part_at(removed, "$_.Namespace -eq "@ + q, 39);
    lemma_part_at(removed, "$_.DisplayName -eq 'PoliVPN'"@, 56 + q.len() as int + 6);
}

/// Where the characters agree, the part is found.
proof fn lemma_part_at(s: Seq<char>, part: Seq<char>, at: int)
    requires
        0 <= at,
        at + part.len() <= s.len(),
        forall|k: int| 0 <= k < part.len() ==> s[at + k] == #[trigger] part[k],
    ensures
        text::has_part(s, part),
{
    assert(s.subrange(at, at + part.len()) =~= part);
    assert(text::occurs_at(s, part, at));
}

/// The script looks for the default routes of IPv4 that have a next hop, those
/// with the lowest metric first, passes over the interfaces to skip, and hands
/// out the next hop, the index and the name of the first that is left.
pub proof fn law_default_route_is_looked_for(skips: Seq<Seq<char>>)
    ensures
        wan_script(skips) == "\n$skips = @("@ + text::joined(
            Seq::new(skips.len(), |i: int| quoted(skips[i])),
            ","@,
        )
            + ")\n$cands = Get-NetRoute -AddressFamily IPv4 -DestinationPrefix '0.0.0.0/0' |\n  Where-Object { $_.NextHop -and ($_.NextHop -ne '0.0.0.0') } |\n  Sort-Object RouteMetric, InterfaceMetric\nforeach ($route in $cands) {\n  $name = $route.InterfaceAlias\n  if ([string]::IsNullOrWhiteSpace($name)) { continue }\n  $skip = $false\n  foreach ($s in $skips) {\n    if ($name -ieq $s) { $skip = $true; break }\n  }\n  if ($skip) { continue }\n  [pscustomobject]@{\n    NextHop = $route.NextHop\n    IfIndex = [int]$route.InterfaceIndex\n    Alias = $name\n  } | ConvertTo-Json -Compress\n  exit 0\n}\nWrite-Error 'Nessuna default route IPv4 con gateway valido (WAN).'\nexit 1\n"@,
{
    assert(all_quoted(skips) =~= Seq::new(skips.len(), |i: int| quoted(skips[i])));
}

/// A list of servers of up to 96 bytes is shown whole; of a longer one the
/// first 96 characters are shown, with a mark behind them.
pub proof fn law_servers_are_shown(servers: Seq<Seq<char>>)
    ensures
        ({
            let all = text::joined(named_servers(servers), ", "@);
            &&& text::byte_len(all) <= 96 ==> servers_summary(servers) == all
            &&& text::byte_len(all) > 96 && all.len() > 96 ==> servers_summary(servers) == all.take(
                96,
            ) + "…"@
            &&& text::byte_len(all) > 96 && all.len() <= 96 ==> servers_summary(servers) == all
                + "…"@
        }),
{
}

/// Every command says what it is for, with what it acts on.
pub proof fn law_commands_say_what_they_are_for(
    alias: Seq<char>,
    net: Seq<char>,
    mask: Seq<char>,
    nexthop: Seq<char>,
    wan: WanView,
    route: RouteView,
    dns: DnsView,
    rule: NrptView,
    servers: Seq<Seq<char>>,
    i: int,
)
    requires
        0 <= i < servers.len(),
    ensures
        forall|k: int|
            0 <= k < 2 ==> (#[trigger] tunnel_plans(alias, nexthop)[k]).command.operation
                == "Aggiungi route «"@ + tunnel_plans(alias, nexthop)[k].route.prefix_cidr
                + "» su interfaccia «"@ + text::trimmed(alias) + "»"@,
        host_route_plan(net, wan).command.operation == "Aggiungi route host "@ + (text::trimmed(net)
            + "/32"@) + " verso WAN («"@ + text::trimmed(wan.alias) + "»)"@,
        split_result(alias, net, mask, nexthop) matches Ok((plan, _)) ==> plan.command.operation
            == "Aggiungi route split «"@ + plan.route.prefix_cidr + "» su «"@ + text::trimmed(alias)
            + "»"@,
        removal_of(route).operation == "Elimina route «"@ + text::trimmed(route.prefix_cidr)
            + "» da «"@ + text::trimmed(route.iface_alias) + "»"@,
        i == 0 ==> dns_commands(alias, servers)[i].operation == "Imposta DNS primario ("@
            + text::trimmed(servers[i]) + ") su «"@ + alias + "»"@,
        i > 0 ==> dns_commands(alias, servers)[i].operation == "Aggiunge server DNS secondario ("@
            + text::trimmed(servers[i]) + ") su «"@ + alias + "» (indice "@ + numbers::decimal(
            (i + 1) as nat,
        ) + ")"@,
        dns_reset(dns).operation == "Ripristina DNS da DHCP su «"@ + text::trimmed(dns.iface_alias)
            + "»"@,
        rule_plan(net, servers).0 matches Some(c) ==> c.operation
            == "Aggiungi regola NRPT DNS: dominio «"@ + rule_plan(net, servers).1.namespace
            + "» — server "@ + servers_summary(servers),
        rule_removal(rule).operation == "Rimuovi regole NRPT DNS: dominio «"@ + text::trimmed(
            rule.namespace,
        ) + "»"@,
{
}

} // verus!
