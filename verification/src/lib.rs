//! Core of a Fortinet SSL-VPN client.
//!
//! The modules hold the protocol and the decisions; whoever uses them does the
//! input and output, and hands in what came of it.

pub mod archive;
pub mod auth;
pub mod build_env;
pub mod bytes;
pub mod config_xml;
pub mod connect;
pub mod cookies;
pub mod error_chain;
pub mod host;
pub mod http_body;
pub mod http_text;
pub mod io;
pub mod json;
pub mod net_command;
pub mod net_windows;
pub mod netmask;
pub mod numbers;
pub mod ppp;
pub mod ppp_proto;
pub mod routes;
pub mod session;
pub mod snapshot;
pub mod stream;
pub mod teardown;
pub mod text;
pub mod tls_http;
pub mod wintun;
pub mod xml;

use vstd::prelude::*;

use crate::auth::AuthError;

verus! {

/// The receive unit of the link and of the tunnel's interface, unless set
/// otherwise.
pub const DEFAULT_TUNNEL_MTU: u16 = 1300;

/// The receive unit that a setting asks for: a number from 576 to 1500, or
/// the usual one.
pub open spec fn tunnel_mtu(setting: Option<Seq<char>>) -> nat {
    match setting {
        Some(s) => match numbers::bounded_value(text::trimmed(s), 10, 65535) {
            Some(v) => if 576 <= v <= 1500 {
                v
            } else {
                DEFAULT_TUNNEL_MTU as nat
            },
            None => DEFAULT_TUNNEL_MTU as nat,
        },
        None => DEFAULT_TUNNEL_MTU as nat,
    }
}

/// The receive unit that the setting `POLIVPN_TUNNEL_MTU` asks for.
pub fn tunnel_mtu_from_env(setting: &Option<String>) -> (r: u16)
    ensures
        r == tunnel_mtu(text::opt_view(*setting)),
{
    if let Some(s) = setting {
        let cs = text::to_chars(s.as_str());
        if let Some(v) = numbers::parse_unsigned(text::trim(cs.as_slice()), 10, 65535) {
            if 576 <= v && v <= 1500 {
                return v as u16;
            }
        }
    }
    DEFAULT_TUNNEL_MTU
}

/// Why a session failed.
pub enum VpnError {
    Auth(AuthError),
    Tls(String),
    Tun(String),
    Ppp(String),
    /// With the words of the error.
    Io(String),
    Route(String),
}

impl VpnError {
    /// The words for the user.
    pub open spec fn words(self) -> Seq<char> {
        match self {
            VpnError::Auth(e) => "Authentication error: "@ + e@.words(),
            VpnError::Tls(e) => "TLS error: "@ + e@,
            VpnError::Tun(e) => "TUN device error: "@ + e@,
            VpnError::Ppp(e) => "PPP negotiation error: "@ + e@,
            VpnError::Io(e) => "IO error: "@ + e@,
            VpnError::Route(e) => "Route configuration error: "@ + e@,
        }
    }

    /// The words for the user.
    pub fn message(&self) -> (r: String)
        ensures
            r@ == self.words(),
    {
        match self {
            VpnError::Auth(e) => text::cat2("Authentication error: ", e.message().as_str()),
            VpnError::Tls(e) => text::cat2("TLS error: ", e.as_str()),
            VpnError::Tun(e) => text::cat2("TUN device error: ", e.as_str()),
            VpnError::Ppp(e) => text::cat2("PPP negotiation error: ", e.as_str()),
            VpnError::Io(e) => text::cat2("IO error: ", e.as_str()),
            VpnError::Route(e) => text::cat2("Route configuration error: ", e.as_str()),
        }
    }
}

/// A receive unit from 576 to 1500 is taken as it is set, with or without white
/// space around it; any other setting, and none, leaves the usual one.
pub proof fn law_receive_unit_is_bounded(n: nat, front: Seq<char>, back: Seq<char>)
    requires
        forall|i: int| 0 <= i < front.len() ==> text::is_space(#[trigger] front[i]),
        forall|i: int| 0 <= i < back.len() ==> text::is_space(#[trigger] back[i]),
    ensures
        576 <= n <= 1500 ==> tunnel_mtu(Some(front + numbers::decimal(n) + back)) == n,
        n < 576 || n > 1500 ==> tunnel_mtu(Some(front + numbers::decimal(n) + back)) == 1300,
        tunnel_mtu(None) == 1300,
        forall|s: Seq<char>| 576 <= #[trigger] tunnel_mtu(Some(s)) <= 1500,
{
    let d = numbers::decimal(n);
    numbers::lemma_decimal_reads_back(n);
    assert('0' <= d[0] <= '9' && '0' <= d[d.len() - 1] <= '9');
    text::law_trimming_takes_white_space(d, front, back);
}

} // verus!
