use vpn_core::auth::{
    extract_param, finish_login, login_body, normalize_gateway_host, preview_config_body,
    response_looks_like_html_portal, AuthError, FortiVpnAuth, VpnGateway,
};
use vpn_core::cookies::{
    cookie_header_from_all_set_cookies, extract_svpn_cookie, merge_cookie_layers_ordered,
};

fn values(list: &[&str]) -> Vec<Option<String>> {
    list.iter().map(|s| Some(s.to_string())).collect()
}

fn portal(host: &str) -> FortiVpnAuth {
    match FortiVpnAuth::new(VpnGateway { host: host.to_string(), port: 10443 }) {
        Ok(a) => a,
        Err(e) => panic!("{}", e.message()),
    }
}

#[test]
fn host_names_are_cleaned() {
    assert_eq!(normalize_gateway_host("vpn.example.com"), "vpn.example.com");
    assert_eq!(normalize_gateway_host("  https://vpn.example.com/login "), "vpn.example.com");
    assert_eq!(normalize_gateway_host("https://HTTP:// https://vpn.example.com"), "vpn.example.com");
    assert_eq!(normalize_gateway_host("http://"), "");
    assert_eq!(normalize_gateway_host("/path"), "");
    assert_eq!(normalize_gateway_host("vpn:8443/x/y"), "vpn:8443");
}

#[test]
fn a_clean_host_name_stays() {
    for input in ["https://a.b/c", " x ", "HTTPS://http://h", "öäü.example"] {
        let once = normalize_gateway_host(input);
        assert_eq!(normalize_gateway_host(&once), once);
    }
}

#[test]
fn schemes_in_front_make_no_difference() {
    for s in ["vpn.example.com/x", " http://y", "", "ö"] {
        for scheme in ["https://", "HTTPS://", "hTTp://", "http://"] {
            let with = format!("{}{}", scheme, s);
            assert_eq!(normalize_gateway_host(&with), normalize_gateway_host(s));
        }
    }
}

#[test]
fn names_beyond_ascii_are_kept() {
    for name in ["qualità.it", "1234567é", "123456é", "12345é", "日本.example"] {
        assert_eq!(normalize_gateway_host(name), name);
    }
    assert_eq!(normalize_gateway_host("http://日"), "日");
    assert_eq!(portal("https://qualità.it/x").gateway.host, "qualità.it");
}

#[test]
fn a_gateway_needs_a_host() {
    let e = match FortiVpnAuth::new(VpnGateway { host: " https:// ".to_string(), port: 1 }) {
        Ok(_) => panic!("no error"),
        Err(e) => e,
    };
    assert_eq!(e.message(), "Authentication failed: Gateway non valido (host vuoto).");
    let a = portal("https://vpn.example.com/remote");
    assert_eq!(a.gateway.host, "vpn.example.com");
    assert_eq!(a.base_https(), "https://vpn.example.com:10443");
}

#[test]
fn words_of_the_errors() {
    assert_eq!(AuthError::Http("x".to_string()).message(), "HTTP request failed: x");
    assert_eq!(AuthError::NoCookie.message(), "No SVPNCOOKIE in response");
    assert_eq!(
        AuthError::UnexpectedResponse("x".to_string()).message(),
        "Unexpected server response"
    );
}

#[test]
fn fields_of_the_form_are_encoded() {
    assert_eq!(
        login_body("mario rossi", "a&b=c%", "è~-._"),
        "username=mario%20rossi&credential=a%26b%3Dc%25&realm=%C3%A8~-._&ajax=1&just_logged_in=1"
    );
    let form = login_body("&x=1", "&", "&realm=other");
    assert_eq!(form.split('&').count(), 5);
}

#[test]
fn requests_of_a_login() {
    let steps = portal("h").login_requests("u", "p", "");
    assert_eq!(steps.len(), 3);
    assert_eq!(steps[0].url, "https://h:10443/");
    assert_eq!(steps[1].url, "https://h:10443/remote/login");
    assert_eq!(steps[2].url, "https://h:10443/remote/logincheck");
    assert!(steps[0].body.is_none() && steps[1].body.is_none());
    assert_eq!(
        steps[2].body.as_deref(),
        Some("username=u&credential=p&realm=&ajax=1&just_logged_in=1")
    );
    assert_eq!(
        steps[2].headers[0],
        ("Content-Type".to_string(), "application/x-www-form-urlencoded".to_string())
    );
    assert_eq!(steps[2].headers.len(), 6);
    assert_eq!(steps[0].headers[0], ("Pragma".to_string(), "no-cache".to_string()));
}

#[test]
fn requests_of_the_allocation() {
    let steps = portal("h").allocation_requests("SVPNCOOKIE=x");
    assert_eq!(steps.len(), 2);
    assert_eq!(steps[0].url, "https://h:10443/remote/index");
    assert_eq!(steps[1].url, "https://h:10443/remote/fortisslvpn");
    assert_eq!(steps[0].headers[0], ("Cookie".to_string(), "SVPNCOOKIE=x".to_string()));
    assert_eq!(
        steps[1].headers[1],
        ("Referer".to_string(), "https://h:10443/remote/index".to_string())
    );
    assert_eq!(steps[1].headers.len(), 7);
}

#[test]
fn parameters_of_the_reply() {
    let get = |body: &str, key: &str| -> Option<String> {
        let cs: Vec<char> = body.chars().collect();
        extract_param(&cs, key).map(|v| v.iter().collect())
    };
    assert_eq!(get("a=1&ret=1,redir=/x&ret=2", "ret="), Some("1,redir=/x".to_string()));
    assert_eq!(get("xret=1", "ret="), None);
    assert_eq!(get("ret=", "ret="), Some("".to_string()));
}

fn login(reply: &[&str], body: &str) -> Result<String, String> {
    finish_login(&values(&["a=1; Path=/"]), &values(&["b=2; Secure"]), &values(reply), body)
        .map_err(|e| e.message())
}

#[test]
fn a_login_that_succeeds() {
    assert_eq!(
        login(&["SVPNCOOKIE=abc; path=/", "a=9"], "ret=1,redir=/remote/x"),
        Ok("a=9; b=2; SVPNCOOKIE=abc".to_string())
    );
    assert_eq!(
        login(&["SVPNCOOKIE=abc; path=/"], "no result stated"),
        Ok("a=1; b=2; SVPNCOOKIE=abc".to_string())
    );
}

#[test]
fn a_login_that_is_refused() {
    let cookie = ["SVPNCOOKIE=abc"];
    assert_eq!(
        login(&cookie, "ret=0,redir=x"),
        Err("Authentication failed: Credenziali errate".to_string())
    );
    assert_eq!(
        login(&cookie, "x&ret= 7 ,y"),
        Err("Authentication failed: Codice di errore dal gateway: ret=7".to_string())
    );
    assert_eq!(
        login(&[], "ret=1&tokeninfo=x"),
        Err("Authentication failed: Il gateway richiede 2FA, non supportata da questo client."
            .to_string())
    );
    assert_eq!(
        login(&[], "ftm_push"),
        Err("Authentication failed: Il gateway richiede 2FA, non supportata da questo client."
            .to_string())
    );
    assert_eq!(
        login(&[], "hostcheck_install"),
        Err("Authentication failed: Il gateway richiede Host Check / FortiClient (hostcheck_install). Questo client non lo supporta."
            .to_string())
    );
    assert_eq!(login(&[], "ret=1"), Err("No SVPNCOOKIE in response".to_string()));
}

#[test]
fn cookies_of_a_reply() {
    assert_eq!(
        cookie_header_from_all_set_cookies(&values(&["a=1; Path=/", "noise", " b=2 "])),
        Some("a=1; b=2".to_string())
    );
    assert_eq!(cookie_header_from_all_set_cookies(&values(&["noise"])), None);
    assert_eq!(cookie_header_from_all_set_cookies(&vec![Some("a=1".to_string()), None]), None);
    assert_eq!(
        extract_svpn_cookie(&values(&["x=1", "y=SVPNCOOKIE=q; z"])),
        Some("SVPNCOOKIE=q".to_string())
    );
    assert_eq!(extract_svpn_cookie(&vec![None, Some("SVPNCOOKIE=q".to_string())]), None);
}

#[test]
fn later_cookies_win() {
    let layers = values(&["a=1; B=2", "b=3;c = 4", "A=5"]);
    assert_eq!(merge_cookie_layers_ordered(&layers, None), "A=5; b=3; c = 4");
    assert_eq!(
        merge_cookie_layers_ordered(&values(&["svpncookie=old"]), Some("SVPNCOOKIE=new".to_string())),
        "svpncookie=old"
    );
    assert_eq!(
        merge_cookie_layers_ordered(&vec![None], Some("SVPNCOOKIE=new".to_string())),
        "SVPNCOOKIE=new"
    );
    assert_eq!(merge_cookie_layers_ordered(&values(&["nothing"]), None), "");
}

#[test]
fn pages_of_the_portal() {
    assert!(response_looks_like_html_portal("<!DOCTYPE HTML><x>"));
    assert!(response_looks_like_html_portal("  <HTML lang=it>"));
    assert!(response_looks_like_html_portal("<div id=Main-App>"));
    assert!(!response_looks_like_html_portal("<sslvpn-tunnel/>"));
    let mut late: String = "x".repeat(3070);
    late.push_str("<html");
    assert!(!response_looks_like_html_portal(&late));
}

#[test]
fn previews_are_one_line() {
    assert_eq!(preview_config_body("\r\n a\nb\tc \u{7f}"), "a b\tc");
    assert_eq!(preview_config_body(" \n "), "(corpo vuoto)");
    assert_eq!(preview_config_body(&"é".repeat(500)), "é".repeat(420));
}
