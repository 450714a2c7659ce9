//! Logging in to the gateway's portal.

use vstd::prelude::*;
use vstd::slice::slice_subrange;
use vstd::slice::slice_to_vec;
use vstd::string::*;
use vstd::utf8::*;

use crate::cookies;
use crate::host;
use crate::numbers;
use crate::text;

verus! {

// ---------------------------------------------------------------------------
// Types
// ---------------------------------------------------------------------------

/// Why logging in failed.
pub enum AuthError {
    /// A request failed, with the words of the error.
    Http(String),
    AuthFailed(String),
    NoCookie,
    UnexpectedResponse(String),
}

/// The reason without its representation.
pub enum AuthErrorView {
    Http(Seq<char>),
    AuthFailed(Seq<char>),
    NoCookie,
    UnexpectedResponse(Seq<char>),
}

impl View for AuthError {
    type V = AuthErrorView;

    open spec fn view(&self) -> AuthErrorView {
        match self {
            AuthError::Http(e) => AuthErrorView::Http(e@),
            AuthError::AuthFailed(e) => AuthErrorView::AuthFailed(e@),
            AuthError::NoCookie => AuthErrorView::NoCookie,
            AuthError::UnexpectedResponse(e) => AuthErrorView::UnexpectedResponse(e@),
        }
    }
}

impl AuthErrorView {
    /// The words for the user.
    pub open spec fn words(self) -> Seq<char> {
        match self {
            AuthErrorView::Http(e) => "HTTP request failed: "@ + e,
            AuthErrorView::AuthFailed(e) => "Authentication failed: "@ + e,
            AuthErrorView::NoCookie => "No SVPNCOOKIE in response"@,
            AuthErrorView::UnexpectedResponse(_) => "Unexpected server response"@,
        }
    }
}

impl AuthError {
    /// The words for the user.
    pub fn message(&self) -> (r: String)
        ensures
            r@ == self@.words(),
    {
        match self {
            AuthError::Http(e) => {
                let mut m: String = "HTTP request failed: ".to_string();
                m.append(e.as_str());
                m
            },
            AuthError::AuthFailed(e) => {
                let mut m: String = "Authentication failed: ".to_string();
                m.append(e.as_str());
                m
            },
            AuthError::NoCookie => "No SVPNCOOKIE in response".to_string(),
            AuthError::UnexpectedResponse(_) => "Unexpected server response".to_string(),
        }
    }
}

/// Where the gateway is.
pub struct VpnGateway {
    pub host: String,
    pub port: u16,
}

/// What a session needs to know of the tunnel.
pub struct VpnConfig {
    pub assigned_ip: String,
    pub dns_servers: Vec<String>,
    pub dns_suffix: Option<String>,
    /// Destination and mask of each network behind the gateway.
    pub split_routes: Vec<(String, String)>,
}

/// A tunnel configuration without its representation.
#[verifier::ext_equal]
pub struct VpnConfigView {
    pub assigned_ip: Seq<char>,
    pub dns_servers: Seq<Seq<char>>,
    pub dns_suffix: Option<Seq<char>>,
    pub split_routes: Seq<(Seq<char>, Seq<char>)>,
}

impl View for VpnConfig {
    type V = VpnConfigView;

    open spec fn view(&self) -> VpnConfigView {
        VpnConfigView {
            assigned_ip: self.assigned_ip@,
            dns_servers: text::str_views(self.dns_servers@),
            dns_suffix: text::opt_view(self.dns_suffix),
            split_routes: text::pair_views(self.split_routes@),
        }
    }
}

/// A request to the portal.
pub struct PortalRequest {
    /// Sent with POST if it is there, with GET if not.
    pub body: Option<String>,
    pub url: String,
    pub headers: Vec<(String, String)>,
}

/// A request without its representation.
#[verifier::ext_equal]
pub struct PortalRequestView {
    pub body: Option<Seq<char>>,
    pub url: Seq<char>,
    pub headers: Seq<(Seq<char>, Seq<char>)>,
}

impl View for PortalRequest {
    type V = PortalRequestView;

    open spec fn view(&self) -> PortalRequestView {
        PortalRequestView {
            body: text::opt_view(self.body),
            url: self.url@,
            headers: text::pair_views(self.headers@),
        }
    }
}

/// The requests of a list.
pub open spec fn request_views(v: Seq<PortalRequest>) -> Seq<PortalRequestView> {
    v.map_values(|x: PortalRequest| x@)
}

// ---------------------------------------------------------------------------
// The host
// ---------------------------------------------------------------------------

/// The host name in what a user typed: schemes in front, however many, and
/// the path are dropped.
pub fn normalize_gateway_host(input: &str) -> (r: String)
    ensures
        r@ == host::host_in(input@),
{
    let cs = text::to_chars(input);
    let t = host::strip_leading_schemes(text::trim(cs.as_slice()));
    let end: usize = text::position(t, '/');
    proof {
        assert(t@.subrange(0, end as int) =~= t@.take(end as int));
    }
    text::to_text(text::trim(slice_subrange(t, 0, end)))
}

/// The portal of a gateway.
pub struct FortiVpnAuth {
    pub gateway: VpnGateway,
}

/// The address of the portal.
pub open spec fn portal_url(host: Seq<char>, port: u16) -> Seq<char> {
    "https://"@ + host + ":"@ + numbers::decimal(port as nat)
}

impl FortiVpnAuth {
    /// The portal at the host name in what the user typed. Fails if there is
    /// no name in it.
    pub fn new(gateway: VpnGateway) -> (r: Result<Self, AuthError>)
        ensures
            match r {
                Ok(a) => a.gateway.host@ == host::host_in(gateway.host@) && a.gateway.host@.len()
                    > 0 && a.gateway.port == gateway.port,
                Err(e) => host::host_in(gateway.host@).len() == 0 && e@
                    == AuthErrorView::AuthFailed("Gateway non valido (host vuoto)."@),
            },
    {
        let host = normalize_gateway_host(gateway.host.as_str());
        if host.as_str().is_empty() {
            return Err(AuthError::AuthFailed("Gateway non valido (host vuoto).".to_string()));
        }
        Ok(FortiVpnAuth { gateway: VpnGateway { host, port: gateway.port } })
    }

    /// The address of the portal.
    pub fn base_https(&self) -> (r: String)
        ensures
            r@ == portal_url(self.gateway.host@, self.gateway.port),
    {
        let mut url: String = "https://".to_string();
        url.append(self.gateway.host.as_str());
        url.append(":");
        url.append(numbers::decimal_text(self.gateway.port as u64).as_str());
        url
    }

    /// The address of a page of the portal.
    fn page(&self, path: &str) -> (r: String)
        ensures
            r@ == portal_url(self.gateway.host@, self.gateway.port) + path@,
    {
        let mut url = self.base_https();
        url.append(path);
        url
    }
}

// ---------------------------------------------------------------------------
// Requests
// ---------------------------------------------------------------------------

/// The characters that an encoded field keeps as they are.
pub open spec fn is_unreserved(b: u8) -> bool {
    ||| 0x30 <= b <= 0x39
    ||| 0x41 <= b <= 0x5a
    ||| 0x61 <= b <= 0x7a
    ||| b == 0x2d
    ||| b == 0x2e
    ||| b == 0x5f
    ||| b == 0x7e
}

/// A hexadecimal digit in upper case.
pub open spec fn hex_digit(d: int) -> char {
    if d < 10 {
        (0x30 + d) as char
    } else {
        (0x41 + d - 10) as char
    }
}

/// The bytes with each one that is not kept written as a percent sign and
/// two digits.
pub open spec fn percent_encoded(bytes: Seq<u8>) -> Seq<char>
    decreases bytes.len(),
{
    if bytes.len() == 0 {
        Seq::empty()
    } else {
        let b = bytes.last();
        percent_encoded(bytes.drop_last()) + if is_unreserved(b) {
            seq![b as char]
        } else {
            seq!['%', hex_digit(b as int / 16), hex_digit(b as int % 16)]
        }
    }
}

/// `urlencoding::encode` percent-encodes every byte of the text's UTF-8 but
/// letters, digits, `-`, `.`, `_` and `~`, with upper-case digits.
#[verifier::external_body]
fn encode_field(s: &str) -> (r: String)
    ensures
        r@ == percent_encoded(encode_utf8(s@)),
{
    urlencoding::encode(s).into_owned()
}

/// The login form.
pub open spec fn login_form(username: Seq<char>, password: Seq<char>, realm: Seq<char>) -> Seq<
    char,
> {
    "username="@ + percent_encoded(encode_utf8(username)) + "&credential="@ + percent_encoded(
        encode_utf8(password),
    ) + "&realm="@ + percent_encoded(encode_utf8(realm)) + "&ajax=1&just_logged_in=1"@
}

/// The login form.
pub fn login_body(username: &str, password: &str, realm: &str) -> (r: String)
    ensures
        r@ == login_form(username@, password@, realm@),
{
    let mut body: String = "username=".to_string();
    body.append(encode_field(username).as_str());
    body.append("&credential=");
    body.append(encode_field(password).as_str());
    body.append("&realm=");
    body.append(encode_field(realm).as_str());
    body.append("&ajax=1&just_logged_in=1");
    body
}

/// The headers that every request to the portal carries.
pub open spec fn portal_headers() -> Seq<(Seq<char>, Seq<char>)> {
    seq![
        ("Pragma"@, "no-cache"@),
        ("Cache-Control"@, "no-store, no-cache, must-revalidate"@),
        ("If-Modified-Since"@, "Sat, 1 Jan 2000 00:00:00 GMT"@),
        ("Accept"@, "*/*"@),
        ("Accept-Encoding"@, "identity"@),
    ]
}

/// Appends a header.
fn put_header(headers: &mut Vec<(String, String)>, name: &str, value: &str)
    ensures
        text::pair_views(final(headers)@) == text::pair_views(old(headers)@).push((name@, value@)),
{
    let ghost before = text::pair_views(headers@);
    headers.push((name.to_string(), value.to_string()));
    proof {
        assert(text::pair_views(headers@) =~= before.push((name@, value@)));
    }
}

/// Appends the headers that every request to the portal carries.
fn fortinet_http_headers(headers: &mut Vec<(String, String)>)
    ensures
        text::pair_views(final(headers)@) == text::pair_views(old(headers)@) + portal_headers(),
{
    let ghost before = text::pair_views(headers@);
    put_header(headers, "Pragma", "no-cache");
    put_header(headers, "Cache-Control", "no-store, no-cache, must-revalidate");
    put_header(headers, "If-Modified-Since", "Sat, 1 Jan 2000 00:00:00 GMT");
    put_header(headers, "Accept", "*/*");
    put_header(headers, "Accept-Encoding", "identity");
    proof {
        assert(text::pair_views(headers@) =~= before + portal_headers());
    }
}

/// The requests of a login, in order: the start page and the login page for
/// their cookies, then the login form.
pub open spec fn login_steps(base: Seq<char>, form: Seq<char>) -> Seq<PortalRequestView> {
    seq![
        PortalRequestView { body: None, url: base + "/"@, headers: portal_headers() },
        PortalRequestView { body: None, url: base + "/remote/login"@, headers: portal_headers() },
        PortalRequestView {
            body: Some(form),
            url: base + "/remote/logincheck"@,
            headers: seq![("Content-Type"@, "application/x-www-form-urlencoded"@)]
                + portal_headers(),
        },
    ]
}

/// The requests that have the gateway set up a tunnel, in order.
pub open spec fn allocation_steps(base: Seq<char>, cookie: Seq<char>) -> Seq<PortalRequestView> {
    seq![
        PortalRequestView {
            body: None,
            url: base + "/remote/index"@,
            headers: seq![("Cookie"@, cookie), ("Referer"@, base + "/remote/login"@)]
                + portal_headers(),
        },
        PortalRequestView {
            body: None,
            url: base + "/remote/fortisslvpn"@,
            headers: seq![("Cookie"@, cookie), ("Referer"@, base + "/remote/index"@)]
                + portal_headers(),
        },
    ]
}

impl FortiVpnAuth {
    /// The requests of a login, in order.
    pub fn login_requests(&self, username: &str, password: &str, realm: &str) -> (r: Vec<
        PortalRequest,
    >)
        ensures
            request_views(r@) == login_steps(
                portal_url(self.gateway.host@, self.gateway.port),
                login_form(username@, password@, realm@),
            ),
    {
        let mut root: Vec<(String, String)> = Vec::new();
        fortinet_http_headers(&mut root);
        let mut prefetch: Vec<(String, String)> = Vec::new();
        fortinet_http_headers(&mut prefetch);
        let mut form: Vec<(String, String)> = Vec::new();
        put_header(&mut form, "Content-Type", "application/x-www-form-urlencoded");
        fortinet_http_headers(&mut form);
        let mut out: Vec<PortalRequest> = Vec::new();
        out.push(PortalRequest { body: None, url: self.page("/"), headers: root });
        out.push(PortalRequest { body: None, url: self.page("/remote/login"), headers: prefetch });
        out.push(
            PortalRequest {
                body: Some(login_body(username, password, realm)),
                url: self.page("/remote/logincheck"),
                headers: form,
            },
        );
        proof {
            let wanted = login_steps(
                portal_url(self.gateway.host@, self.gateway.port),
                login_form(username@, password@, realm@),
            );
            let got = request_views(out@);
            assert(got[0] =~= wanted[0]);
            assert(got[1] =~= wanted[1]);
            assert(got[2] =~= wanted[2]);
            assert(got =~= wanted);
        }
        out
    }

    /// The requests that have the gateway set up a tunnel, in order.
    pub fn allocation_requests(&self, cookie_header: &str) -> (r: Vec<PortalRequest>)
        ensures
            request_views(r@) == allocation_steps(
                portal_url(self.gateway.host@, self.gateway.port),
                cookie_header@,
            ),
    {
        let mut first: Vec<(String, String)> = Vec::new();
        put_header(&mut first, "Cookie", cookie_header);
        put_header(&mut first, "Referer", self.page("/remote/login").as_str());
        fortinet_http_headers(&mut first);
        let mut second: Vec<(String, String)> = Vec::new();
        put_header(&mut second, "Cookie", cookie_header);
        put_header(&mut second, "Referer", self.page("/remote/index").as_str());
        fortinet_http_headers(&mut second);
        let mut out: Vec<PortalRequest> = Vec::new();
        out.push(PortalRequest { body: None, url: self.page("/remote/index"), headers: first });
        out.push(PortalRequest { body: None, url: self.page("/remote/fortisslvpn"), headers: second });
        proof {
            let wanted = allocation_steps(
                portal_url(self.gateway.host@, self.gateway.port),
                cookie_header@,
            );
            let got = request_views(out@);
            assert(got[0] =~= wanted[0]);
            assert(got[1] =~= wanted[1]);
            assert(got =~= wanted);
        }
        out
    }
}

// ---------------------------------------------------------------------------
// The reply to the login form
// ---------------------------------------------------------------------------

/// What follows `key` in the first part that begins with it.
pub open spec fn first_param(parts: Seq<Seq<char>>, key: Seq<char>) -> Option<Seq<char>>
    decreases parts.len(),
{
    if parts.len() == 0 {
        None
    } else if text::has_prefix(parts[0], key) {
        Some(parts[0].skip(key.len() as int))
    } else {
        first_param(parts.skip(1), key)
    }
}

/// The value of the first `&`-separated part that begins with `key`.
pub fn extract_param(body: &[char], key: &str) -> (r: Option<Vec<char>>)
    ensures
        match r {
            Some(v) => first_param(text::pieces(body@, '&'), key@) == Some(v@),
            None => first_param(text::pieces(body@, '&'), key@) is None,
        },
{
    let parts = text::split(body, '&');
    let wanted = text::to_chars(key);
    let ghost all = text::pieces(body@, '&');
    let mut i: usize = 0;
    proof {
        assert(all.skip(0) =~= all);
        assert(text::char_views(parts@).len() == parts@.len());
    }
    while i < parts.len()
        invariant
            all == text::pieces(body@, '&'),
            text::char_views(parts@) == all,
            wanted@ == key@,
            i <= parts@.len(),
            parts@.len() == all.len(),
            first_param(all, key@) == first_param(all.skip(i as int), key@),
        decreases parts.len() - i,
    {
        proof {
            assert(all.skip(i as int)[0] == parts@[i as int]@);
            assert(all.skip(i as int).skip(1) =~= all.skip(i + 1));
        }
        if text::starts_with(parts[i].as_slice(), wanted.as_slice()) {
            let value = slice_subrange(parts[i].as_slice(), wanted.len(), parts[i].len());
            proof {
                assert(value@ =~= parts@[i as int]@.skip(key@.len() as int));
            }
            return Some(slice_to_vec(value));
        }
        i = i + 1;
    }
    None
}

/// The result code in the reply, if it states one. It ends at a comma.
pub open spec fn result_code(body: Seq<char>) -> Option<Seq<char>> {
    match first_param(text::pieces(body, '&'), "ret="@) {
        Some(raw) => Some(text::trimmed(raw.take(text::reach(raw, ',')))),
        None => None,
    }
}

/// The `Cookie` header of a session from the `Set-Cookie` headers of the
/// three replies.
pub open spec fn session_header(
    root: Seq<Option<Seq<char>>>,
    prefetch: Seq<Option<Seq<char>>>,
    reply: Seq<Option<Seq<char>>>,
) -> Seq<char> {
    cookies::jar_header(
        cookies::merged_jar(
            seq![
                cookies::reply_cookies(root),
                cookies::reply_cookies(prefetch),
                cookies::reply_cookies(reply),
            ],
            cookies::session_cookie(reply),
        ),
    )
}

/// What comes of a login: the `Cookie` header for the session, or why there
/// is none.
pub open spec fn login_outcome(
    root: Seq<Option<Seq<char>>>,
    prefetch: Seq<Option<Seq<char>>>,
    reply: Seq<Option<Seq<char>>>,
    body: Seq<char>,
) -> Result<Seq<char>, AuthErrorView> {
    let header = session_header(root, prefetch, reply);
    if result_code(body) == Some("0"@) {
        Err(AuthErrorView::AuthFailed("Credenziali errate"@))
    } else if result_code(body) is Some && result_code(body) != Some("1"@) {
        Err(
            AuthErrorView::AuthFailed(
                "Codice di errore dal gateway: ret="@ + result_code(body)->0,
            ),
        )
    } else if text::has_part(header, "SVPNCOOKIE"@) {
        Ok(header)
    } else if text::has_part(body, "tokeninfo="@) || text::has_part(body, "ftm_push"@) {
        Err(
            AuthErrorView::AuthFailed(
                "Il gateway richiede 2FA, non supportata da questo client."@,
            ),
        )
    } else if text::has_part(body, "hostcheck_install"@) {
        Err(
            AuthErrorView::AuthFailed(
                "Il gateway richiede Host Check / FortiClient (hostcheck_install). Questo client non lo supporta."@,
            ),
        )
    } else {
        Err(AuthErrorView::NoCookie)
    }
}

/// What comes of a login, from the `Set-Cookie` headers of the three replies
/// and the text of the last one.
pub fn finish_login(
    root: &Vec<Option<String>>,
    prefetch: &Vec<Option<String>>,
    reply: &Vec<Option<String>>,
    body: &str,
) -> (r: Result<String, AuthError>)
    ensures
        match r {
            Ok(h) => login_outcome(
                cookies::value_views(root@),
                cookies::value_views(prefetch@),
                cookies::value_views(reply@),
                body@,
            ) == Ok::<Seq<char>, AuthErrorView>(h@),
            Err(e) => login_outcome(
                cookies::value_views(root@),
                cookies::value_views(prefetch@),
                cookies::value_views(reply@),
                body@,
            ) == Err::<Seq<char>, AuthErrorView>(e@),
        },
{
    let cs = text::to_chars(body);
    if let Some(raw) = extract_param(cs.as_slice(), "ret=") {
        let end: usize = text::position(raw.as_slice(), ',');
        proof {
            assert(raw@.subrange(0, end as int) =~= raw@.take(end as int));
        }
        let ret = text::trim(slice_subrange(raw.as_slice(), 0, end));
        if text::same_text(ret, "0") {
            return Err(AuthError::AuthFailed("Credenziali errate".to_string()));
        }
        if !text::same_text(ret, "1") {
            let mut m: String = "Codice di errore dal gateway: ret=".to_string();
            m.append(text::to_text(ret).as_str());
            return Err(AuthError::AuthFailed(m));
        }
    }
    let mut layers: Vec<Option<String>> = Vec::new();
    layers.push(cookies::cookie_header_from_all_set_cookies(root));
    layers.push(cookies::cookie_header_from_all_set_cookies(prefetch));
    layers.push(cookies::cookie_header_from_all_set_cookies(reply));
    proof {
        assert(cookies::value_views(layers@) =~= seq![
            cookies::reply_cookies(cookies::value_views(root@)),
            cookies::reply_cookies(cookies::value_views(prefetch@)),
            cookies::reply_cookies(cookies::value_views(reply@)),
        ]);
    }
    let header = cookies::merge_cookie_layers_ordered(
        &layers,
        cookies::extract_svpn_cookie(reply),
    );
    let hs = text::to_chars(header.as_str());
    if text::contains_text(hs.as_slice(), "SVPNCOOKIE") {
        return Ok(header);
    }
    if text::contains_text(cs.as_slice(), "tokeninfo=") || text::contains_text(
        cs.as_slice(),
        "ftm_push",
    ) {
        return Err(
            AuthError::AuthFailed(
                "Il gateway richiede 2FA, non supportata da questo client.".to_string(),
            ),
        );
    }
    if text::contains_text(cs.as_slice(), "hostcheck_install") {
        return Err(
            AuthError::AuthFailed(
                "Il gateway richiede Host Check / FortiClient (hostcheck_install). Questo client non lo supporta.".to_string(),
            ),
        );
    }
    Err(AuthError::NoCookie)
}

// ---------------------------------------------------------------------------
// Pages in place of a configuration
// ---------------------------------------------------------------------------

/// How many characters of a page are looked at.
pub const PAGE_SAMPLE: usize = 3072;

/// How many characters of a page are shown.
pub const PREVIEW_LENGTH: usize = 420;

/// The text is a page of the portal rather than a configuration.
pub open spec fn is_portal_page(body: Seq<char>) -> bool {
    let sample = text::lowered(text::at_most(body, PAGE_SAMPLE as int));
    text::has_part(sample, "<!doctype html"@) || text::has_part(sample, "<html"@) || text::has_part(
        sample,
        "main-app"@,
    )
}

/// Whether the text is a page of the portal rather than a configuration.
pub fn response_looks_like_html_portal(body: &str) -> (r: bool)
    ensures
        r == is_portal_page(body@),
{
    let cs = text::to_chars(body);
    let sample = text::lower(text::take_chars(cs.as_slice(), PAGE_SAMPLE));
    text::contains_text(sample.as_slice(), "<!doctype html") || text::contains_text(
        sample.as_slice(),
        "<html",
    ) || text::contains_text(sample.as_slice(), "main-app")
}

/// A control character but the tab becomes a space.
pub open spec fn printable(c: char) -> char {
    if text::is_ctrl(c) && c != '\t' {
        ' '
    } else {
        c
    }
}

/// The start of a text on one line, for a message.
pub open spec fn preview(body: Seq<char>) -> Seq<char> {
    let shown = text::trimmed(
        text::at_most(body, PREVIEW_LENGTH as int).map_values(|c: char| printable(c)),
    );
    if shown.len() == 0 {
        "(corpo vuoto)"@
    } else {
        shown
    }
}

/// The start of a text on one line, for a message.
pub fn preview_config_body(body: &str) -> (r: String)
    ensures
        r@ == preview(body@),
{
    let cs = text::to_chars(body);
    let head = text::take_chars(cs.as_slice(), PREVIEW_LENGTH);
    let ghost wanted = head@.map_values(|c: char| printable(c));
    let mut line: Vec<char> = Vec::new();
    let mut i: usize = 0;
    while i < head.len()
        invariant
            wanted == head@.map_values(|c: char| printable(c)),
            i <= head@.len(),
            line@ =~= wanted.take(i as int),
        decreases head.len() - i,
    {
        let c: char = head[i];
        if text::is_control_char(c) && c != '\t' {
            line.push(' ');
        } else {
            line.push(c);
        }
        i = i + 1;
    }
    proof {
        assert(wanted.take(i as int) =~= wanted);
    }
    let shown = text::trim(line.as_slice());
    if shown.len() == 0 {
        "(corpo vuoto)".to_string()
    } else {
        text::to_text(shown)
    }
}

// ---------------------------------------------------------------------------
// Laws
// ---------------------------------------------------------------------------

/// A reply that states a result other than success fails the login, whatever
/// cookies came with it.
pub proof fn law_refused_login_fails(
    root: Seq<Option<Seq<char>>>,
    prefetch: Seq<Option<Seq<char>>>,
    reply: Seq<Option<Seq<char>>>,
    body: Seq<char>,
)
    requires
        result_code(body) is Some,
        result_code(body) != Some("1"@),
    ensures
        login_outcome(root, prefetch, reply, body) is Err,
{
}

/// A login that succeeds hands out a header with a session cookie.
pub proof fn law_login_has_session_cookie(
    root: Seq<Option<Seq<char>>>,
    prefetch: Seq<Option<Seq<char>>>,
    reply: Seq<Option<Seq<char>>>,
    body: Seq<char>,
)
    ensures
        login_outcome(root, prefetch, reply, body) matches Ok(h) ==> text::has_part(
            h,
            "SVPNCOOKIE"@,
        ),
{
}

/// A reply that does not state a failure and sets the session cookie logs in,
/// and the cookie is part of the header. Of several headers for that cookie
/// the last one counts.
pub proof fn law_session_cookie_logs_in(
    root: Seq<Option<Seq<char>>>,
    prefetch: Seq<Option<Seq<char>>>,
    reply: Seq<Option<Seq<char>>>,
    body: Seq<char>,
    at: int,
)
    requires
        result_code(body) is None || result_code(body) == Some("1"@),
        !reply.contains(None),
        0 <= at < reply.len(),
        text::has_prefix(cookies::cookie_pair(reply[at]->0), "SVPNCOOKIE="@),
        forall|k: int|
            at < k < reply.len() ==> cookies::cookie_name(
                cookies::cookie_pair((#[trigger] reply[k])->0),
            ) != "svpncookie"@,
    ensures
        login_outcome(root, prefetch, reply, body) == Ok::<Seq<char>, AuthErrorView>(
            session_header(root, prefetch, reply),
        ),
        text::has_part(
            session_header(root, prefetch, reply),
            cookies::cookie_pair(reply[at]->0),
        ),
{
    let pair = cookies::cookie_pair(reply[at]->0);
    let header = session_header(root, prefetch, reply);
    reveal_strlit("SVPNCOOKIE=");
    reveal_strlit("SVPNCOOKIE");
    reveal_strlit("svpncookie");
    reveal_strlit("0");
    reveal_strlit("1");
    assert(pair.subrange(0, 11) == "SVPNCOOKIE="@);
    assert forall|k: int| 0 <= k < 11 implies pair[k] == "SVPNCOOKIE="@[k] by {
        assert(pair.subrange(0, 11)[k] == pair[k]);
    }
    text::lemma_reach_is(pair, '=', 10);
    let name = pair.take(10);
    assert(name =~= "SVPNCOOKIE"@);
    assert(!text::is_space(name[0]) && !text::is_space(name[9]));
    assert(text::trimmed_start(name) == name);
    assert(text::trimmed(name) == name);
    assert(text::lowered(name) =~= "svpncookie"@);
    assert(pair.contains(pair[10]));
    let layers = seq![cookies::reply_cookies(root), cookies::reply_cookies(prefetch)];
    cookies::law_reply_cookie_is_sent(layers, reply, cookies::session_cookie(reply), at);
    assert(layers.push(cookies::reply_cookies(reply)) =~= seq![
        cookies::reply_cookies(root),
        cookies::reply_cookies(prefetch),
        cookies::reply_cookies(reply),
    ]);
    let i = choose|i: int| #[trigger] text::occurs_at(header, pair, i);
    assert forall|k: int| 0 <= k < 10 implies header[i + k] == pair[k] by {
        assert(header.subrange(i, i + pair.len())[k] == header[i + k]);
    }
    assert(header.subrange(i, i + 10) =~= "SVPNCOOKIE"@);
    assert(text::occurs_at(header, "SVPNCOOKIE"@, i));
    assert("0"@[0] != "1"@[0]);
}

/// What a user types cannot leave its field of the login form.
pub proof fn law_form_fields_stay_apart(
    username: Seq<char>,
    password: Seq<char>,
    realm: Seq<char>,
)
    ensures
        text::pieces(login_form(username, password, realm), '&') == seq![
            "username="@ + percent_encoded(encode_utf8(username)),
            "credential="@ + percent_encoded(encode_utf8(password)),
            "realm="@ + percent_encoded(encode_utf8(realm)),
            "ajax=1"@,
            "just_logged_in=1"@,
        ],
{
    reveal_strlit("username=");
    reveal_strlit("&credential=");
    reveal_strlit("credential=");
    reveal_strlit("&realm=");
    reveal_strlit("realm=");
    reveal_strlit("&ajax=1&just_logged_in=1");
    reveal_strlit("ajax=1");
    reveal_strlit("just_logged_in=1");
    let u = "username="@ + percent_encoded(encode_utf8(username));
    let c = "credential="@ + percent_encoded(encode_utf8(password));
    let r = "realm="@ + percent_encoded(encode_utf8(realm));
    lemma_field_has_no_ampersand(encode_utf8(username));
    lemma_field_has_no_ampersand(encode_utf8(password));
    lemma_field_has_no_ampersand(encode_utf8(realm));
    let t3 = "ajax=1"@ + seq!['&'] + "just_logged_in=1"@;
    let t2 = r + seq!['&'] + t3;
    let t1 = c + seq!['&'] + t2;
    assert(login_form(username, password, realm) =~= u + seq!['&'] + t1);
    text::lemma_piece_before(u, '&', t1);
    text::lemma_piece_before(c, '&', t2);
    text::lemma_piece_before(r, '&', t3);
    text::lemma_piece_before("ajax=1"@, '&', "just_logged_in=1"@);
    text::lemma_one_piece("just_logged_in=1"@, '&');
    assert(text::pieces(login_form(username, password, realm), '&') =~= seq![
        u,
        c,
        r,
        "ajax=1"@,
        "just_logged_in=1"@,
    ]);
}

/// An encoded field holds no ampersand.
proof fn lemma_field_has_no_ampersand(bytes: Seq<u8>)
    ensures
        !percent_encoded(bytes).contains('&'),
    decreases bytes.len(),
{
    if bytes.len() > 0 {
        lemma_field_has_no_ampersand(bytes.drop_last());
        let before = percent_encoded(bytes.drop_last());
        let all = percent_encoded(bytes);
        if all.contains('&') {
            let i = choose|i: int| 0 <= i < all.len() && all[i] == '&';
            if i < before.len() {
                assert(before[i] == '&');
            }
        }
    }
}

/// What a form field stands for: a percent sign and two digits stand for a
/// byte, any other character for itself.
pub open spec fn percent_decoded(s: Seq<char>) -> Seq<u8>
    decreases s.len(),
{
    if s.len() == 0 {
        Seq::empty()
    } else if s[0] == '%' && s.len() >= 3 {
        seq![(hex_value(s[1]) * 16 + hex_value(s[2])) as u8] + percent_decoded(s.skip(3))
    } else {
        seq![s[0] as u8] + percent_decoded(s.skip(1))
    }
}

/// The value of a hexadecimal digit.
pub open spec fn hex_value(c: char) -> int {
    if '0' <= c <= '9' {
        c as int - '0' as int
    } else {
        c as int - 'A' as int + 10
    }
}

/// A form field is read back as it went in, and is made of letters, digits,
/// the marks `-`, `.`, `_` and `~`, and percent signs only.
pub proof fn law_field_reads_back(bytes: Seq<u8>)
    ensures
        percent_decoded(percent_encoded(bytes)) == bytes,
        forall|i: int|
            0 <= i < percent_encoded(bytes).len() ==> {
                let c = #[trigger] percent_encoded(bytes)[i];
                '0' <= c <= '9' || 'A' <= c <= 'Z' || 'a' <= c <= 'z' || c == '-' || c == '.' || c
                    == '_' || c == '~' || c == '%'
            },
{
    lemma_field_decodes(bytes, Seq::empty());
    lemma_field_characters(bytes);
    assert(percent_encoded(bytes) + Seq::<char>::empty() =~= percent_encoded(bytes));
    assert(bytes + Seq::<u8>::empty() =~= bytes);
}

/// A field is read back in front of anything.
proof fn lemma_field_decodes(bytes: Seq<u8>, rest: Seq<char>)
    ensures
        percent_decoded(percent_encoded(bytes) + rest) == bytes + percent_decoded(rest),
    decreases bytes.len(),
{
    if bytes.len() == 0 {
        assert(percent_encoded(bytes) + rest =~= rest);
        assert(bytes + percent_decoded(rest) =~= percent_decoded(rest));
    } else {
        let b = bytes.last();
        let unit = if is_unreserved(b) {
            seq![b as char]
        } else {
            seq!['%', hex_digit(b as int / 16), hex_digit(b as int % 16)]
        };
        let tail = unit + rest;
        lemma_field_decodes(bytes.drop_last(), tail);
        assert(percent_encoded(bytes) + rest =~= percent_encoded(bytes.drop_last()) + tail);
        assert(percent_decoded(tail) =~= seq![b] + percent_decoded(rest)) by {
            if is_unreserved(b) {
                assert(tail.skip(1) =~= rest);
                assert(b as char != '%');
            } else {
                assert(tail.skip(3) =~= rest);
                let h = b as int / 16;
                let l = b as int % 16;
                assert(hex_value(hex_digit(h)) == h && hex_value(hex_digit(l)) == l);
            }
        }
        assert(bytes.drop_last() + (seq![b] + percent_decoded(rest)) =~= bytes + percent_decoded(
            rest,
        ));
    }
}

/// The characters of a field.
proof fn lemma_field_characters(bytes: Seq<u8>)
    ensures
        forall|i: int|
            0 <= i < percent_encoded(bytes).len() ==> {
                let c = #[trigger] percent_encoded(bytes)[i];
                '0' <= c <= '9' || 'A' <= c <= 'Z' || 'a' <= c <= 'z' || c == '-' || c == '.' || c
                    == '_' || c == '~' || c == '%'
            },
    decreases bytes.len(),
{
    if bytes.len() > 0 {
        lemma_field_characters(bytes.drop_last());
        let before = percent_encoded(bytes.drop_last());
        let all = percent_encoded(bytes);
        let b = bytes.last();
        assert forall|i: int| 0 <= i < all.len() implies ({
            let c = #[trigger] all[i];
            '0' <= c <= '9' || 'A' <= c <= 'Z' || 'a' <= c <= 'z' || c == '-' || c == '.' || c
                == '_' || c == '~' || c == '%'
        }) by {
            if i < before.len() {
                assert(all[i] == before[i]);
            } else if is_unreserved(b) {
                assert(all[i] == b as char);
            } else {
                assert(0 <= b as int / 16 < 16 && 0 <= b as int % 16 < 16);
            }
        }
    }
}

/// A login asks for the front page and the login page, then posts the form to
/// the page that checks it. Each request carries the headers of the portal.
pub proof fn law_login_is_posted(base: Seq<char>, form: Seq<char>)
    ensures
        login_steps(base, form).len() == 3,
        login_steps(base, form)[0].url == base + "/"@,
        login_steps(base, form)[1].url == base + "/remote/login"@,
        login_steps(base, form)[2].url == base + "/remote/logincheck"@,
        login_steps(base, form)[0].body is None,
        login_steps(base, form)[1].body is None,
        login_steps(base, form)[2].body == Some(form),
        login_steps(base, form)[2].headers.contains(
            ("Content-Type"@, "application/x-www-form-urlencoded"@),
        ),
        forall|i: int|
            0 <= i < 3 ==> asks_for_plain_page((#[trigger] login_steps(base, form)[i]).headers),
{
    let steps = login_steps(base, form);
    let h = steps[2].headers;
    assert(h[0] == ("Content-Type"@, "application/x-www-form-urlencoded"@));
    lemma_portal_headers(Seq::empty());
    lemma_portal_headers(seq![("Content-Type"@, "application/x-www-form-urlencoded"@)]);
    assert(Seq::<(Seq<char>, Seq<char>)>::empty() + portal_headers() =~= portal_headers());
}

/// The headers ask for the page itself, not for a stored or a packed copy.
pub open spec fn asks_for_plain_page(headers: Seq<(Seq<char>, Seq<char>)>) -> bool {
    &&& headers.contains(("Pragma"@, "no-cache"@))
    &&& headers.contains(("Cache-Control"@, "no-store, no-cache, must-revalidate"@))
    &&& headers.contains(("If-Modified-Since"@, "Sat, 1 Jan 2000 00:00:00 GMT"@))
    &&& headers.contains(("Accept"@, "*/*"@))
    &&& headers.contains(("Accept-Encoding"@, "identity"@))
}

/// The headers of the portal ask for the page itself.
proof fn lemma_portal_headers(front: Seq<(Seq<char>, Seq<char>)>)
    ensures
        asks_for_plain_page(front + portal_headers()),
{
    let h = front + portal_headers();
    let n = front.len() as int;
    assert(h[n] == ("Pragma"@, "no-cache"@));
    assert(h[n + 1] == ("Cache-Control"@, "no-store, no-cache, must-revalidate"@));
    assert(h[n + 2] == ("If-Modified-Since"@, "Sat, 1 Jan 2000 00:00:00 GMT"@));
    assert(h[n + 3] == ("Accept"@, "*/*"@));
    assert(h[n + 4] == ("Accept-Encoding"@, "identity"@));
}

/// A tunnel is set up by asking for two pages in turn, each with the cookies
/// of the session and with the page before it as the referer.
pub proof fn law_tunnel_is_allocated(base: Seq<char>, cookie: Seq<char>)
    ensures
        allocation_steps(base, cookie).len() == 2,
        allocation_steps(base, cookie)[0].url == base + "/remote/index"@,
        allocation_steps(base, cookie)[1].url == base + "/remote/fortisslvpn"@,
        allocation_steps(base, cookie)[0].headers.contains(
            ("Referer"@, base + "/remote/login"@),
        ),
        allocation_steps(base, cookie)[1].headers.contains(
            ("Referer"@, allocation_steps(base, cookie)[0].url),
        ),
        forall|i: int|
            0 <= i < 2 ==> (#[trigger] allocation_steps(base, cookie)[i]).body is None
                && allocation_steps(base, cookie)[i].headers.contains(("Cookie"@, cookie))
                && asks_for_plain_page(allocation_steps(base, cookie)[i].headers),
{
    let steps = allocation_steps(base, cookie);
    assert(steps[0].headers[1] == ("Referer"@, base + "/remote/login"@));
    assert(steps[1].headers[1] == ("Referer"@, base + "/remote/index"@));
    lemma_portal_headers(seq![("Cookie"@, cookie), ("Referer"@, base + "/remote/login"@)]);
    lemma_portal_headers(seq![("Cookie"@, cookie), ("Referer"@, base + "/remote/index"@)]);
    assert(steps[0].headers[0] == ("Cookie"@, cookie));
    assert(steps[1].headers[0] == ("Cookie"@, cookie));
}

/// The address of the portal: the scheme, the host and the port.
pub proof fn law_portal_is_addressed(host: Seq<char>, port: u16)
    ensures
        portal_url(host, port) == "https://"@ + host + ":"@ + numbers::decimal(port as nat),
{
}

/// The code of a reply is what follows the first field `ret=`, up to a comma
/// and without white space around it; a reply without that field has none.
pub proof fn law_first_code_counts(
    fields: Seq<Seq<char>>,
    code: Seq<char>,
    rest: Seq<char>,
    more: Seq<Seq<char>>,
)
    requires
        forall|i: int|
            0 <= i < fields.len() ==> !text::has_prefix(#[trigger] fields[i], "ret="@),
        !code.contains(','),
    ensures
        first_param(fields + seq!["ret="@ + code + seq![','] + rest] + more, "ret="@) == Some(
            code + seq![','] + rest,
        ),
        first_param(fields + seq!["ret="@ + code] + more, "ret="@) == Some(code),
        first_param(fields, "ret="@) is None,
        forall|body: Seq<char>|
            #![trigger result_code(body)]
            (text::pieces(body, '&') == fields + seq!["ret="@ + code + seq![','] + rest] + more
                || text::pieces(body, '&') == fields + seq!["ret="@ + code] + more)
                ==> result_code(body) == Some(text::trimmed(code)),
        forall|body: Seq<char>|
            #![trigger result_code(body)]
            text::pieces(body, '&') == fields ==> result_code(body) is None,
{
    lemma_param_is_found(fields, "ret="@, code + seq![','] + rest, more);
    lemma_param_is_found(fields, "ret="@, code, more);
    let raw = code + seq![','] + rest;
    assert("ret="@ + code + seq![','] + rest =~= "ret="@ + raw);
    assert forall|k: int| 0 <= k < code.len() implies raw[k] != ',' by {
        assert(code.contains(code[k]));
    }
    text::lemma_reach_is(raw, ',', code.len() as int);
    assert(raw.take(code.len() as int) =~= code);
    assert forall|k: int| 0 <= k < code.len() implies code[k] != ',' by {
        assert(code.contains(code[k]));
    }
    text::lemma_reach_is(code, ',', code.len() as int);
    assert(code.take(code.len() as int) =~= code);
}

/// The first field of a name is found, whatever stands around it.
proof fn lemma_param_is_found(
    fields: Seq<Seq<char>>,
    key: Seq<char>,
    value: Seq<char>,
    more: Seq<Seq<char>>,
)
    requires
        forall|i: int| 0 <= i < fields.len() ==> !text::has_prefix(#[trigger] fields[i], key),
    ensures
        first_param(fields + seq![key + value] + more, key) == Some(value),
        first_param(fields, key) is None,
    decreases fields.len(),
{
    let all = fields + seq![key + value] + more;
    if fields.len() == 0 {
        assert(all[0] == key + value);
        assert((key + value).subrange(0, key.len() as int) =~= key);
        assert((key + value).skip(key.len() as int) =~= value);
    } else {
        assert(all[0] == fields[0]);
        assert(all.skip(1) =~= fields.skip(1) + seq![key + value] + more);
        assert forall|i: int| 0 <= i < fields.skip(1).len() implies !text::has_prefix(
            #[trigger] fields.skip(1)[i],
            key,
        ) by {
            assert(fields.skip(1)[i] == fields[i + 1]);
        }
        lemma_param_is_found(fields.skip(1), key, value, more);
    }
}

/// A login that is refused says why: wrong credentials for the code 0, the
/// code itself for any other but 1, and without a session cookie what the page
/// asks for that this client does not have.
pub proof fn law_refusal_says_why(
    root: Seq<Option<Seq<char>>>,
    prefetch: Seq<Option<Seq<char>>>,
    reply: Seq<Option<Seq<char>>>,
    body: Seq<char>,
)
    ensures
        ({
            let outcome = login_outcome(root, prefetch, reply, body);
            let accepted = result_code(body) is None || result_code(body) == Some("1"@);
            let has_session = text::has_part(session_header(root, prefetch, reply), "SVPNCOOKIE"@);
            let second_factor = text::has_part(body, "tokeninfo="@) || text::has_part(
                body,
                "ftm_push"@,
            );
            let host_check = text::has_part(body, "hostcheck_install"@);
            &&& result_code(body) == Some("0"@) ==> outcome == Err::<Seq<char>, AuthErrorView>(
                AuthErrorView::AuthFailed("Credenziali errate"@),
            )
            &&& result_code(body) matches Some(code) ==> (code != "0"@ && code != "1"@ ==> outcome
                == Err::<Seq<char>, AuthErrorView>(
                AuthErrorView::AuthFailed("Codice di errore dal gateway: ret="@ + code),
            ))
            &&& outcome is Ok <==> accepted && has_session
            &&& accepted && !has_session && second_factor ==> outcome == Err::<
                Seq<char>,
                AuthErrorView,
            >(
                AuthErrorView::AuthFailed(
                    "Il gateway richiede 2FA, non supportata da questo client."@,
                ),
            )
            &&& accepted && !has_session && !second_factor && host_check ==> outcome == Err::<
                Seq<char>,
                AuthErrorView,
            >(
                AuthErrorView::AuthFailed(
                    "Il gateway richiede Host Check / FortiClient (hostcheck_install). Questo client non lo supporta."@,
                ),
            )
            &&& accepted && !has_session && !second_factor && !host_check ==> outcome == Err::<
                Seq<char>,
                AuthErrorView,
            >(AuthErrorView::NoCookie)
        }),
{
    reveal_strlit("0");
    reveal_strlit("1");
    assert("0"@[0] != "1"@[0]);
}

/// The last cookie of a name that a reply sets.
pub open spec fn set_by(reply: Seq<Option<Seq<char>>>, name: Seq<char>) -> Option<Seq<char>> {
    match cookies::reply_cookies(reply) {
        Some(header) => cookies::last_named(text::pieces(header, ';'), name),
        None => None,
    }
}

/// The header of a session holds the cookies of a jar. A name in it has the
/// cookie that the reply to the login sets; if that sets none, the one of the
/// login page, and if that sets none either, the one of the front page. The
/// session cookie may also come from the reply by itself.
pub proof fn law_cookies_of_the_login(
    root: Seq<Option<Seq<char>>>,
    prefetch: Seq<Option<Seq<char>>>,
    reply: Seq<Option<Seq<char>>>,
    name: Seq<char>,
)
    ensures
        ({
            let layers = seq![
                cookies::reply_cookies(root),
                cookies::reply_cookies(prefetch),
                cookies::reply_cookies(reply),
            ];
            let jar = cookies::merged_jar(layers, cookies::session_cookie(reply));
            let wanted = if set_by(reply, name) is Some {
                set_by(reply, name)
            } else if set_by(prefetch, name) is Some {
                set_by(prefetch, name)
            } else {
                set_by(root, name)
            };
            &&& session_header(root, prefetch, reply) == cookies::jar_header(jar)
            &&& cookies::cookie_named(jar, name) == if wanted is None && name == "svpncookie"@ {
                cookies::session_cookie(reply)
            } else {
                wanted
            }
        }),
{
    let a = cookies::reply_cookies(root);
    let b = cookies::reply_cookies(prefetch);
    let c = cookies::reply_cookies(reply);
    let none = Seq::<Option<Seq<char>>>::empty();
    let layers = seq![a, b, c];
    let empty: cookies::Jar = Seq::empty();
    assert(none.push(a).push(b).push(c) =~= layers);
    lemma_layer(none, a, name);
    lemma_layer(none.push(a), b, name);
    lemma_layer(none.push(a).push(b), c, name);
    cookies::law_header_holds_the_jar(empty, name, name, none);
    let jar = cookies::with_layers(empty, layers);
    let session = cookies::session_cookie(reply);
    cookies::law_session_cookie_is_kept(layers, None);
    if let Some(s) = session {
        if cookies::cookie_named(jar, "svpncookie"@) is None {
            cookies::law_cookie_is_found(jar, "svpncookie"@, s, name);
            assert(cookies::with_cookie(jar, "svpncookie"@, s) == cookies::merged_jar(
                layers,
                session,
            ));
        }
    }
}

/// One more layer outranks those before it where it sets a cookie.
proof fn lemma_layer(
    layers: Seq<Option<Seq<char>>>,
    layer: Option<Seq<char>>,
    name: Seq<char>,
)
    ensures
        ({
            let empty: cookies::Jar = Seq::empty();
            let set = match layer {
                Some(header) => cookies::last_named(text::pieces(header, ';'), name),
                None => None,
            };
            cookies::cookie_named(cookies::with_layers(empty, layers.push(layer)), name)
                == if set is Some {
                set
            } else {
                cookies::cookie_named(cookies::with_layers(empty, layers), name)
            }
        }),
{
    let empty: cookies::Jar = Seq::empty();
    match layer {
        Some(header) => {
            cookies::law_later_layer_wins(layers, header, name);
        },
        None => {
            cookies::law_header_holds_the_jar(empty, name, name, layers);
        },
    }
}

/// Whether a page is one of the portal shows in its first 3072 characters: one
/// of the marks is there, in whatever case.
pub proof fn law_portal_page_is_known(body: Seq<char>, mark: Seq<char>, at: int)
    ensures
        is_portal_page(body) == is_portal_page(text::at_most(body, 3072)),
        (text::lowered(mark) == "<!doctype html"@ || text::lowered(mark) == "<html"@
            || text::lowered(mark) == "main-app"@) && text::occurs_at(body, mark, at) && at
            + mark.len() <= 3072 ==> is_portal_page(body),
{
    let sample = text::at_most(body, 3072);
    assert(text::at_most(sample, 3072) =~= sample);
    if text::occurs_at(body, mark, at) && at + mark.len() <= 3072 {
        assert(text::lowered(mark).len() == mark.len());
        assert(sample.subrange(at, at + mark.len()) =~= body.subrange(at, at + mark.len()));
        assert(text::lowered(sample).subrange(at, at + mark.len()) =~= text::lowered(mark)) by {
            assert forall|k: int| 0 <= k < mark.len() implies text::lowered(sample)[at + k]
                == text::lowered(mark)[k] by {
                assert(sample.subrange(at, at + mark.len())[k] == sample[at + k]);
            }
        }
        assert(text::occurs_at(text::lowered(sample), text::lowered(mark), at));
    }
}

/// What is shown of a page is short and can be printed: a short page that can
/// be printed is shown as it is, but for white space around it, and an empty
/// one is said to be empty.
pub proof fn law_preview_is_printable(body: Seq<char>)
    ensures
        preview(body).len() <= 420,
        preview(body).len() > 0,
        forall|i: int|
            0 <= i < preview(body).len() ==> !text::is_ctrl(#[trigger] preview(body)[i])
                || preview(body)[i] == '\t',
        body.len() <= 420 && (forall|i: int|
            0 <= i < body.len() ==> !text::is_ctrl(#[trigger] body[i])) ==> preview(body)
            == if text::trimmed(body).len() > 0 {
            text::trimmed(body)
        } else {
            "(corpo vuoto)"@
        },
{
    reveal_strlit("(corpo vuoto)");
    let cut = text::at_most(body, 420);
    let clean = cut.map_values(|c: char| printable(c));
    text::lemma_trimmed_part(clean);
    text::lemma_trimmed_start(clean);
    text::lemma_trimmed_end(text::trimmed_start(clean));
    assert forall|i: int| 0 <= i < preview(body).len() implies !text::is_ctrl(
        #[trigger] preview(body)[i],
    ) || preview(body)[i] == '\t' by {
        if text::trimmed(clean).len() > 0 {
            assert(clean.contains(text::trimmed(clean)[i]));
        }
    }
    if body.len() <= 420 && (forall|i: int|
        0 <= i < body.len() ==> !text::is_ctrl(#[trigger] body[i])) {
        assert(cut =~= body);
        assert(clean =~= body);
    }
}

} // verus!
