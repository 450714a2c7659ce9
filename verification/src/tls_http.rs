//! The two HTTP exchanges on the gateway's TLS connections: fetching the
//! tunnel configuration, and turning a second connection into the tunnel.

use vstd::prelude::*;
use vstd::slice::slice_subrange;
use vstd::slice::slice_to_vec;
use vstd::string::*;

use crate::auth;
use crate::auth::{VpnConfig, VpnConfigView};
use crate::bytes;
use crate::bytes::append_bytes;
use crate::config_xml;
use crate::http_body::READ_TIMEOUT_MS;
use crate::http_text;
use crate::numbers;
use crate::ppp_proto;
use crate::stream::{ReadOutcome, ReadView, BUFFER_LIMIT};
use crate::text;

verus! {

// ---------------------------------------------------------------------------
// Fetching the configuration
// ---------------------------------------------------------------------------

/// How many requests one of the two addresses gets at most.
pub const MAX_TRIES: u32 = 12;

/// How many bytes of a reply are shown in a message.
pub const REPLY_PREVIEW: usize = 256;

/// The search for the configuration: two addresses, each with its redirects.
pub struct ConfigFetch {
    pub host_port: String,
    pub referer: String,
    pub cookie: String,
    /// The second address is being tried.
    pub second: bool,
    /// The page to ask for.
    pub path: String,
    /// The requests for this address that were answered with a redirect.
    pub tries: u32,
    /// What was wrong with the last page that was no configuration.
    pub last_err: String,
}

/// The search without its representation.
#[verifier::ext_equal]
pub struct ConfigFetchView {
    pub host_port: Seq<char>,
    pub referer: Seq<char>,
    pub cookie: Seq<char>,
    pub second: bool,
    pub path: Seq<char>,
    pub tries: u32,
    pub last_err: Seq<char>,
}

impl View for ConfigFetch {
    type V = ConfigFetchView;

    open spec fn view(&self) -> ConfigFetchView {
        ConfigFetchView {
            host_port: self.host_port@,
            referer: self.referer@,
            cookie: self.cookie@,
            second: self.second,
            path: self.path@,
            tries: self.tries,
            last_err: self.last_err@,
        }
    }
}

/// What to do next in the search.
pub enum FetchStep {
    /// Send the request for the page.
    Request,
    /// This is the configuration.
    Done(VpnConfig),
    /// There is no configuration, for this reason.
    Failed(String),
    /// The search for an address in the page cut a character in two.
    Cut,
}

/// The step without its representation.
pub enum FetchStepView {
    Request,
    Done(VpnConfigView),
    Failed(Seq<char>),
    Cut,
}

impl View for FetchStep {
    type V = FetchStepView;

    open spec fn view(&self) -> FetchStepView {
        match self {
            FetchStep::Request => FetchStepView::Request,
            FetchStep::Done(c) => FetchStepView::Done(c@),
            FetchStep::Failed(m) => FetchStepView::Failed(m@),
            FetchStep::Cut => FetchStepView::Cut,
        }
    }
}

/// The search before its first request.
pub open spec fn fetch_start(host: Seq<char>, port: u16, cookie: Seq<char>) -> ConfigFetchView {
    let host_port = host + ":"@ + numbers::decimal(port as nat);
    ConfigFetchView {
        host_port,
        referer: "https://"@ + host_port + "/remote/fortisslvpn"@,
        cookie,
        second: false,
        path: "/remote/fortisslvpn_xml?dual_stack=1"@,
        tries: 0,
        last_err: Seq::empty(),
    }
}

/// The search and the step after an address is given up.
pub open spec fn next_address(v: ConfigFetchView) -> (ConfigFetchView, FetchStepView) {
    if v.second {
        (
            v,
            FetchStepView::Failed(
                "Config VPN sulla sessione TLS dati non valida. "@ + v.last_err,
            ),
        )
    } else {
        (
            ConfigFetchView { second: true, path: "/remote/fortisslvpn_xml"@, tries: 0, ..v },
            FetchStepView::Request,
        )
    }
}

/// The search and the step after a redirect to the path.
pub open spec fn redirected(v: ConfigFetchView, path: Seq<char>) -> (
    ConfigFetchView,
    FetchStepView,
) {
    if v.tries + 1 >= MAX_TRIES {
        next_address(ConfigFetchView { path, ..v })
    } else {
        (
            ConfigFetchView { path, tries: (v.tries + 1) as u32, ..v },
            FetchStepView::Request,
        )
    }
}

/// The search and the step after a page turned out to be something else.
pub open spec fn rejected(v: ConfigFetchView, why: Seq<char>) -> (ConfigFetchView, FetchStepView) {
    next_address(ConfigFetchView { last_err: why, ..v })
}

/// The search and the step after a page was read as a configuration.
pub open spec fn concluded(
    v: ConfigFetchView,
    page: Seq<char>,
    parsed: Option<Result<VpnConfigView, Seq<char>>>,
) -> (ConfigFetchView, FetchStepView) {
    match parsed {
        Some(Ok(c)) => (v, FetchStepView::Done(c)),
        Some(Err(e)) => rejected(v, v.path + " — "@ + e + " — "@ + auth::preview(page)),
        None => (v, FetchStepView::Cut),
    }
}

/// The status says that the page is elsewhere.
pub open spec fn is_redirect(status: u16) -> bool {
    status == 301 || status == 302 || status == 303 || status == 307 || status == 308
}

/// The search and the step after a reply.
pub open spec fn after_reply(
    v: ConfigFetchView,
    status: u16,
    headers: Seq<(Seq<char>, Seq<char>)>,
    body: Seq<u8>,
) -> (ConfigFetchView, FetchStepView) {
    let page = text::trimmed(bytes::lossy(body));
    if is_redirect(status) {
        match http_text::header_named(headers, "location"@) {
            Some(loc) => match http_text::redirect_path(loc) {
                Ok(path) => redirected(v, path),
                Err(m) => (v, FetchStepView::Failed(m)),
            },
            None => (
                v,
                FetchStepView::Failed(
                    "redirect HTTP "@ + numbers::decimal(status as nat) + " senza Location"@,
                ),
            ),
        }
    } else if status != 200 {
        rejected(
            v,
            v.path + " HTTP "@ + numbers::decimal(status as nat) + " — "@ + bytes::lossy(
                text::at_most(body, REPLY_PREVIEW as int),
            ),
        )
    } else if auth::is_portal_page(page) {
        rejected(v, v.path + " — HTML portale — "@ + auth::preview(page))
    } else {
        concluded(v, page, config_xml::config_in(page))
    }
}

/// The step is the one wanted and, where another request follows, so is the
/// search.
pub open spec fn is_fetch_step(
    fetch: ConfigFetchView,
    step: FetchStepView,
    wanted: (ConfigFetchView, FetchStepView),
) -> bool {
    step == wanted.1 && (step is Request ==> fetch == wanted.0)
}

/// The result of reading a page as a configuration, without its
/// representation.
pub open spec fn parsed_view(parsed: Option<Result<VpnConfig, String>>) -> Option<
    Result<VpnConfigView, Seq<char>>,
> {
    match parsed {
        Some(Ok(c)) => Some(Ok(c@)),
        Some(Err(m)) => Some(Err(m@)),
        None => None,
    }
}

impl ConfigFetch {
    /// The search before its first request.
    pub fn new(host: &str, port: u16, cookie_header: &str) -> (r: Self)
        ensures
            r@ == fetch_start(host@, port, cookie_header@),
    {
        let mut host_port: String = host.to_string();
        host_port.append(":");
        host_port.append(numbers::decimal_text(port as u64).as_str());
        let mut referer: String = "https://".to_string();
        referer.append(host_port.as_str());
        referer.append("/remote/fortisslvpn");
        ConfigFetch {
            host_port,
            referer,
            cookie: cookie_header.to_string(),
            second: false,
            path: "/remote/fortisslvpn_xml?dual_stack=1".to_string(),
            tries: 0,
            last_err: String::new(),
        }
    }

    /// The request for the page.
    pub fn request(&self) -> (r: String)
        ensures
            r@ == http_text::page_request(
                self@.host_port,
                self@.path,
                self@.cookie,
                self@.referer,
            ),
    {
        http_text::build_get_api(
            self.host_port.as_str(),
            self.path.as_str(),
            self.cookie.as_str(),
            self.referer.as_str(),
        )
    }

    /// Gives an address up.
    fn turn_to_next(&mut self) -> (r: FetchStep)
        ensures
            is_fetch_step(final(self)@, r@, next_address(old(self)@)),
    {
        if self.second {
            let mut m: String = "Config VPN sulla sessione TLS dati non valida. ".to_string();
            m.append(self.last_err.as_str());
            return FetchStep::Failed(m);
        }
        self.second = true;
        self.path = "/remote/fortisslvpn_xml".to_string();
        self.tries = 0;
        FetchStep::Request
    }

    /// Follows a redirect.
    fn follow(&mut self, path: String) -> (r: FetchStep)
        ensures
            is_fetch_step(final(self)@, r@, redirected(old(self)@, path@)),
    {
        self.path = path;
        if self.tries >= MAX_TRIES - 1 {
            return self.turn_to_next();
        }
        self.tries = self.tries + 1;
        FetchStep::Request
    }

    /// Goes on after a page was read as a configuration.
    pub fn conclude(&mut self, page: &str, parsed: Option<Result<VpnConfig, String>>) -> (r:
        FetchStep)
        ensures
            is_fetch_step(final(self)@, r@, concluded(old(self)@, page@, parsed_view(parsed))),
    {
        match parsed {
            Some(Ok(c)) => FetchStep::Done(c),
            Some(Err(e)) => {
                let mut why: String = self.path.clone();
                why.append(" — ");
                why.append(e.as_str());
                why.append(" — ");
                why.append(auth::preview_config_body(page).as_str());
                self.last_err = why;
                self.turn_to_next()
            },
            None => FetchStep::Cut,
        }
    }

    /// Goes on after a reply.
    pub fn receive(&mut self, status: u16, headers: &Vec<(String, String)>, body: &[u8]) -> (r:
        FetchStep)
        ensures
            is_fetch_step(
                final(self)@,
                r@,
                after_reply(old(self)@, status, text::pair_views(headers@), body@),
            ),
    {
        if status == 301 || status == 302 || status == 303 || status == 307 || status == 308 {
            return match http_text::find_header(headers, "location") {
                Some(loc) => match http_text::normalize_redirect_path(loc.as_str()) {
                    Ok(path) => self.follow(path),
                    Err(m) => FetchStep::Failed(m),
                },
                None => {
                    let mut m: String = "redirect HTTP ".to_string();
                    m.append(numbers::decimal_text(status as u64).as_str());
                    m.append(" senza Location");
                    FetchStep::Failed(m)
                },
            };
        }
        if status != 200 {
            let shown: usize = if body.len() <= REPLY_PREVIEW {
                body.len()
            } else {
                REPLY_PREVIEW
            };
            proof {
                assert(body@.subrange(0, shown as int) =~= text::at_most(
                    body@,
                    REPLY_PREVIEW as int,
                ));
            }
            let mut why: String = self.path.clone();
            why.append(" HTTP ");
            why.append(numbers::decimal_text(status as u64).as_str());
            why.append(" — ");
            why.append(bytes::lossy_text(slice_subrange(body, 0, shown)).as_str());
            self.last_err = why;
            return self.turn_to_next();
        }
        let all = bytes::lossy_text(body);
        let cs = text::to_chars(all.as_str());
        let page = text::to_text(text::trim(cs.as_slice()));
        if auth::response_looks_like_html_portal(page.as_str()) {
            let mut why: String = self.path.clone();
            why.append(" — HTML portale — ");
            why.append(auth::preview_config_body(page.as_str()).as_str());
            self.last_err = why;
            return self.turn_to_next();
        }
        let parsed = config_xml::try_parse_vpn_config_xml(page.as_str());
        self.conclude(page.as_str(), parsed)
    }
}

/// What the user is told of the configuration.
pub fn config_received_text(config: &VpnConfig) -> (r: String)
    ensures
        r@ == "Configurazione VPN ricevuta (IP "@ + config@.assigned_ip + ")."@,
{
    let mut m: String = "Configurazione VPN ricevuta (IP ".to_string();
    m.append(config.assigned_ip.as_str());
    m.append(").");
    m
}

// ---------------------------------------------------------------------------
// Opening the tunnel
// ---------------------------------------------------------------------------

/// How long to wait for more bytes where it is not clear yet what they are.
pub const TUNNEL_PEEK_MS: u64 = 1500;

/// How many such waits in a row are in vain before the bytes are taken as
/// they are.
pub const TUNNEL_MAX_STALLS: u32 = 10;

/// How many bytes of a refusal are shown.
pub const TUNNEL_PREVIEW: usize = 400;

/// What the gateway sends after the request for the tunnel. Most send no HTTP
/// reply if all is well.
#[derive(Clone, Copy, PartialEq, Eq, Structural)]
pub enum TunnelPostGetKind {
    NeedMoreBytes,
    HttpResponse,
    RawTunnelData,
}

/// `HTTP/`, as bytes.
pub open spec fn http_mark() -> Seq<u8> {
    seq![0x48u8, 0x54u8, 0x54u8, 0x50u8, 0x2fu8]
}

/// What the bytes are: tunnel data if they have the mark of a tunnel frame or
/// cannot begin with `HTTP/`.
pub open spec fn tunnel_kind(buf: Seq<u8>) -> TunnelPostGetKind {
    if buf.len() == 0 {
        TunnelPostGetKind::NeedMoreBytes
    } else if buf.len() >= 6 && buf[2] == 0x50 && buf[3] == 0x50 {
        TunnelPostGetKind::RawTunnelData
    } else if buf[0] != 0x48 && buf[0] != 0x68 {
        TunnelPostGetKind::RawTunnelData
    } else if buf.len() < 5 {
        TunnelPostGetKind::NeedMoreBytes
    } else if bytes::same_ignoring_case(buf.take(5), http_mark()) {
        TunnelPostGetKind::HttpResponse
    } else {
        TunnelPostGetKind::RawTunnelData
    }
}

/// What the bytes are.
pub fn classify_tunnel_post_get(buf: &[u8]) -> (r: TunnelPostGetKind)
    ensures
        r == tunnel_kind(buf@),
{
    if buf.len() == 0 {
        return TunnelPostGetKind::NeedMoreBytes;
    }
    if buf.len() >= 6 && buf[2] == 0x50 && buf[3] == 0x50 {
        return TunnelPostGetKind::RawTunnelData;
    }
    if buf[0] != 0x48 && buf[0] != 0x68 {
        return TunnelPostGetKind::RawTunnelData;
    }
    if buf.len() < 5 {
        return TunnelPostGetKind::NeedMoreBytes;
    }
    let mark: [u8; 5] = [0x48, 0x54, 0x54, 0x50, 0x2f];
    proof {
        assert(mark@ =~= http_mark());
        assert(buf@.subrange(0, 5) =~= buf@.take(5));
    }
    if bytes::eq_ignore_case(slice_subrange(buf, 0, 5), mark.as_slice()) {
        TunnelPostGetKind::HttpResponse
    } else {
        TunnelPostGetKind::RawTunnelData
    }
}

/// The opening of the tunnel: the bytes that came after the request.
pub struct TunnelOpening {
    pub buf: Vec<u8>,
    /// The waits in vain since the last bytes.
    pub stalls: u32,
}

/// The opening without its representation.
#[verifier::ext_equal]
pub struct TunnelOpeningView {
    pub buf: Seq<u8>,
    pub stalls: u32,
}

impl View for TunnelOpening {
    type V = TunnelOpeningView;

    open spec fn view(&self) -> TunnelOpeningView {
        TunnelOpeningView { buf: self.buf@, stalls: self.stalls }
    }
}

/// What to do next to open the tunnel.
pub enum TunnelStep {
    /// Read, for at most that many milliseconds.
    Read(u64),
    /// The tunnel is open, and these are its first bytes.
    Ready(Vec<u8>),
    /// The gateway refused, or the connection broke.
    Failed(String),
}

/// The step without its representation.
pub enum TunnelStepView {
    Read(u64),
    Ready(Seq<u8>),
    Failed(Seq<char>),
}

impl View for TunnelStep {
    type V = TunnelStepView;

    open spec fn view(&self) -> TunnelStepView {
        match self {
            TunnelStep::Read(ms) => TunnelStepView::Read(*ms),
            TunnelStep::Ready(b) => TunnelStepView::Ready(b@),
            TunnelStep::Failed(m) => TunnelStepView::Failed(m@),
        }
    }
}

/// The first line of a reply, as text.
pub open spec fn status_line(buf: Seq<u8>) -> Seq<char> {
    bytes::lossy(
        match text::first_at(buf, http_text::crlf()) {
            Some(end) => buf.take(end),
            None => Seq::empty(),
        },
    )
}

/// The step after an HTTP reply with a complete head.
pub open spec fn tunnel_answered(buf: Seq<u8>, end: int) -> TunnelStepView {
    let line = status_line(buf);
    if text::has_prefix(line, "HTTP/1.1 200"@) || text::has_prefix(line, "HTTP/1.0 200"@) {
        TunnelStepView::Ready(buf.skip(end))
    } else {
        TunnelStepView::Failed(
            "Tunnel HTTP non OK: "@ + text::trimmed(line) + " — "@ + bytes::lossy(
                text::at_most(buf, TUNNEL_PREVIEW as int),
            ),
        )
    }
}

/// The step that the bytes call for.
pub open spec fn tunnel_settled(buf: Seq<u8>) -> TunnelStepView {
    match tunnel_kind(buf) {
        TunnelPostGetKind::RawTunnelData => TunnelStepView::Ready(buf),
        TunnelPostGetKind::NeedMoreBytes => TunnelStepView::Read(TUNNEL_PEEK_MS),
        TunnelPostGetKind::HttpResponse => match http_text::head_end(buf) {
            None => TunnelStepView::Read(READ_TIMEOUT_MS),
            Some(end) => tunnel_answered(buf, end),
        },
    }
}

/// The opening and the step after a read while the head of an HTTP reply is
/// awaited.
pub open spec fn head_awaited(v: TunnelOpeningView, outcome: ReadView) -> (
    TunnelOpeningView,
    TunnelStepView,
) {
    match outcome {
        ReadView::TimedOut => (
            v,
            TunnelStepView::Failed(
                "Tunnel: timeout header HTTP dopo GET sslvpn-tunnel (45 s)."@,
            ),
        ),
        ReadView::Failed(e) => (v, TunnelStepView::Failed(e)),
        ReadView::Data(b) => {
            let buf = v.buf + b;
            if b.len() == 0 {
                (
                    v,
                    TunnelStepView::Failed("Tunnel: EOF prima della fine degli header HTTP"@),
                )
            } else if buf.len() > BUFFER_LIMIT {
                (v, TunnelStepView::Failed("Tunnel: header HTTP troppo grandi"@))
            } else {
                (TunnelOpeningView { buf, ..v }, tunnel_settled(buf))
            }
        },
    }
}

/// The opening and the step after a read while it is not clear what the
/// gateway sends.
pub open spec fn start_awaited(v: TunnelOpeningView, outcome: ReadView) -> (
    TunnelOpeningView,
    TunnelStepView,
) {
    match outcome {
        ReadView::TimedOut => if v.buf.len() == 0 || v.stalls + 1 >= TUNNEL_MAX_STALLS {
            (v, TunnelStepView::Ready(v.buf))
        } else {
            (
                TunnelOpeningView { stalls: (v.stalls + 1) as u32, ..v },
                TunnelStepView::Read(TUNNEL_PEEK_MS),
            )
        },
        ReadView::Failed(e) => (v, TunnelStepView::Failed(e)),
        ReadView::Data(b) => {
            let buf = v.buf + b;
            if b.len() == 0 {
                if v.buf.len() == 0 {
                    (v, TunnelStepView::Failed("Tunnel: connessione chiusa senza risposta"@))
                } else {
                    (v, TunnelStepView::Ready(v.buf))
                }
            } else if buf.len() > BUFFER_LIMIT {
                (v, TunnelStepView::Failed("Tunnel: risposta gateway troppo grande"@))
            } else {
                (TunnelOpeningView { buf, stalls: 0 }, tunnel_settled(buf))
            }
        },
    }
}

/// The opening and the step after a read.
pub open spec fn tunnel_after_read(v: TunnelOpeningView, outcome: ReadView) -> (
    TunnelOpeningView,
    TunnelStepView,
) {
    match tunnel_kind(v.buf) {
        TunnelPostGetKind::HttpResponse => head_awaited(v, outcome),
        TunnelPostGetKind::NeedMoreBytes => start_awaited(v, outcome),
        TunnelPostGetKind::RawTunnelData => (v, TunnelStepView::Ready(v.buf)),
    }
}

/// The request for the tunnel with the cookies of the session.
pub fn tunnel_opening_request(cookie: &str) -> (r: String)
    ensures
        r@ == http_text::tunnel_request(http_text::clean_cookies(cookie@)),
{
    let clean = http_text::sanitize_cookie_header(cookie);
    http_text::build_sslvpn_tunnel_get(clean.as_str())
}

impl TunnelOpening {
    /// After the request: the first step is to read for at most
    /// `TUNNEL_PEEK_MS`.
    pub fn new() -> (r: Self)
        ensures
            r@ == (TunnelOpeningView { buf: Seq::empty(), stalls: 0 }),
    {
        let r = TunnelOpening { buf: Vec::new(), stalls: 0 };
        proof {
            assert(r.buf@ =~= Seq::empty());
        }
        r
    }

    /// A copy of the bytes.
    fn bytes_so_far(&self) -> (r: Vec<u8>)
        ensures
            r@ == self.buf@,
    {
        slice_to_vec(self.buf.as_slice())
    }

    /// The step after an HTTP reply with a complete head.
    fn judge_reply(&self, end: usize) -> (r: TunnelStep)
        requires
            end <= self.buf@.len(),
        ensures
            r@ == tunnel_answered(self.buf@, end as int),
    {
        let buf = self.buf.as_slice();
        let line_end: usize = match bytes::find_bytes(buf, http_text::crlf_bytes().as_slice()) {
            Some(i) => i,
            None => 0,
        };
        proof {
            assert(buf@.subrange(0, line_end as int) =~= buf@.take(line_end as int));
            assert(buf@.take(0) =~= Seq::empty());
        }
        let line = bytes::lossy_text(slice_subrange(buf, 0, line_end));
        let cs = text::to_chars(line.as_str());
        let first = text::to_chars("HTTP/1.1 200");
        let second = text::to_chars("HTTP/1.0 200");
        if text::starts_with(cs.as_slice(), first.as_slice()) || text::starts_with(
            cs.as_slice(),
            second.as_slice(),
        ) {
            let rest = slice_to_vec(slice_subrange(buf, end, buf.len()));
            proof {
                assert(rest@ =~= buf@.skip(end as int));
            }
            return TunnelStep::Ready(rest);
        }
        let shown: usize = if buf.len() <= TUNNEL_PREVIEW {
            buf.len()
        } else {
            TUNNEL_PREVIEW
        };
        proof {
            assert(buf@.subrange(0, shown as int) =~= text::at_most(buf@, TUNNEL_PREVIEW as int));
        }
        let mut m: String = "Tunnel HTTP non OK: ".to_string();
        m.append(text::to_text(text::trim(cs.as_slice())).as_str());
        m.append(" — ");
        m.append(bytes::lossy_text(slice_subrange(buf, 0, shown)).as_str());
        TunnelStep::Failed(m)
    }

    /// The step that the bytes call for.
    fn settle(&self) -> (r: TunnelStep)
        ensures
            r@ == tunnel_settled(self.buf@),
    {
        match classify_tunnel_post_get(self.buf.as_slice()) {
            TunnelPostGetKind::RawTunnelData => TunnelStep::Ready(self.bytes_so_far()),
            TunnelPostGetKind::NeedMoreBytes => TunnelStep::Read(TUNNEL_PEEK_MS),
            TunnelPostGetKind::HttpResponse => match http_text::find_headers_end(
                self.buf.as_slice(),
            ) {
                None => TunnelStep::Read(READ_TIMEOUT_MS),
                Some(end) => self.judge_reply(end),
            },
        }
    }

    /// Takes in a read while the head of an HTTP reply is awaited.
    fn receive_head(&mut self, outcome: ReadOutcome) -> (r: TunnelStep)
        ensures
            r@ == head_awaited(old(self)@, outcome@).1,
            r is Read ==> final(self)@ == head_awaited(old(self)@, outcome@).0,
    {
        match outcome {
            ReadOutcome::TimedOut => TunnelStep::Failed(
                "Tunnel: timeout header HTTP dopo GET sslvpn-tunnel (45 s).".to_string(),
            ),
            ReadOutcome::Failed(e) => TunnelStep::Failed(e),
            ReadOutcome::Data(b) => {
                if b.len() == 0 {
                    return TunnelStep::Failed(
                        "Tunnel: EOF prima della fine degli header HTTP".to_string(),
                    );
                }
                append_bytes(&mut self.buf, b.as_slice());
                if self.buf.len() > BUFFER_LIMIT {
                    return TunnelStep::Failed("Tunnel: header HTTP troppo grandi".to_string());
                }
                self.settle()
            },
        }
    }

    /// Takes in a read while it is not clear what the gateway sends.
    fn receive_start(&mut self, outcome: ReadOutcome) -> (r: TunnelStep)
        ensures
            r@ == start_awaited(old(self)@, outcome@).1,
            r is Read ==> final(self)@ == start_awaited(old(self)@, outcome@).0,
    {
        match outcome {
            ReadOutcome::TimedOut => {
                if self.buf.len() == 0 || self.stalls >= TUNNEL_MAX_STALLS - 1 {
                    return TunnelStep::Ready(self.bytes_so_far());
                }
                self.stalls = self.stalls + 1;
                TunnelStep::Read(TUNNEL_PEEK_MS)
            },
            ReadOutcome::Failed(e) => TunnelStep::Failed(e),
            ReadOutcome::Data(b) => {
                if b.len() == 0 {
                    if self.buf.len() == 0 {
                        return TunnelStep::Failed(
                            "Tunnel: connessione chiusa senza risposta".to_string(),
                        );
                    }
                    return TunnelStep::Ready(self.bytes_so_far());
                }
                self.stalls = 0;
                append_bytes(&mut self.buf, b.as_slice());
                if self.buf.len() > BUFFER_LIMIT {
                    return TunnelStep::Failed(
                        "Tunnel: risposta gateway troppo grande".to_string(),
                    );
                }
                self.settle()
            },
        }
    }

    /// Takes in what a read gave.
    pub fn receive(&mut self, outcome: ReadOutcome) -> (r: TunnelStep)
        ensures
            r@ == tunnel_after_read(old(self)@, outcome@).1,
            r is Read ==> final(self)@ == tunnel_after_read(old(self)@, outcome@).0,
    {
        match classify_tunnel_post_get(self.buf.as_slice()) {
            TunnelPostGetKind::HttpResponse => self.receive_head(outcome),
            TunnelPostGetKind::NeedMoreBytes => self.receive_start(outcome),
            TunnelPostGetKind::RawTunnelData => TunnelStep::Ready(self.bytes_so_far()),
        }
    }
}

// ---------------------------------------------------------------------------
// Laws
// ---------------------------------------------------------------------------

/// How many requests the search has behind it.
pub open spec fn requests_made(v: ConfigFetchView) -> int {
    v.tries + if v.second {
        MAX_TRIES as int
    } else {
        0
    }
}

/// The search ends after at most twice as many requests as one address gets:
/// each reply that calls for another request brings it closer to its end.
pub proof fn law_fetch_ends(
    v: ConfigFetchView,
    status: u16,
    headers: Seq<(Seq<char>, Seq<char>)>,
    body: Seq<u8>,
)
    requires
        v.tries < MAX_TRIES,
    ensures
        ({
            let (w, step) = after_reply(v, status, headers, body);
            step is Request ==> w.tries < MAX_TRIES && requests_made(v) < requests_made(w) < 2
                * MAX_TRIES
        }),
{
}

/// What a search hands out is a configuration with a dotted address.
pub proof fn law_fetched_address_is_dotted(
    v: ConfigFetchView,
    status: u16,
    headers: Seq<(Seq<char>, Seq<char>)>,
    body: Seq<u8>,
)
    ensures
        after_reply(v, status, headers, body).1 matches FetchStepView::Done(c) ==> status == 200
            && numbers::is_dotted_quad(c.assigned_ip),
{
    config_xml::law_assigned_address_is_dotted(text::trimmed(bytes::lossy(body)));
}

/// Once it is clear what the gateway sends, more bytes do not change that.
pub proof fn law_kind_is_final(buf: Seq<u8>, more: Seq<u8>)
    requires
        tunnel_kind(buf) != TunnelPostGetKind::NeedMoreBytes,
    ensures
        tunnel_kind(buf + more) == tunnel_kind(buf),
{
    let all = buf + more;
    assert(all[0] == buf[0]);
    if buf.len() >= 5 {
        assert(all.take(5) =~= buf.take(5));
        if bytes::same_ignoring_case(buf.take(5), http_mark()) {
            assert(bytes::low_byte(buf.take(5)[2]) == bytes::low_byte(http_mark()[2]));
        }
    }
    if buf.len() >= 6 {
        assert(all[2] == buf[2] && all[3] == buf[3]);
    }
}

/// A tunnel frame is never taken for an HTTP reply.
pub proof fn law_tunnel_frame_is_raw(payload: Seq<u8>, rest: Seq<u8>)
    ensures
        tunnel_kind(ppp_proto::tunnel_frame(payload) + rest) == TunnelPostGetKind::RawTunnelData,
{
    let data = ppp_proto::tunnel_frame(payload) + rest;
    assert(data[2] == 0x50 && data[3] == 0x50);
}

/// Waiting in vain does not go on for ever: each wait brings the opening
/// closer to the point where the bytes are taken as they are.
pub proof fn law_waiting_ends(v: TunnelOpeningView)
    requires
        v.stalls < TUNNEL_MAX_STALLS,
    ensures
        ({
            let (w, step) = tunnel_after_read(v, ReadView::TimedOut);
            step is Read ==> v.stalls < w.stalls < TUNNEL_MAX_STALLS
        }),
{
}

/// The head of a reply ends where it ended before more bytes came, and so
/// does its first line.
proof fn lemma_reply_head_stays(buf: Seq<u8>, more: Seq<u8>)
    requires
        http_text::head_end(buf) is Some,
    ensures
        http_text::head_end(buf + more) == http_text::head_end(buf),
        0 <= http_text::head_end(buf)->0 <= buf.len(),
        status_line(buf + more) == status_line(buf),
{
    let i = text::first_at(buf, http_text::blank_line())->0;
    text::lemma_find_from(buf, http_text::blank_line(), 0);
    text::lemma_first_stays(buf, http_text::blank_line(), more);
    assert(buf.subrange(i, i + 2) =~= buf.subrange(i, i + 4).take(2));
    assert(http_text::blank_line().take(2) =~= http_text::crlf());
    assert(text::occurs_at(buf, http_text::crlf(), i));
    text::lemma_find_from(buf, http_text::crlf(), 0);
    text::lemma_first_stays(buf, http_text::crlf(), more);
    let end = text::first_at(buf, http_text::crlf())->0;
    assert((buf + more).take(end) =~= buf.take(end));
}

/// It makes no difference where the stream cuts what the gateway sends: no
/// byte of the tunnel is lost, and a refusal stays one.
pub proof fn law_opening_cuts_make_no_difference(v: TunnelOpeningView, a: Seq<u8>, b: Seq<u8>)
    requires
        tunnel_settled(v.buf) is Read,
        a.len() > 0,
        b.len() > 0,
        v.buf.len() + a.len() + b.len() <= BUFFER_LIMIT,
    ensures
        ({
            let (w, first) = tunnel_after_read(v, ReadView::Data(a));
            let whole = tunnel_after_read(v, ReadView::Data(a + b)).1;
            match first {
                TunnelStepView::Read(_) => tunnel_after_read(w, ReadView::Data(b)).1 == whole,
                TunnelStepView::Ready(bytes) => whole == TunnelStepView::Ready(bytes + b),
                TunnelStepView::Failed(_) => whole is Failed,
            }
        }),
{
    let one = v.buf + a;
    assert(one + b =~= v.buf + (a + b));
    if tunnel_kind(one) != TunnelPostGetKind::NeedMoreBytes {
        law_kind_is_final(one, b);
        if let Some(end) = http_text::head_end(one) {
            lemma_reply_head_stays(one, b);
            assert((one + b).skip(end) =~= one.skip(end) + b);
        }
    }
}

/// The configuration is asked for at the address of the portal, with the
/// cookies of the session and the page before it as the referer, first for
/// both kinds of addresses.
pub proof fn law_fetch_starts(host: Seq<char>, port: u16, cookie: Seq<char>)
    ensures
        ({
            let v = fetch_start(host, port, cookie);
            &&& v.host_port == host + ":"@ + numbers::decimal(port as nat)
            &&& v.referer == "https://"@ + v.host_port + "/remote/fortisslvpn"@
            &&& v.cookie == cookie
            &&& v.path == "/remote/fortisslvpn_xml?dual_stack=1"@
            &&& !v.second && v.tries == 0
        }),
{
}

/// A redirect is followed to its path up to eleven times for each address; any
/// other page that is no configuration leads to the second address once, and
/// then to a failure that says what was wrong with it. A configuration ends
/// the search.
pub proof fn law_fetch_goes_on(
    v: ConfigFetchView,
    status: u16,
    headers: Seq<(Seq<char>, Seq<char>)>,
    body: Seq<u8>,
)
    requires
        v.tries < 12,
    ensures
        ({
            let (w, step) = after_reply(v, status, headers, body);
            let page = text::trimmed(bytes::lossy(body));
            let moved = status == 301 || status == 302 || status == 303 || status == 307 || status
                == 308;
            let location = http_text::header_named(headers, "location"@);
            let wanted = config_xml::config_in(page);
            let bad = status != 200 || auth::is_portal_page(page) || (wanted matches Some(r) && r
                is Err);
            &&& w.host_port == v.host_port && w.referer == v.referer && w.cookie == v.cookie
            &&& moved && location is None ==> step is Failed
            &&& moved ==> (location matches Some(l) ==> (http_text::redirect_path(l) is Err
                ==> step is Failed))
            &&& moved && v.tries < 11 ==> (location matches Some(l) ==> (http_text::redirect_path(
                l,
            ) matches Ok(path) ==> step is Request && w.path == path && w.tries == v.tries + 1
                && w.second == v.second))
            &&& moved && v.tries == 11 ==> (location matches Some(l) ==> (http_text::redirect_path(
                l,
            ) is Ok ==> if v.second {
                step is Failed
            } else {
                step is Request && w.second && w.path == "/remote/fortisslvpn_xml"@ && w.tries == 0
            }))
            &&& !moved && bad && !v.second ==> step is Request && w.second && w.path
                == "/remote/fortisslvpn_xml"@ && w.tries == 0
            &&& !moved && bad && v.second ==> step == FetchStepView::Failed(
                "Config VPN sulla sessione TLS dati non valida. "@ + w.last_err,
            ) && text::has_prefix(w.last_err, v.path)
            &&& status == 200 && !auth::is_portal_page(page) ==> (wanted matches Some(Ok(c))
                ==> step == FetchStepView::Done(c))
            &&& status == 200 && !auth::is_portal_page(page) && wanted is None ==> step is Cut
        }),
{
    let (w, step) = after_reply(v, status, headers, body);
    let n = v.path.len() as int;
    if step is Failed && w.last_err.len() >= n {
        if w.last_err.take(n) =~= v.path {
            assert(w.last_err.subrange(0, n) =~= v.path);
        }
    }
}

/// Of an HTTP reply to the request for the tunnel, one with the status 200
/// opens the tunnel, and the bytes behind its head are the first of the
/// tunnel; any other refuses it, and the refusal shows its first line.
pub proof fn law_tunnel_is_answered(buf: Seq<u8>, end: int)
    ensures
        ({
            let line = status_line(buf);
            let ok = text::has_prefix(line, "HTTP/1.1 200"@) || text::has_prefix(
                line,
                "HTTP/1.0 200"@,
            );
            &&& ok ==> tunnel_answered(buf, end) == TunnelStepView::Ready(buf.skip(end))
            &&& !ok ==> (tunnel_answered(buf, end) matches TunnelStepView::Failed(m)
                && text::has_prefix(m, "Tunnel HTTP non OK: "@ + text::trimmed(line)))
        }),
{
    let line = status_line(buf);
    if let TunnelStepView::Failed(m) = tunnel_answered(buf, end) {
        let front = "Tunnel HTTP non OK: "@ + text::trimmed(line);
        assert(m.subrange(0, front.len() as int) =~= front);
    }
}

/// The first line of a reply is what stands before its first end of a line.
pub proof fn law_first_line_is_cut_out(line: Seq<u8>, rest: Seq<u8>)
    requires
        !text::has_part(line, seq![0x0du8, 0x0au8]),
    ensures
        status_line(line + seq![0x0du8, 0x0au8] + rest) == bytes::lossy(line),
{
    let end = seq![0x0du8, 0x0au8];
    let buf = line + end + rest;
    let at = line.len() as int;
    assert(http_text::crlf() =~= end);
    assert(buf.subrange(at, at + 2) =~= end);
    assert forall|k: int| 0 <= k < at implies !#[trigger] text::occurs_at(
        buf,
        http_text::crlf(),
        k,
    ) by {
        if k + 1 < at {
            assert(buf.subrange(k, k + 2) =~= line.subrange(k, k + 2));
            assert(!text::occurs_at(line, end, k));
        } else {
            assert(buf.subrange(k, k + 2)[1] == buf[at]);
        }
    }
    text::lemma_find_is(buf, http_text::crlf(), 0, at);
    assert(buf.take(at) =~= line);
}

/// Bytes that begin with `HTTP/`, in whatever case, are an HTTP reply, unless
/// they have the marks of a tunnel frame; bytes that could still become one
/// wait for more; all others are those of the tunnel.
pub proof fn law_kinds_of_answers(buf: Seq<u8>)
    ensures
        ({
            let framed = buf.len() >= 6 && buf[2] == 0x50 && buf[3] == 0x50;
            let same = |i: int, b: u8| buf[i] == b || 0x41 <= b <= 0x5a && buf[i] == b + 32;
            &&& buf.len() == 0 ==> tunnel_kind(buf) == TunnelPostGetKind::NeedMoreBytes
            &&& framed ==> tunnel_kind(buf) == TunnelPostGetKind::RawTunnelData
            &&& !framed && buf.len() >= 5 && buf[4] == 0x2f && same(0, 0x48) && same(1, 0x54)
                && same(2, 0x54) && same(3, 0x50) ==> tunnel_kind(buf)
                == TunnelPostGetKind::HttpResponse
            &&& tunnel_kind(buf) == TunnelPostGetKind::HttpResponse ==> buf.len() >= 5 && buf[4]
                == 0x2f && same(0, 0x48) && same(1, 0x54) && same(2, 0x54) && same(3, 0x50)
            &&& 0 < buf.len() < 5 && (buf[0] == 0x48 || buf[0] == 0x68) ==> tunnel_kind(buf)
                == TunnelPostGetKind::NeedMoreBytes
            &&& buf.len() > 0 && buf[0] != 0x48 && buf[0] != 0x68 ==> tunnel_kind(buf)
                == TunnelPostGetKind::RawTunnelData
        }),
{
    let same = |i: int, b: u8| buf[i] == b || 0x41 <= b <= 0x5a && buf[i] == b + 32;
    if buf.len() >= 5 {
        let head = buf.take(5);
        let mark = http_mark();
        assert(mark[0] == 0x48 && mark[1] == 0x54 && mark[2] == 0x54 && mark[3] == 0x50 && mark[4]
            == 0x2f);
        assert(head[0] == buf[0] && head[1] == buf[1] && head[2] == buf[2] && head[3] == buf[3]
            && head[4] == buf[4]);
        if bytes::same_ignoring_case(head, mark) {
            assert(bytes::low_byte(head[0]) == bytes::low_byte(mark[0]));
            assert(bytes::low_byte(head[1]) == bytes::low_byte(mark[1]));
            assert(bytes::low_byte(head[2]) == bytes::low_byte(mark[2]));
            assert(bytes::low_byte(head[3]) == bytes::low_byte(mark[3]));
            assert(bytes::low_byte(head[4]) == bytes::low_byte(mark[4]));
        }
        if buf[4] == 0x2f && same(0, 0x48) && same(1, 0x54) && same(2, 0x54) && same(3, 0x50) {
            assert forall|i: int| 0 <= i < 5 implies bytes::low_byte(#[trigger] head[i])
                == bytes::low_byte(mark[i]) by {
                assert(i == 0 || i == 1 || i == 2 || i == 3 || i == 4);
            }
        }
    }
}

/// Bytes of the tunnel open it with all the bytes that came; a reply is read
/// to the end of its head; nothing else is decided before there are bytes
/// enough.
pub proof fn law_opening_settles(buf: Seq<u8>)
    ensures
        tunnel_kind(buf) == TunnelPostGetKind::RawTunnelData ==> tunnel_settled(buf)
            == TunnelStepView::Ready(buf),
        tunnel_kind(buf) == TunnelPostGetKind::NeedMoreBytes ==> tunnel_settled(buf)
            == TunnelStepView::Read(1500),
        tunnel_kind(buf) == TunnelPostGetKind::HttpResponse && http_text::head_end(buf) is None
            ==> tunnel_settled(buf) == TunnelStepView::Read(45000),
        tunnel_kind(buf) == TunnelPostGetKind::HttpResponse ==> (http_text::head_end(buf) matches
            Some(end) ==> tunnel_settled(buf) == tunnel_answered(buf, end)),
{
}

/// While the answer is awaited, bytes are taken in behind those that came
/// before. A gateway that says nothing at all opens the tunnel; one that stops
/// in the middle is waited for ten times, then what came opens it. The end of
/// the stream opens it with what came, if anything did. Neither of the two
/// opens it while the head of a reply is unfinished.
pub proof fn law_answer_is_awaited(v: TunnelOpeningView, b: Seq<u8>, e: Seq<char>)
    requires
        tunnel_settled(v.buf) is Read,
    ensures
        ({
            let waiting = tunnel_kind(v.buf) == TunnelPostGetKind::NeedMoreBytes;
            let end = ReadView::Data(Seq::empty());
            &&& b.len() > 0 && v.buf.len() + b.len() <= 524288 ==> tunnel_after_read(
                v,
                ReadView::Data(b),
            ).1 == tunnel_settled(v.buf + b) && tunnel_after_read(v, ReadView::Data(b)).0.buf
                == v.buf + b
            &&& b.len() > 0 && v.buf.len() + b.len() > 524288 ==> tunnel_after_read(
                v,
                ReadView::Data(b),
            ).1 is Failed
            &&& tunnel_after_read(v, ReadView::Failed(e)).1 == TunnelStepView::Failed(e)
            &&& waiting && v.buf.len() == 0 ==> tunnel_after_read(v, ReadView::TimedOut).1
                == TunnelStepView::Ready(v.buf) && tunnel_after_read(v, end).1 is Failed
            &&& waiting && v.buf.len() > 0 ==> tunnel_after_read(v, end).1
                == TunnelStepView::Ready(v.buf)
            &&& waiting && v.buf.len() > 0 && v.stalls >= 9 ==> tunnel_after_read(
                v,
                ReadView::TimedOut,
            ).1 == TunnelStepView::Ready(v.buf)
            &&& waiting && v.buf.len() > 0 && v.stalls < 9 ==> tunnel_after_read(
                v,
                ReadView::TimedOut,
            ) == (
                TunnelOpeningView { stalls: (v.stalls + 1) as u32, ..v },
                TunnelStepView::Read(1500),
            )
            &&& !waiting ==> tunnel_after_read(v, end).1 is Failed && tunnel_after_read(
                v,
                ReadView::TimedOut,
            ).1 is Failed
        }),
{
}

} // verus!
