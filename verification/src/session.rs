//! What the desktop application shows and remembers of a session.

use vstd::prelude::*;
use vstd::string::*;

use crate::auth;
use crate::host;
use crate::json;
use crate::json::{JsonField, JsonMember, MemberView};
use crate::numbers;
use crate::text;

verus! {

// ---------------------------------------------------------------------------
// Status and log
// ---------------------------------------------------------------------------

/// Where a session stands.
#[derive(Debug)]
pub enum VpnStatus {
    Disconnected,
    Authenticating,
    Connecting,
    Connected,
    Disconnecting,
    Error(String),
}

/// A status without its representation.
pub enum StatusView {
    Disconnected,
    Authenticating,
    Connecting,
    Connected,
    Disconnecting,
    Error(Seq<char>),
}

impl View for VpnStatus {
    type V = StatusView;

    open spec fn view(&self) -> StatusView {
        match self {
            VpnStatus::Disconnected => StatusView::Disconnected,
            VpnStatus::Authenticating => StatusView::Authenticating,
            VpnStatus::Connecting => StatusView::Connecting,
            VpnStatus::Connected => StatusView::Connected,
            VpnStatus::Disconnecting => StatusView::Disconnecting,
            VpnStatus::Error(e) => StatusView::Error(e@),
        }
    }
}

impl Clone for VpnStatus {
    fn clone(&self) -> (r: Self)
        ensures
            r@ == self@,
    {
        match self {
            VpnStatus::Disconnected => VpnStatus::Disconnected,
            VpnStatus::Authenticating => VpnStatus::Authenticating,
            VpnStatus::Connecting => VpnStatus::Connecting,
            VpnStatus::Connected => VpnStatus::Connected,
            VpnStatus::Disconnecting => VpnStatus::Disconnecting,
            VpnStatus::Error(e) => VpnStatus::Error(e.clone()),
        }
    }
}

/// The name of a status. The words of an error are not part of it.
pub open spec fn status_tag(status: StatusView) -> Seq<char> {
    match status {
        StatusView::Disconnected => "Disconnected"@,
        StatusView::Authenticating => "Authenticating"@,
        StatusView::Connecting => "Connecting"@,
        StatusView::Connected => "Connected"@,
        StatusView::Disconnecting => "Disconnecting"@,
        StatusView::Error(_) => "Error"@,
    }
}

/// The name of a status, for the front end.
pub fn vpn_status_tag(status: &VpnStatus) -> (r: String)
    ensures
        r@ == status_tag(status@),
{
    match status {
        VpnStatus::Disconnected => "Disconnected".to_string(),
        VpnStatus::Authenticating => "Authenticating".to_string(),
        VpnStatus::Connecting => "Connecting".to_string(),
        VpnStatus::Connected => "Connected".to_string(),
        VpnStatus::Disconnecting => "Disconnecting".to_string(),
        VpnStatus::Error(_) => "Error".to_string(),
    }
}

/// Whether closing the main window has to wait for the user's decision: it
/// does while the session is up.
pub fn close_needs_decision(status: &VpnStatus) -> (r: bool)
    ensures
        r == (status@ is Connected),
{
    match status {
        VpnStatus::Connected => true,
        _ => false,
    }
}

/// A line of the log.
#[derive(Debug)]
pub struct LogEntry {
    pub timestamp: String,
    pub message: String,
}

/// A line without its representation.
pub struct LogEntryView {
    pub timestamp: Seq<char>,
    pub message: Seq<char>,
}

impl View for LogEntry {
    type V = LogEntryView;

    open spec fn view(&self) -> LogEntryView {
        LogEntryView { timestamp: self.timestamp@, message: self.message@ }
    }
}

impl Clone for LogEntry {
    fn clone(&self) -> (r: Self)
        ensures
            r@ == self@,
    {
        LogEntry { timestamp: self.timestamp.clone(), message: self.message.clone() }
    }
}

/// How many lines the log keeps.
pub const LOG_CAPACITY: usize = 1000;

/// The log with one more line; if it is full, the oldest line goes.
pub open spec fn with_line<T>(log: Seq<T>, line: T) -> Seq<T> {
    let longer = log.push(line);
    if longer.len() > LOG_CAPACITY {
        longer.skip(1)
    } else {
        longer
    }
}

/// Adds a line to the log.
pub fn store_log(buffer: &mut Vec<LogEntry>, entry: LogEntry)
    ensures
        final(buffer)@ == with_line(old(buffer)@, entry),
{
    let ghost before = buffer@;
    buffer.push(entry);
    if buffer.len() > LOG_CAPACITY {
        buffer.remove(0);
        proof {
            assert(buffer@ =~= before.push(entry).skip(1));
        }
    }
}

// ---------------------------------------------------------------------------
// Settings that an installation comes with
// ---------------------------------------------------------------------------

/// What the form is filled with.
#[derive(Debug)]
pub struct InstallDefaults {
    pub gateway: Option<String>,
    pub port: Option<u16>,
    pub title: String,
}

/// All traffic goes through the tunnel, unless the setting says otherwise.
pub open spec fn is_full_tunnel(vpn_type: Option<Seq<char>>) -> bool {
    match vpn_type {
        Some(s) => text::lowered(text::trimmed(s)) != "split"@,
        None => true,
    }
}

/// Whether all traffic goes through the tunnel.
pub fn vpn_full_tunnel(vpn_type: &Option<String>) -> (r: bool)
    ensures
        r == is_full_tunnel(text::opt_view(*vpn_type)),
{
    match vpn_type {
        Some(s) => {
            let cs = text::to_chars(s.as_str());
            let lower = text::lower(text::trim(cs.as_slice()));
            !text::same_text(lower.as_slice(), "split")
        },
        None => true,
    }
}

/// The title under the logo.
pub open spec fn title_of(setting: Option<Seq<char>>) -> Seq<char> {
    match setting {
        Some(s) => if text::trimmed(s).len() == 0 {
            "Connessione VPN"@
        } else {
            text::trimmed(s)
        },
        None => "Connessione VPN"@,
    }
}

/// The title under the logo.
pub fn brand_title(setting: &Option<String>) -> (r: String)
    ensures
        r@ == title_of(text::opt_view(*setting)),
{
    if let Some(s) = setting {
        let t = text::trim_text(s.as_str());
        if !t.as_str().is_empty() {
            return t;
        }
    }
    "Connessione VPN".to_string()
}

/// The gateway that a setting names, if it names one.
pub open spec fn default_gateway(setting: Option<Seq<char>>) -> Option<Seq<char>> {
    match setting {
        Some(s) => if text::trimmed(s).len() == 0 {
            None
        } else {
            Some(host::host_in(text::trimmed(s)))
        },
        None => None,
    }
}

/// The port that is filled in.
pub open spec fn default_port(setting: Option<Seq<char>>) -> Option<nat> {
    match setting {
        Some(s) => numbers::bounded_value(text::trimmed(s), 10, 65535),
        None => None,
    }
}

/// What the form is filled with, from the settings of the installation.
pub fn get_install_defaults(
    gateway: &Option<String>,
    port: &Option<String>,
    title: &Option<String>,
) -> (r: InstallDefaults)
    ensures
        text::opt_view(r.gateway) == default_gateway(text::opt_view(*gateway)),
        match r.port {
            Some(p) => default_port(text::opt_view(*port)) == Some(p as nat),
            None => default_port(text::opt_view(*port)) is None,
        },
        r.title@ == title_of(text::opt_view(*title)),
{
    let host: Option<String> = match gateway {
        Some(s) => {
            let t = text::trim_text(s.as_str());
            if t.as_str().is_empty() {
                None
            } else {
                Some(auth::normalize_gateway_host(t.as_str()))
            }
        },
        None => None,
    };
    let number: Option<u16> = match port {
        Some(s) => {
            let cs = text::to_chars(s.as_str());
            match numbers::parse_unsigned(text::trim(cs.as_slice()), 10, 65535) {
                Some(v) => Some(v as u16),
                None => None,
            }
        },
        None => None,
    };
    InstallDefaults { gateway: host, port: number, title: brand_title(title) }
}

// ---------------------------------------------------------------------------
// Credentials
// ---------------------------------------------------------------------------

/// Whose credentials were saved last.
#[derive(Debug)]
pub struct SessionMeta {
    pub username: String,
    pub remember_credentials: bool,
}

/// Credentials that were saved.
pub struct SavedCredentials {
    pub username: String,
    pub gateway: String,
    pub port: Option<u16>,
    pub password: String,
    pub remember_credentials: bool,
}

/// Credentials without their representation.
pub struct CredentialsView {
    pub username: Seq<char>,
    pub gateway: Seq<char>,
    pub port: Option<u16>,
    pub password: Seq<char>,
    pub remember_credentials: bool,
}

impl View for SavedCredentials {
    type V = CredentialsView;

    open spec fn view(&self) -> CredentialsView {
        CredentialsView {
            username: self.username@,
            gateway: self.gateway@,
            port: self.port,
            password: self.password@,
            remember_credentials: self.remember_credentials,
        }
    }
}

/// The user who wanted to be remembered.
pub open spec fn user_in(meta: Option<SessionMeta>) -> Option<Seq<char>> {
    match meta {
        Some(m) => if m.remember_credentials {
            Some(m.username@)
        } else {
            None
        },
        None => None,
    }
}

/// The user whose credentials are to be looked up: the last one who wanted
/// them remembered.
pub fn remembered_user(meta: &Option<SessionMeta>) -> (r: Option<String>)
    ensures
        text::opt_view(r) == user_in(*meta),
{
    match meta {
        Some(m) => {
            if m.remember_credentials {
                Some(m.username.clone())
            } else {
                None
            }
        },
        None => None,
    }
}

/// The text of a member, empty if it is something else.
pub open spec fn text_member(m: MemberView) -> Seq<char> {
    match m {
        MemberView::Text(s) => s,
        _ => Seq::empty(),
    }
}

/// The port in a member: the low sixteen bits of a number, or a text that
/// spells a port.
pub open spec fn port_member(m: MemberView) -> Option<u16> {
    match m {
        MemberView::Number(Some(n)) => Some((n % 65536) as u16),
        MemberView::Text(s) => match numbers::bounded_value(s, 10, 65535) {
            Some(v) => Some(v as u16),
            None => None,
        },
        _ => None,
    }
}

/// The credentials of a user from the members of a saved text.
pub open spec fn credentials_from(
    username: Seq<char>,
    gateway: MemberView,
    port: MemberView,
    password: MemberView,
) -> CredentialsView {
    CredentialsView {
        username,
        gateway: text_member(gateway),
        port: port_member(port),
        password: text_member(password),
        remember_credentials: true,
    }
}

/// The credentials of a user in a saved text.
pub open spec fn credentials_in(username: Seq<char>, payload: Seq<char>) -> Result<
    CredentialsView,
    Seq<char>,
> {
    match json::json_document(payload) {
        Ok(members) => Ok(
            credentials_from(
                username,
                json::member_named(members, "gateway"@),
                json::member_named(members, "port"@),
                json::member_named(members, "password"@),
            ),
        ),
        Err(e) => Err(e),
    }
}

/// The text of a member.
fn member_text(m: &JsonMember) -> (r: String)
    ensures
        r@ == text_member(m@),
{
    match m {
        JsonMember::Text(s) => s.clone(),
        _ => String::new(),
    }
}

/// The port in a member.
fn member_port(m: &JsonMember) -> (r: Option<u16>)
    ensures
        r == port_member(m@),
{
    match m {
        JsonMember::Number(Some(n)) => Some((*n % 65536) as u16),
        JsonMember::Text(s) => {
            let cs = text::to_chars(s.as_str());
            match numbers::parse_unsigned(cs.as_slice(), 10, 65535) {
                Some(v) => Some(v as u16),
                None => None,
            }
        },
        _ => None,
    }
}

/// The credentials of a user from the members of a saved text.
pub fn credentials_of_members(
    username: &str,
    gateway: &JsonMember,
    port: &JsonMember,
    password: &JsonMember,
) -> (r: SavedCredentials)
    ensures
        r@ == credentials_from(username@, gateway@, port@, password@),
{
    SavedCredentials {
        username: username.to_string(),
        gateway: member_text(gateway),
        port: member_port(port),
        password: member_text(password),
        remember_credentials: true,
    }
}

/// The credentials of a user in a saved text.
pub fn read_credentials(username: &str, payload: &str) -> (r: Result<SavedCredentials, String>)
    ensures
        match r {
            Ok(c) => credentials_in(username@, payload@) == Ok::<CredentialsView, Seq<char>>(c@),
            Err(m) => credentials_in(username@, payload@) == Err::<CredentialsView, Seq<char>>(
                m@,
            ),
        },
{
    match json::parse_document(payload) {
        Ok(doc) => Ok(
            credentials_of_members(
                username,
                &json::get_member(&doc, "gateway"),
                &json::get_member(&doc, "port"),
                &json::get_member(&doc, "password"),
            ),
        ),
        Err(m) => Err(m),
    }
}

/// The text to save for credentials. Reading it gives them back.
pub fn credentials_payload(gateway: &str, port: u16, password: &str) -> (r: String)
    ensures
        r@ == json::json_text(
            seq![
                ("gateway"@, MemberView::Text(gateway@)),
                ("port"@, MemberView::Number(Some(port as u64))),
                ("password"@, MemberView::Text(password@)),
            ],
        ),
        forall|username: Seq<char>| #[trigger]
            credentials_in(username, r@) == Ok::<CredentialsView, Seq<char>>(
                CredentialsView {
                    username,
                    gateway: gateway@,
                    port: Some(port),
                    password: password@,
                    remember_credentials: true,
                },
            ),
{
    let mut fields: Vec<(String, JsonField)> = Vec::new();
    fields.push(("gateway".to_string(), JsonField::Text(gateway.to_string())));
    fields.push(("port".to_string(), JsonField::Number(port as u64)));
    fields.push(("password".to_string(), JsonField::Text(password.to_string())));
    let ghost views = json::field_views(fields@);
    let ghost wanted = seq![
        ("gateway"@, MemberView::Text(gateway@)),
        ("port"@, MemberView::Number(Some(port as u64))),
        ("password"@, MemberView::Text(password@)),
    ];
    proof {
        assert(views =~= wanted);
    }
    let out = json::write_object(fields);
    proof {
        reveal_strlit("gateway");
        reveal_strlit("port");
        reveal_strlit("password");
        assert("gateway"@[0] != "port"@[0]);
        assert("gateway"@[0] != "password"@[0]);
        assert("port"@.len() != "password"@.len());
        reveal_with_fuel(json::object_of, 4);
        assert(wanted.drop_last() =~= wanted.take(2));
        assert(wanted.take(2).drop_last() =~= wanted.take(1));
        let members = json::object_of(wanted);
        assert(json::member_named(members, "gateway"@) == MemberView::Text(gateway@));
        assert(json::member_named(members, "port"@) == MemberView::Number(Some(port as u64)));
        assert(json::member_named(members, "password"@) == MemberView::Text(password@));
    }
    out
}

// ---------------------------------------------------------------------------
// Laws
// ---------------------------------------------------------------------------

/// The log after the lines, one after the other.
pub open spec fn with_lines<T>(log: Seq<T>, lines: Seq<T>) -> Seq<T>
    decreases lines.len(),
{
    if lines.len() == 0 {
        log
    } else {
        with_line(with_lines(log, lines.drop_last()), lines.last())
    }
}

/// The log keeps the newest lines, in order, and never more than it has room
/// for.
pub proof fn law_log_keeps_newest<T>(log: Seq<T>, lines: Seq<T>)
    requires
        log.len() <= LOG_CAPACITY,
    ensures
        with_lines(log, lines).len() <= LOG_CAPACITY,
        with_lines(log, lines) == if log.len() + lines.len() <= LOG_CAPACITY {
            log + lines
        } else {
            (log + lines).skip(log.len() + lines.len() - LOG_CAPACITY)
        },
    decreases lines.len(),
{
    if lines.len() == 0 {
        assert(log + lines =~= log);
    } else {
        let shorter = lines.drop_last();
        law_log_keeps_newest(log, shorter);
        assert(log + lines =~= (log + shorter).push(lines.last()));
        if log.len() + lines.len() > LOG_CAPACITY {
            let over = log.len() + lines.len() - LOG_CAPACITY;
            if over == 1 {
                assert((log + lines).skip(1) =~= (log + shorter).push(lines.last()).skip(1));
            } else {
                assert((log + shorter).skip(over - 1).push(lines.last()).skip(1) =~= (log
                    + lines).skip(over));
            }
        }
    }
}

/// All traffic goes through the tunnel unless the setting is the word `split`,
/// in whatever case and with or without white space around it.
pub proof fn law_split_is_asked_for(word: Seq<char>, front: Seq<char>, back: Seq<char>)
    requires
        forall|i: int| 0 <= i < front.len() ==> text::is_space(#[trigger] front[i]),
        forall|i: int| 0 <= i < back.len() ==> text::is_space(#[trigger] back[i]),
        word.len() > 0,
        !text::is_space(word[0]),
        !text::is_space(word.last()),
    ensures
        is_full_tunnel(Some(front + word + back)) <==> text::lowered(word) != "split"@,
        is_full_tunnel(None),
{
    text::law_trimming_takes_white_space(word, front, back);
}

/// A setting that is more than white space is the title, without the white
/// space around it; its host is the gateway that is filled in.
pub proof fn law_settings_are_taken(setting: Seq<char>)
    ensures
        text::trimmed(setting).len() > 0 ==> title_of(Some(setting)) == text::trimmed(setting)
            && default_gateway(Some(setting)) == Some(host::host_in(text::trimmed(setting))),
        text::trimmed(setting).len() == 0 ==> title_of(Some(setting)) == title_of(None)
            && default_gateway(Some(setting)) is None,
        title_of(None) == "Connessione VPN"@,
        default_gateway(None) is None,
{
}

/// Saved credentials are read from the members that hold them: the gateway and
/// the password from a text, the port from a number or from a text that spells
/// one.
pub proof fn law_credentials_are_read(
    username: Seq<char>,
    gateway: Seq<char>,
    port: u16,
    password: Seq<char>,
)
    ensures
        ({
            let number = MemberView::Number(Some(port as u64));
            let words = MemberView::Text(numbers::decimal(port as nat));
            let g = MemberView::Text(gateway);
            let p = MemberView::Text(password);
            let wanted = CredentialsView {
                username,
                gateway,
                port: Some(port),
                password,
                remember_credentials: true,
            };
            &&& credentials_from(username, g, number, p) == wanted
            &&& credentials_from(username, g, words, p) == wanted
            &&& credentials_from(username, g, MemberView::Missing, p) == (CredentialsView {
                port: None,
                ..wanted
            })
            &&& credentials_from(username, MemberView::Missing, number, p) == (CredentialsView {
                gateway: Seq::empty(),
                ..wanted
            })
            &&& credentials_from(username, g, number, MemberView::Missing) == (CredentialsView {
                password: Seq::empty(),
                ..wanted
            })
        }),
{
    numbers::lemma_decimal_reads_back(port as nat);
}

/// A user is remembered under their name if they wanted to be, and only then.
pub proof fn law_user_is_remembered(meta: SessionMeta)
    ensures
        user_in(Some(meta)) is Some <==> meta.remember_credentials,
        user_in(Some(meta)) matches Some(name) ==> name == meta.username@,
        user_in(None) is None,
{
}

/// The port that is filled in is the number that is set, with or without white
/// space around it, if it is one of a port. The log has room for a thousand
/// lines.
pub proof fn law_port_is_taken(n: nat, front: Seq<char>, back: Seq<char>)
    requires
        forall|i: int| 0 <= i < front.len() ==> text::is_space(#[trigger] front[i]),
        forall|i: int| 0 <= i < back.len() ==> text::is_space(#[trigger] back[i]),
    ensures
        default_port(Some(front + numbers::decimal(n) + back)) == if n <= 65535 {
            Some(n)
        } else {
            None
        },
        default_port(None) is None,
        LOG_CAPACITY == 1000,
{
    let d = numbers::decimal(n);
    numbers::lemma_decimal_reads_back(n);
    assert('0' <= d[0] <= '9' && '0' <= d[d.len() - 1] <= '9');
    text::law_trimming_takes_white_space(d, front, back);
}

} // verus!
