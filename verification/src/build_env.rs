//! The settings that a build is made with, from files of `KEY=value` lines.

use vstd::prelude::*;
use vstd::slice::slice_subrange;
use vstd::string::*;

use crate::text;

verus! {

/// The settings of a build.
pub struct BuildVars {
    pub gateway: Option<String>,
    pub port: Option<String>,
    pub vpn_type: Option<String>,
    pub title: Option<String>,
    pub show_logo: Option<String>,
}

/// The settings without their representation.
#[verifier::ext_equal]
pub struct BuildVarsView {
    pub gateway: Option<Seq<char>>,
    pub port: Option<Seq<char>>,
    pub vpn_type: Option<Seq<char>>,
    pub title: Option<Seq<char>>,
    pub show_logo: Option<Seq<char>>,
}

impl View for BuildVars {
    type V = BuildVarsView;

    open spec fn view(&self) -> BuildVarsView {
        BuildVarsView {
            gateway: text::opt_view(self.gateway),
            port: text::opt_view(self.port),
            vpn_type: text::opt_view(self.vpn_type),
            title: text::opt_view(self.title),
            show_logo: text::opt_view(self.show_logo),
        }
    }
}

/// No settings.
pub open spec fn no_vars() -> BuildVarsView {
    BuildVarsView { gateway: None, port: None, vpn_type: None, title: None, show_logo: None }
}

/// The value without the quotes around it, if it is in quotes.
pub open spec fn unquoted(value: Seq<char>) -> Seq<char> {
    if value.len() >= 2 && (value[0] == '"' || value[0] == '\'') && value.last() == value[0] {
        value.subrange(1, value.len() - 1)
    } else {
        value
    }
}

/// The settings with a value for a key. An empty value and an unknown key
/// change nothing.
pub open spec fn with_var(v: BuildVarsView, key: Seq<char>, value: Seq<char>) -> BuildVarsView {
    if value.len() == 0 {
        v
    } else if key == "POLIVPN_DEFAULT_GATEWAY"@ {
        BuildVarsView { gateway: Some(value), ..v }
    } else if key == "POLIVPN_DEFAULT_PORT"@ {
        BuildVarsView { port: Some(value), ..v }
    } else if key == "POLIVPN_VPN_TYPE"@ || key == "VPN_TYPE"@ {
        BuildVarsView { vpn_type: Some(value), ..v }
    } else if key == "POLIVPN_TITLE"@ || key == "TITLE"@ {
        BuildVarsView { title: Some(value), ..v }
    } else if key == "POLIVPN_SHOW_LOGO"@ || key == "SHOW_LOGO"@ {
        BuildVarsView { show_logo: Some(value), ..v }
    } else {
        v
    }
}

/// The settings after one more line; `None` if the line is neither empty, nor
/// a comment, nor a setting.
pub open spec fn after_line(v: BuildVarsView, raw: Seq<char>) -> Option<BuildVarsView> {
    let line = text::trimmed(raw);
    let eq = text::reach(line, '=');
    if line.len() == 0 || line[0] == '#' {
        Some(v)
    } else if eq >= line.len() {
        None
    } else {
        Some(
            with_var(
                v,
                text::trimmed(line.take(eq)),
                unquoted(text::trimmed(line.skip(eq + 1))),
            ),
        )
    }
}

/// The settings after the lines; `None` if one of them is no line of such a
/// file.
pub open spec fn after_lines(lines: Seq<Seq<char>>) -> Option<BuildVarsView>
    decreases lines.len(),
{
    if lines.len() == 0 {
        Some(no_vars())
    } else {
        match after_lines(lines.drop_last()) {
            Some(v) => after_line(v, lines.last()),
            None => None,
        }
    }
}

/// The settings in a file; `None` if it has none or is no such file.
pub open spec fn vars_in(contents: Seq<char>) -> Option<BuildVarsView> {
    match after_lines(text::pieces(contents, '\n')) {
        Some(v) => if v == no_vars() {
            None
        } else {
            Some(v)
        },
        None => None,
    }
}

/// The settings of two files: those of the second count where it has them.
pub open spec fn merged(first: BuildVarsView, second: BuildVarsView) -> BuildVarsView {
    BuildVarsView {
        gateway: if second.gateway is Some {
            second.gateway
        } else {
            first.gateway
        },
        port: if second.port is Some {
            second.port
        } else {
            first.port
        },
        vpn_type: if second.vpn_type is Some {
            second.vpn_type
        } else {
            first.vpn_type
        },
        title: if second.title is Some {
            second.title
        } else {
            first.title
        },
        show_logo: if second.show_logo is Some {
            second.show_logo
        } else {
            first.show_logo
        },
    }
}

impl BuildVars {
    /// No settings.
    pub fn new() -> (r: Self)
        ensures
            r@ == no_vars(),
    {
        BuildVars { gateway: None, port: None, vpn_type: None, title: None, show_logo: None }
    }

    /// Whether there are none.
    fn is_empty(&self) -> (r: bool)
        ensures
            r == (self@ == no_vars()),
    {
        self.gateway.is_none() && self.port.is_none() && self.vpn_type.is_none()
            && self.title.is_none() && self.show_logo.is_none()
    }

    /// Sets the value for a key.
    fn set(&mut self, key: &[char], value: &[char])
        ensures
            final(self)@ == with_var(old(self)@, key@, value@),
    {
        if value.len() == 0 {
            return;
        }
        let v = Some(text::to_text(value));
        if text::same_text(key, "POLIVPN_DEFAULT_GATEWAY") {
            self.gateway = v;
        } else if text::same_text(key, "POLIVPN_DEFAULT_PORT") {
            self.port = v;
        } else if text::same_text(key, "POLIVPN_VPN_TYPE") || text::same_text(key, "VPN_TYPE") {
            self.vpn_type = v;
        } else if text::same_text(key, "POLIVPN_TITLE") || text::same_text(key, "TITLE") {
            self.title = v;
        } else if text::same_text(key, "POLIVPN_SHOW_LOGO") || text::same_text(key, "SHOW_LOGO") {
            self.show_logo = v;
        }
    }

    /// Takes over the settings of another file.
    pub fn merge(&mut self, second: BuildVars)
        ensures
            final(self)@ == merged(old(self)@, second@),
    {
        if second.gateway.is_some() {
            self.gateway = second.gateway;
        }
        if second.port.is_some() {
            self.port = second.port;
        }
        if second.vpn_type.is_some() {
            self.vpn_type = second.vpn_type;
        }
        if second.title.is_some() {
            self.title = second.title;
        }
        if second.show_logo.is_some() {
            self.show_logo = second.show_logo;
        }
    }
}

/// The value without the quotes around it.
fn strip_quotes(value: &[char]) -> (r: &[char])
    ensures
        r@ == unquoted(value@),
{
    if value.len() >= 2 && (value[0] == '"' || value[0] == '\'') && value[value.len() - 1]
        == value[0] {
        return slice_subrange(value, 1, value.len() - 1);
    }
    value
}

/// The settings in a file.
pub fn parse_polivpn_env_file(contents: &str) -> (r: Option<BuildVars>)
    ensures
        match r {
            Some(v) => vars_in(contents@) == Some(v@),
            None => vars_in(contents@) is None,
        },
{
    let cs = text::to_chars(contents);
    let lines = text::split(cs.as_slice(), '\n');
    let ghost all = text::pieces(contents@, '\n');
    let mut out = BuildVars::new();
    let mut i: usize = 0;
    proof {
        assert(all.take(0) =~= Seq::empty());
        assert(text::char_views(lines@).len() == lines@.len());
    }
    while i < lines.len()
        invariant
            all == text::pieces(contents@, '\n'),
            text::char_views(lines@) == all,
            lines@.len() == all.len(),
            i <= lines@.len(),
            after_lines(all.take(i as int)) == Some(out@),
        decreases lines.len() - i,
    {
        proof {
            assert(all.take(i + 1).drop_last() =~= all.take(i as int));
            assert(all.take(i + 1).last() == lines@[i as int]@);
        }
        let line = text::trim(lines[i].as_slice());
        if line.len() > 0 && line[0] != '#' {
            let eq: usize = text::position(line, '=');
            if eq == line.len() {
                proof {
                    assert(after_lines(all.take(i + 1)) is None);
                    lemma_bad_line(all, i + 1);
                }
                return None;
            }
            proof {
                assert(line@.subrange(0, eq as int) =~= line@.take(eq as int));
                assert(line@.subrange(eq + 1, line@.len() as int) =~= line@.skip(eq + 1));
            }
            let key = text::trim(slice_subrange(line, 0, eq));
            let value = strip_quotes(text::trim(slice_subrange(line, eq + 1, line.len())));
            out.set(key, value);
        }
        i = i + 1;
    }
    proof {
        assert(all.take(i as int) =~= all);
    }
    if out.is_empty() {
        None
    } else {
        Some(out)
    }
}

/// A bad line spoils the file.
proof fn lemma_bad_line(lines: Seq<Seq<char>>, n: int)
    requires
        0 <= n <= lines.len(),
        after_lines(lines.take(n)) is None,
    ensures
        after_lines(lines) is None,
    decreases lines.len(),
{
    if n == lines.len() {
        assert(lines.take(n) =~= lines);
    } else {
        assert(lines.drop_last().take(n) =~= lines.take(n));
        lemma_bad_line(lines.drop_last(), n);
    }
}

/// The line that hands a setting on to the compiler.
pub open spec fn compiler_line(key: Seq<char>, value: Seq<char>) -> Seq<char> {
    "cargo:rustc-env="@ + key + "="@ + value
}

/// The line for a setting, if it is there.
pub open spec fn opt_line(key: Seq<char>, value: Option<Seq<char>>) -> Seq<Seq<char>> {
    match value {
        Some(v) => seq![compiler_line(key, v)],
        None => Seq::empty(),
    }
}

/// The lines that hand the settings on to the compiler.
pub open spec fn compiler_lines(v: BuildVarsView) -> Seq<Seq<char>> {
    opt_line("POLIVPN_DEFAULT_GATEWAY"@, v.gateway) + opt_line("POLIVPN_DEFAULT_PORT"@, v.port)
        + opt_line("POLIVPN_VPN_TYPE"@, v.vpn_type) + opt_line("POLIVPN_TITLE"@, v.title)
        + opt_line("POLIVPN_SHOW_LOGO"@, v.show_logo)
}

/// Appends the line for a setting, if it is there.
fn put_line(out: &mut Vec<String>, key: &str, value: &Option<String>)
    ensures
        text::str_views(final(out)@) == text::str_views(old(out)@) + opt_line(
            key@,
            text::opt_view(*value),
        ),
{
    let ghost before = text::str_views(out@);
    if let Some(v) = value {
        out.push(text::cat4("cargo:rustc-env=", key, "=", v.as_str()));
    }
    proof {
        assert(text::str_views(out@) =~= before + opt_line(key@, text::opt_view(*value)));
    }
}

/// The lines that hand the settings on to the compiler.
pub fn compiler_settings(vars: &BuildVars) -> (r: Vec<String>)
    ensures
        text::str_views(r@) == compiler_lines(vars@),
{
    let mut out: Vec<String> = Vec::new();
    put_line(&mut out, "POLIVPN_DEFAULT_GATEWAY", &vars.gateway);
    put_line(&mut out, "POLIVPN_DEFAULT_PORT", &vars.port);
    put_line(&mut out, "POLIVPN_VPN_TYPE", &vars.vpn_type);
    put_line(&mut out, "POLIVPN_TITLE", &vars.title);
    put_line(&mut out, "POLIVPN_SHOW_LOGO", &vars.show_logo);
    proof {
        assert(text::str_views(out@) =~= compiler_lines(vars@));
    }
    out
}

// ---------------------------------------------------------------------------
// Laws
// ---------------------------------------------------------------------------

/// The order of three files is all that counts, not how they are grouped, and
/// a file without settings makes no difference.
pub proof fn law_files_merge_in_order(a: BuildVarsView, b: BuildVarsView, c: BuildVarsView)
    ensures
        merged(merged(a, b), c) == merged(a, merged(b, c)),
        merged(a, no_vars()) == a,
        merged(no_vars(), a) == a,
{
}

/// A line `key=value` sets the value of its key, without white space around
/// the two and without quotes around the value. Each key sets one thing, and
/// an empty value sets nothing.
pub proof fn law_line_sets_a_value(v: BuildVarsView, key: Seq<char>, value: Seq<char>)
    requires
        !key.contains('='),
        key.len() > 0,
        key[0] != '#',
        text::trimmed(key) == key,
        text::trimmed(value) == value,
        value.len() > 0,
        value[0] != '"' && value[0] != '\'',
    ensures
        after_line(v, key + seq!['='] + value) == Some(with_var(v, key, value)),
        after_line(v, key + seq!['=', '"'] + value + seq!['"']) == Some(with_var(v, key, value)),
        after_line(v, key + seq!['=', '\''] + value + seq!['\'']) == Some(
            with_var(v, key, value),
        ),
        after_line(v, key + seq!['=']) == Some(v),
        after_line(v, key) is None,
        after_line(v, seq!['#'] + key) == Some(v),
        after_line(v, Seq::empty()) == Some(v),
{
    let quoted = seq!['"'] + value + seq!['"'];
    let single = seq!['\''] + value + seq!['\''];
    text::lemma_trimmed_start(key);
    text::lemma_trimmed_end(text::trimmed_start(key));
    text::lemma_trimmed_start(value);
    text::lemma_trimmed_end(text::trimmed_start(value));
    assert(!text::is_space(key[0]) && !text::is_space(key.last()));
    assert(!text::is_space(value[0]) && !text::is_space(value.last()));
    lemma_line(v, key, value);
    lemma_line(v, key, quoted);
    lemma_line(v, key, single);
    assert(quoted.subrange(1, quoted.len() - 1) =~= value);
    assert(single.subrange(1, single.len() - 1) =~= value);
    assert(key + seq!['=', '"'] + value + seq!['"'] =~= key + seq!['='] + quoted);
    assert(key + seq!['=', '\''] + value + seq!['\''] =~= key + seq!['='] + single);
    lemma_key_alone(v, key);
    let comment = seq!['#'] + key;
    assert(comment.last() == key.last());
    assert(text::trimmed(comment) == comment);
}

/// A line with something that is no white space at both ends of its value.
proof fn lemma_line(v: BuildVarsView, key: Seq<char>, value: Seq<char>)
    requires
        !key.contains('='),
        key.len() > 0,
        key[0] != '#',
        text::trimmed(key) == key,
        !text::is_space(key[0]),
        value.len() > 0,
        !text::is_space(value[0]),
        !text::is_space(value.last()),
    ensures
        after_line(v, key + seq!['='] + value) == Some(with_var(v, key, unquoted(value))),
{
    let line = key + seq!['='] + value;
    assert(line[0] == key[0]);
    assert(line.last() == value.last());
    assert(text::trimmed(line) == line);
    assert forall|k: int| 0 <= k < key.len() implies line[k] != '=' by {
        assert(key.contains(key[k]));
    }
    text::lemma_reach_is(line, '=', key.len() as int);
    assert(line.take(key.len() as int) =~= key);
    assert(line.skip(key.len() as int + 1) =~= value);
    assert(text::trimmed(value) == value);
}

/// A line with a key and no value.
proof fn lemma_key_alone(v: BuildVarsView, key: Seq<char>)
    requires
        !key.contains('='),
        key.len() > 0,
        key[0] != '#',
        text::trimmed(key) == key,
        !text::is_space(key[0]),
    ensures
        after_line(v, key + seq!['=']) == Some(v),
        after_line(v, key) is None,
{
    let line = key + seq!['='];
    assert(line[0] == key[0]);
    assert(line.last() == '=');
    assert(text::trimmed(line) == line);
    assert forall|k: int| 0 <= k < key.len() implies line[k] != '=' && key[k] != '=' by {
        assert(key.contains(key[k]));
    }
    text::lemma_reach_is(line, '=', key.len() as int);
    text::lemma_reach_is(key, '=', key.len() as int);
    assert(line.take(key.len() as int) =~= key);
    assert(line.skip(key.len() as int + 1) =~= Seq::empty());
}

/// Each key sets its own value and leaves the others as they are; a short name
/// means the same as the long one, and any other key means nothing.
pub proof fn law_key_sets_its_own_value(v: BuildVarsView, key: Seq<char>, value: Seq<char>)
    requires
        value.len() > 0,
    ensures
        ({
            let w = with_var(v, key, value);
            let gateway = key == "POLIVPN_DEFAULT_GATEWAY"@;
            let port = key == "POLIVPN_DEFAULT_PORT"@;
            let vpn_type = key == "POLIVPN_VPN_TYPE"@ || key == "VPN_TYPE"@;
            let title = key == "POLIVPN_TITLE"@ || key == "TITLE"@;
            let logo = key == "POLIVPN_SHOW_LOGO"@ || key == "SHOW_LOGO"@;
            &&& gateway ==> w.gateway == Some(value)
            &&& port ==> w.port == Some(value)
            &&& vpn_type ==> w.vpn_type == Some(value)
            &&& title ==> w.title == Some(value)
            &&& logo ==> w.show_logo == Some(value)
            &&& !gateway ==> w.gateway == v.gateway
            &&& !port ==> w.port == v.port
            &&& !vpn_type ==> w.vpn_type == v.vpn_type
            &&& !title ==> w.title == v.title
            &&& !logo ==> w.show_logo == v.show_logo
        }),
{
    reveal_strlit("POLIVPN_DEFAULT_GATEWAY");
    reveal_strlit("POLIVPN_DEFAULT_PORT");
    reveal_strlit("POLIVPN_VPN_TYPE");
    reveal_strlit("VPN_TYPE");
    reveal_strlit("POLIVPN_TITLE");
    reveal_strlit("TITLE");
    reveal_strlit("POLIVPN_SHOW_LOGO");
    reveal_strlit("SHOW_LOGO");
    assert("VPN_TYPE"@.len() == 8 && "TITLE"@.len() == 5 && "SHOW_LOGO"@.len() == 9);
    assert("POLIVPN_VPN_TYPE"@.len() == 16 && "POLIVPN_TITLE"@.len() == 13);
    assert("POLIVPN_SHOW_LOGO"@.len() == 17 && "POLIVPN_DEFAULT_PORT"@.len() == 20);
    assert("POLIVPN_DEFAULT_GATEWAY"@.len() == 23);
}

/// A later line is read with what the earlier ones have set; one line that is
/// neither empty, a comment nor a setting spoils the file, and a file without
/// any setting counts as none.
pub proof fn law_lines_are_read_in_order(lines: Seq<Seq<char>>, line: Seq<char>, contents: Seq<char>)
    ensures
        after_lines(lines) matches Some(v) ==> after_lines(lines.push(line)) == after_line(v, line),
        after_lines(lines) is None ==> after_lines(lines.push(line)) is None,
        vars_in(contents) matches Some(v) ==> after_lines(text::pieces(contents, '\n')) == Some(v)
            && v != no_vars(),
        after_lines(text::pieces(contents, '\n')) matches Some(v) ==> (v != no_vars() ==> vars_in(
            contents,
        ) == Some(v)),
{
    assert(lines.push(line).drop_last() =~= lines);
}

/// A later file outranks an earlier one, value by value.
pub proof fn law_later_file_wins(a: BuildVarsView, b: BuildVarsView)
    ensures
        b.gateway is Some ==> merged(a, b).gateway == b.gateway,
        b.gateway is None ==> merged(a, b).gateway == a.gateway,
        b.port is Some ==> merged(a, b).port == b.port,
        b.port is None ==> merged(a, b).port == a.port,
        b.vpn_type is Some ==> merged(a, b).vpn_type == b.vpn_type,
        b.vpn_type is None ==> merged(a, b).vpn_type == a.vpn_type,
        b.title is Some ==> merged(a, b).title == b.title,
        b.title is None ==> merged(a, b).title == a.title,
        b.show_logo is Some ==> merged(a, b).show_logo == b.show_logo,
        b.show_logo is None ==> merged(a, b).show_logo == a.show_logo,
{
}

/// The compiler is told each value that is set, once and under its name, and
/// nothing else.
pub proof fn law_compiler_is_told(v: BuildVarsView, value: Seq<char>)
    ensures
        v.gateway == Some(value) ==> compiler_lines(v).contains(
            "cargo:rustc-env="@ + "POLIVPN_DEFAULT_GATEWAY"@ + "="@ + value,
        ),
        v.port == Some(value) ==> compiler_lines(v).contains(
            "cargo:rustc-env="@ + "POLIVPN_DEFAULT_PORT"@ + "="@ + value,
        ),
        v.vpn_type == Some(value) ==> compiler_lines(v).contains(
            "cargo:rustc-env="@ + "POLIVPN_VPN_TYPE"@ + "="@ + value,
        ),
        v.title == Some(value) ==> compiler_lines(v).contains(
            "cargo:rustc-env="@ + "POLIVPN_TITLE"@ + "="@ + value,
        ),
        v.show_logo == Some(value) ==> compiler_lines(v).contains(
            "cargo:rustc-env="@ + "POLIVPN_SHOW_LOGO"@ + "="@ + value,
        ),
        compiler_lines(v).len() == is_set(v.gateway) + is_set(v.port) + is_set(v.vpn_type)
            + is_set(v.title) + is_set(v.show_logo),
{
    let a = opt_line("POLIVPN_DEFAULT_GATEWAY"@, v.gateway);
    let b = opt_line("POLIVPN_DEFAULT_PORT"@, v.port);
    let c = opt_line("POLIVPN_VPN_TYPE"@, v.vpn_type);
    let d = opt_line("POLIVPN_TITLE"@, v.title);
    let all = compiler_lines(v);
    if v.gateway is Some {
        assert(all[0] == a[0]);
    }
    if v.port is Some {
        assert(all[a.len() as int] == b[0]);
    }
    if v.vpn_type is Some {
        assert(all[(a.len() + b.len()) as int] == c[0]);
    }
    if v.title is Some {
        assert(all[(a.len() + b.len() + c.len()) as int] == d[0]);
    }
    if v.show_logo is Some {
        assert(all[(a.len() + b.len() + c.len() + d.len()) as int] == compiler_line(
            "POLIVPN_SHOW_LOGO"@,
            v.show_logo->0,
        ));
    }
}

/// One for a value that is set, none for one that is not.
pub open spec fn is_set(value: Option<Seq<char>>) -> int {
    if value is Some {
        1
    } else {
        0
    }
}

} // verus!
