//! Commands of the operating system that change its network settings, and
//! what their outcome means.

use vstd::prelude::*;
use vstd::slice::slice_subrange;
use vstd::slice::slice_to_vec;
use vstd::string::*;

use crate::bytes;
use crate::numbers;
use crate::text;

verus! {

// ---------------------------------------------------------------------------
// Commands
// ---------------------------------------------------------------------------

/// A command to run, and what it is for.
pub struct NetCommand {
    pub operation: String,
    pub program: String,
    pub args: Vec<String>,
}

/// A command without its representation.
#[verifier::ext_equal]
pub struct NetCommandView {
    pub operation: Seq<char>,
    pub program: Seq<char>,
    pub args: Seq<Seq<char>>,
}

impl View for NetCommand {
    type V = NetCommandView;

    open spec fn view(&self) -> NetCommandView {
        NetCommandView {
            operation: self.operation@,
            program: self.program@,
            args: text::str_views(self.args@),
        }
    }
}

/// The commands of a list.
pub open spec fn command_views(v: Seq<NetCommand>) -> Seq<NetCommandView> {
    v.map_values(|x: NetCommand| x@)
}

/// A `netsh` command.
pub open spec fn netsh(operation: Seq<char>, args: Seq<Seq<char>>) -> NetCommandView {
    NetCommandView { operation, program: "netsh"@, args }
}

/// A PowerShell script.
pub open spec fn powershell(operation: Seq<char>, script: Seq<char>) -> NetCommandView {
    NetCommandView {
        operation,
        program: "powershell"@,
        args: seq![
            "-NoProfile"@,
            "-NonInteractive"@,
            "-ExecutionPolicy"@,
            "Bypass"@,
            "-Command"@,
            script,
        ],
    }
}

/// The texts of a list of references.
pub open spec fn ref_views(v: Seq<&str>) -> Seq<Seq<char>> {
    v.map_values(|x: &str| x@)
}

/// The texts as a list of strings.
pub(crate) fn strings(list: &[&str]) -> (r: Vec<String>)
    ensures
        text::str_views(r@) == ref_views(list@),
{
    let mut out: Vec<String> = Vec::new();
    let mut i: usize = 0;
    while i < list.len()
        invariant
            i <= list@.len(),
            text::str_views(out@) =~= ref_views(list@).take(i as int),
        decreases list.len() - i,
    {
        let ghost had = text::str_views(out@);
        out.push(list[i].to_string());
        proof {
            assert(text::str_views(out@) =~= had.push(list@[i as int]@));
        }
        i = i + 1;
    }
    proof {
        assert(ref_views(list@).take(i as int) =~= ref_views(list@));
    }
    out
}

/// A `netsh` command.
pub(crate) fn make_netsh(operation: String, args: &[&str]) -> (r: NetCommand)
    ensures
        r@ == netsh(operation@, ref_views(args@)),
{
    NetCommand { operation, program: "netsh".to_string(), args: strings(args) }
}

/// A PowerShell script.
pub(crate) fn make_powershell(operation: String, script: &str) -> (r: NetCommand)
    ensures
        r@ == powershell(operation@, script@),
{
    let args: [&str; 6] = [
        "-NoProfile",
        "-NonInteractive",
        "-ExecutionPolicy",
        "Bypass",
        "-Command",
        script,
    ];
    let r = NetCommand {
        operation,
        program: "powershell".to_string(),
        args: strings(args.as_slice()),
    };
    proof {
        assert(r@.args =~= powershell(operation@, script@).args);
    }
    r
}

// ---------------------------------------------------------------------------
// Outcomes
// ---------------------------------------------------------------------------

/// What came of running a command.
pub enum CmdOutcome {
    /// It could not be started, with the words of the error.
    NotStarted(String),
    /// It ended; a command that was killed has no code.
    Exited { success: bool, code: Option<i32>, stdout: Vec<u8>, stderr: Vec<u8> },
}

/// The outcome without its representation.
pub enum CmdOutcomeView {
    NotStarted(Seq<char>),
    Exited { success: bool, code: Option<i32>, stdout: Seq<u8>, stderr: Seq<u8> },
}

impl View for CmdOutcome {
    type V = CmdOutcomeView;

    open spec fn view(&self) -> CmdOutcomeView {
        match self {
            CmdOutcome::NotStarted(e) => CmdOutcomeView::NotStarted(e@),
            CmdOutcome::Exited { success, code, stdout, stderr } => CmdOutcomeView::Exited {
                success: *success,
                code: *code,
                stdout: stdout@,
                stderr: stderr@,
            },
        }
    }
}

/// The messages for the user, and what the command printed or why it failed.
pub struct CmdReport {
    pub messages: Vec<String>,
    pub result: Result<String, String>,
}

/// The report without its representation.
#[verifier::ext_equal]
pub struct CmdReportView {
    pub messages: Seq<Seq<char>>,
    pub result: Result<Seq<char>, Seq<char>>,
}

/// A result without its representation.
pub open spec fn result_view(r: Result<String, String>) -> Result<Seq<char>, Seq<char>> {
    match r {
        Ok(s) => Ok(s@),
        Err(s) => Err(s@),
    }
}

impl View for CmdReport {
    type V = CmdReportView;

    open spec fn view(&self) -> CmdReportView {
        CmdReportView {
            messages: text::str_views(self.messages@),
            result: result_view(self.result),
        }
    }
}

/// The message in front of a command.
pub open spec fn start_message(operation: Seq<char>) -> Seq<char> {
    "[net] "@ + operation
}

/// The message in front of a command.
pub fn command_started(operation: &str) -> (r: String)
    ensures
        r@ == start_message(operation@),
{
    text::cat2("[net] ", operation)
}

/// The text without white space.
pub open spec fn squeezed(s: Seq<char>) -> Seq<char>
    decreases s.len(),
{
    if s.len() == 0 {
        s
    } else if text::is_space(s.last()) {
        squeezed(s.drop_last())
    } else {
        squeezed(s.drop_last()).push(s.last())
    }
}

/// A full stop or an exclamation mark.
pub open spec fn is_mark(c: char) -> bool {
    c == '.' || c == '!'
}

/// The text without leading marks.
pub open spec fn after_marks(s: Seq<char>) -> Seq<char>
    decreases s.len(),
{
    if s.len() > 0 && is_mark(s[0]) {
        after_marks(s.skip(1))
    } else {
        s
    }
}

/// The text without trailing marks.
pub open spec fn before_marks(s: Seq<char>) -> Seq<char>
    decreases s.len(),
{
    if s.len() > 0 && is_mark(s.last()) {
        before_marks(s.drop_last())
    } else {
        s
    }
}

/// The output of a command that succeeded says no more than that.
pub open spec fn is_noise(s: Seq<char>) -> bool {
    let t = text::lowered(before_marks(after_marks(squeezed(s))));
    t.len() == 0 || t == "ok"@
}

/// How many characters of an output are shown.
pub const OUTPUT_PREVIEW: usize = 280;

/// An output on one line.
pub open spec fn output_line(t: Seq<char>) -> Seq<char> {
    let shown = if t.len() > OUTPUT_PREVIEW {
        t.take(OUTPUT_PREVIEW as int).push('…')
    } else {
        t
    };
    text::joined(text::words_of(shown), " "@)
}

/// The messages after a command that succeeded: its output, if it says
/// something.
pub open spec fn success_messages(operation: Seq<char>, stdout: Seq<char>) -> Seq<Seq<char>> {
    let t = text::trimmed(stdout);
    if t.len() == 0 || is_noise(t) {
        Seq::empty()
    } else {
        seq!["[net] "@ + operation + ": "@ + output_line(t)]
    }
}

/// The output, in lower case, says that what was to be added is there.
pub open spec fn says_exists(lower: Seq<char>) -> bool {
    ||| text::has_part(lower, "already exists"@)
    ||| text::has_part(lower, "the object already exists"@)
    ||| text::has_part(lower, "already present"@)
    ||| text::has_part(lower, "esiste già"@)
    ||| text::has_part(lower, "gia esiste"@)
    ||| text::has_part(lower, "oggetto"@) && text::has_part(lower, "esiste"@)
}

/// The failure, in lower case, says that what was to be removed is not there.
pub open spec fn says_missing(lower: Seq<char>) -> bool {
    ||| text::has_part(lower, "not found"@)
    ||| text::has_part(lower, "non è stato trovato"@)
    ||| text::has_part(lower, "non trovato"@)
    ||| text::has_part(lower, "could not find"@)
}

/// The text, or a placeholder if it is empty.
pub open spec fn or_empty(s: Seq<char>) -> Seq<char> {
    if s.len() == 0 {
        "<vuoto>"@
    } else {
        s
    }
}

/// The report on a command that ended, with its output as text and with the
/// two outputs in lower case.
pub open spec fn exit_report(
    operation: Seq<char>,
    success: bool,
    code: Option<i32>,
    stdout: Seq<char>,
    stderr: Seq<char>,
    lower: Seq<char>,
) -> CmdReportView {
    let failure = operation + ": uscita "@ + numbers::signed_decimal(
        match code {
            Some(c) => c as int,
            None => -1,
        },
    ) + " — stderr="@ + or_empty(stderr) + " stdout="@ + or_empty(stdout);
    if success {
        CmdReportView { messages: success_messages(operation, stdout), result: Ok(stdout) }
    } else if says_exists(lower) {
        CmdReportView {
            messages: seq!["[net] Route già presente (operazione ignorata): "@ + operation],
            result: Ok(stdout),
        }
    } else {
        CmdReportView { messages: seq!["[net] Errore: "@ + failure], result: Err(failure) }
    }
}

/// The report on what came of a command.
pub open spec fn cmd_report(operation: Seq<char>, outcome: CmdOutcomeView) -> CmdReportView {
    match outcome {
        CmdOutcomeView::NotStarted(e) => CmdReportView {
            messages: Seq::empty(),
            result: Err(operation + ": avvio comando fallito: "@ + e),
        },
        CmdOutcomeView::Exited { success, code, stdout, stderr } => {
            let out = text::trimmed(bytes::lossy(stdout));
            let err = text::trimmed(bytes::lossy(stderr));
            exit_report(
                operation,
                success,
                code,
                out,
                err,
                bytes::unicode_lower(err + " "@ + out),
            )
        },
    }
}

/// The text without white space.
fn squeeze(cs: &[char]) -> (r: Vec<char>)
    ensures
        r@ == squeezed(cs@),
{
    let mut out: Vec<char> = Vec::new();
    let mut i: usize = 0;
    proof {
        assert(cs@.take(0) =~= Seq::empty());
    }
    while i < cs.len()
        invariant
            i <= cs@.len(),
            out@ == squeezed(cs@.take(i as int)),
        decreases cs.len() - i,
    {
        proof {
            assert(cs@.take(i + 1).drop_last() =~= cs@.take(i as int));
            assert(cs@.take(i + 1).last() == cs@[i as int]);
        }
        if !text::is_white(cs[i]) {
            out.push(cs[i]);
        }
        i = i + 1;
    }
    proof {
        assert(cs@.take(i as int) =~= cs@);
    }
    out
}

/// The text without marks at either end.
fn trim_marks(cs: &[char]) -> (r: &[char])
    ensures
        r@ == before_marks(after_marks(cs@)),
{
    let mut i: usize = 0;
    proof {
        assert(cs@.skip(0) =~= cs@);
    }
    while i < cs.len() && (cs[i] == '.' || cs[i] == '!')
        invariant
            i <= cs@.len(),
            after_marks(cs@) == after_marks(cs@.skip(i as int)),
        decreases cs.len() - i,
    {
        proof {
            assert(cs@.skip(i as int).skip(1) =~= cs@.skip(i + 1));
        }
        i = i + 1;
    }
    let rest = slice_subrange(cs, i, cs.len());
    proof {
        assert(rest@ =~= cs@.skip(i as int));
    }
    let mut n: usize = rest.len();
    proof {
        assert(rest@.take(n as int) =~= rest@);
    }
    while n > 0 && (rest[n - 1] == '.' || rest[n - 1] == '!')
        invariant
            n <= rest@.len(),
            before_marks(rest@) == before_marks(rest@.take(n as int)),
        decreases n,
    {
        proof {
            assert(rest@.take(n as int).drop_last() =~= rest@.take(n - 1));
        }
        n = n - 1;
    }
    proof {
        assert(rest@.subrange(0, n as int) =~= rest@.take(n as int));
    }
    slice_subrange(rest, 0, n)
}

/// Whether the output of a command that succeeded says no more than that.
pub fn is_noise_success_stdout(s: &str) -> (r: bool)
    ensures
        r == is_noise(s@),
{
    let cs = text::to_chars(s);
    let tight = squeeze(cs.as_slice());
    let t = text::lower(trim_marks(tight.as_slice()));
    t.len() == 0 || text::same_text(t.as_slice(), "ok")
}

/// The message on the output of a command that succeeded, if it says
/// something.
pub fn log_success_stdout(operation: &str, stdout: &str) -> (r: Vec<String>)
    ensures
        text::str_views(r@) == success_messages(operation@, stdout@),
{
    let mut out: Vec<String> = Vec::new();
    let cs = text::to_chars(stdout);
    let t = text::trim(cs.as_slice());
    if t.len() == 0 || is_noise_success_stdout(text::to_text(t).as_str()) {
        proof {
            assert(text::str_views(out@) =~= Seq::empty());
        }
        return out;
    }
    let mut shown: Vec<char> = slice_to_vec(text::take_chars(t, OUTPUT_PREVIEW));
    if t.len() > OUTPUT_PREVIEW {
        shown.push('…');
    }
    let words = text::split_words(shown.as_slice());
    let line = text::join(&words, " ");
    out.push(text::cat4("[net] ", operation, ": ", line.as_str()));
    proof {
        assert(text::str_views(out@) =~= success_messages(operation@, stdout@));
    }
    out
}

/// Whether the output, in lower case, says that what was to be added is
/// there.
pub fn is_route_already_exists(lower: &str) -> (r: bool)
    ensures
        r == says_exists(lower@),
{
    let cs = text::to_chars(lower);
    let s = cs.as_slice();
    text::contains_text(s, "already exists") || text::contains_text(
        s,
        "the object already exists",
    ) || text::contains_text(s, "already present") || text::contains_text(s, "esiste già")
        || text::contains_text(s, "gia esiste") || (text::contains_text(s, "oggetto")
        && text::contains_text(s, "esiste"))
}

/// Whether a failure says that what was to be removed is not there.
pub fn is_not_found_failure(msg: &str) -> (r: bool)
    ensures
        r == says_missing(bytes::unicode_lower(msg@)),
{
    let lower = bytes::text_lower(msg);
    let cs = text::to_chars(lower.as_str());
    let s = cs.as_slice();
    text::contains_text(s, "not found") || text::contains_text(s, "non è stato trovato")
        || text::contains_text(s, "non trovato") || text::contains_text(s, "could not find")
}

/// The text, or a placeholder if it is empty.
fn shown_or_empty(s: &str) -> (r: String)
    ensures
        r@ == or_empty(s@),
{
    if s.is_empty() {
        "<vuoto>".to_string()
    } else {
        s.to_string()
    }
}

/// The report on a command that ended.
pub fn report_exit(
    operation: &str,
    success: bool,
    code: Option<i32>,
    stdout: String,
    stderr: &str,
    lower: &str,
) -> (r: CmdReport)
    ensures
        r@ == exit_report(operation@, success, code, stdout@, stderr@, lower@),
{
    if success {
        return CmdReport {
            messages: log_success_stdout(operation, stdout.as_str()),
            result: Ok(stdout),
        };
    }
    let mut messages: Vec<String> = Vec::new();
    if is_route_already_exists(lower) {
        messages.push(text::cat2("[net] Route già presente (operazione ignorata): ", operation));
        proof {
            assert(text::str_views(messages@) =~= seq![
                "[net] Route già presente (operazione ignorata): "@ + operation@,
            ]);
        }
        return CmdReport { messages, result: Ok(stdout) };
    }
    let number: i32 = match code {
        Some(c) => c,
        None => -1,
    };
    let mut failure = text::cat4(
        operation,
        ": uscita ",
        numbers::signed_text(number).as_str(),
        " — stderr=",
    );
    failure.append(shown_or_empty(stderr).as_str());
    failure.append(" stdout=");
    failure.append(shown_or_empty(stdout.as_str()).as_str());
    messages.push(text::cat2("[net] Errore: ", failure.as_str()));
    proof {
        assert(text::str_views(messages@) =~= seq!["[net] Errore: "@ + failure@]);
    }
    CmdReport { messages, result: Err(failure) }
}

/// The report on what came of a command.
pub fn run_cmd(operation: &str, outcome: CmdOutcome) -> (r: CmdReport)
    ensures
        r@ == cmd_report(operation@, outcome@),
{
    match outcome {
        CmdOutcome::NotStarted(e) => {
            let messages: Vec<String> = Vec::new();
            proof {
                assert(text::str_views(messages@) =~= Seq::empty());
            }
            CmdReport {
                messages,
                result: Err(text::cat3(operation, ": avvio comando fallito: ", e.as_str())),
            }
        },
        CmdOutcome::Exited { success, code, stdout, stderr } => {
            let out = text::trim_text(bytes::lossy_text(stdout.as_slice()).as_str());
            let err = text::trim_text(bytes::lossy_text(stderr.as_slice()).as_str());
            let both = text::cat3(err.as_str(), " ", out.as_str());
            let lower = bytes::text_lower(both.as_str());
            report_exit(operation, success, code, out, err.as_str(), lower.as_str())
        },
    }
}

// ---------------------------------------------------------------------------
// Laws
// ---------------------------------------------------------------------------

/// A command that succeeds is never reported as failed, and hands on what it
/// printed.
pub proof fn law_success_is_reported(
    operation: Seq<char>,
    code: Option<i32>,
    stdout: Seq<u8>,
    stderr: Seq<u8>,
)
    ensures
        cmd_report(
            operation,
            CmdOutcomeView::Exited { success: true, code, stdout, stderr },
        ).result == Ok::<Seq<char>, Seq<char>>(text::trimmed(bytes::lossy(stdout))),
{
}

/// A failure is reported with the operation in front.
pub proof fn law_failure_names_operation(operation: Seq<char>, outcome: CmdOutcomeView)
    ensures
        cmd_report(operation, outcome).result matches Err(m) ==> text::has_prefix(m, operation),
{
    if let Err(m) = cmd_report(operation, outcome).result {
        assert(m.subrange(0, operation.len() as int) =~= operation);
    }
}

/// A failure is one unless the system says that the thing exists already; then
/// it counts as done. A failure tells the code, or -1 if there is none, and
/// what the command wrote. One that did not start fails with the words of the
/// error.
pub proof fn law_failure_is_reported(
    operation: Seq<char>,
    code: Option<i32>,
    stdout: Seq<char>,
    stderr: Seq<char>,
    lower: Seq<char>,
    e: Seq<char>,
)
    ensures
        ({
            let r = exit_report(operation, false, code, stdout, stderr, lower);
            let number = match code {
                Some(c) => c as int,
                None => -1int,
            };
            let why = operation + ": uscita "@ + numbers::signed_decimal(number) + " — stderr="@
                + (if stderr.len() == 0 {
                "<vuoto>"@
            } else {
                stderr
            }) + " stdout="@ + (if stdout.len() == 0 {
                "<vuoto>"@
            } else {
                stdout
            });
            &&& says_exists(lower) ==> r.result == Ok::<Seq<char>, Seq<char>>(stdout)
            &&& !says_exists(lower) ==> r.result == Err::<Seq<char>, Seq<char>>(why)
            &&& r.messages.len() == 1
            &&& !says_exists(lower) ==> r.messages[0] == "[net] Errore: "@ + why
            &&& cmd_report(operation, CmdOutcomeView::NotStarted(e)).result == Err::<
                Seq<char>,
                Seq<char>,
            >(operation + ": avvio comando fallito: "@ + e)
        }),
{
}

/// The system says that a thing exists, or that it is missing, in one of the
/// wordings that it has for this, wherever they stand in what it says.
pub proof fn law_wordings_are_known(before: Seq<char>, rest: Seq<char>)
    ensures
        says_exists(before + "already exists"@ + rest),
        says_exists(before + "already present"@ + rest),
        says_exists(before + "esiste già"@ + rest),
        says_exists(before + "gia esiste"@ + rest),
        says_missing(before + "not found"@ + rest),
        says_missing(before + "non è stato trovato"@ + rest),
        says_missing(before + "non trovato"@ + rest),
        says_missing(before + "could not find"@ + rest),
        text::has_part(before, "oggetto"@) && text::has_part(before, "esiste"@) ==> says_exists(
            before,
        ),
{
    lemma_wording(before, "already exists"@, rest);
    lemma_wording(before, "already present"@, rest);
    lemma_wording(before, "esiste già"@, rest);
    lemma_wording(before, "gia esiste"@, rest);
    lemma_wording(before, "not found"@, rest);
    lemma_wording(before, "non è stato trovato"@, rest);
    lemma_wording(before, "non trovato"@, rest);
    lemma_wording(before, "could not find"@, rest);
}

/// A wording is found where it stands.
proof fn lemma_wording(before: Seq<char>, words: Seq<char>, rest: Seq<char>)
    ensures
        text::has_part(before + words + rest, words),
{
    let s = before + words + rest;
    let at = before.len() as int;
    assert(s.subrange(at, at + words.len()) =~= words);
    assert(text::occurs_at(s, words, at));
}

/// What a command printed is told in one line after the operation, its words
/// with one space between two of them, unless it printed nothing of note; of
/// a long output the first 280 characters are told.
pub proof fn law_output_is_told(operation: Seq<char>, stdout: Seq<char>)
    ensures
        ({
            let t = text::trimmed(stdout);
            let told = success_messages(operation, stdout);
            &&& t.len() == 0 || is_noise(t) ==> told.len() == 0
            &&& 0 < t.len() <= 280 && !is_noise(t) ==> told == seq![
                "[net] "@ + operation + ": "@ + text::joined(text::words_of(t), " "@),
            ]
            &&& t.len() > 280 && !is_noise(t) ==> told == seq![
                "[net] "@ + operation + ": "@ + text::joined(
                    text::words_of(t.take(280).push('…')),
                    " "@,
                ),
            ]
        }),
{
}

/// A script is handed to PowerShell as one argument behind the switches; a
/// command of `netsh` has its arguments as they are.
pub proof fn law_commands_are_made(operation: Seq<char>, script: Seq<char>, args: Seq<Seq<char>>)
    ensures
        powershell(operation, script).operation == operation,
        powershell(operation, script).program == "powershell"@,
        powershell(operation, script).args == seq![
            "-NoProfile"@,
            "-NonInteractive"@,
            "-ExecutionPolicy"@,
            "Bypass"@,
            "-Command"@,
            script,
        ],
        netsh(operation, args).operation == operation,
        netsh(operation, args).program == "netsh"@,
        netsh(operation, args).args == args,
{
}

} // verus!
