//! Routes that a privileged helper process sets, and the commands that the
//! helper runs for them.

use vstd::prelude::*;
use vstd::string::*;

use crate::bytes;
use crate::net_command;
use crate::net_command::{CmdOutcome, CmdOutcomeView};
use crate::netmask;
use crate::numbers;
use crate::text;

verus! {

/// A process to run.
pub struct ProcessCall {
    pub program: String,
    pub args: Vec<String>,
}

/// A process without its representation.
#[verifier::ext_equal]
pub struct ProcessCallView {
    pub program: Seq<char>,
    pub args: Seq<Seq<char>>,
}

impl View for ProcessCall {
    type V = ProcessCallView;

    open spec fn view(&self) -> ProcessCallView {
        ProcessCallView { program: self.program@, args: text::str_views(self.args@) }
    }
}

/// A process with these arguments.
fn make_call(program: &str, args: &[&str]) -> (r: ProcessCall)
    ensures
        r@ == (ProcessCallView { program: program@, args: net_command::ref_views(args@) }),
{
    ProcessCall { program: program.to_string(), args: net_command::strings(args) }
}

// ---------------------------------------------------------------------------
// The side that asks
// ---------------------------------------------------------------------------

/// Sets routes through the helper at a path.
pub struct RouteManager {
    pub helper_path: String,
}

/// The call of the helper that adds a route.
pub open spec fn helper_adds(
    helper: Seq<char>,
    network: Seq<char>,
    netmask: Seq<char>,
    gateway: Seq<char>,
) -> ProcessCallView {
    ProcessCallView { program: helper, args: seq!["add-route"@, network, netmask, gateway] }
}

/// The call of the helper that removes a route.
pub open spec fn helper_removes(helper: Seq<char>, network: Seq<char>, netmask: Seq<char>)
    -> ProcessCallView {
    ProcessCallView { program: helper, args: seq!["del-route"@, network, netmask] }
}

impl RouteManager {
    /// Routes through the helper at the path.
    pub fn new(helper_path: &str) -> (r: Self)
        ensures
            r.helper_path@ == helper_path@,
    {
        RouteManager { helper_path: helper_path.to_string() }
    }

    /// The call of the helper that adds a route.
    pub fn add_route(&self, network: &str, netmask: &str, gateway: &str) -> (r: ProcessCall)
        ensures
            r@ == helper_adds(self.helper_path@, network@, netmask@, gateway@),
    {
        let args: [&str; 4] = ["add-route", network, netmask, gateway];
        proof {
            assert(net_command::ref_views(args@) =~= seq![
                "add-route"@,
                network@,
                netmask@,
                gateway@,
            ]);
        }
        make_call(self.helper_path.as_str(), args.as_slice())
    }

    /// The call of the helper that removes a route.
    pub fn del_route(&self, network: &str, netmask: &str) -> (r: ProcessCall)
        ensures
            r@ == helper_removes(self.helper_path@, network@, netmask@),
    {
        let args: [&str; 3] = ["del-route", network, netmask];
        proof {
            assert(net_command::ref_views(args@) =~= seq!["del-route"@, network@, netmask@]);
        }
        make_call(self.helper_path.as_str(), args.as_slice())
    }
}

/// What came of calling the helper: it fails with what it printed on its
/// error output.
pub open spec fn helper_result(outcome: CmdOutcomeView) -> Result<(), Seq<char>> {
    match outcome {
        CmdOutcomeView::NotStarted(e) => Err("Failed to spawn vpn-helper: "@ + e),
        CmdOutcomeView::Exited { success, stderr, .. } => if success {
            Ok(())
        } else {
            Err(bytes::lossy(stderr))
        },
    }
}

/// The result `r` is the one wanted.
pub open spec fn is_unit_result(r: Result<(), String>, wanted: Result<(), Seq<char>>) -> bool {
    match (r, wanted) {
        (Ok(_), Ok(_)) => true,
        (Err(m), Err(w)) => m@ == w,
        _ => false,
    }
}

/// What came of calling the helper.
pub fn helper_finished(outcome: CmdOutcome) -> (r: Result<(), String>)
    ensures
        is_unit_result(r, helper_result(outcome@)),
{
    match outcome {
        CmdOutcome::NotStarted(e) => Err(text::cat2("Failed to spawn vpn-helper: ", e.as_str())),
        CmdOutcome::Exited { success, code: _, stdout: _, stderr } => {
            if success {
                Ok(())
            } else {
                Err(bytes::lossy_text(stderr.as_slice()))
            }
        },
    }
}

// ---------------------------------------------------------------------------
// The helper
// ---------------------------------------------------------------------------

/// The systems that the helper knows how to set routes on.
#[derive(Clone, Copy, PartialEq, Eq, Structural)]
pub enum Platform {
    MacOs,
    Windows,
    Other,
}

/// The mask can be counted for a system that wants a prefix length.
pub open spec fn mask_counts(platform: Platform, netmask: Seq<char>) -> bool {
    platform == Platform::MacOs ==> netmask::total_ones(text::pieces(netmask, '.')) <= 255
}

/// The network with its prefix length.
pub open spec fn counted_network(network: Seq<char>, netmask: Seq<char>) -> Seq<char> {
    network + "/"@ + numbers::decimal(netmask::total_ones(text::pieces(netmask, '.')))
}

/// The network with its prefix length.
fn network_with_length(network: &str, mask: &str) -> (r: String)
    requires
        netmask::total_ones(text::pieces(mask@, '.')) <= 255,
    ensures
        r@ == counted_network(network@, mask@),
{
    let bits: u8 = match netmask::count_mask_bits(mask) {
        Some(n) => n,
        None => 0,
    };
    text::cat3(network, "/", numbers::decimal_text(bits as u64).as_str())
}

/// The call that adds a route, where the system has one.
pub open spec fn route_addition(
    platform: Platform,
    network: Seq<char>,
    netmask: Seq<char>,
    gateway: Seq<char>,
) -> Option<ProcessCallView> {
    match platform {
        Platform::MacOs => Some(
            ProcessCallView {
                program: "route"@,
                args: seq!["-n"@, "add"@, counted_network(network, netmask), gateway],
            },
        ),
        Platform::Windows => Some(
            ProcessCallView {
                program: "route"@,
                args: seq!["add"@, network, "mask"@, netmask, gateway],
            },
        ),
        Platform::Other => None,
    }
}

/// The call that removes a route, where the system has one.
pub open spec fn route_removal(platform: Platform, network: Seq<char>, netmask: Seq<char>)
    -> Option<ProcessCallView> {
    match platform {
        Platform::MacOs => Some(
            ProcessCallView {
                program: "route"@,
                args: seq!["-n"@, "delete"@, counted_network(network, netmask)],
            },
        ),
        Platform::Windows => Some(
            ProcessCallView { program: "route"@, args: seq!["delete"@, network, "mask"@, netmask] },
        ),
        Platform::Other => None,
    }
}

/// What came of adding a route.
pub open spec fn addition_result(outcome: CmdOutcomeView) -> Result<(), Seq<char>> {
    match outcome {
        CmdOutcomeView::NotStarted(e) => Err("Failed to run route add: "@ + e),
        CmdOutcomeView::Exited { success, stderr, .. } => if success {
            Ok(())
        } else {
            Err("route add failed: "@ + bytes::lossy(stderr))
        },
    }
}

/// What came of removing a route: one that could not be removed is only
/// warned of.
pub open spec fn removal_result(outcome: CmdOutcomeView) -> Result<Option<Seq<char>>, Seq<char>> {
    match outcome {
        CmdOutcomeView::NotStarted(e) => Err("Failed to run route delete: "@ + e),
        CmdOutcomeView::Exited { success, stderr, .. } => if success {
            Ok(None)
        } else {
            Ok(Some("Warning: route delete failed: "@ + bytes::lossy(stderr)))
        },
    }
}

/// The command that adds a route, if the helper knows the system.
pub fn add_route(platform: Platform, network: &str, netmask: &str, gateway: &str) -> (r: Option<
    ProcessCall,
>)
    requires
        mask_counts(platform, netmask@),
    ensures
        match r {
            Some(c) => route_addition(platform, network@, netmask@, gateway@) == Some(c@),
            None => route_addition(platform, network@, netmask@, gateway@) is None,
        },
{
    match platform {
        Platform::MacOs => {
            let dest = network_with_length(network, netmask);
            let args: [&str; 4] = ["-n", "add", dest.as_str(), gateway];
            proof {
                assert(net_command::ref_views(args@) =~= seq!["-n"@, "add"@, dest@, gateway@]);
            }
            Some(make_call("route", args.as_slice()))
        },
        Platform::Windows => {
            let args: [&str; 5] = ["add", network, "mask", netmask, gateway];
            proof {
                assert(net_command::ref_views(args@) =~= seq![
                    "add"@,
                    network@,
                    "mask"@,
                    netmask@,
                    gateway@,
                ]);
            }
            Some(make_call("route", args.as_slice()))
        },
        Platform::Other => None,
    }
}

/// The command that removes a route, if the helper knows the system.
pub fn del_route(platform: Platform, network: &str, netmask: &str) -> (r: Option<ProcessCall>)
    requires
        mask_counts(platform, netmask@),
    ensures
        match r {
            Some(c) => route_removal(platform, network@, netmask@) == Some(c@),
            None => route_removal(platform, network@, netmask@) is None,
        },
{
    match platform {
        Platform::MacOs => {
            let dest = network_with_length(network, netmask);
            let args: [&str; 3] = ["-n", "delete", dest.as_str()];
            proof {
                assert(net_command::ref_views(args@) =~= seq!["-n"@, "delete"@, dest@]);
            }
            Some(make_call("route", args.as_slice()))
        },
        Platform::Windows => {
            let args: [&str; 4] = ["delete", network, "mask", netmask];
            proof {
                assert(net_command::ref_views(args@) =~= seq![
                    "delete"@,
                    network@,
                    "mask"@,
                    netmask@,
                ]);
            }
            Some(make_call("route", args.as_slice()))
        },
        Platform::Other => None,
    }
}

/// What came of adding a route.
pub fn route_added(outcome: CmdOutcome) -> (r: Result<(), String>)
    ensures
        is_unit_result(r, addition_result(outcome@)),
{
    match outcome {
        CmdOutcome::NotStarted(e) => Err(text::cat2("Failed to run route add: ", e.as_str())),
        CmdOutcome::Exited { success, code: _, stdout: _, stderr } => {
            if success {
                Ok(())
            } else {
                Err(
                    text::cat2(
                        "route add failed: ",
                        bytes::lossy_text(stderr.as_slice()).as_str(),
                    ),
                )
            }
        },
    }
}

/// What came of removing a route: a warning at most, once the command ran.
pub fn route_deleted(outcome: CmdOutcome) -> (r: Result<Option<String>, String>)
    ensures
        match r {
            Ok(w) => removal_result(outcome@) == Ok::<Option<Seq<char>>, Seq<char>>(
                text::opt_view(w),
            ),
            Err(m) => removal_result(outcome@) == Err::<Option<Seq<char>>, Seq<char>>(m@),
        },
{
    match outcome {
        CmdOutcome::NotStarted(e) => Err(text::cat2("Failed to run route delete: ", e.as_str())),
        CmdOutcome::Exited { success, code: _, stdout: _, stderr } => {
            if success {
                Ok(None)
            } else {
                Ok(
                    Some(
                        text::cat2(
                            "Warning: route delete failed: ",
                            bytes::lossy_text(stderr.as_slice()).as_str(),
                        ),
                    ),
                )
            }
        },
    }
}

// ---------------------------------------------------------------------------
// Laws
// ---------------------------------------------------------------------------

/// A route is added and removed by the same network and the same mask; the
/// gateway is what the addition has more.
pub proof fn law_route_is_taken_back(
    platform: Platform,
    network: Seq<char>,
    netmask: Seq<char>,
    gateway: Seq<char>,
)
    ensures
        platform == Platform::Windows ==> (route_addition(
            platform,
            network,
            netmask,
            gateway,
        ) matches Some(add) && route_removal(platform, network, netmask) matches Some(del)
            && add.program == "route"@ && del.program == "route"@ && add.args == seq![
            "add"@,
            network,
            "mask"@,
            netmask,
            gateway,
        ] && del.args == add.args.drop_last().update(0, "delete"@)),
        platform == Platform::MacOs ==> (route_addition(
            platform,
            network,
            netmask,
            gateway,
        ) matches Some(add) && route_removal(platform, network, netmask) matches Some(del)
            && add.program == "route"@ && del.program == "route"@ && add.args == seq![
            "-n"@,
            "add"@,
            network + "/"@ + numbers::decimal(netmask::total_ones(text::pieces(netmask, '.'))),
            gateway,
        ] && del.args == add.args.drop_last().update(1, "delete"@)),
        platform == Platform::Other ==> route_addition(platform, network, netmask, gateway) is None
            && route_removal(platform, network, netmask) is None,
{
    let w = seq!["add"@, network, "mask"@, netmask, gateway];
    assert(w.drop_last().update(0, "delete"@) =~= seq!["delete"@, network, "mask"@, netmask]);
    let m = seq!["-n"@, "add"@, counted_network(network, netmask), gateway];
    assert(m.drop_last().update(1, "delete"@) =~= seq![
        "-n"@,
        "delete"@,
        counted_network(network, netmask),
    ]);
}

/// The helper is told what to do first, then the network and the mask, and the
/// gateway of a route that is added.
pub proof fn law_helper_is_told(
    helper: Seq<char>,
    network: Seq<char>,
    netmask: Seq<char>,
    gateway: Seq<char>,
)
    ensures
        helper_adds(helper, network, netmask, gateway).program == helper,
        helper_removes(helper, network, netmask).program == helper,
        helper_adds(helper, network, netmask, gateway).args == seq![
            "add-route"@,
            network,
            netmask,
            gateway,
        ],
        helper_removes(helper, network, netmask).args == seq!["del-route"@, network, netmask],
{
}

/// A call that succeeds is a success. One that fails does so with what it wrote
/// to its error output, but that a route could not be removed is only warned
/// of. One that did not start fails with the words of the error.
pub proof fn law_calls_are_judged(code: Option<i32>, stdout: Seq<u8>, stderr: Seq<u8>, e: Seq<char>)
    ensures
        ({
            let good = CmdOutcomeView::Exited { success: true, code, stdout, stderr };
            let bad = CmdOutcomeView::Exited { success: false, code, stdout, stderr };
            let lost = CmdOutcomeView::NotStarted(e);
            let shown = bytes::lossy(stderr);
            &&& helper_result(good) is Ok && addition_result(good) is Ok
            &&& removal_result(good) == Ok::<Option<Seq<char>>, Seq<char>>(None)
            &&& helper_result(bad) == Err::<(), Seq<char>>(shown)
            &&& addition_result(bad) == Err::<(), Seq<char>>("route add failed: "@ + shown)
            &&& removal_result(bad) == Ok::<Option<Seq<char>>, Seq<char>>(
                Some("Warning: route delete failed: "@ + shown),
            )
            &&& helper_result(lost) == Err::<(), Seq<char>>("Failed to spawn vpn-helper: "@ + e)
            &&& addition_result(lost) == Err::<(), Seq<char>>("Failed to run route add: "@ + e)
            &&& removal_result(lost) == Err::<Option<Seq<char>>, Seq<char>>(
                "Failed to run route delete: "@ + e,
            )
        }),
{
}

} // verus!
