//! Routing of the host around the overlay: the commands that send all
//! internet-bound traffic into the TUN device (exit-node consumer), and the
//! commands that make this host an exit node (IP forwarding and NAT of the
//! SDN subnet). The caller runs the commands one at a time, as the steps
//! below direct, and turns their outcome into the routes or exit-node
//! state that were set up.
use vstd::prelude::*;

use crate::text::concat_strs;

verus! {

/// The operating system the client runs on.
#[derive(Clone, Copy, PartialEq, Eq, Debug, Structural)]
pub enum Platform {
    Linux,
    MacOs,
    Other,
}

/// A command to run: the program, its arguments, and whether its failure
/// fails the whole operation (otherwise it is ignored).
#[derive(Debug)]
pub struct Command {
    pub program: String,
    pub args: Vec<String>,
    pub must_succeed: bool,
}

/// The contents of a command.
pub struct CommandView {
    pub program: Seq<char>,
    pub args: Seq<Seq<char>>,
    pub must_succeed: bool,
}

impl View for Command {
    type V = CommandView;

    open spec fn view(&self) -> CommandView {
        CommandView {
            program: self.program@,
            args: self.args@.map_values(|a: String| a@),
            must_succeed: self.must_succeed,
        }
    }
}

/// The contents of a sequence of commands.
pub open spec fn commands_view(c: Seq<Command>) -> Seq<CommandView> {
    c.map_values(|x: Command| x@)
}

/// A command with its arguments.
pub open spec fn cmd(program: Seq<char>, args: Seq<Seq<char>>, must_succeed: bool) -> CommandView {
    CommandView { program, args, must_succeed }
}

/// The routes installed for an exit-node consumer.
#[derive(Debug)]
pub struct ConsumerRoutes {
    pub tun_dev: String,
}

/// What making this host an exit node changed.
#[derive(Debug)]
pub struct ExitNodeState {
    pub sdn_cidr: String,
    pub tun_dev: String,
    pub previous_ip_forward: Option<String>,
}

fn command(program: &str, args: Vec<String>, must_succeed: bool) -> (r: Command)
    ensures
        r.program@ == program@,
        r.args@ == args@,
        r.must_succeed == must_succeed,
{
    Command { program: program.to_owned(), args, must_succeed }
}

fn args2(a: &str, b: &str) -> (r: Vec<String>)
    ensures
        r@.map_values(|s: String| s@) == seq![a@, b@],
{
    let mut v: Vec<String> = Vec::new();
    v.push(a.to_owned());
    v.push(b.to_owned());
    assert(v@.map_values(|s: String| s@) =~= seq![a@, b@]);
    v
}

fn args3(a: &str, b: &str, c: &str) -> (r: Vec<String>)
    ensures
        r@.map_values(|s: String| s@) == seq![a@, b@, c@],
{
    let mut v: Vec<String> = Vec::new();
    v.push(a.to_owned());
    v.push(b.to_owned());
    v.push(c.to_owned());
    assert(v@.map_values(|s: String| s@) =~= seq![a@, b@, c@]);
    v
}

fn args4(a: &str, b: &str, c: &str, d: &str) -> (r: Vec<String>)
    ensures
        r@.map_values(|s: String| s@) == seq![a@, b@, c@, d@],
{
    let mut v: Vec<String> = Vec::new();
    v.push(a.to_owned());
    v.push(b.to_owned());
    v.push(c.to_owned());
    v.push(d.to_owned());
    assert(v@.map_values(|s: String| s@) =~= seq![a@, b@, c@, d@]);
    v
}

fn args5(a: &str, b: &str, c: &str, d: &str, e: &str) -> (r: Vec<String>)
    ensures
        r@.map_values(|s: String| s@) == seq![a@, b@, c@, d@, e@],
{
    let mut v: Vec<String> = Vec::new();
    v.push(a.to_owned());
    v.push(b.to_owned());
    v.push(c.to_owned());
    v.push(d.to_owned());
    v.push(e.to_owned());
    assert(v@.map_values(|s: String| s@) =~= seq![a@, b@, c@, d@, e@]);
    v
}

fn args6(a: &str, b: &str, c: &str, d: &str, e: &str, f: &str) -> (r: Vec<String>)
    ensures
        r@.map_values(|s: String| s@) == seq![a@, b@, c@, d@, e@, f@],
{
    let mut v: Vec<String> = Vec::new();
    v.push(a.to_owned());
    v.push(b.to_owned());
    v.push(c.to_owned());
    v.push(d.to_owned());
    v.push(e.to_owned());
    v.push(f.to_owned());
    assert(v@.map_values(|s: String| s@) =~= seq![a@, b@, c@, d@, e@, f@]);
    v
}

/// The commands that install the two "split default" routes 0.0.0.0/1 and
/// 128.0.0.0/1 through `tun`.
pub open spec fn consumer_routes(platform: Platform, tun: Seq<char>, add: bool) -> Seq<CommandView> {
    match platform {
        Platform::Linux => {
            let verb = if add {
                "add"@
            } else {
                "del"@
            };
            seq![
                cmd("ip"@, seq!["route"@, verb, "0.0.0.0/1"@, "dev"@, tun], add),
                cmd("ip"@, seq!["route"@, verb, "128.0.0.0/1"@, "dev"@, tun], add),
            ]
        },
        Platform::MacOs => {
            let verb = if add {
                "add"@
            } else {
                "delete"@
            };
            seq![
                cmd("route"@, seq!["-n"@, verb, "-net"@, "0.0.0.0/1"@, "-interface"@, tun], add),
                cmd("route"@, seq!["-n"@, verb, "-net"@, "128.0.0.0/1"@, "-interface"@, tun], add),
            ]
        },
        Platform::Other => Seq::empty(),
    }
}

/// The commands that funnel all internet-bound traffic into the TUN device
/// `tun_dev` (on other platforms the TUN default route does it: none).
pub fn enable_consumer(platform: Platform, tun_dev: &str) -> (r: Vec<Command>)
    ensures
        commands_view(r@) == consumer_routes(platform, tun_dev@, true),
{
    let mut out: Vec<Command> = Vec::new();
    match platform {
        Platform::Linux => {
            out.push(command("ip", args5("route", "add", "0.0.0.0/1", "dev", tun_dev), true));
            out.push(command("ip", args5("route", "add", "128.0.0.0/1", "dev", tun_dev), true));
        },
        Platform::MacOs => {
            out.push(command("route", args6("-n", "add", "-net", "0.0.0.0/1", "-interface", tun_dev), true));
            out.push(command("route", args6("-n", "add", "-net", "128.0.0.0/1", "-interface", tun_dev), true));
        },
        Platform::Other => {},
    }
    assert(commands_view(out@) =~= consumer_routes(platform, tun_dev@, true));
    out
}

/// The commands that remove the consumer routes; their failures are
/// ignored.
pub fn disable_consumer(platform: Platform, state: &ConsumerRoutes) -> (r: Vec<Command>)
    ensures
        commands_view(r@) == consumer_routes(platform, state.tun_dev@, false),
{
    let tun_dev = state.tun_dev.as_str();
    let mut out: Vec<Command> = Vec::new();
    match platform {
        Platform::Linux => {
            out.push(command("ip", args5("route", "del", "0.0.0.0/1", "dev", tun_dev), false));
            out.push(command("ip", args5("route", "del", "128.0.0.0/1", "dev", tun_dev), false));
        },
        Platform::MacOs => {
            out.push(command("route", args6("-n", "delete", "-net", "0.0.0.0/1", "-interface", tun_dev), false));
            out.push(command("route", args6("-n", "delete", "-net", "128.0.0.0/1", "-interface", tun_dev), false));
        },
        Platform::Other => {},
    }
    assert(commands_view(out@) =~= consumer_routes(platform, state.tun_dev@, false));
    out
}

/// The command whose output is the current IP forwarding setting.
pub fn ip_forward_query() -> (r: Command)
    ensures
        r@ == cmd("sysctl"@, seq!["-n"@, "net.ipv4.ip_forward"@], false),
{
    command("sysctl", args2("-n", "net.ipv4.ip_forward"), false)
}

/// The NAT rule for the SDN subnet.
pub open spec fn masquerade_rule(sdn_cidr: Seq<char>, tun: Seq<char>) -> Seq<char> {
    "ip saddr "@ + sdn_cidr + " oifname != \""@ + tun + "\" masquerade"@
}

/// The commands that make this host an exit node: IP forwarding on, and a
/// fresh `netplane` nftables table masquerading the SDN subnet on every
/// interface but the TUN device.
pub open spec fn exit_node_commands(sdn_cidr: Seq<char>, tun: Seq<char>) -> Seq<CommandView> {
    seq![
        cmd("sysctl"@, seq!["-w"@, "net.ipv4.ip_forward=1"@], true),
        cmd("nft"@, seq!["delete"@, "table"@, "inet"@, "netplane"@], false),
        cmd("nft"@, seq!["add"@, "table"@, "inet"@, "netplane"@], true),
        cmd(
            "nft"@,
            seq![
                "add"@,
                "chain"@,
                "inet"@,
                "netplane"@,
                "postrouting"@,
                "{ type nat hook postrouting priority 100 ; }"@,
            ],
            true,
        ),
        cmd(
            "nft"@,
            seq!["add"@, "rule"@, "inet"@, "netplane"@, "postrouting"@, masquerade_rule(sdn_cidr, tun)],
            true,
        ),
    ]
}

/// Making an exit node turns IP forwarding on (which must succeed), and
/// masquerades the SDN subnet in a NAT chain hooked at postrouting: the
/// table is dropped (whether or not it existed) and made again, the chain
/// `postrouting` is a nat chain at the postrouting hook in that table, and
/// the masquerade rule for traffic from `sdn_cidr` leaving by any interface
/// but `tun` is added to that very chain; every step but the drop must
/// succeed.
pub proof fn lemma_exit_node_masquerades(sdn_cidr: Seq<char>, tun: Seq<char>)
    ensures
        exit_node_commands(sdn_cidr, tun).len() == 5,
        exit_node_commands(sdn_cidr, tun)[0] == cmd("sysctl"@, seq!["-w"@, "net.ipv4.ip_forward=1"@], true),
        exit_node_commands(sdn_cidr, tun)[1] == cmd("nft"@, seq!["delete"@, "table"@, "inet"@, "netplane"@], false),
        exit_node_commands(sdn_cidr, tun)[2] == cmd("nft"@, seq!["add"@, "table"@, "inet"@, "netplane"@], true),
        exit_node_commands(sdn_cidr, tun)[3] == cmd(
            "nft"@,
            seq!["add"@, "chain"@, "inet"@, "netplane"@, "postrouting"@, "{ type nat hook postrouting priority 100 ; }"@],
            true,
        ),
        exit_node_commands(sdn_cidr, tun)[4] == cmd(
            "nft"@,
            seq![
                "add"@,
                "rule"@,
                "inet"@,
                "netplane"@,
                "postrouting"@,
                "ip saddr "@ + sdn_cidr + " oifname != \""@ + tun + "\" masquerade"@,
            ],
            true,
        ),
{
}

/// The routes of an exit-node consumer cover the whole IPv4 space through
/// the TUN device in two halves, `0.0.0.0/1` and `128.0.0.0/1`, and removing
/// them names the same two routes: on Linux with `ip route add`/`del ... dev
/// tun`, on macOS with `route -n add`/`delete -net ... -interface tun`; adding
/// must succeed, removing may fail; other platforms need none.
pub proof fn lemma_consumer_routes_cover_ipv4(tun: Seq<char>)
    ensures
        consumer_routes(Platform::Linux, tun, true) == seq![
            cmd("ip"@, seq!["route"@, "add"@, "0.0.0.0/1"@, "dev"@, tun], true),
            cmd("ip"@, seq!["route"@, "add"@, "128.0.0.0/1"@, "dev"@, tun], true),
        ],
        consumer_routes(Platform::Linux, tun, false) == seq![
            cmd("ip"@, seq!["route"@, "del"@, "0.0.0.0/1"@, "dev"@, tun], false),
            cmd("ip"@, seq!["route"@, "del"@, "128.0.0.0/1"@, "dev"@, tun], false),
        ],
        consumer_routes(Platform::MacOs, tun, true) == seq![
            cmd("route"@, seq!["-n"@, "add"@, "-net"@, "0.0.0.0/1"@, "-interface"@, tun], true),
            cmd("route"@, seq!["-n"@, "add"@, "-net"@, "128.0.0.0/1"@, "-interface"@, tun], true),
        ],
        consumer_routes(Platform::MacOs, tun, false) == seq![
            cmd("route"@, seq!["-n"@, "delete"@, "-net"@, "0.0.0.0/1"@, "-interface"@, tun], false),
            cmd("route"@, seq!["-n"@, "delete"@, "-net"@, "128.0.0.0/1"@, "-interface"@, tun], false),
        ],
        consumer_routes(Platform::Other, tun, true).len() == 0,
        consumer_routes(Platform::Other, tun, false).len() == 0,
{
}

/// The commands that make this host an exit node for `sdn_cidr` (after the
/// current forwarding setting was read with `ip_forward_query`); only Linux
/// can be one.
pub fn enable_exit_node(platform: Platform, sdn_cidr: &str, tun_dev: &str) -> (r: Result<Vec<Command>, String>)
    ensures
        platform == Platform::Linux ==> (r matches Ok(c) && commands_view(c@) == exit_node_commands(
            sdn_cidr@,
            tun_dev@,
        )),
        platform != Platform::Linux ==> (r matches Err(e) && e@
            == "Exit-node server mode is only supported on Linux in this release"@),
{
    if platform != Platform::Linux {
        return Err("Exit-node server mode is only supported on Linux in this release".to_owned());
    }
    let a = concat_strs("ip saddr ", sdn_cidr);
    let b = concat_strs(a.as_str(), " oifname != \"");
    let c = concat_strs(b.as_str(), tun_dev);
    let rule = concat_strs(c.as_str(), "\" masquerade");
    let mut out: Vec<Command> = Vec::new();
    out.push(command("sysctl", args2("-w", "net.ipv4.ip_forward=1"), true));
    out.push(command("nft", args4("delete", "table", "inet", "netplane"), false));
    out.push(command("nft", args4("add", "table", "inet", "netplane"), true));
    out.push(
        command(
            "nft",
            args6("add", "chain", "inet", "netplane", "postrouting", "{ type nat hook postrouting priority 100 ; }"),
            true,
        ),
    );
    out.push(command("nft", args6("add", "rule", "inet", "netplane", "postrouting", rule.as_str()), true));
    assert(rule@ =~= masquerade_rule(sdn_cidr@, tun_dev@));
    assert(commands_view(out@) =~= exit_node_commands(sdn_cidr@, tun_dev@));
    Ok(out)
}

/// The commands that undo the exit-node setup on `platform`, `previous`
/// being the forwarding setting read before it, if any.
pub open spec fn exit_node_undo(platform: Platform, previous: Option<Seq<char>>) -> Seq<CommandView> {
    if platform == Platform::Linux {
        seq![cmd("nft"@, seq!["delete"@, "table"@, "inet"@, "netplane"@], false)] + match previous {
            Some(p) => seq![cmd("sysctl"@, seq!["-w"@, "net.ipv4.ip_forward="@ + p], false)],
            None => Seq::<CommandView>::empty(),
        }
    } else {
        Seq::<CommandView>::empty()
    }
}

/// Undoing an exit node undoes what making it did: the nftables table that
/// the setup adds is the one the undo deletes, and the forwarding setting
/// that the setup turns on goes back to the value read before, when it was
/// read.
pub proof fn lemma_exit_node_undone(sdn_cidr: Seq<char>, tun: Seq<char>, previous: Option<Seq<char>>)
    ensures
        exit_node_commands(sdn_cidr, tun)[2].args == seq!["add"@, "table"@, "inet"@, "netplane"@],
        exit_node_undo(Platform::Linux, previous)[0].args == seq!["delete"@, "table"@, "inet"@, "netplane"@],
        exit_node_commands(sdn_cidr, tun)[0].args == seq!["-w"@, "net.ipv4.ip_forward=1"@],
        previous matches Some(v) ==> exit_node_undo(Platform::Linux, previous).len() == 2
            && exit_node_undo(Platform::Linux, previous)[1].program == "sysctl"@
            && exit_node_undo(Platform::Linux, previous)[1].args == seq!["-w"@, "net.ipv4.ip_forward="@ + v],
        previous is None ==> exit_node_undo(Platform::Linux, previous).len() == 1,
        exit_node_undo(Platform::Linux, previous)[0] == cmd("nft"@, seq!["delete"@, "table"@, "inet"@, "netplane"@], false),
        previous matches Some(v) ==> exit_node_undo(Platform::Linux, previous)[1] == cmd(
            "sysctl"@,
            seq!["-w"@, "net.ipv4.ip_forward="@ + v],
            false,
        ),
        exit_node_undo(Platform::MacOs, previous).len() == 0,
        exit_node_undo(Platform::Other, previous).len() == 0,
{
}

/// The commands that undo the exit-node setup (their failures are
/// ignored): the nftables table goes, and IP forwarding gets back its
/// previous setting when it was read.
pub fn disable_exit_node(platform: Platform, state: &ExitNodeState) -> (r: Vec<Command>)
    ensures
        commands_view(r@) == exit_node_undo(platform, match state.previous_ip_forward {
            Some(p) => Some(p@),
            None => None,
        }),
{
    let mut out: Vec<Command> = Vec::new();
    if platform == Platform::Linux {
        out.push(command("nft", args4("delete", "table", "inet", "netplane"), false));
        match &state.previous_ip_forward {
            Some(p) => {
                let setting = concat_strs("net.ipv4.ip_forward=", p.as_str());
                out.push(command("sysctl", args2("-w", setting.as_str()), false));
            },
            None => {},
        }
    }
    proof {
        if platform == Platform::Linux {
            match &state.previous_ip_forward {
                Some(p) => {
                    assert(commands_view(out@) =~= seq![
                        cmd("nft"@, seq!["delete"@, "table"@, "inet"@, "netplane"@], false),
                        cmd("sysctl"@, seq!["-w"@, "net.ipv4.ip_forward="@ + p@], false),
                    ]);
                },
                None => {},
            }
        }
    }
    assert(commands_view(out@) =~= exit_node_undo(platform, match state.previous_ip_forward {
        Some(p) => Some(p@),
        None => None,
    }));
    out
}

/// What to do next while running a list of commands.
#[derive(Debug, PartialEq, Eq)]
pub enum RunStep {
    /// Run the command with this index.
    Run(usize),
    /// Every command ran; the operation succeeded.
    Done,
    /// A command that must succeed failed with this error; stop.
    Failed(String),
}

/// The first step of running `cmds`: the first command, if there is one.
pub fn first_step(cmds: &Vec<Command>) -> (r: RunStep)
    ensures
        r == if cmds@.len() > 0 {
            RunStep::Run(0)
        } else {
            RunStep::Done
        },
{
    if cmds.len() > 0 {
        RunStep::Run(0)
    } else {
        RunStep::Done
    }
}

/// The step after command `i` of `cmds` ran with `outcome`: a failure of a
/// command that must succeed stops the run with its error; otherwise the
/// next command runs, or the run is done after the last one.
pub fn after_command(cmds: &Vec<Command>, i: usize, outcome: Result<(), String>) -> (r: RunStep)
    requires
        i < cmds@.len(),
    ensures
        (outcome is Err && cmds@[i as int].must_succeed) ==> (r matches RunStep::Failed(x) && x@
            == outcome->Err_0@),
        !(outcome is Err && cmds@[i as int].must_succeed) ==> r == if i + 1 < cmds@.len() {
            RunStep::Run((i + 1) as usize)
        } else {
            RunStep::Done
        },
{
    match outcome {
        Err(e) => {
            if cmds[i].must_succeed {
                return RunStep::Failed(e);
            }
        },
        Ok(()) => {},
    }
    if i < cmds.len() - 1 {
        RunStep::Run(i + 1)
    } else {
        RunStep::Done
    }
}

/// The consumer routes once their commands ran: the routes through
/// `tun_dev` when the run succeeded, its error otherwise.
pub fn consumer_result(tun_dev: &str, run: Result<(), String>) -> (r: Result<ConsumerRoutes, String>)
    ensures
        match run {
            Ok(_) => r matches Ok(c) && c.tun_dev@ == tun_dev@,
            Err(e) => r matches Err(x) && x@ == e@,
        },
{
    match run {
        Ok(()) => Ok(ConsumerRoutes { tun_dev: tun_dev.to_owned() }),
        Err(e) => Err(e),
    }
}

/// The exit-node state once its commands ran: what was set up, with the
/// forwarding setting read before (if it could be read), when the run
/// succeeded; its error otherwise.
pub fn exit_node_result(sdn_cidr: &str, tun_dev: &str, previous_ip_forward: Option<String>, run: Result<(), String>) -> (r:
    Result<ExitNodeState, String>)
    ensures
        match run {
            Ok(_) => r matches Ok(s) && s.sdn_cidr@ == sdn_cidr@ && s.tun_dev@ == tun_dev@ && match (
            previous_ip_forward, s.previous_ip_forward) {
                (Some(a), Some(b)) => a@ == b@,
                (None, None) => true,
                _ => false,
            },
            Err(e) => r matches Err(x) && x@ == e@,
        },
{
    match run {
        Ok(()) => Ok(ExitNodeState { sdn_cidr: sdn_cidr.to_owned(), tun_dev: tun_dev.to_owned(), previous_ip_forward }),
        Err(e) => Err(e),
    }
}

} // verus!
