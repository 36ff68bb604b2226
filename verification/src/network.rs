//! Networking: a bridge on the host, and a veth pair for each container.

use crate::host::{Op, OpView, ReplyView};
use crate::plan::{
    attempt, closed, ending, law_good_ending, law_in_order, may, must, taken, unskippable,
    OnFailure, OnFailureView, Plan, Step, StepView,
};
use crate::text::{
    can_cut, cat, cut, cut_bytes, decimal, is_cuttable, law_cut, law_cut_ascii,
    law_decimal_distinct, number_text, signed_decimal, signed_text, views,
};
use vstd::prelude::*;
use vstd::utf8::{encode_utf8, is_ascii_chars};

verus! {

/// The bridge that all containers are wired into.
pub open spec fn bridge() -> Seq<char> {
    "mc0"@
}

/// The address of the bridge, which is the gateway of the containers.
pub open spec fn bridge_addr() -> Seq<char> {
    "10.66.0.1"@
}

/// The network of the containers.
pub open spec fn subnet() -> Seq<char> {
    "10.66.0.0/24"@
}

/// Per-container network handle. The host-side veth is named from the short id;
/// the container side is renamed to eth0 inside its netns.
#[derive(Debug)]
pub struct Network {
    pub host_veth: String,
    pub container_ip: String,
}

/// The model of a [`Network`].
pub ghost struct NetworkView {
    pub host_veth: Seq<char>,
    pub container_ip: Seq<char>,
}

impl View for Network {
    type V = NetworkView;

    open spec fn view(&self) -> NetworkView {
        NetworkView { host_veth: self.host_veth@, container_ip: self.container_ip@ }
    }
}

/// A program and its arguments.
pub open spec fn command(program: Seq<char>, args: Seq<Seq<char>>) -> OpView {
    OpView::Command { program, args }
}

/// A program that must succeed.
pub open spec fn run_step(program: Seq<char>, args: Seq<Seq<char>>) -> StepView {
    must(command(program, args), OnFailureView::Command)
}

/// The operation that runs `program` with `args`.
fn call(program: &str, args: &[&str]) -> (r: Op)
    ensures
        r@ == command(program@, args@.map_values(|s: &str| s@)),
{
    let mut list: Vec<String> = Vec::new();
    for i in 0..args.len()
        invariant
            list@.len() == i,
            forall|j: int| 0 <= j < i ==> list@[j]@ == args@[j]@,
    {
        list.push(args[i].to_owned());
    }
    assert(views(list@) =~= args@.map_values(|s: &str| s@));
    Op::Command { program: program.to_owned(), args: list }
}

/// A program that must succeed.
fn run(program: &str, args: &[&str]) -> (r: Step)
    ensures
        r@ == run_step(program@, args@.map_values(|s: &str| s@)),
{
    Step::must(call(program, args), OnFailure::Command)
}

/// The arguments that handle the rule by which the containers' traffic leaves under
/// the address of the host; `verb` checks for it or appends it.
pub open spec fn masquerade(verb: Seq<char>) -> Seq<Seq<char>> {
    seq![
        "-t"@,
        "nat"@,
        verb,
        "POSTROUTING"@,
        "-s"@,
        subnet(),
        "!"@,
        "-o"@,
        bridge(),
        "-j"@,
        "MASQUERADE"@,
    ]
}

/// The steps that create the shared bridge if it does not already exist, and enable
/// NAT so containers can reach the outside world.
///
/// Where the bridge is there, only the steps that make it are saved. Neither forwarding
/// nor the NAT rule has to succeed, and the rule is appended only where it is not found.
pub open spec fn bridge_steps() -> Seq<StepView> {
    seq![
        attempt(command("ip"@, seq!["link"@, "show"@, bridge()]), 3),
        run_step("ip"@, seq!["link"@, "add"@, bridge(), "type"@, "bridge"@]),
        run_step("ip"@, seq!["addr"@, "add"@, bridge_addr() + "/24"@, "dev"@, bridge()]),
        run_step("ip"@, seq!["link"@, "set"@, bridge(), "up"@]),
        may(OpView::WriteFile { path: "/proc/sys/net/ipv4/ip_forward"@, contents: "1"@ }),
        attempt(command("iptables"@, masquerade("-C"@)), 1),
        may(command("iptables"@, masquerade("-A"@))),
    ]
}

fn masquerade_call(verb: &str) -> (r: Op)
    ensures
        r@ == command("iptables"@, masquerade(verb@)),
{
    let args: [&str; 11] = [
        "-t",
        "nat",
        verb,
        "POSTROUTING",
        "-s",
        "10.66.0.0/24",
        "!",
        "-o",
        "mc0",
        "-j",
        "MASQUERADE",
    ];
    assert(args@.map_values(|s: &str| s@) =~= masquerade(verb@));
    call("iptables", &args)
}

/// Create the shared bridge if it does not already exist, and enable NAT so
/// containers can reach the outside world.
pub fn ensure_bridge() -> (plan: Plan)
    ensures
        plan@ == bridge_steps(),
{
    let mut plan: Plan = Plan::new();
    let show: [&str; 3] = ["link", "show", "mc0"];
    assert(show@.map_values(|s: &str| s@) =~= seq!["link"@, "show"@, bridge()]);
    plan.push(Step::attempt(call("ip", &show), 3));
    let add: [&str; 5] = ["link", "add", "mc0", "type", "bridge"];
    assert(add@.map_values(|s: &str| s@) =~= seq![
        "link"@,
        "add"@,
        bridge(),
        "type"@,
        "bridge"@,
    ]);
    plan.push(run("ip", &add));
    let addr: String = cat("10.66.0.1", "/24");
    let set_addr: [&str; 5] = ["addr", "add", addr.as_str(), "dev", "mc0"];
    assert(set_addr@.map_values(|s: &str| s@) =~= seq![
        "addr"@,
        "add"@,
        bridge_addr() + "/24"@,
        "dev"@,
        bridge(),
    ]);
    plan.push(run("ip", &set_addr));
    let up: [&str; 4] = ["link", "set", "mc0", "up"];
    assert(up@.map_values(|s: &str| s@) =~= seq!["link"@, "set"@, bridge(), "up"@]);
    plan.push(run("ip", &up));
    plan.push(
        Step::may(
            Op::WriteFile {
                path: "/proc/sys/net/ipv4/ip_forward".to_owned(),
                contents: "1".to_owned(),
            },
        ),
    );
    plan.push(Step::attempt(masquerade_call("-C"), 1));
    plan.push(Step::may(masquerade_call("-A")));
    assert(plan@ =~= bridge_steps());
    plan
}

/// The name of one end of the veth pair of a container: `prefix` and the short id,
/// cut to the 15 bytes that the kernel allows.
pub open spec fn veth_name(prefix: Seq<char>, short_id: Seq<char>) -> Seq<char> {
    cut(prefix + short_id, 15)
}

/// Whether the two ends of a veth pair can be named after `short_id`: the limit on
/// the length of a name must not cut a character.
pub open spec fn names_links(short_id: Seq<char>) -> bool {
    is_cuttable("mch"@ + short_id, 15) && is_cuttable("mcp"@ + short_id, 15)
}

/// Whether the two ends of a veth pair can be named after `short_id`.
pub fn can_name_links(short_id: &str) -> (r: bool)
    ensures
        r == names_links(short_id@),
{
    let host: String = cat("mch", short_id);
    let peer: String = cat("mcp", short_id);
    can_cut(host.as_str(), 15) && can_cut(peer.as_str(), 15)
}

/// The address of the container with the number `index`: 10.66.0.2, 10.66.0.3, ...
pub open spec fn address(index: u8) -> Seq<char> {
    "10.66.0."@ + decimal((1 + index + 1) as nat)
}

/// The steps that wire one container into the bridge.
pub open spec fn wire_steps(host_veth: Seq<char>, peer: Seq<char>, pid: Seq<char>, ip: Seq<char>)
    -> Seq<StepView> {
    let inside = seq!["-t"@, pid, "-n"@, "ip"@];
    seq![
        run_step("ip"@, seq!["link"@, "add"@, host_veth, "type"@, "veth"@, "peer"@, "name"@, peer]),
        run_step("ip"@, seq!["link"@, "set"@, host_veth, "master"@, bridge()]),
        run_step("ip"@, seq!["link"@, "set"@, host_veth, "up"@]),
        run_step("ip"@, seq!["link"@, "set"@, peer, "netns"@, pid]),
        run_step("nsenter"@, inside + seq!["link"@, "set"@, peer, "name"@, "eth0"@]),
        run_step("nsenter"@, inside + seq!["addr"@, "add"@, ip + "/24"@, "dev"@, "eth0"@]),
        run_step("nsenter"@, inside + seq!["link"@, "set"@, "eth0"@, "up"@]),
        run_step("nsenter"@, inside + seq!["link"@, "set"@, "lo"@, "up"@]),
        run_step("nsenter"@, inside + seq!["route"@, "add"@, "default"@, "via"@, bridge_addr()]),
    ]
}

/// The steps of [`Network::setup`].
pub open spec fn setup_steps(short_id: Seq<char>, pid: i32, index: u8) -> Seq<StepView> {
    bridge_steps() + wire_steps(
        veth_name("mch"@, short_id),
        veth_name("mcp"@, short_id),
        signed_decimal(pid as int),
        address(index),
    )
}

/// The network handle of a container.
pub open spec fn network_of(short_id: Seq<char>, index: u8) -> NetworkView {
    NetworkView { host_veth: veth_name("mch"@, short_id), container_ip: address(index) }
}

fn wire(host_veth: &str, peer: &str, pid: &str, ip: &str) -> (plan: Plan)
    ensures
        plan@ == wire_steps(host_veth@, peer@, pid@, ip@),
{
    let ghost inside = seq!["-t"@, pid@, "-n"@, "ip"@];
    let mut plan: Plan = Plan::new();
    let a0: [&str; 8] = ["link", "add", host_veth, "type", "veth", "peer", "name", peer];
    assert(a0@.map_values(|s: &str| s@) =~= seq![
        "link"@,
        "add"@,
        host_veth@,
        "type"@,
        "veth"@,
        "peer"@,
        "name"@,
        peer@,
    ]);
    plan.push(run("ip", &a0));
    let a1: [&str; 5] = ["link", "set", host_veth, "master", "mc0"];
    assert(a1@.map_values(|s: &str| s@) =~= seq![
        "link"@,
        "set"@,
        host_veth@,
        "master"@,
        bridge(),
    ]);
    plan.push(run("ip", &a1));
    let a2: [&str; 4] = ["link", "set", host_veth, "up"];
    assert(a2@.map_values(|s: &str| s@) =~= seq!["link"@, "set"@, host_veth@, "up"@]);
    plan.push(run("ip", &a2));
    let a3: [&str; 5] = ["link", "set", peer, "netns", pid];
    assert(a3@.map_values(|s: &str| s@) =~= seq!["link"@, "set"@, peer@, "netns"@, pid@]);
    plan.push(run("ip", &a3));
    let a4: [&str; 9] = ["-t", pid, "-n", "ip", "link", "set", peer, "name", "eth0"];
    assert(a4@.map_values(|s: &str| s@) =~= inside + seq![
        "link"@,
        "set"@,
        peer@,
        "name"@,
        "eth0"@,
    ]);
    plan.push(run("nsenter", &a4));
    let ip24: String = cat(ip, "/24");
    let a5: [&str; 9] = ["-t", pid, "-n", "ip", "addr", "add", ip24.as_str(), "dev", "eth0"];
    assert(a5@.map_values(|s: &str| s@) =~= inside + seq![
        "addr"@,
        "add"@,
        ip@ + "/24"@,
        "dev"@,
        "eth0"@,
    ]);
    plan.push(run("nsenter", &a5));
    let a6: [&str; 8] = ["-t", pid, "-n", "ip", "link", "set", "eth0", "up"];
    assert(a6@.map_values(|s: &str| s@) =~= inside + seq!["link"@, "set"@, "eth0"@, "up"@]);
    plan.push(run("nsenter", &a6));
    let a7: [&str; 8] = ["-t", pid, "-n", "ip", "link", "set", "lo", "up"];
    assert(a7@.map_values(|s: &str| s@) =~= inside + seq!["link"@, "set"@, "lo"@, "up"@]);
    plan.push(run("nsenter", &a7));
    let a8: [&str; 9] = ["-t", pid, "-n", "ip", "route", "add", "default", "via", "10.66.0.1"];
    assert(a8@.map_values(|s: &str| s@) =~= inside + seq![
        "route"@,
        "add"@,
        "default"@,
        "via"@,
        bridge_addr(),
    ]);
    plan.push(run("nsenter", &a8));
    assert(plan@ =~= wire_steps(host_veth@, peer@, pid@, ip@));
    plan
}

impl Network {
    /// Wire a freshly-created container (identified by its host-visible pid)
    /// into the bridge. `index` gives each container a distinct /24 address.
    ///
    /// The handle is that of the container once the plan has ended well.
    pub fn setup(short_id: &str, pid: i32, index: u8) -> (r: (Network, Plan))
        requires
            names_links(short_id@),
        ensures
            r.0@ == network_of(short_id@, index),
            r.1@ == setup_steps(short_id@, pid, index),
    {
        let mut plan: Plan = ensure_bridge();
        let host_name: String = cat("mch", short_id);
        let host_veth: String = cut_bytes(host_name.as_str(), 15);
        let peer_name: String = cat("mcp", short_id);
        let peer: String = cut_bytes(peer_name.as_str(), 15);
        let last: u64 = 1 + index as u64 + 1;
        let container_ip: String = cat("10.66.0.", number_text(last).as_str());
        let p: String = signed_text(pid);
        plan.extend(
            wire(host_veth.as_str(), peer.as_str(), p.as_str(), container_ip.as_str()),
        );
        (Network { host_veth, container_ip }, plan)
    }

    /// The address of the container.
    pub fn container_ip(&self) -> (r: &str)
        ensures
            r@ == self@.container_ip,
    {
        self.container_ip.as_str()
    }

    /// Tear down the host-side veth (the peer disappears with the netns).
    ///
    /// It is passed over where it fails.
    pub fn cleanup(&self) -> (r: Step)
        ensures
            r@ == self@.cleanup_step(),
    {
        let args: [&str; 3] = ["link", "delete", self.host_veth.as_str()];
        assert(args@.map_values(|s: &str| s@) =~= seq!["link"@, "delete"@, self@.host_veth]);
        Step::may(call("ip", &args))
    }
}

impl NetworkView {
    /// The step that tears down the host-side veth.
    pub open spec fn cleanup_step(self) -> StepView {
        may(command("ip"@, seq!["link"@, "delete"@, self.host_veth]))
    }
}

/// Every container has an address of its own, and none that of the bridge.
pub proof fn law_distinct_addresses(i: u8, j: u8)
    ensures
        address(i) == address(j) ==> i == j,
        address(i) != bridge_addr(),
{
    reveal_strlit("10.66.0.");
    reveal_strlit("10.66.0.1");
    let a = decimal((1 + i + 1) as nat);
    let b = decimal((1 + j + 1) as nat);
    if address(i) == address(j) {
        assert(a =~= address(i).skip(8));
        assert(b =~= address(j).skip(8));
        law_decimal_distinct((1 + i + 1) as nat, (1 + j + 1) as nat);
    }
    if address(i) == bridge_addr() {
        assert(a =~= address(i).skip(8));
        assert(bridge_addr().skip(8) =~= seq!['1']);
        assert(decimal(1) =~= seq!['1']);
        law_decimal_distinct((1 + i + 1) as nat, 1);
    }
}

/// The name of an interface has at most 15 bytes.
pub proof fn law_link_names_fit(short_id: Seq<char>)
    requires
        names_links(short_id),
    ensures
        encode_utf8(veth_name("mch"@, short_id)).len() <= 15,
        encode_utf8(veth_name("mcp"@, short_id)).len() <= 15,
{
    law_cut("mch"@ + short_id, 15);
    law_cut("mcp"@ + short_id, 15);
}

/// An id of ASCII characters always names the two ends of a veth pair, and where it
/// has at most 12 characters both names hold all of it, and differ.
pub proof fn law_ascii_names_links(short_id: Seq<char>)
    requires
        is_ascii_chars(short_id),
    ensures
        names_links(short_id),
        short_id.len() <= 12 ==> {
            &&& veth_name("mch"@, short_id) == "mch"@ + short_id
            &&& veth_name("mcp"@, short_id) == "mcp"@ + short_id
            &&& veth_name("mch"@, short_id) != veth_name("mcp"@, short_id)
        },
{
    reveal_strlit("mch");
    reveal_strlit("mcp");
    let host = "mch"@ + short_id;
    let peer = "mcp"@ + short_id;
    assert(is_ascii_chars(host));
    assert(is_ascii_chars(peer));
    law_cut_ascii(host, 15);
    law_cut_ascii(peer, 15);
    assert(host[2] != peer[2]);
    assert(host.take(host.len() as int) =~= host);
    assert(peer.take(peer.len() as int) =~= peer);
}

/// Creating the bridge skips no step behind its own.
pub proof fn law_bridge_closed()
    ensures
        closed(bridge_steps()),
        bridge_steps().len() == 7,
{
    assert forall|k: int| 0 <= k < 7 implies k + 1 + (#[trigger] bridge_steps()[k]).skip <= 7 by {}
}

/// NAT is enabled whether the bridge was there or not: where the plan for the bridge
/// ends well, forwarding was asked for, and the rule was looked for, and appended exactly
/// where it was not found. The bridge is made only where it was not there.
pub proof fn law_nat_enabled(answers: spec_fn(int) -> ReplyView)
    requires
        ending(bridge_steps(), 0, answers) is Ok,
    ensures
        ({
            let t = taken(bridge_steps(), 0, answers);
            let steps = bridge_steps();
            &&& steps[4].op == (OpView::WriteFile {
                path: "/proc/sys/net/ipv4/ip_forward"@,
                contents: "1"@,
            })
            &&& steps[5].op == command("iptables"@, masquerade("-C"@))
            &&& steps[6].op == command("iptables"@, masquerade("-A"@))
            &&& t.contains(4)
            &&& t.contains(5)
            &&& t.contains(6) <==> !(answers(5) is Done)
            &&& forall|i: int| 1 <= i < 4 ==> (t.contains(i) <==> !(answers(0) is Done))
        }),
{
    let steps = bridge_steps();
    let t = taken(steps, 0, answers);
    law_bridge_closed();
    law_in_order(steps, 0, answers);
    assert forall|k: int| 0 <= k < 7 implies (#[trigger] steps[k]).skip == (if k == 0 {
        3nat
    } else if k == 5 {
        1nat
    } else {
        0nat
    }) by {}
    law_good_ending(steps, 0, answers, 4);
    law_good_ending(steps, 0, answers, 5);
    let five = taken(steps, 5, answers);
    let four = taken(steps, 4, answers);
    assert(taken(steps, 6, answers) =~= seq![6int]);
    assert(five =~= if answers(5) is Done {
        seq![5int]
    } else {
        seq![5int, 6]
    });
    assert(four =~= seq![4int] + five);
    if answers(0) is Done {
        assert(t =~= seq![0int] + four);
        if !(answers(5) is Done) {
            assert(t[3] == 6);
        }
    } else {
        assert(ending(steps, 1, answers) is Ok);
        assert(ending(steps, 2, answers) is Ok);
        assert(ending(steps, 3, answers) is Ok);
        assert(answers(1) is Done && answers(2) is Done && answers(3) is Done);
        assert(taken(steps, 3, answers) =~= seq![3int] + four);
        assert(taken(steps, 2, answers) =~= seq![2int, 3] + four);
        assert(taken(steps, 1, answers) =~= seq![1int, 2, 3] + four);
        assert(t =~= seq![0int, 1, 2, 3] + four);
        assert(t[1] == 1 && t[2] == 2 && t[3] == 3);
        if !(answers(5) is Done) {
            assert(t[6] == 6);
        }
    }
}

/// Every step that wires a container must succeed, and none can be skipped.
pub proof fn law_wiring_complete(short_id: Seq<char>, pid: i32, index: u8)
    ensures
        closed(setup_steps(short_id, pid, index)),
        setup_steps(short_id, pid, index).len() == 16,
        forall|i: int|
            7 <= i < 16 ==> {
                &&& !((#[trigger] setup_steps(short_id, pid, index)[i]).on_failure is Ignore)
                &&& unskippable(setup_steps(short_id, pid, index), i)
            },
{
    law_bridge_closed();
    let all = setup_steps(short_id, pid, index);
    assert forall|k: int| 0 <= k < 16 implies (#[trigger] all[k]).skip == (if k == 0 {
        3nat
    } else if k == 5 {
        1nat
    } else {
        0nat
    }) by {}
}


/// The two ends of the link of a container are named `mch` and `mcp` and the first 12
/// characters of its id, where these are ASCII; its address is the one behind that of the
/// bridge that its index tells.
pub proof fn law_link_names(id: Seq<char>, index: u8)
    requires
        is_ascii_chars(id),
        id.len() >= 12,
    ensures
        network_of(id.take(12), index).host_veth == "mch"@ + id.take(12),
        veth_name("mcp"@, id.take(12)) == "mcp"@ + id.take(12),
        network_of(id.take(12), index).container_ip == "10.66.0."@ + decimal((index + 2) as nat),
{
    let short_id = id.take(12);
    assert forall|i: int| 0 <= i < short_id.len() implies (#[trigger] short_id[i]) as nat
        <= 127 by {
        assert(short_id[i] == id[i]);
    }
    assert(is_ascii_chars(short_id));
    law_ascii_names_links(short_id);
}

} // verus!
