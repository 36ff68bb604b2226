use mincontainer::capabilities::{drop_dangerous, dropped_count};
use mincontainer::cgroups::{
    already_delegated, wanted_controllers, Cgroup, CgroupCreation, CreationTurn,
};
use mincontainer::config::{Resources, Volume};
use mincontainer::error::RuntimeError;
use mincontainer::host::{Op, Reply};
use mincontainer::network::{can_name_links, ensure_bridge, Network};
use mincontainer::plan::{step_error, OnFailure, Plan, PlanRun, PlanTurn, Step};
use mincontainer::rootfs::{
    make_dev_nodes, mount_volume_into_rootfs, mount_volumes, setup_rootfs,
};

fn show(op: &Op) -> String {
    format!("{op:?}")
}

fn ops(plan: &Plan) -> Vec<String> {
    plan.steps.iter().map(|s| show(&s.op)).collect()
}

fn command_line(op: &Op) -> String {
    match op {
        Op::Command { program, args } => format!("{} {}", program, args.join(" ")),
        other => show(other),
    }
}

/// Follow a plan with a host that answers as `host` says.
fn follow(plan: Plan, host: &mut dyn FnMut(&Op) -> Reply) -> (Vec<String>, Result<(), String>) {
    let mut asked = Vec::new();
    let mut turn = PlanRun::start(plan);
    loop {
        match turn {
            PlanTurn::Ask(run) => {
                let reply = host(run.op());
                asked.push(command_line(run.op()));
                turn = run.resume(reply);
            }
            PlanTurn::Ended(r) => return (asked, r.map_err(|e| e.message())),
        }
    }
}

fn failed() -> Reply {
    Reply::Failed("EPERM".to_string())
}

fn plan_of(steps: Vec<Step>) -> Plan {
    let mut plan = Plan::new();
    for s in steps {
        plan.push(s);
    }
    plan
}

#[test]
fn an_empty_plan_ends_well_at_once() {
    assert!(matches!(PlanRun::start(Plan::new()), PlanTurn::Ended(Ok(()))));
}

#[test]
fn steps_are_taken_in_order() {
    let plan = plan_of(vec![
        Step::may(Op::MakeDirs("/a".to_string())),
        Step::must(Op::ChangeDir("/a".to_string()), OnFailure::Syscall("chdir")),
        Step::may(Op::RemoveDir("/b".to_string())),
    ]);
    let (asked, end) = follow(plan, &mut |_| Reply::Done);
    assert_eq!(asked, vec!["MakeDirs(\"/a\")", "ChangeDir(\"/a\")", "RemoveDir(\"/b\")"]);
    assert_eq!(end, Ok(()));
}

#[test]
fn a_failed_step_ends_the_plan_unless_it_may_fail() {
    let steps = || {
        plan_of(vec![
            Step::may(Op::MakeDirs("/a".to_string())),
            Step::must(Op::ChangeDir("/a".to_string()), OnFailure::Syscall("chdir")),
            Step::may(Op::RemoveDir("/b".to_string())),
        ])
    };
    let (asked, end) = follow(steps(), &mut |_| failed());
    assert_eq!(asked.len(), 2);
    assert_eq!(end, Err("syscall chdir failed: EPERM".to_string()));
}

#[test]
fn a_successful_attempt_saves_steps() {
    let steps = || {
        plan_of(vec![
            Step::attempt(Op::MakeDirs("/a".to_string()), 1),
            Step::must(Op::MakeDirs("/b".to_string()), OnFailure::Io),
            Step::may(Op::MakeDirs("/c".to_string())),
        ])
    };
    assert_eq!(
        follow(steps(), &mut |_| Reply::Done).0,
        vec!["MakeDirs(\"/a\")", "MakeDirs(\"/c\")"]
    );
    let (asked, end) = follow(steps(), &mut |_| failed());
    assert_eq!(asked, vec!["MakeDirs(\"/a\")", "MakeDirs(\"/b\")"]);
    assert_eq!(end, Err("io error: EPERM".to_string()));
    let past_the_end = plan_of(vec![Step::attempt(Op::Release, 5)]);
    assert_eq!(follow(past_the_end, &mut |_| Reply::Done).1, Ok(()));
}

#[test]
fn each_failure_has_its_error() {
    let error = |on: OnFailure| {
        step_error(&Step::must(Op::Fork, on), Reply::Failed("why".to_string())).message()
    };
    assert_eq!(error(OnFailure::Io), "io error: why");
    assert_eq!(error(OnFailure::Syscall("x")), "syscall x failed: why");
    assert_eq!(error(OnFailure::Cgroup("c".to_string())), "cgroup error: c: why");
    assert_eq!(error(OnFailure::Filesystem("f".to_string())), "filesystem error: f: why");
    assert_eq!(error(OnFailure::Config("g".to_string())), "config error: g: why");
    assert_eq!(error(OnFailure::Seccomp("s".to_string())), "seccomp error: s: why");
    let step = Step::must(Op::Fork, OnFailure::Io);
    assert!(matches!(
        step_error(&step, Reply::Malformed("bad".to_string())),
        RuntimeError::Json(e) if e == "bad"
    ));
    let own = RuntimeError::Seccomp("own".to_string());
    assert_eq!(step_error(&step, Reply::Refused(own)).message(), "seccomp error: own");
}

#[test]
fn a_program_that_fails_is_a_network_error() {
    let step = || {
        Step::must(
            Op::Command {
                program: "ip".to_string(),
                args: vec!["link".to_string(), "show".to_string()],
            },
            OnFailure::Command,
        )
    };
    assert_eq!(
        step_error(&step(), Reply::Exited("no such device".to_string())).message(),
        "network error: ip link show: no such device"
    );
    assert_eq!(
        step_error(&step(), Reply::Failed("not found".to_string())).message(),
        "network error: spawn ip: not found"
    );
}

#[test]
fn nine_capabilities_leave_every_set() {
    assert_eq!(dropped_count(), 9);
    let plan = drop_dangerous();
    assert_eq!(plan.steps.len(), 2 * 4 * 9 + 1);
    let all = ops(&plan);
    for set in ["Bounding", "Ambient", "Effective", "Permitted"] {
        for what in ["DropCapability", "LacksCapability"] {
            let found = |s: &&String| s.starts_with(&format!("{what} {{ set: {set}"));
            assert_eq!(all.iter().filter(found).count(), 9);
        }
    }
    assert_eq!(all[72], "ClearCapabilities(Inheritable)");
    let (asked, end) = follow(plan, &mut |_| Reply::Done);
    assert_eq!(asked.len(), 37);
    assert!(!asked.iter().any(|o| o.starts_with("LacksCapability")));
    assert_eq!(end, Ok(()));
}

#[test]
fn a_capability_that_stays_is_an_error() {
    let (asked, end) = follow(drop_dangerous(), &mut |_| failed());
    assert_eq!(
        asked,
        vec![
            "DropCapability { set: Bounding, capability: SysAdmin }",
            "LacksCapability { set: Bounding, capability: SysAdmin }",
        ]
    );
    assert_eq!(end, Err("config error: drop dangerous caps: EPERM".to_string()));
    let (asked, end) = follow(drop_dangerous(), &mut |op| match op {
        Op::DropCapability { .. } => failed(),
        _ => Reply::Done,
    });
    assert_eq!(asked.len(), 73);
    assert_eq!(end, Ok(()));
    let (asked, end) = follow(drop_dangerous(), &mut |op| match op {
        Op::ClearCapabilities(_) => failed(),
        _ => Reply::Done,
    });
    assert_eq!(asked.len(), 37);
    assert_eq!(end, Err("config error: clear inheritable caps: EPERM".to_string()));
}

#[test]
fn devices_have_their_numbers() {
    assert_eq!(
        ops(&make_dev_nodes()),
        vec![
            "MakeDevice { path: \"/dev/null\", dev: 259, mode: 438 }",
            "MakeDevice { path: \"/dev/zero\", dev: 261, mode: 438 }",
            "MakeDevice { path: \"/dev/full\", dev: 263, mode: 438 }",
            "MakeDevice { path: \"/dev/random\", dev: 264, mode: 438 }",
            "MakeDevice { path: \"/dev/urandom\", dev: 265, mode: 438 }",
            "MakeDevice { path: \"/dev/tty\", dev: 1280, mode: 438 }",
        ]
    );
}

#[test]
fn the_root_is_moved_before_proc_and_dev_are_mounted() {
    let all = ops(&setup_rootfs("/srv/root"));
    let at = |s: &str| all.iter().position(|o| o.contains(s)).unwrap();
    assert_eq!(all.len(), 19);
    assert!(at("kind: Private") < at("kind: Bind"));
    assert!(at("kind: Bind") < at("PivotRoot"));
    assert_eq!(all[at("PivotRoot")], "PivotRoot { new_root: \".\", put_old: \".oldroot\" }");
    assert!(at("PivotRoot") < at("Detach(\"/.oldroot\")"));
    assert!(at("Detach") < at("\"proc\""));
    assert!(at("\"proc\"") < at("\"devtmpfs\""));
    assert!(at("\"devtmpfs\"") < at("\"tmpfs\""));
}

#[test]
fn a_devtmpfs_saves_the_nodes() {
    let (asked, end) = follow(setup_rootfs("/r"), &mut |_| Reply::Done);
    assert_eq!(asked.len(), 12);
    assert!(asked[11].contains("devtmpfs"));
    assert_eq!(end, Ok(()));
    let (asked, end) = follow(setup_rootfs("/r"), &mut |op| match op {
        Op::Mount { fstype: Some(t), .. } if t == "devtmpfs" => failed(),
        _ => Reply::Done,
    });
    assert_eq!(asked.len(), 19);
    assert!(asked[18].contains("/dev/tty"));
    assert_eq!(end, Ok(()));
}

#[test]
fn a_root_that_cannot_be_moved_ends_the_setup() {
    let (asked, end) = follow(setup_rootfs("/r"), &mut |op| match op {
        Op::PivotRoot { .. } => failed(),
        _ => Reply::Done,
    });
    assert_eq!(asked.len(), 5);
    assert_eq!(end, Err("syscall pivot_root failed: EPERM".to_string()));
}

#[test]
fn a_volume_is_bound_below_the_root() {
    let volume = |c: &str| Volume { host_path: "/data".to_string(), container_path: c.to_string() };
    assert_eq!(
        ops(&mount_volume_into_rootfs("/srv/root", &volume("/mnt/data"))),
        vec![
            "MakeDirs(\"/srv/root/mnt/data\")".to_string(),
            "Mount { source: Some(\"/data\"), target: \"/srv/root/mnt/data\", fstype: None, \
             kind: Bind }"
                .to_string(),
        ]
    );
    assert_eq!(
        ops(&mount_volume_into_rootfs("/srv/", &volume("//x")))[0],
        "MakeDirs(\"/srv/x\")"
    );
    let both = mount_volumes("/r", &vec![volume("/a"), volume("/b")]);
    assert_eq!(both.steps.len(), 4);
    let (_, end) = follow(both, &mut |op| match op {
        Op::MakeDirs(_) => failed(),
        _ => Reply::Done,
    });
    assert_eq!(end, Err("filesystem error: mkdir /r/a: EPERM".to_string()));
}

#[test]
fn the_bridge_is_created_only_once() {
    let (asked, end) = follow(ensure_bridge(), &mut |_| Reply::Done);
    assert_eq!(
        asked,
        vec![
            "ip link show mc0",
            "WriteFile { path: \"/proc/sys/net/ipv4/ip_forward\", contents: \"1\" }",
            "iptables -t nat -C POSTROUTING -s 10.66.0.0/24 ! -o mc0 -j MASQUERADE",
        ]
    );
    assert_eq!(end, Ok(()));
    let (asked, end) = follow(ensure_bridge(), &mut |op| match op {
        Op::Command { args, .. } if args[1] == "show" => Reply::Exited(String::new()),
        Op::Command { args, .. } if args.contains(&"-C".to_string()) => {
            Reply::Exited(String::new())
        }
        _ => Reply::Done,
    });
    assert_eq!(
        asked,
        vec![
            "ip link show mc0",
            "ip link add mc0 type bridge",
            "ip addr add 10.66.0.1/24 dev mc0",
            "ip link set mc0 up",
            "WriteFile { path: \"/proc/sys/net/ipv4/ip_forward\", contents: \"1\" }",
            "iptables -t nat -C POSTROUTING -s 10.66.0.0/24 ! -o mc0 -j MASQUERADE",
            "iptables -t nat -A POSTROUTING -s 10.66.0.0/24 ! -o mc0 -j MASQUERADE",
        ]
    );
    assert_eq!(end, Ok(()));
}

#[test]
fn nat_is_enabled_on_a_bridge_that_is_there() {
    let (asked, end) = follow(ensure_bridge(), &mut |op| match op {
        Op::Command { args, .. } if args.contains(&"-C".to_string()) => {
            Reply::Exited(String::new())
        }
        _ => Reply::Done,
    });
    assert_eq!(asked.len(), 4);
    assert_eq!(
        asked[3],
        "iptables -t nat -A POSTROUTING -s 10.66.0.0/24 ! -o mc0 -j MASQUERADE"
    );
    assert_eq!(end, Ok(()));
}

#[test]
fn a_container_is_wired_into_the_bridge() {
    let (net, plan) = Network::setup("0123456789ab", 4711, 0);
    assert_eq!(net.container_ip(), "10.66.0.2");
    assert_eq!(net.host_veth, "mch0123456789ab");
    let (asked, end) = follow(plan, &mut |_| Reply::Done);
    assert_eq!(
        asked,
        vec![
            "ip link show mc0",
            "WriteFile { path: \"/proc/sys/net/ipv4/ip_forward\", contents: \"1\" }",
            "iptables -t nat -C POSTROUTING -s 10.66.0.0/24 ! -o mc0 -j MASQUERADE",
            "ip link add mch0123456789ab type veth peer name mcp0123456789ab",
            "ip link set mch0123456789ab master mc0",
            "ip link set mch0123456789ab up",
            "ip link set mcp0123456789ab netns 4711",
            "nsenter -t 4711 -n ip link set mcp0123456789ab name eth0",
            "nsenter -t 4711 -n ip addr add 10.66.0.2/24 dev eth0",
            "nsenter -t 4711 -n ip link set eth0 up",
            "nsenter -t 4711 -n ip link set lo up",
            "nsenter -t 4711 -n ip route add default via 10.66.0.1",
        ]
    );
    assert_eq!(end, Ok(()));
    assert_eq!(command_line(&net.cleanup().op), "ip link delete mch0123456789ab");
}

#[test]
fn every_wire_must_hold() {
    for broken in 3..12 {
        let (_, plan) = Network::setup("0123456789ab", 1, 7);
        let mut seen = 0;
        let (asked, end) = follow(plan, &mut |_| {
            seen += 1;
            if seen == broken + 1 {
                Reply::Exited("down".to_string())
            } else {
                Reply::Done
            }
        });
        assert_eq!(asked.len(), broken + 1);
        assert_eq!(end, Err(format!("network error: {}: down", asked[broken])));
    }
}

#[test]
fn addresses_and_names_differ() {
    let ip = |i: u8| Network::setup("abc", 1, i).0.container_ip;
    let mut all: Vec<String> = (0..=255).map(ip).collect();
    all.push("10.66.0.1".to_string());
    all.sort();
    all.dedup();
    assert_eq!(all.len(), 257);
    assert!(can_name_links("0123456789ab"));
    assert!(can_name_links("éééééé"));
    assert!(!can_name_links("abcdefghijké"));
    let long = Network::setup("0123456789abcdef", 1, 0).0;
    assert_eq!(long.host_veth, "mch0123456789ab");
    assert_eq!(long.host_veth.len(), 15);
}

#[test]
fn zero_is_no_limit() {
    let none = Resources { memory_max: 0, cpu_quota: 0, cpu_period: 100_000, pids_max: 0 };
    assert!(Cgroup::leaf("x").apply(&none).steps.is_empty());
}

#[test]
fn limits_are_written() {
    let r = Resources { memory_max: 67108864, cpu_quota: 50000, cpu_period: 100_000, pids_max: 64 };
    let cgroup = Cgroup::leaf("abc");
    assert_eq!(
        ops(&cgroup.apply(&r)),
        vec![
            "WriteFile { path: \"/sys/fs/cgroup/abc/memory.max\", contents: \"67108864\" }",
            "WriteFile { path: \"/sys/fs/cgroup/abc/memory.swap.max\", contents: \"0\" }",
            "WriteFile { path: \"/sys/fs/cgroup/abc/cpu.max\", contents: \"50000 100000\" }",
            "WriteFile { path: \"/sys/fs/cgroup/abc/pids.max\", contents: \"64\" }",
        ]
    );
    let (asked, end) = follow(cgroup.apply(&r), &mut |_| failed());
    assert_eq!(asked.len(), 1);
    assert_eq!(
        end,
        Err("cgroup error: write /sys/fs/cgroup/abc/memory.max=\"67108864\": EPERM".to_string())
    );
    assert_eq!(
        show(&cgroup.add_process(-1).op),
        "WriteFile { path: \"/sys/fs/cgroup/abc/cgroup.procs\", contents: \"-1\" }"
    );
    assert_eq!(show(&cgroup.cleanup().op), "RemoveDir(\"/sys/fs/cgroup/abc\")");
}

#[test]
fn the_cgroup_is_measured() {
    let cgroup = Cgroup::leaf("abc");
    let text = |s: &str| Some(s.to_string());
    assert_eq!(cgroup.peak_memory(&text("1234\n"), &text("99\n")), Some(1234));
    assert_eq!(cgroup.peak_memory(&None, &text("99\n")), Some(99));
    assert_eq!(cgroup.peak_memory(&text("max\n"), &text("99\n")), Some(99));
    assert_eq!(cgroup.peak_memory(&text(""), &None), None);
    let stat = "usage_usec 1500\nuser_usec 1000\nsystem_usec 500\n";
    assert_eq!(cgroup.cpu_usage_usec(&text(stat)), Some(1500));
    assert_eq!(cgroup.cpu_usage_usec(&text("nr_periods 0\nusage_usec 7")), Some(7));
    assert_eq!(cgroup.cpu_usage_usec(&text("usage_usec x\nusage_usec 7")), None);
    assert_eq!(cgroup.cpu_usage_usec(&text("user_usec 1")), None);
    assert_eq!(cgroup.cpu_usage_usec(&None), None);
    assert_eq!(show(&cgroup.peak_file()), "ReadFile(\"/sys/fs/cgroup/abc/memory.peak\")");
    assert_eq!(show(&cgroup.current_file()), "ReadFile(\"/sys/fs/cgroup/abc/memory.current\")");
    assert_eq!(show(&cgroup.stat_file()), "ReadFile(\"/sys/fs/cgroup/abc/cpu.stat\")");
}

#[test]
fn controllers_are_wanted_in_a_fixed_order() {
    assert_eq!(wanted_controllers("cpuset cpu io memory pids"), vec!["+memory", "+cpu", "+pids"]);
    assert_eq!(wanted_controllers("cpuset io"), Vec::<String>::new());
    assert_eq!(wanted_controllers("pids\n"), vec!["+pids"]);
    let want = vec!["+memory".to_string(), "+pids".to_string()];
    assert!(already_delegated(&want, "cpu memory pids\n"));
    assert!(!already_delegated(&want, "cpu memory"));
    assert!(!already_delegated(&want, ""));
}

/// Create a leaf with a host that answers as `host` says.
fn create(host: &mut dyn FnMut(&Op) -> Reply) -> (Vec<String>, Result<String, String>) {
    let mut asked = Vec::new();
    let mut creation: CgroupCreation = Cgroup::create("abc");
    loop {
        let reply = host(creation.op());
        asked.push(show(creation.op()));
        match creation.resume(reply) {
            CreationTurn::Ask(next) => creation = next,
            CreationTurn::Ended(Ok(cgroup)) => return (asked, Ok(cgroup.path)),
            CreationTurn::Ended(Err(e)) => return (asked, Err(e.message())),
        }
    }
}

#[test]
fn the_root_is_emptied_before_controllers_are_enabled() {
    let (asked, end) = create(&mut |op| match op {
        Op::ReadFile(p) if p.ends_with("controllers") => Reply::Text("cpu memory".to_string()),
        Op::ReadFile(p) if p.ends_with("subtree_control") => Reply::Text("\n".to_string()),
        Op::ReadFile(p) if p.ends_with("procs") => Reply::Text("1\n42\n".to_string()),
        _ => Reply::Done,
    });
    assert_eq!(
        asked,
        vec![
            "ReadFile(\"/sys/fs/cgroup/cgroup.controllers\")",
            "ReadFile(\"/sys/fs/cgroup/cgroup.subtree_control\")",
            "MakeDirs(\"/sys/fs/cgroup/mc.init\")",
            "ReadFile(\"/sys/fs/cgroup/cgroup.procs\")",
            "WriteFile { path: \"/sys/fs/cgroup/mc.init/cgroup.procs\", contents: \"1\" }",
            "WriteFile { path: \"/sys/fs/cgroup/mc.init/cgroup.procs\", contents: \"42\" }",
            "WriteFile { path: \"/sys/fs/cgroup/cgroup.subtree_control\", contents: \"+memory +cpu\" }",
            "MakeDirs(\"/sys/fs/cgroup/abc\")",
        ]
    );
    assert_eq!(end, Ok("/sys/fs/cgroup/abc".to_string()));
}

#[test]
fn controllers_are_delegated_once() {
    let (asked, end) = create(&mut |op| match op {
        Op::ReadFile(_) => Reply::Text("memory cpu pids".to_string()),
        _ => Reply::Done,
    });
    assert_eq!(asked.len(), 3);
    assert_eq!(asked[2], "MakeDirs(\"/sys/fs/cgroup/abc\")");
    assert_eq!(end, Ok("/sys/fs/cgroup/abc".to_string()));
}

#[test]
fn a_leaf_that_cannot_be_created_is_an_error() {
    let (_, end) = create(&mut |_| Reply::Failed("ENOENT".to_string()));
    assert_eq!(end, Err("cgroup error: read cgroup.controllers: ENOENT".to_string()));
    let (_, end) = create(&mut |_| Reply::Text("io".to_string()));
    assert_eq!(
        end,
        Err("cgroup error: no memory/cpu/pids controllers available (need cgroup v2, privileged)"
            .to_string())
    );
    let controllers = |op: &Op| match op {
        Op::ReadFile(p) if p.ends_with("controllers") => Some(Reply::Text("cpu".to_string())),
        _ => None,
    };
    let (_, end) = create(&mut |op| controllers(op).unwrap_or_else(failed));
    assert_eq!(end, Err("cgroup error: mkdir mc.init: EPERM".to_string()));
    let (asked, end) = create(&mut |op| match op {
        Op::MakeDirs(p) if p.ends_with("mc.init") => Reply::Done,
        _ => controllers(op).unwrap_or_else(failed),
    });
    assert_eq!(asked.len(), 5);
    assert_eq!(end, Err("cgroup error: enable +cpu: EPERM".to_string()));
    let (_, end) = create(&mut |op| match op {
        Op::MakeDirs(p) if p.ends_with("abc") => failed(),
        Op::ReadFile(_) => Reply::Text("cpu".to_string()),
        _ => Reply::Done,
    });
    assert_eq!(end, Err("cgroup error: mkdir /sys/fs/cgroup/abc: EPERM".to_string()));
}
