use mincontainer::config::{ContainerConfig, Volume};
use mincontainer::container::{
    can_run, code_of, grandchild, reap, run, run_noted, Launch, LaunchTurn, Metrics, Middle,
    MiddleTurn, Record,
};
use mincontainer::host::{Op, Reply, WaitStatus};
use mincontainer::state::ContainerState;

const ID: &str = "0a1b2c3d-4e5f-4a6b-8c7d-9e8f7a6b5c4d";

fn config() -> ContainerConfig {
    ContainerConfig::with_id(
        ID.to_string(),
        "/srv/root".to_string(),
        vec!["/bin/sh".to_string(), "-c".to_string(), "exit 3".to_string()],
    )
}

fn show(op: &Op) -> String {
    format!("{op:?}")
}

enum End {
    Middle,
    Ended(Result<Metrics, String>),
}

/// Run a container with a host that answers as `host` says.
fn launch(cfg: &ContainerConfig, host: &mut dyn FnMut(&Op) -> Reply) -> (Vec<String>, End) {
    follow(run(cfg, 3), host)
}

fn follow(launch: Launch, host: &mut dyn FnMut(&Op) -> Reply) -> (Vec<String>, End) {
    let mut asked = Vec::new();
    let mut launch = launch;
    loop {
        let reply = host(launch.op());
        asked.push(show(launch.op()));
        match launch.resume(reply) {
            LaunchTurn::Ask(next) => launch = next,
            LaunchTurn::Middle(_) => return (asked, End::Middle),
            LaunchTurn::Ended(r) => return (asked, End::Ended(r.map_err(|e| e.message()))),
        }
    }
}

/// What a host answers on which all goes well.
fn good(op: &Op) -> Reply {
    match op {
        Op::ReadFile(p) if p.ends_with("memory.peak") => Reply::Text("4096\n".to_string()),
        Op::ReadFile(p) if p.ends_with("cpu.stat") => Reply::Text("usage_usec 12\n".to_string()),
        Op::ReadFile(_) => Reply::Text("memory cpu pids".to_string()),
        Op::Fork => Reply::Pid(100),
        Op::ReceivePid => Reply::Pid(101),
        Op::Wait(_) => Reply::Status(WaitStatus::Exited(3)),
        Op::ReadClock => Reply::Nanos(1500),
        _ => Reply::Done,
    }
}

fn metrics(end: End) -> Metrics {
    match end {
        End::Ended(Ok(m)) => m,
        _ => panic!("no metrics"),
    }
}

fn error(end: End) -> String {
    match end {
        End::Ended(Err(e)) => e,
        _ => panic!("no error"),
    }
}

#[test]
fn a_run_attaches_releases_and_cleans_up() {
    let leaf = format!("/sys/fs/cgroup/{ID}");
    let (asked, end) = launch(&config(), &mut good);
    assert_eq!(
        asked,
        vec![
            "StartClock".to_string(),
            "ReadFile(\"/sys/fs/cgroup/cgroup.controllers\")".to_string(),
            "ReadFile(\"/sys/fs/cgroup/cgroup.subtree_control\")".to_string(),
            format!("MakeDirs(\"{leaf}\")"),
            format!("WriteFile {{ path: \"{leaf}/memory.max\", contents: \"134217728\" }}"),
            format!("WriteFile {{ path: \"{leaf}/memory.swap.max\", contents: \"0\" }}"),
            format!("WriteFile {{ path: \"{leaf}/pids.max\", contents: \"128\" }}"),
            "OpenPipe(Release)".to_string(),
            "OpenPipe(Pid)".to_string(),
            "Fork".to_string(),
            "Close { pipe: Release, end: Read }".to_string(),
            "Close { pipe: Pid, end: Write }".to_string(),
            "ReceivePid".to_string(),
            format!("WriteFile {{ path: \"{leaf}/cgroup.procs\", contents: \"101\" }}"),
            "ReadClock".to_string(),
            "Release".to_string(),
            "Wait(100)".to_string(),
            "ReadClock".to_string(),
            format!("ReadFile(\"{leaf}/memory.peak\")"),
            format!("ReadFile(\"{leaf}/cpu.stat\")"),
            format!("RemoveDir(\"{leaf}\")"),
        ]
    );
    let m = metrics(end);
    assert_eq!(m.id, ID);
    assert_eq!(m.exit_code, 3);
    assert_eq!(m.setup_nanos, 1500);
    assert_eq!(m.wall_nanos, 1500);
    assert_eq!(m.peak_mem_bytes, 4096);
    assert_eq!(m.cpu_usec, 12);
    assert_eq!(m.container_ip, None);
}

#[test]
fn a_container_with_a_network_is_wired_before_it_is_released() {
    let mut cfg = config();
    cfg.network = true;
    assert!(can_run(&cfg));
    let (asked, end) = launch(&cfg, &mut good);
    let at = |s: &str| asked.iter().position(|o| o.contains(s)).unwrap();
    assert!(at("cgroup.procs\", contents: \"101\"") < at("mch0a1b2c3d-4e5"));
    let released = asked.iter().position(|o| o == "Release").unwrap();
    assert!(at("\"default\", \"via\"") < released);
    assert!(released < at("\"delete\", \"mch0a1b2c3d-4e5\""));
    assert!(at("\"delete\"") < at("RemoveDir"));
    assert_eq!(metrics(end).container_ip, Some("10.66.0.5".to_string()));
}

#[test]
fn a_network_needs_an_id_to_be_named_after() {
    let mut cfg = config();
    cfg.id = "short".to_string();
    assert!(can_run(&cfg));
    cfg.network = true;
    assert!(!can_run(&cfg));
    cfg.id = "abcdefghijké".to_string();
    assert!(!can_run(&cfg));
    cfg.id = "abcdefghijkl".to_string();
    assert!(can_run(&cfg));
}

#[test]
fn a_random_id_always_runs() {
    for _ in 0..20 {
        let mut cfg = ContainerConfig::new("/".to_string(), vec!["x".to_string()]);
        cfg.network = true;
        assert!(can_run(&cfg));
    }
}

#[test]
fn the_runtime_stays_on_the_host() {
    let mut cfg = config();
    cfg.network = true;
    cfg.volumes.push(Volume { host_path: "/a".to_string(), container_path: "/b".to_string() });
    let (asked, _) = launch(&cfg, &mut good);
    for word in ["Unshare", "Mount", "PivotRoot", "ChangeDir", "Capabilit", "InstallFilter", "Exec"]
    {
        assert!(!asked.iter().any(|o| o.starts_with(word)));
    }
}

#[test]
fn memory_falls_back_to_what_is_used_now() {
    let (asked, end) = launch(&config(), &mut |op| match op {
        Op::ReadFile(p) if p.ends_with("memory.peak") => Reply::Failed("ENOENT".to_string()),
        Op::ReadFile(p) if p.ends_with("memory.current") => Reply::Text("77\n".to_string()),
        Op::ReadFile(p) if p.ends_with("cpu.stat") => Reply::Failed("ENOENT".to_string()),
        _ => good(op),
    });
    assert!(asked.iter().any(|o| o.contains("memory.current")));
    let m = metrics(end);
    assert_eq!(m.peak_mem_bytes, 77);
    assert_eq!(m.cpu_usec, 0);
    let (_, end) = launch(&config(), &mut |op| match op {
        Op::ReadFile(p) if p.contains(ID) => Reply::Failed("ENOENT".to_string()),
        _ => good(op),
    });
    assert_eq!(metrics(end).peak_mem_bytes, 0);
}

#[test]
fn the_process_after_the_fork_is_the_middle_one() {
    let (asked, end) = launch(&config(), &mut |op| match op {
        Op::Fork => Reply::Child,
        _ => good(op),
    });
    assert!(matches!(end, End::Middle));
    assert!(asked.iter().any(|o| o.contains("pids.max")));
}

#[test]
fn each_failure_of_a_run_is_told() {
    let fails = |what: &'static str| {
        move |op: &Op| {
            if show(op).starts_with(what) {
                Reply::Failed("why".to_string())
            } else {
                good(op)
            }
        }
    };
    let end = |what: &'static str| error(launch(&config(), &mut fails(what)).1);
    assert_eq!(
        end("ReadFile(\"/sys/fs/cgroup/cgroup.controllers"),
        "cgroup error: read cgroup.controllers: why"
    );
    assert_eq!(end("OpenPipe"), "io error: why");
    assert_eq!(end("Fork"), "syscall fork failed: why");
    assert_eq!(end("Wait"), "syscall waitpid failed: why");
    let (asked, failed) = launch(&config(), &mut |op| match op {
        Op::WriteFile { path, .. } if path.ends_with("cgroup.procs") => {
            Reply::Failed("why".to_string())
        }
        _ => good(op),
    });
    assert_eq!(
        error(failed),
        format!("cgroup error: write /sys/fs/cgroup/{ID}/cgroup.procs=\"101\": why")
    );
    assert!(!asked.contains(&"Release".to_string()));
}

#[test]
fn a_container_that_sends_no_pid_is_waited_for_and_not_attached() {
    let replies: Vec<fn() -> Reply> = vec![
        || Reply::Failed("no pid".to_string()),
        || Reply::Done,
        || Reply::Pid(0),
        || Reply::Pid(-1),
        || Reply::Pid(i32::MIN),
    ];
    let mut cfg = config();
    cfg.network = true;
    for reply in replies {
        let (asked, end) = follow(run_noted(&cfg, 3, record()), &mut |op| match op {
            Op::ReceivePid => reply(),
            Op::Wait(_) => Reply::Status(WaitStatus::Exited(127)),
            _ => good(op),
        });
        let at = asked.iter().position(|o| o == "ReceivePid").unwrap();
        assert_eq!(
            asked[at + 1..],
            [
                "ReadClock".to_string(),
                "Close { pipe: Release, end: Write }".to_string(),
                "Wait(100)".to_string(),
                "ReadClock".to_string(),
                format!("ReadFile(\"/sys/fs/cgroup/{ID}/memory.peak\")"),
                format!("ReadFile(\"/sys/fs/cgroup/{ID}/cpu.stat\")"),
                format!("RemoveDir(\"/sys/fs/cgroup/{ID}\")"),
            ]
        );
        assert!(!asked.iter().any(|o| o.contains("cgroup.procs\"")));
        let m = metrics(end);
        assert_eq!(m.exit_code, 127);
        assert_eq!(m.container_ip, None);
        assert_eq!(m.setup_nanos, 1500);
        assert_eq!(m.wall_nanos, 1500);
    }
    let (_, end) = launch(&cfg, &mut |op| match op {
        Op::ReceivePid | Op::Wait(_) => Reply::Failed("why".to_string()),
        _ => good(op),
    });
    assert_eq!(error(end), "syscall waitpid failed: why");
}

fn record() -> Record {
    Record { home: "/h".to_string(), id: "abc".to_string(), at: "noon".to_string() }
}

#[test]
fn a_container_is_noted_as_running_before_it_is_released() {
    let mut saved: Option<ContainerState> = None;
    let (asked, end) = follow(run_noted(&config(), 3, record()), &mut |op| match op {
        Op::LoadState(_) => {
            Reply::State(ContainerState::created_at("abc".to_string(), "dawn".to_string()))
        }
        Op::SaveState { path, state } => {
            assert_eq!(path, "/h/.mincontainer/containers/abc/state.json");
            saved = Some(state.clone());
            Reply::Done
        }
        _ => good(op),
    });
    let at = |s: &str| asked.iter().position(|o| o.starts_with(s)).unwrap();
    assert_eq!(asked[at("LoadState")], "LoadState(\"/h/.mincontainer/containers/abc/state.json\")");
    assert_eq!(at("LoadState") + 1, at("SaveState"));
    assert!(asked[at("LoadState") - 1].contains("cgroup.procs"));
    assert_eq!(at("SaveState") + 2, at("Release"));
    assert_eq!(metrics(end).exit_code, 3);
    let saved = saved.unwrap();
    assert_eq!(saved.status, "running");
    assert_eq!(saved.pid, Some(101));
    assert_eq!(saved.started_at, Some("noon".to_string()));
    assert_eq!(saved.created_at, "dawn");
}

#[test]
fn a_container_runs_though_it_cannot_be_noted() {
    for broken in ["LoadState", "SaveState"] {
        let (asked, end) = follow(run_noted(&config(), 3, record()), &mut |op| {
            if show(op).starts_with(broken) {
                Reply::Failed("full".to_string())
            } else if matches!(op, Op::LoadState(_)) {
                Reply::State(ContainerState::new("abc".to_string()))
            } else {
                good(op)
            }
        });
        assert!(asked.contains(&"Release".to_string()));
        assert_eq!(metrics(end).exit_code, 3);
    }
}

#[test]
fn exit_codes_are_relayed() {
    assert_eq!(code_of(WaitStatus::Exited(42), -1), 42);
    assert_eq!(code_of(WaitStatus::Signaled(9), -1), 137);
    assert_eq!(code_of(WaitStatus::Signaled(255), 1), 383);
    assert_eq!(code_of(WaitStatus::Other, -1), -1);
    assert_eq!(code_of(WaitStatus::Other, 1), 1);
    let (_, end) = launch(&config(), &mut |op| match op {
        Op::Wait(_) => Reply::Status(WaitStatus::Signaled(15)),
        _ => good(op),
    });
    assert_eq!(metrics(end).exit_code, 143);
    let (_, end) = launch(&config(), &mut |op| match op {
        Op::Wait(_) => Reply::Status(WaitStatus::Other),
        _ => good(op),
    });
    assert_eq!(metrics(end).exit_code, -1);
    assert_eq!(show(&reap(7).op), "Wait(7)");
}

/// Follow the middle process with a host that answers as `host` says.
fn middle(cfg: ContainerConfig, host: &mut dyn FnMut(&Op) -> Reply) -> (Vec<String>, i32) {
    let mut asked = Vec::new();
    let mut middle = Middle::start(cfg);
    loop {
        let reply = host(middle.op());
        asked.push(show(middle.op()));
        match middle.resume(reply) {
            MiddleTurn::Ask(next) => middle = next,
            MiddleTurn::Exit(code) => return (asked, code),
        }
    }
}

#[test]
fn the_middle_process_waits_for_the_container() {
    let (asked, code) = middle(config(), &mut |op| match op {
        Op::Fork => Reply::Pid(55),
        Op::Wait(55) => Reply::Status(WaitStatus::Signaled(9)),
        _ => Reply::Done,
    });
    assert_eq!(
        asked,
        vec![
            "Close { pipe: Release, end: Write }",
            "Close { pipe: Pid, end: Read }",
            "Unshare([Pid, Mount, Uts, Ipc, Net])",
            "Fork",
            "SendPid(55)",
            "Wait(55)",
        ]
    );
    assert_eq!(code, 137);
    let (_, code) = middle(config(), &mut |op| match op {
        Op::Fork => Reply::Pid(55),
        Op::Wait(_) => Reply::Failed("ECHILD".to_string()),
        _ => Reply::Done,
    });
    assert_eq!(code, 1);
}

fn child(op: &Op) -> Reply {
    match op {
        Op::Fork => Reply::Child,
        Op::Exec { .. } => Reply::Failed("ENOENT: No such file or directory".to_string()),
        _ => Reply::Done,
    }
}

#[test]
fn the_container_is_isolated_before_its_command_runs() {
    let mut cfg = config();
    cfg.volumes.push(Volume { host_path: "/data".to_string(), container_path: "/mnt".to_string() });
    let (asked, code) = middle(cfg, &mut child);
    let at = |s: &str| asked.iter().position(|o| o.contains(s)).unwrap();
    let exec = at("Exec {");
    assert!(at("Unshare") < at("Fork"));
    assert!(at("Fork") < at("AwaitRelease"));
    assert!(at("AwaitRelease") < at("SetHostname(\"mc-0a1b2c3d-4e5\")"));
    assert!(at("SetHostname") < at("source: Some(\"/data\"), target: \"/srv/root/mnt\""));
    assert!(at("target: \"/srv/root/mnt\"") < at("PivotRoot"));
    assert!(at("PivotRoot") < at("\"proc\""));
    assert!(at("\"proc\"") < at("DropCapability"));
    assert!(at("ClearCapabilities") + 1 == at("InstallFilter"));
    assert!(at("InstallFilter") + 1 == exec);
    assert_eq!(asked.iter().filter(|o| o.starts_with("DropCapability")).count(), 36);
    assert_eq!(
        asked[exec + 1],
        "Complain(\"mincontainer: container setup failed: syscall execvpe failed: ENOENT: No \
         such file or directory\")"
    );
    assert_eq!(asked.len(), exec + 2);
    assert_eq!(code, 127);
}

#[test]
fn hardening_can_be_switched_off() {
    let mut cfg = config();
    cfg.drop_caps = false;
    cfg.seccomp = false;
    let plan = grandchild(&cfg);
    let all: Vec<String> = plan.steps.iter().map(|s| show(&s.op)).collect();
    assert_eq!(all.len(), 2 + 19 + 1);
    assert_eq!(all[21], "ChangeDir(\"/\")");
    cfg.seccomp = true;
    assert_eq!(grandchild(&cfg).steps.len(), 23);
    cfg.drop_caps = true;
    assert_eq!(grandchild(&cfg).steps.len(), 96);
}

#[test]
fn each_failure_of_the_setup_is_told_once() {
    let fails = |what: &'static str| {
        let (asked, code) = middle(config(), &mut |op| {
            if show(op).starts_with(what) {
                Reply::Failed("EPERM".to_string())
            } else {
                child(op)
            }
        });
        assert_eq!(code, 127);
        assert_eq!(asked.iter().filter(|o| o.starts_with("Complain")).count(), 1);
        assert!(!asked.iter().any(|o| o.starts_with("Exec")));
        asked.last().unwrap().clone()
    };
    assert_eq!(fails("Unshare"), "Complain(\"mincontainer: unshare failed: EPERM\")");
    assert_eq!(fails("Fork"), "Complain(\"mincontainer: fork failed: EPERM\")");
    assert_eq!(
        fails("AwaitRelease"),
        "Complain(\"mincontainer: container setup failed: io error: EPERM\")"
    );
    assert_eq!(
        fails("SetHostname"),
        "Complain(\"mincontainer: container setup failed: syscall sethostname failed: EPERM\")"
    );
    assert_eq!(
        fails("MakeDirs(\".oldroot\")"),
        "Complain(\"mincontainer: container setup failed: filesystem error: mkdir .oldroot: \
         EPERM\")"
    );
    assert_eq!(
        fails("InstallFilter"),
        "Complain(\"mincontainer: container setup failed: seccomp error: apply filter: EPERM\")"
    );
    assert_eq!(
        fails("ChangeDir(\"/\")"),
        "Complain(\"mincontainer: container setup failed: syscall chdir(/) post-pivot failed: \
         EPERM\")"
    );
}

#[test]
fn a_program_name_holds_no_nul() {
    let mut cfg = config();
    cfg.command[0] = "/bin\0/sh".to_string();
    let (asked, code) = middle(cfg, &mut child);
    assert_eq!(
        asked.last().unwrap(),
        "Complain(\"mincontainer: container setup failed: config error: command contains NUL\")"
    );
    assert_eq!(code, 127);
    assert!(!asked.iter().any(|o| o.starts_with("Exec")));
}

#[test]
fn the_middle_process_ends_whatever_the_host_answers() {
    let answers: Vec<fn() -> Reply> = vec![
        || Reply::Done,
        || Reply::Failed("no".to_string()),
        || Reply::Pid(1),
        || Reply::Child,
        || Reply::Status(WaitStatus::Other),
    ];
    for answer in &answers {
        for fork in &answers {
            let (asked, _) = middle(config(), &mut |op| match op {
                Op::Fork => fork(),
                _ => answer(),
            });
            assert!(asked.len() < 100);
        }
    }
}
