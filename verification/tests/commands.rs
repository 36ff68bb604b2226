use std::collections::BTreeMap;

use mincontainer::commands::{
    cmd_bench, cmd_create, cmd_info, cmd_logs, cmd_ps, cmd_rm, cmd_run, cmd_start, cmd_stop,
    configure, format_row, parse_binds, Session, SessionTurn, Settings,
};
use mincontainer::config::ContainerConfig;
use mincontainer::host::{Entry, Op, Reply, WaitStatus};
use mincontainer::state::{Change, ContainerState};

const HOME: &str = "/home/u";
const BASE: &str = "/home/u/.mincontainer/containers";

fn settings() -> Settings {
    Settings {
        rootfs: "./alpine".to_string(),
        memory: 67108864,
        binds: vec!["/data:/data".to_string()],
        cpu: 50000,
        pids: 64,
        net: true,
        no_seccomp: true,
        no_drop_caps: false,
        command: vec!["/bin/sh".to_string()],
    }
}

fn show(op: &Op) -> String {
    format!("{op:?}")
}

/// A host that keeps states and configurations, and on which containers run well.
struct Host {
    states: BTreeMap<String, ContainerState>,
    configs: BTreeMap<String, ContainerConfig>,
    fail: &'static str,
    out: String,
    err: Vec<String>,
    asked: Vec<String>,
}

impl Host {
    fn new() -> Self {
        Host {
            states: BTreeMap::new(),
            configs: BTreeMap::new(),
            fail: "nothing",
            out: String::new(),
            err: Vec::new(),
            asked: Vec::new(),
        }
    }

    fn failing(what: &'static str) -> Self {
        Host { fail: what, ..Host::new() }
    }

    fn perform(&mut self, op: &Op) -> Reply {
        let shown = show(op);
        self.asked.push(shown.clone());
        if shown.starts_with(self.fail) {
            return Reply::Failed("why".to_string());
        }
        match op {
            Op::Print(s) => {
                self.out.push_str(s);
                Reply::Done
            }
            Op::CopyToStdout(path) => {
                self.out.push_str(&format!("<{path}>"));
                Reply::Done
            }
            Op::Complain(s) => {
                self.err.push(s.clone());
                Reply::Done
            }
            Op::Exists(dir) => Reply::Flag(
                dir == BASE || self.states.keys().any(|k| k.starts_with(&format!("{dir}/"))),
            ),
            Op::ListDir(_) => Reply::Entries(
                self.states
                    .keys()
                    .map(|k| Entry::Item {
                        name: k[BASE.len() + 1..].split('/').next().map(|s| s.to_string()),
                        is_dir: true,
                    })
                    .collect(),
            ),
            Op::LoadState(path) => match self.states.get(path) {
                Some(s) => Reply::State(s.clone()),
                None => Reply::Failed("no state".to_string()),
            },
            Op::SaveState { path, state } => {
                self.states.insert(path.clone(), state.clone());
                Reply::Done
            }
            Op::LoadConfig(path) => match self.configs.get(path) {
                Some(c) => Reply::Config(c.clone()),
                None => Reply::Failed("no config".to_string()),
            },
            Op::SaveConfig { path, config } => {
                self.configs.insert(path.clone(), config.clone());
                Reply::Done
            }
            Op::RemoveTree(dir) => {
                let front = format!("{dir}/");
                self.states.retain(|k, _| !k.starts_with(&front));
                self.configs.retain(|k, _| !k.starts_with(&front));
                Reply::Done
            }
            Op::ReadFile(p) if p.ends_with("memory.peak") => Reply::Text("2097152".to_string()),
            Op::ReadFile(_) => Reply::Text("memory cpu pids".to_string()),
            Op::Fork => Reply::Pid(100),
            Op::ReceivePid => Reply::Pid(101),
            Op::Wait(_) => Reply::Status(WaitStatus::Exited(5)),
            Op::ReadClock => Reply::Nanos(self.asked.len() as u64),
            _ => Reply::Done,
        }
    }

    fn carry_out(&mut self, session: Session) -> i32 {
        let mut session = session;
        loop {
            let reply = self.perform(session.op());
            assert!(session.accepts(&reply));
            match session.resume(reply) {
                SessionTurn::Ask(next) => session = next,
                SessionTurn::Middle(_) => panic!("no child here"),
                SessionTurn::Exit(code) => return code,
            }
        }
    }

    fn state(&self, id: &str) -> &ContainerState {
        &self.states[&format!("{BASE}/{id}/state.json")]
    }
}

fn create(host: &mut Host, id: &str) -> i32 {
    host.carry_out(cmd_create(HOME.to_string(), Some(id.to_string()), settings()))
}

#[test]
fn create_saves_and_prints_the_id() {
    let mut host = Host::new();
    assert_eq!(create(&mut host, "web-server-01"), 0);
    assert_eq!(host.out, "web-server-01\n");
    assert!(host.err.is_empty());
    assert_eq!(host.state("web-server-01").status, "created");
    let cfg = &host.configs[&format!("{BASE}/web-server-01/config.json")];
    assert_eq!(cfg.id, "web-server-01");
    assert_eq!(cfg.rootfs, "./alpine");
    assert_eq!(cfg.command, vec!["/bin/sh"]);
    assert_eq!(cfg.resources.memory_max, 67108864);
    assert_eq!(cfg.resources.cpu_quota, 50000);
    assert_eq!(cfg.resources.cpu_period, 100_000);
    assert_eq!(cfg.resources.pids_max, 64);
    assert!(cfg.network);
    assert!(!cfg.seccomp);
    assert!(cfg.drop_caps);
    assert_eq!(cfg.volumes.len(), 1);
    assert_eq!(cfg.volumes[0].host_path, "/data");
    assert!(cfg.hostname.starts_with("mc-"));
    assert_ne!(cfg.hostname, "mc-web-server-0");
}

#[test]
fn create_without_an_id_draws_one() {
    let mut host = Host::new();
    assert_eq!(host.carry_out(cmd_create(HOME.to_string(), None, settings())), 0);
    let id = host.out.trim_end().to_string();
    assert_eq!(uuid::Uuid::parse_str(&id).unwrap().get_version_num(), 4);
    assert_eq!(host.state(&id).id, id);
}

#[test]
fn create_refuses_a_bad_bind_after_the_state_is_there() {
    let mut host = Host::new();
    let mut s = settings();
    s.binds.push("/a:/b:ro".to_string());
    let code = host.carry_out(cmd_create(HOME.to_string(), Some("x".to_string()), s));
    assert_eq!(code, 1);
    assert_eq!(host.err, vec!["[mincontainer] bad bind format (use /host:/container)"]);
    assert!(host.configs.is_empty());
    assert_eq!(host.state("x").status, "created");
}

#[test]
fn create_tells_what_failed() {
    for (what, label) in [
        ("SaveState", "create state: config error: write state: why"),
        ("SaveConfig", "save config: config error: write config: why"),
        ("MakeDirs", "init state: config error: mkdir state dir: why"),
    ] {
        let mut host = Host::failing(what);
        assert_eq!(create(&mut host, "x"), 1);
        assert_eq!(host.err, vec![format!("[mincontainer] {label}")]);
        assert_eq!(host.out, "");
    }
}

#[test]
fn start_runs_what_was_created() {
    let mut host = Host::new();
    create(&mut host, "web-server-01");
    let cfg = host.configs[&format!("{BASE}/web-server-01/config.json")].clone();
    host.asked.clear();
    assert_eq!(host.carry_out(cmd_start(HOME.to_string(), "web-server-01".to_string())), 5);
    let at = |s: &str| host.asked.iter().position(|o| o.contains(s)).unwrap();
    assert!(at("LoadConfig") < at("containers/web-server-01/stdout"));
    assert!(at("containers/web-server-01/stdout") < at("containers/web-server-01/stderr"));
    assert!(at("containers/web-server-01/stderr") < at("StartClock"));
    assert!(at(&format!("/sys/fs/cgroup/{}/memory.max", cfg.id)) < at("Fork"));
    let released = host.asked.iter().position(|o| o == "Release").unwrap();
    assert!(at("cgroup.procs\", contents: \"101\"") < at("status: \"running\""));
    assert!(at("status: \"running\"") < released);
    assert!(released < at("status: \"stopped\""));
    assert!(at("status: \"stopped\"") < at("ReportStart"));
    assert!(host.asked[at("ReportStart")].contains("exit_code: 5"));
    assert!(host.asked[at("ReportStart")].contains("peak_mem_bytes: 2097152"));
    let state = host.state("web-server-01");
    assert_eq!(state.status, "stopped");
    assert_eq!(state.exit_code, Some(5));
    assert_eq!(state.pid, None);
    assert!(state.started_at.is_some());
    assert!(state.stopped_at.is_some());
}

#[test]
fn a_started_container_can_be_stopped() {
    let mut host = Host::new();
    let id = || "web-server-01".to_string();
    let kills = |host: &Host| -> Vec<String> {
        host.asked.iter().filter(|o| o.starts_with("Kill")).cloned().collect()
    };
    assert_eq!(create(&mut host, "web-server-01"), 0);
    let mut session = cmd_start(HOME.to_string(), id());
    while !matches!(session.op(), Op::Release) {
        let reply = host.perform(session.op());
        session = match session.resume(reply) {
            SessionTurn::Ask(next) => next,
            _ => panic!("ended early"),
        };
    }
    for _ in 0..2 {
        assert_eq!(host.state("web-server-01").pid, Some(101));
        host.asked.clear();
        assert_eq!(host.carry_out(cmd_stop(HOME.to_string(), id())), 0);
        assert_eq!(
            kills(&host),
            vec!["Kill { pid: 101, signal: Term }", "Kill { pid: 101, signal: Kill }"]
        );
        if matches!(session.op(), Op::Release) {
            session = match session.resume(Reply::Done) {
                SessionTurn::Ask(next) => next,
                _ => panic!("ended early"),
            };
        }
    }
    assert!(matches!(session.op(), Op::Wait(100)));
    assert_eq!(host.carry_out(session), 5);
    host.asked.clear();
    assert_eq!(host.carry_out(cmd_stop(HOME.to_string(), id())), 0);
    assert!(kills(&host).is_empty());
}

#[test]
fn start_without_a_pid_ends_with_the_code_of_the_process_between() {
    let mut host = Host::failing("ReceivePid");
    create(&mut host, "web-server-01");
    assert_eq!(host.carry_out(cmd_start(HOME.to_string(), "web-server-01".to_string())), 5);
    assert!(host.err.is_empty());
    assert!(!host.asked.contains(&"Release".to_string()));
    let state = host.state("web-server-01");
    assert_eq!(state.status, "stopped");
    assert_eq!(state.exit_code, Some(5));
    assert_eq!(state.pid, None);
    assert_eq!(state.started_at, None);
}

#[test]
fn start_notes_a_container_that_could_not_run() {
    let mut host = Host::failing("Fork");
    create(&mut host, "web-server-01");
    assert_eq!(host.carry_out(cmd_start(HOME.to_string(), "web-server-01".to_string())), 1);
    assert_eq!(host.err, vec!["[mincontainer] error: syscall fork failed: why"]);
    let state = host.state("web-server-01");
    assert_eq!(state.status, "stopped");
    assert_eq!(state.exit_code, Some(127));
}

#[test]
fn start_tells_what_failed() {
    for (what, label) in [
        ("LoadConfig", "read config: why"),
        ("CreateFile(\"/home/u/.mincontainer/containers/web-server-01/stdout", "create stdout: why"),
        ("CreateFile(\"/home/u/.mincontainer/containers/web-server-01/stderr", "create stderr: why"),
    ] {
        let mut host = Host::failing(what);
        create(&mut host, "web-server-01");
        assert_eq!(host.carry_out(cmd_start(HOME.to_string(), "web-server-01".to_string())), 1);
        assert_eq!(host.err, vec![format!("[mincontainer] {label}")]);
    }
    let mut session = cmd_start(HOME.to_string(), "web-server-01".to_string());
    for reply in [Reply::Done, Reply::Flag(true), Reply::Malformed("line 1".to_string())] {
        session = match session.resume(reply) {
            SessionTurn::Ask(next) => next,
            _ => panic!("ended early"),
        };
    }
    assert_eq!(show(session.op()), "Complain(\"[mincontainer] parse config: line 1\")");
}

#[test]
fn start_refuses_a_network_without_a_name() {
    let mut session = cmd_start(HOME.to_string(), "x".to_string());
    for reply in [Reply::Done, Reply::Flag(true)] {
        session = match session.resume(reply) {
            SessionTurn::Ask(next) => next,
            _ => panic!("ended early"),
        };
    }
    let (mut cfg, good) = configure("x".to_string(), "y".to_string(), settings());
    assert!(good);
    assert!(!session.accepts(&Reply::Config(cfg.clone())));
    cfg.network = false;
    assert!(session.accepts(&Reply::Config(cfg)));
}

#[test]
fn missing_containers_are_told() {
    let id = || "nobody".to_string();
    let home = || HOME.to_string();
    for session in [cmd_start(home(), id()), cmd_logs(home(), id()), cmd_rm(home(), id())] {
        let mut host = Host::new();
        assert_eq!(host.carry_out(session), 1);
        assert_eq!(host.err, vec!["[mincontainer] container nobody not found"]);
    }
    let mut host = Host::new();
    assert_eq!(host.carry_out(cmd_stop(home(), id())), 1);
    assert_eq!(
        host.err,
        vec!["[mincontainer] get container: config error: container nobody not found"]
    );
}

#[test]
fn every_command_creates_the_state_directory_first() {
    let id = || "x".to_string();
    let home = || HOME.to_string();
    for session in [
        cmd_start(home(), id()),
        cmd_stop(home(), id()),
        cmd_ps(home()),
        cmd_logs(home(), id()),
        cmd_rm(home(), id()),
    ] {
        let mut host = Host::failing("MakeDirs");
        assert_eq!(host.carry_out(session), 1);
        assert_eq!(host.asked[0], format!("MakeDirs(\"{BASE}\")"));
        assert_eq!(host.err, vec!["[mincontainer] init state: config error: mkdir state dir: why"]);
    }
}

#[test]
fn stop_ends_the_process_of_a_running_container() {
    let mut host = Host::new();
    create(&mut host, "x");
    host.asked.clear();
    assert_eq!(host.carry_out(cmd_stop(HOME.to_string(), "x".to_string())), 0);
    assert!(!host.asked.iter().any(|o| o.starts_with("Kill")));
    let path = format!("{BASE}/x/state.json");
    let running = host.states[&path].clone().with_change(Change::Running(42), "now".to_string());
    host.states.insert(path, running);
    host.asked.clear();
    assert_eq!(host.carry_out(cmd_stop(HOME.to_string(), "x".to_string())), 0);
    assert_eq!(
        host.asked[host.asked.len() - 3..],
        [
            "Kill { pid: 42, signal: Term }".to_string(),
            "Sleep(500)".to_string(),
            "Kill { pid: 42, signal: Kill }".to_string(),
        ]
    );
}

#[test]
fn ps_shows_a_line_for_each_container() {
    let mut host = Host::new();
    create(&mut host, "alpha");
    create(&mut host, "beta");
    let path = format!("{BASE}/beta/state.json");
    let running = host.states[&path].clone().with_change(Change::Running(42), "now".to_string());
    host.states.insert(path, running);
    host.out.clear();
    assert_eq!(host.carry_out(cmd_ps(HOME.to_string())), 0);
    assert_eq!(
        host.out,
        "ID                              STATUS    PID\n\
         alpha                            created   -\n\
         beta                             running   42\n"
    );
    let mut host = Host::failing("ListDir");
    assert_eq!(host.carry_out(cmd_ps(HOME.to_string())), 1);
    assert_eq!(
        host.err,
        vec!["[mincontainer] list containers: config error: list containers: why"]
    );
}

#[test]
fn a_line_shows_the_first_32_bytes_of_an_id() {
    let id = "0a1b2c3d-4e5f-4a6b-8c7d-9e8f7a6b5c4d";
    let state = ContainerState::created_at(id.to_string(), "now".to_string());
    assert_eq!(
        format_row(&state),
        format!("{:<32} {:<9} {}\n", &id[..32], "created", "-")
    );
    let mut session = cmd_ps(HOME.to_string());
    for reply in [
        Reply::Done,
        Reply::Flag(true),
        Reply::Entries(vec![Entry::Item { name: Some("a".to_string()), is_dir: true }]),
        Reply::Flag(true),
    ] {
        session = match session.resume(reply) {
            SessionTurn::Ask(next) => next,
            _ => panic!("ended early"),
        };
    }
    let odd = |id: &str| Reply::State(ContainerState::new(id.to_string()));
    assert!(session.accepts(&odd(id)));
    assert!(!session.accepts(&odd("abcdefghijklmnopqrstuvwxyz01234é")));
}

#[test]
fn logs_show_both_files() {
    let mut host = Host::new();
    create(&mut host, "x");
    host.out.clear();
    assert_eq!(host.carry_out(cmd_logs(HOME.to_string(), "x".to_string())), 0);
    assert_eq!(
        host.out,
        format!("=== STDOUT ===\n<{BASE}/x/stdout>\n=== STDERR ===\n<{BASE}/x/stderr>")
    );
}

#[test]
fn rm_removes_the_container() {
    let mut host = Host::new();
    create(&mut host, "x");
    host.out.clear();
    assert_eq!(host.carry_out(cmd_rm(HOME.to_string(), "x".to_string())), 0);
    assert_eq!(host.out, "Removed x\n");
    assert!(host.states.is_empty());
    assert_eq!(host.carry_out(cmd_rm(HOME.to_string(), "x".to_string())), 1);
    assert_eq!(host.err, vec!["[mincontainer] container x not found"]);
    let mut host = Host::failing("RemoveTree");
    create(&mut host, "x");
    assert_eq!(host.carry_out(cmd_rm(HOME.to_string(), "x".to_string())), 1);
    assert_eq!(
        host.err,
        vec![format!("[mincontainer] cleanup: config error: cleanup {BASE}/x: why")]
    );
}

#[test]
fn run_ends_with_the_code_of_the_container() {
    let mut host = Host::new();
    let mut s = settings();
    s.binds.push("nonsense".to_string());
    assert_eq!(host.carry_out(cmd_run(HOME.to_string(), s, true)), 5);
    let told = host.asked.last().unwrap();
    assert!(told.starts_with("ReportRun"));
    assert!(told.contains("json: true"));
    assert!(told.contains("container_ip: Some(\"10.66.0.2\")"));
    assert!(host.states.is_empty());
    let mut host = Host::failing("OpenPipe");
    assert_eq!(host.carry_out(cmd_run(HOME.to_string(), settings(), false)), 1);
    assert_eq!(host.err, vec!["[mincontainer] error: io error: why"]);
}

#[test]
fn run_becomes_the_middle_process_in_the_child() {
    let mut session = cmd_run(HOME.to_string(), settings(), false);
    let mut host = Host::new();
    loop {
        let reply = match session.op() {
            Op::Fork => Reply::Child,
            op => host.perform(op),
        };
        session = match session.resume(reply) {
            SessionTurn::Ask(next) => next,
            SessionTurn::Middle(m) => {
                assert_eq!(m.cfg.rootfs, "./alpine");
                assert_eq!(m.cfg.command, vec!["/bin/sh"]);
                return;
            }
            SessionTurn::Exit(_) => panic!("ended early"),
        };
    }
}

#[test]
fn bench_runs_and_tells_the_figures() {
    let mut host = Host::new();
    let session =
        cmd_bench(HOME.to_string(), "/r".to_string(), 4, 1024, vec![]);
    assert_eq!(host.carry_out(session), 0);
    assert_eq!(host.asked[0], "AnnounceBench { runs: 4, command: [\"/bin/true\"] }");
    assert_eq!(host.asked.iter().filter(|o| o.starts_with("Fork")).count(), 4);
    assert_eq!(host.asked.iter().filter(|o| o.contains("memory.max\", contents: \"1024\"")).count(), 4);
    assert_eq!(host.asked.iter().filter(|o| o.contains("pids.max\", contents: \"128\"")).count(), 4);
    let told = host.asked.last().unwrap();
    assert!(told.contains("memory: Spread { sorted: [2097152, 2097152, 2097152, 2097152] }"));
}

#[test]
fn bench_stops_at_the_first_failure() {
    let mut host = Host::failing("Fork");
    let command = vec!["/bin/date".to_string()];
    let session = cmd_bench(HOME.to_string(), "/r".to_string(), 4, 1024, command);
    assert_eq!(host.carry_out(session), 1);
    assert_eq!(host.asked[0], "AnnounceBench { runs: 4, command: [\"/bin/date\"] }");
    assert_eq!(host.err, vec!["[bench] run 0 failed: syscall fork failed: why"]);
    let mut host = Host::new();
    let session = cmd_bench(HOME.to_string(), "/r".to_string(), 0, 1024, vec![]);
    assert_eq!(host.carry_out(session), 0);
    assert!(host.asked[1].contains("setup: Spread { sorted: [] }"));
}

#[test]
fn each_run_of_a_benchmark_has_an_id_of_its_own() {
    let mut host = Host::new();
    let session = cmd_bench(HOME.to_string(), "/r".to_string(), 3, 1024, vec![]);
    host.carry_out(session);
    let mut leaves: Vec<&String> =
        host.asked.iter().filter(|o| o.starts_with("RemoveDir")).collect();
    leaves.sort();
    leaves.dedup();
    assert_eq!(leaves.len(), 3);
}

#[test]
fn info_counts_what_is_taken_away() {
    let mut host = Host::new();
    assert_eq!(host.carry_out(cmd_info(HOME.to_string())), 0);
    assert_eq!(
        host.out,
        "mincontainer — isolation applied per container:\n  \
         namespaces : PID, mount, UTS, IPC, network (5)\n  \
         rootfs     : pivot_root + private mounts, fresh /proc and /dev\n  \
         cgroup v2  : memory.max, cpu.max, pids.max + peak-memory/cpu accounting\n  \
         network    : veth pair into a bridge, per-container IP, NAT egress\n  \
         volumes    : bind mounts (--bind /host:/container)\n  \
         seccomp    : default-allow BPF filter, 15 syscalls denied (EPERM)\n  \
         caps       : 9 dangerous capabilities dropped from the bounding set\n"
    );
}

#[test]
fn last_words_are_said_whatever_the_host_answers() {
    let mut host = Host::new();
    create(&mut host, "x");
    let mut session = cmd_logs(HOME.to_string(), "x".to_string());
    let mut said = 0;
    loop {
        let reply = match session.op() {
            Op::Print(_) | Op::CopyToStdout(_) => {
                said += 1;
                Reply::Failed("EPIPE".to_string())
            }
            op => host.perform(op),
        };
        match session.resume(reply) {
            SessionTurn::Ask(next) => session = next,
            SessionTurn::Exit(code) => {
                assert_eq!(code, 0);
                assert_eq!(said, 4);
                return;
            }
            SessionTurn::Middle(_) => panic!("no child here"),
        }
    }
}

#[test]
fn binds_are_pairs_of_paths() {
    let list = |l: &[&str]| l.iter().map(|s| s.to_string()).collect::<Vec<String>>();
    let (volumes, good) = parse_binds(&list(&["/a:/b", "bad", "/c:/d"]));
    assert!(!good);
    assert_eq!(volumes.len(), 2);
    assert_eq!(volumes[1].host_path, "/c");
    assert_eq!(volumes[1].container_path, "/d");
    let (volumes, good) = parse_binds(&list(&[]));
    assert!(good);
    assert!(volumes.is_empty());
}

#[test]
fn every_command_ends_whatever_the_host_answers() {
    let id = || "x".to_string();
    let home = || HOME.to_string();
    let sessions: Vec<fn(String, String) -> Session> = vec![
        |h, i| cmd_create(h, Some(i), settings()),
        cmd_start,
        cmd_stop,
        |h, _| cmd_ps(h),
        cmd_logs,
        cmd_rm,
        |h, _| cmd_run(h, settings(), false),
        |h, _| cmd_bench(h, "/r".to_string(), 3, 1, vec![]),
        |h, _| cmd_info(h),
    ];
    let answers: Vec<fn() -> Reply> = vec![
        || Reply::Done,
        || Reply::Flag(true),
        || Reply::Failed("no".to_string()),
        || Reply::Pid(1),
        || Reply::Child,
        || Reply::Text("memory".to_string()),
        || Reply::Status(WaitStatus::Other),
        || Reply::Entries(vec![]),
    ];
    for start in &sessions {
        for answer in &answers {
            let mut session = start(home(), id());
            let mut steps = 0;
            loop {
                steps += 1;
                assert!(steps < 100);
                match session.resume(answer()) {
                    SessionTurn::Ask(next) => session = next,
                    _ => break,
                }
            }
        }
    }
}
