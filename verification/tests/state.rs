use std::collections::BTreeMap;

use mincontainer::config::ContainerConfig;
use mincontainer::host::{Entry, Op, Reply};
use mincontainer::plan::{PlanRun, PlanTurn};
use mincontainer::state::{
    get_container, home_dir, init_container, list_all, named_containers, set_ended, set_running,
    set_stopped, Change, ContainerState, ContainerStateDir, ListingTurn, LookupTurn, Update,
    UpdateTurn,
};

/// A host that keeps states.
struct Shelf {
    files: BTreeMap<String, ContainerState>,
    broken: bool,
}

impl Shelf {
    fn new() -> Self {
        Shelf { files: BTreeMap::new(), broken: false }
    }

    fn perform(&mut self, op: &Op) -> Reply {
        match op {
            Op::LoadState(path) => match self.files.get(path) {
                Some(s) => Reply::State(s.clone()),
                None => Reply::Failed("gone".to_string()),
            },
            Op::SaveState { .. } if self.broken => Reply::Failed("full".to_string()),
            Op::SaveState { path, state } => {
                self.files.insert(path.clone(), state.clone());
                Reply::Done
            }
            Op::Exists(dir) => {
                let front = format!("{dir}/");
                Reply::Flag(self.files.keys().any(|k| k.starts_with(&front)))
            }
            Op::RemoveTree(dir) => {
                let front = format!("{dir}/");
                let before = self.files.len();
                self.files.retain(|k, _| !k.starts_with(&front));
                if self.files.len() < before {
                    Reply::Done
                } else {
                    Reply::Failed("gone".to_string())
                }
            }
            _ => Reply::Done,
        }
    }

    fn create(&mut self, id: &str) -> ContainerState {
        let (state, plan) = init_container("/home/u", id);
        let mut turn = PlanRun::start(plan);
        loop {
            match turn {
                PlanTurn::Ask(run) => {
                    let reply = self.perform(run.op());
                    turn = run.resume(reply);
                }
                PlanTurn::Ended(r) => {
                    assert!(r.is_ok());
                    return state;
                }
            }
        }
    }

    fn remove(&mut self, id: &str) -> Result<(), String> {
        let step = ContainerStateDir::for_id("/home/u", id).cleanup();
        match self.perform(&step.op) {
            Reply::Done => Ok(()),
            reply => Err(mincontainer::plan::step_error(&step, reply).message()),
        }
    }

    fn find(&mut self, id: &str) -> Result<ContainerState, String> {
        let mut lookup = get_container("/home/u", id);
        loop {
            let reply = self.perform(&lookup.op);
            match lookup.resume(reply) {
                LookupTurn::Ask(next) => lookup = next,
                LookupTurn::Ended(r) => return r.map_err(|e| e.message()),
            }
        }
    }

    fn update(&mut self, update: Update) -> Result<(), String> {
        let mut update = update;
        loop {
            let reply = self.perform(update.op());
            match update.resume(reply) {
                UpdateTurn::Ask(next) => update = next,
                UpdateTurn::Ended(r) => return r.map_err(|e| e.message()),
            }
        }
    }
}

fn same(a: &ContainerState, b: &ContainerState) -> bool {
    format!("{a:?}") == format!("{b:?}")
}

#[test]
fn the_home_directory_defaults_to_that_of_root() {
    assert_eq!(home_dir(Some("/home/u".to_string())), "/home/u");
    assert_eq!(home_dir(None), "/root");
}

#[test]
fn files_lie_in_the_directory_of_the_container() {
    let dir = ContainerStateDir::for_id("/home/u", "abc");
    assert_eq!(dir.path(), "/home/u/.mincontainer/containers/abc");
    assert_eq!(dir.state_file(), "/home/u/.mincontainer/containers/abc/state.json");
    assert_eq!(dir.stdout_file(), "/home/u/.mincontainer/containers/abc/stdout");
    assert_eq!(dir.stderr_file(), "/home/u/.mincontainer/containers/abc/stderr");
    assert_eq!(dir.config_file(), "/home/u/.mincontainer/containers/abc/config.json");
    assert_eq!(dir.lock_file(), "/home/u/.mincontainer/containers/abc/.lock");
    assert_ne!(dir.path(), ContainerStateDir::for_id("/home/u", "abd").path());
    assert!(matches!(dir.present(), Op::Exists(p) if p == "/home/u/.mincontainer/containers/abc"));
}

#[test]
fn directory_failures_are_config_errors() {
    let dir = ContainerStateDir::for_id("/h", "abc");
    let error = |step: mincontainer::plan::Step| {
        mincontainer::plan::step_error(&step, Reply::Failed("why".to_string())).message()
    };
    assert_eq!(error(ContainerStateDir::init("/h")), "config error: mkdir state dir: why");
    assert_eq!(
        error(dir.create()),
        "config error: mkdir /h/.mincontainer/containers/abc: why"
    );
    assert_eq!(
        error(dir.cleanup()),
        "config error: cleanup /h/.mincontainer/containers/abc: why"
    );
    assert_eq!(
        error(dir.save_state(ContainerState::new("abc".to_string()))),
        "config error: write state: why"
    );
    let cfg = ContainerConfig::new("/r".to_string(), vec!["x".to_string()]);
    assert_eq!(error(dir.save_config(cfg)), "config error: write config: why");
}

#[test]
fn a_state_is_loaded_or_the_reason_is_told() {
    let dir = ContainerStateDir::for_id("/h", "abc");
    assert!(matches!(dir.load_op(), Op::LoadState(p) if p == dir.state_file()));
    let state = ContainerState::new("abc".to_string());
    assert!(same(&dir.load_state(Reply::State(state.clone())).unwrap(), &state));
    assert_eq!(
        dir.load_state(Reply::Failed("ENOENT".to_string())).unwrap_err().message(),
        "config error: read state: ENOENT"
    );
    assert_eq!(
        dir.load_state(Reply::Malformed("line 1".to_string())).unwrap_err().message(),
        "json error: line 1"
    );
}

#[test]
fn a_created_container_is_found() {
    let mut host = Shelf::new();
    let state = host.create("abc");
    assert_eq!(state.id, "abc");
    assert_eq!(state.status, "created");
    assert_eq!(state.pid, None);
    assert_eq!(state.exit_code, None);
    assert_eq!(state.started_at, None);
    assert_eq!(state.stopped_at, None);
    assert_eq!(state.created_at.len(), 20);
    assert!(same(&host.find("abc").unwrap(), &state));
    assert_eq!(host.find("other").unwrap_err(), "config error: container other not found");
}

#[test]
fn a_change_is_found_and_others_stay() {
    let mut host = Shelf::new();
    let a = host.create("a");
    let b = host.create("b");
    assert_eq!(host.update(set_running("/home/u", "a", 77)), Ok(()));
    let running = host.find("a").unwrap();
    assert_eq!(running.status, "running");
    assert_eq!(running.pid, Some(77));
    assert!(running.started_at.is_some());
    assert_eq!(running.stopped_at, None);
    assert_eq!(running.created_at, a.created_at);
    assert_eq!(host.update(set_stopped("/home/u", "a", 3)), Ok(()));
    let stopped = host.find("a").unwrap();
    assert_eq!(stopped.status, "stopped");
    assert_eq!(stopped.exit_code, Some(3));
    assert_eq!(stopped.pid, Some(77));
    assert_eq!(stopped.started_at, running.started_at);
    assert!(stopped.stopped_at.is_some());
    assert!(same(&host.find("b").unwrap(), &b));
}

#[test]
fn a_removed_container_is_gone() {
    let mut host = Shelf::new();
    host.create("ab");
    let other = host.create("abc");
    assert_eq!(host.remove("ab"), Ok(()));
    assert_eq!(host.find("ab").unwrap_err(), "config error: container ab not found");
    assert_eq!(
        host.remove("ab"),
        Err("config error: cleanup /home/u/.mincontainer/containers/ab: gone".to_string())
    );
    assert!(same(&host.find("abc").unwrap(), &other));
    host.create("abc/d");
    let elsewhere = host.create("x/abc");
    assert_eq!(host.remove("abc"), Ok(()));
    assert!(host.find("abc/d").is_err());
    assert!(same(&host.find("x/abc").unwrap(), &elsewhere));
}

#[test]
fn what_has_ended_has_no_pid() {
    let mut host = Shelf::new();
    host.create("a");
    assert_eq!(host.update(set_running("/home/u", "a", 77)), Ok(()));
    let running = host.find("a").unwrap();
    assert_eq!(host.update(set_ended("/home/u", "a", 3)), Ok(()));
    let ended = host.find("a").unwrap();
    assert_eq!(ended.status, "stopped");
    assert_eq!(ended.exit_code, Some(3));
    assert_eq!(ended.pid, None);
    assert_eq!(ended.started_at, running.started_at);
    assert!(ended.stopped_at.is_some());
}

#[test]
fn a_change_that_cannot_be_made_is_an_error() {
    let mut host = Shelf::new();
    assert_eq!(
        host.update(set_running("/home/u", "a", 1)),
        Err("config error: read state: gone".to_string())
    );
    let a = host.create("a");
    host.broken = true;
    assert_eq!(
        host.update(set_stopped("/home/u", "a", 1)),
        Err("config error: write state: full".to_string())
    );
    assert!(same(&host.find("a").unwrap(), &a));
}

#[test]
fn a_life_is_recorded() {
    let at = |s: &str| s.to_string();
    let s = ContainerState::created_at(at("x"), at("t0"))
        .with_change(Change::Running(5), at("t1"))
        .with_change(Change::Stopped(9), at("t2"));
    assert_eq!(s.id, "x");
    assert_eq!(s.pid, Some(5));
    assert_eq!(s.status, "stopped");
    assert_eq!(s.exit_code, Some(9));
    assert_eq!(s.created_at, "t0");
    assert_eq!(s.started_at, Some(at("t1")));
    assert_eq!(s.stopped_at, Some(at("t2")));
}

fn entry(name: &str, is_dir: bool) -> Entry {
    Entry::Item { name: Some(name.to_string()), is_dir }
}

#[test]
fn only_visible_directories_are_containers() {
    let entries = vec![
        entry("b", true),
        entry(".lock", true),
        entry("file", false),
        Entry::Item { name: None, is_dir: true },
        entry("a", true),
        entry("", true),
    ];
    assert_eq!(named_containers(&entries).unwrap(), vec!["b", "a", ""]);
    let broken = vec![
        entry("b", true),
        Entry::Unreadable("first".to_string()),
        Entry::Unreadable("second".to_string()),
    ];
    assert_eq!(
        named_containers(&broken).unwrap_err().message(),
        "config error: read entry: first"
    );
}

fn listing(host: &mut dyn FnMut(&Op) -> Reply) -> Result<Vec<String>, String> {
    let mut listing = list_all("/h");
    loop {
        let reply = host(listing.op());
        match listing.resume(reply) {
            ListingTurn::Ask(next) => listing = next,
            ListingTurn::Ended(Ok(list)) => return Ok(list.into_iter().map(|s| s.id).collect()),
            ListingTurn::Ended(Err(e)) => return Err(e.message()),
        }
    }
}

#[test]
fn a_listing_shows_what_can_be_looked_up() {
    let base = "/h/.mincontainer/containers";
    let found = listing(&mut |op| match op {
        Op::Exists(_) => Reply::Flag(true),
        Op::ListDir(d) => {
            assert_eq!(d, base);
            Reply::Entries(vec![entry("a", true), entry("bad", true), entry("c", true)])
        }
        Op::LoadState(p) if p.contains("bad") => Reply::Malformed("x".to_string()),
        Op::LoadState(p) => {
            let id = p[base.len() + 1..].split('/').next().unwrap().to_string();
            Reply::State(ContainerState::new(id))
        }
        _ => Reply::Done,
    });
    assert_eq!(found, Ok(vec!["a".to_string(), "c".to_string()]));
}

#[test]
fn a_listing_without_a_directory_is_empty() {
    assert_eq!(listing(&mut |_| Reply::Flag(false)), Ok(vec![]));
    let none = listing(&mut |op| match op {
        Op::ListDir(_) => Reply::Entries(vec![]),
        _ => Reply::Flag(true),
    });
    assert_eq!(none, Ok(vec![]));
}

#[test]
fn a_listing_that_cannot_be_read_is_an_error() {
    let unread = listing(&mut |op| match op {
        Op::ListDir(_) => Reply::Failed("EACCES".to_string()),
        _ => Reply::Flag(true),
    });
    assert_eq!(unread, Err("config error: list containers: EACCES".to_string()));
}
