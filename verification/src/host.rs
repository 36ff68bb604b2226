//! The host: what the runtime can ask of it, and how it can answer.
//!
//! The runtime itself touches nothing. It names one operation at a time, and goes
//! on from the answer.

use crate::capabilities::{CapSet, Capability};
use crate::config::{ContainerConfig, ContainerConfigView};
use crate::container::{Metrics, MetricsView};
use crate::error::{RuntimeError, RuntimeErrorView};
use crate::state::{opt_view, ContainerState, ContainerStateView};
use crate::stats::Spread;
use crate::text::views;
use vstd::prelude::*;

verus! {

/// A namespace that a container gets of its own.
#[derive(Debug, Clone, Copy, PartialEq, Eq, Structural)]
pub enum Namespace {
    Pid,
    Mount,
    Uts,
    Ipc,
    Net,
}

/// How something is mounted.
#[derive(Debug, Clone, Copy, PartialEq, Eq, Structural)]
pub enum MountKind {
    /// A file system of its own.
    Plain,
    /// A bind mount, with what is mounted below.
    Bind,
    /// No new mount: the tree at the target stops sharing its mounts.
    Private,
}

/// One of the two pipes between the runtime and a container.
#[derive(Debug, Clone, Copy, PartialEq, Eq, Structural)]
pub enum Pipe {
    /// From the runtime to the container: it may go on.
    Release,
    /// From the process between them to the runtime: the container's pid.
    Pid,
}

/// One of the two ends of a pipe.
#[derive(Debug, Clone, Copy, PartialEq, Eq, Structural)]
pub enum PipeEnd {
    Read,
    Write,
}

/// A signal that stops a process.
#[derive(Debug, Clone, Copy, PartialEq, Eq, Structural)]
pub enum StopSignal {
    Term,
    Kill,
}

/// How a process ended.
#[derive(Debug, Clone, Copy, PartialEq, Eq, Structural)]
pub enum WaitStatus {
    /// It exited with this code.
    Exited(i32),
    /// This signal ended it.
    Signaled(u8),
    /// Something else happened to it.
    Other,
}

/// What one entry of a directory turned out to be.
#[derive(Debug)]
pub enum Entry {
    /// Its name, where that is valid text, and whether it is a directory.
    Item { name: Option<String>, is_dir: bool },
    /// It could not be read, for this reason.
    Unreadable(String),
}

/// The model of an [`Entry`].
pub ghost enum EntryView {
    Item { name: Option<Seq<char>>, is_dir: bool },
    Unreadable(Seq<char>),
}

impl View for Entry {
    type V = EntryView;

    open spec fn view(&self) -> EntryView {
        match self {
            Entry::Item { name, is_dir } => EntryView::Item {
                name: opt_view(*name),
                is_dir: *is_dir,
            },
            Entry::Unreadable(e) => EntryView::Unreadable(e@),
        }
    }
}

/// The views of a sequence of entries.
pub open spec fn entry_views(list: Seq<Entry>) -> Seq<EntryView> {
    Seq::new(list.len(), |i: int| list[i]@)
}

/// One thing that the runtime asks of the host.
#[derive(Debug)]
pub enum Op {
    // Files.
    /// Create a directory and those above it.
    MakeDirs(String),
    /// Remove an empty directory.
    RemoveDir(String),
    /// Remove a directory and all in it.
    RemoveTree(String),
    /// Read a file: `Reply::Text`.
    ReadFile(String),
    /// Write a file.
    WriteFile { path: String, contents: String },
    /// Create an empty file.
    CreateFile(String),
    /// Whether a path exists: `Reply::Flag`.
    Exists(String),
    /// The entries of a directory: `Reply::Entries`.
    ListDir(String),
    /// Copy a file to the standard output.
    CopyToStdout(String),
    // Processes.
    /// Run a program to its end; `Reply::Exited` where it reports a failure.
    Command { program: String, args: Vec<String> },
    /// Leave these namespaces for new ones.
    Unshare(Vec<Namespace>),
    /// Fork: `Reply::Pid` in the parent, `Reply::Child` in the child.
    Fork,
    /// Wait for the end of a process: `Reply::Status`.
    Wait(i32),
    /// Send a signal to a process.
    Kill { pid: i32, signal: StopSignal },
    /// Let some milliseconds pass.
    Sleep(u64),
    /// Replace this process by a program. Answered only where that fails.
    Exec { command: Vec<String>, env: Vec<String> },
    // Pipes.
    OpenPipe(Pipe),
    /// Close one end of a pipe in this process.
    Close { pipe: Pipe, end: PipeEnd },
    /// Send a pid to the runtime.
    SendPid(i32),
    /// Receive that pid: `Reply::Pid`.
    ReceivePid,
    /// Let the container go on.
    Release,
    /// Wait until the container may go on.
    AwaitRelease,
    // The container's surroundings.
    SetHostname(String),
    Mount { source: Option<String>, target: String, fstype: Option<String>, kind: MountKind },
    /// Unmount, even where it is still in use.
    Detach(String),
    PivotRoot { new_root: String, put_old: String },
    ChangeDir(String),
    /// Create a character device.
    MakeDevice { path: String, dev: u64, mode: u32 },
    DropCapability { set: CapSet, capability: Capability },
    /// Done only where the capability is not in the set.
    LacksCapability { set: CapSet, capability: Capability },
    ClearCapabilities(CapSet),
    /// Compile and install the seccomp filter of this machine.
    InstallFilter,
    // What is kept of containers.
    /// Read a state: `Reply::State`, or `Reply::Malformed` where it is no state.
    LoadState(String),
    /// Write a state; `Reply::Malformed` where it cannot be put into words.
    SaveState { path: String, state: ContainerState },
    /// Read a configuration: `Reply::Config`, or `Reply::Malformed`.
    LoadConfig(String),
    SaveConfig { path: String, config: ContainerConfig },
    // Time.
    StartClock,
    /// Nanoseconds since the clock was started: `Reply::Nanos`.
    ReadClock,
    // Output.
    /// Write this to the standard output.
    Print(String),
    /// Write this and a line end to the standard error output.
    Complain(String),
    /// Tell how a started container ended.
    ReportStart { id: String, metrics: Metrics },
    /// Tell how a one-shot container ended.
    ReportRun { metrics: Metrics, json: bool },
    /// Announce a benchmark.
    AnnounceBench { runs: u32, command: Vec<String> },
    /// Tell the figures of a benchmark: nanoseconds of setup and in all, and bytes.
    ReportBench { setup: Spread, wall: Spread, memory: Spread },
}

/// The model of an [`Op`].
#[verifier::ext_equal]
pub ghost enum OpView {
    MakeDirs(Seq<char>),
    RemoveDir(Seq<char>),
    RemoveTree(Seq<char>),
    ReadFile(Seq<char>),
    WriteFile { path: Seq<char>, contents: Seq<char> },
    CreateFile(Seq<char>),
    Exists(Seq<char>),
    ListDir(Seq<char>),
    CopyToStdout(Seq<char>),
    Command { program: Seq<char>, args: Seq<Seq<char>> },
    Unshare(Seq<Namespace>),
    Fork,
    Wait(i32),
    Kill { pid: i32, signal: StopSignal },
    Sleep(u64),
    Exec { command: Seq<Seq<char>>, env: Seq<Seq<char>> },
    OpenPipe(Pipe),
    Close { pipe: Pipe, end: PipeEnd },
    SendPid(i32),
    ReceivePid,
    Release,
    AwaitRelease,
    SetHostname(Seq<char>),
    Mount {
        source: Option<Seq<char>>,
        target: Seq<char>,
        fstype: Option<Seq<char>>,
        kind: MountKind,
    },
    Detach(Seq<char>),
    PivotRoot { new_root: Seq<char>, put_old: Seq<char> },
    ChangeDir(Seq<char>),
    MakeDevice { path: Seq<char>, dev: u64, mode: u32 },
    DropCapability { set: CapSet, capability: Capability },
    LacksCapability { set: CapSet, capability: Capability },
    ClearCapabilities(CapSet),
    InstallFilter,
    LoadState(Seq<char>),
    SaveState { path: Seq<char>, state: ContainerStateView },
    LoadConfig(Seq<char>),
    SaveConfig { path: Seq<char>, config: ContainerConfigView },
    StartClock,
    ReadClock,
    Print(Seq<char>),
    Complain(Seq<char>),
    ReportStart { id: Seq<char>, metrics: MetricsView },
    ReportRun { metrics: MetricsView, json: bool },
    AnnounceBench { runs: u32, command: Seq<Seq<char>> },
    ReportBench { setup: Seq<u64>, wall: Seq<u64>, memory: Seq<u64> },
}

impl View for Op {
    type V = OpView;

    open spec fn view(&self) -> OpView {
        match self {
            Op::MakeDirs(path) => OpView::MakeDirs(path@),
            Op::RemoveDir(path) => OpView::RemoveDir(path@),
            Op::RemoveTree(path) => OpView::RemoveTree(path@),
            Op::ReadFile(path) => OpView::ReadFile(path@),
            Op::WriteFile { path, contents } => OpView::WriteFile {
                path: path@,
                contents: contents@,
            },
            Op::CreateFile(path) => OpView::CreateFile(path@),
            Op::Exists(path) => OpView::Exists(path@),
            Op::ListDir(path) => OpView::ListDir(path@),
            Op::CopyToStdout(path) => OpView::CopyToStdout(path@),
            Op::Command { program, args } => OpView::Command {
                program: program@,
                args: views(args@),
            },
            Op::Unshare(list) => OpView::Unshare(list@),
            Op::Fork => OpView::Fork,
            Op::Wait(pid) => OpView::Wait(*pid),
            Op::Kill { pid, signal } => OpView::Kill { pid: *pid, signal: *signal },
            Op::Sleep(ms) => OpView::Sleep(*ms),
            Op::Exec { command, env } => OpView::Exec {
                command: views(command@),
                env: views(env@),
            },
            Op::OpenPipe(pipe) => OpView::OpenPipe(*pipe),
            Op::Close { pipe, end } => OpView::Close { pipe: *pipe, end: *end },
            Op::SendPid(pid) => OpView::SendPid(*pid),
            Op::ReceivePid => OpView::ReceivePid,
            Op::Release => OpView::Release,
            Op::AwaitRelease => OpView::AwaitRelease,
            Op::SetHostname(name) => OpView::SetHostname(name@),
            Op::Mount { source, target, fstype, kind } => OpView::Mount {
                source: opt_view(*source),
                target: target@,
                fstype: opt_view(*fstype),
                kind: *kind,
            },
            Op::Detach(path) => OpView::Detach(path@),
            Op::PivotRoot { new_root, put_old } => OpView::PivotRoot {
                new_root: new_root@,
                put_old: put_old@,
            },
            Op::ChangeDir(path) => OpView::ChangeDir(path@),
            Op::MakeDevice { path, dev, mode } => OpView::MakeDevice {
                path: path@,
                dev: *dev,
                mode: *mode,
            },
            Op::DropCapability { set, capability } => OpView::DropCapability {
                set: *set,
                capability: *capability,
            },
            Op::LacksCapability { set, capability } => OpView::LacksCapability {
                set: *set,
                capability: *capability,
            },
            Op::ClearCapabilities(set) => OpView::ClearCapabilities(*set),
            Op::InstallFilter => OpView::InstallFilter,
            Op::LoadState(path) => OpView::LoadState(path@),
            Op::SaveState { path, state } => OpView::SaveState { path: path@, state: state@ },
            Op::LoadConfig(path) => OpView::LoadConfig(path@),
            Op::SaveConfig { path, config } => OpView::SaveConfig {
                path: path@,
                config: config@,
            },
            Op::StartClock => OpView::StartClock,
            Op::ReadClock => OpView::ReadClock,
            Op::Print(s) => OpView::Print(s@),
            Op::Complain(s) => OpView::Complain(s@),
            Op::ReportStart { id, metrics } => OpView::ReportStart { id: id@, metrics: metrics@ },
            Op::ReportRun { metrics, json } => OpView::ReportRun { metrics: metrics@, json: *json },
            Op::AnnounceBench { runs, command } => OpView::AnnounceBench {
                runs: *runs,
                command: views(command@),
            },
            Op::ReportBench { setup, wall, memory } => OpView::ReportBench {
                setup: setup@,
                wall: wall@,
                memory: memory@,
            },
        }
    }
}

/// How the host answers an [`Op`].
#[derive(Debug)]
pub enum Reply {
    /// It was done.
    Done,
    /// It failed, for this reason.
    Failed(String),
    /// The program ran and reported a failure; this is what it complained of.
    Exited(String),
    Text(String),
    Flag(bool),
    Pid(i32),
    /// This process is the new one.
    Child,
    Status(WaitStatus),
    Nanos(u64),
    State(ContainerState),
    Config(ContainerConfig),
    /// What was read, or was to be written, does not fit its format.
    Malformed(String),
    Entries(Vec<Entry>),
    /// It was refused with this error.
    Refused(RuntimeError),
}

/// The model of a [`Reply`].
pub ghost enum ReplyView {
    Done,
    Failed(Seq<char>),
    Exited(Seq<char>),
    Text(Seq<char>),
    Flag(bool),
    Pid(i32),
    Child,
    Status(WaitStatus),
    Nanos(u64),
    State(ContainerStateView),
    Config(ContainerConfigView),
    Malformed(Seq<char>),
    Entries(Seq<EntryView>),
    Refused(RuntimeErrorView),
}

impl View for Reply {
    type V = ReplyView;

    open spec fn view(&self) -> ReplyView {
        match self {
            Reply::Done => ReplyView::Done,
            Reply::Failed(e) => ReplyView::Failed(e@),
            Reply::Exited(e) => ReplyView::Exited(e@),
            Reply::Text(s) => ReplyView::Text(s@),
            Reply::Flag(b) => ReplyView::Flag(*b),
            Reply::Pid(pid) => ReplyView::Pid(*pid),
            Reply::Child => ReplyView::Child,
            Reply::Status(s) => ReplyView::Status(*s),
            Reply::Nanos(n) => ReplyView::Nanos(*n),
            Reply::State(s) => ReplyView::State(s@),
            Reply::Config(c) => ReplyView::Config(c@),
            Reply::Malformed(e) => ReplyView::Malformed(e@),
            Reply::Entries(list) => ReplyView::Entries(entry_views(list@)),
            Reply::Refused(e) => ReplyView::Refused(e@),
        }
    }
}

impl ReplyView {
    /// Why an operation was not done. An answer that gives no reason has the empty
    /// one.
    pub open spec fn reason(self) -> Seq<char> {
        match self {
            ReplyView::Failed(e) => e,
            ReplyView::Exited(e) => e,
            ReplyView::Malformed(e) => e,
            _ => Seq::empty(),
        }
    }

    /// The text that was asked for; `None` where the answer holds none.
    pub open spec fn text(self) -> Option<Seq<char>> {
        match self {
            ReplyView::Text(s) => Some(s),
            _ => None,
        }
    }

    /// Whether the answer is a yes.
    pub open spec fn yes(self) -> bool {
        self == ReplyView::Flag(true)
    }
}

impl Reply {
    /// Why an operation was not done.
    pub fn reason(&self) -> (r: String)
        ensures
            r@ == self@.reason(),
    {
        match self {
            Reply::Failed(e) => e.clone(),
            Reply::Exited(e) => e.clone(),
            Reply::Malformed(e) => e.clone(),
            _ => String::new(),
        }
    }

    /// The text that was asked for.
    pub fn into_text(self) -> (r: Option<String>)
        ensures
            opt_view(r) == self@.text(),
    {
        match self {
            Reply::Text(s) => Some(s),
            _ => None,
        }
    }

    /// Whether the answer is a yes.
    pub fn is_yes(&self) -> (r: bool)
        ensures
            r == self@.yes(),
    {
        match self {
            Reply::Flag(b) => *b,
            _ => false,
        }
    }

    /// Whether the operation was done.
    pub fn is_done(&self) -> (r: bool)
        ensures
            r == (self@ is Done),
    {
        match self {
            Reply::Done => true,
            _ => false,
        }
    }
}


/// What an answer tells: the reason of a failure, the text that was read, or a yes; an
/// answer of another kind tells none of these.
pub proof fn law_answers(s: Seq<char>, reply: ReplyView)
    ensures
        ReplyView::Failed(s).reason() == s,
        ReplyView::Exited(s).reason() == s,
        ReplyView::Malformed(s).reason() == s,
        !(reply is Failed) && !(reply is Exited) && !(reply is Malformed) ==> reply.reason().len()
            == 0,
        ReplyView::Text(s).text() == Some(s),
        reply.text() is Some ==> reply is Text,
        reply.yes() <==> (reply matches ReplyView::Flag(yes) && yes),
{
}


/// The model of an operation says of each of its parts what the operation says.
pub proof fn law_operations(op: Op)
    ensures
        match op {
            Op::WriteFile { path, contents } => op@->WriteFile_path == path@
                && op@->WriteFile_contents == contents@ && op@ is WriteFile,
            Op::PivotRoot { new_root, put_old } => op@->PivotRoot_new_root == new_root@
                && op@->PivotRoot_put_old == put_old@ && op@ is PivotRoot,
            Op::Mount { source, target, fstype, kind } => {
                &&& op@ is Mount
                &&& op@->Mount_target == target@
                &&& op@->Mount_kind == kind
                &&& source matches Some(s) ==> op@->Mount_source == Some(s@)
                &&& source is None ==> op@->Mount_source is None
                &&& fstype matches Some(s) ==> op@->Mount_fstype == Some(s@)
                &&& fstype is None ==> op@->Mount_fstype is None
            },
            Op::Command { program, args } => {
                &&& op@ is Command
                &&& op@->Command_program == program@
                &&& op@->Command_args.len() == args@.len()
                &&& forall|i: int|
                    0 <= i < args@.len() ==> #[trigger] op@->Command_args[i] == args@[i]@
            },
            Op::Exec { command, env } => {
                &&& op@ is Exec
                &&& op@->Exec_command == views(command@)
                &&& op@->Exec_env == views(env@)
            },
            Op::Kill { pid, signal } => op@->Kill_pid == pid && op@->Kill_signal == signal
                && op@ is Kill,
            Op::MakeDirs(path) => op@ == OpView::MakeDirs(path@),
            Op::RemoveDir(path) => op@ == OpView::RemoveDir(path@),
            Op::RemoveTree(path) => op@ == OpView::RemoveTree(path@),
            Op::ReadFile(path) => op@ == OpView::ReadFile(path@),
            Op::ChangeDir(path) => op@ == OpView::ChangeDir(path@),
            Op::Detach(path) => op@ == OpView::Detach(path@),
            Op::SetHostname(name) => op@ == OpView::SetHostname(name@),
            Op::Print(text) => op@ == OpView::Print(text@),
            Op::Complain(text) => op@ == OpView::Complain(text@),
            _ => true,
        },
{
}

} // verus!
