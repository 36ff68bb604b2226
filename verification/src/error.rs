//! The errors of the runtime.

use crate::text::{cat, cat3};
use vstd::prelude::*;

verus! {

/// What can go wrong while a container is set up, run or looked up.
///
/// The last part of each is the reason that the host gave, as text.
#[derive(Debug)]
pub enum RuntimeError {
    Io(String),
    /// The name of the system call, and why it failed.
    Syscall(&'static str, String),
    Cgroup(String),
    Filesystem(String),
    Network(String),
    Seccomp(String),
    Config(String),
    Json(String),
}

/// The text of a [`RuntimeError`].
pub ghost enum RuntimeErrorView {
    Io(Seq<char>),
    Syscall(Seq<char>, Seq<char>),
    Cgroup(Seq<char>),
    Filesystem(Seq<char>),
    Network(Seq<char>),
    Seccomp(Seq<char>),
    Config(Seq<char>),
    Json(Seq<char>),
}

impl View for RuntimeError {
    type V = RuntimeErrorView;

    open spec fn view(&self) -> RuntimeErrorView {
        match self {
            RuntimeError::Io(e) => RuntimeErrorView::Io(e@),
            RuntimeError::Syscall(name, e) => RuntimeErrorView::Syscall(name@, e@),
            RuntimeError::Cgroup(e) => RuntimeErrorView::Cgroup(e@),
            RuntimeError::Filesystem(e) => RuntimeErrorView::Filesystem(e@),
            RuntimeError::Network(e) => RuntimeErrorView::Network(e@),
            RuntimeError::Seccomp(e) => RuntimeErrorView::Seccomp(e@),
            RuntimeError::Config(e) => RuntimeErrorView::Config(e@),
            RuntimeError::Json(e) => RuntimeErrorView::Json(e@),
        }
    }
}

impl RuntimeErrorView {
    /// The message that a user reads.
    pub open spec fn message(self) -> Seq<char> {
        match self {
            RuntimeErrorView::Io(e) => "io error: "@ + e,
            RuntimeErrorView::Syscall(name, e) => "syscall "@ + name + " failed: "@ + e,
            RuntimeErrorView::Cgroup(e) => "cgroup error: "@ + e,
            RuntimeErrorView::Filesystem(e) => "filesystem error: "@ + e,
            RuntimeErrorView::Network(e) => "network error: "@ + e,
            RuntimeErrorView::Seccomp(e) => "seccomp error: "@ + e,
            RuntimeErrorView::Config(e) => "config error: "@ + e,
            RuntimeErrorView::Json(e) => "json error: "@ + e,
        }
    }
}

impl RuntimeError {
    /// The message that a user reads.
    pub fn message(&self) -> (r: String)
        ensures
            r@ == self@.message(),
    {
        match self {
            RuntimeError::Io(e) => cat("io error: ", e.as_str()),
            RuntimeError::Syscall(name, e) => {
                let head: String = cat3("syscall ", name, " failed: ");
                cat(head.as_str(), e.as_str())
            },
            RuntimeError::Cgroup(e) => cat("cgroup error: ", e.as_str()),
            RuntimeError::Filesystem(e) => cat("filesystem error: ", e.as_str()),
            RuntimeError::Network(e) => cat("network error: ", e.as_str()),
            RuntimeError::Seccomp(e) => cat("seccomp error: ", e.as_str()),
            RuntimeError::Config(e) => cat("config error: ", e.as_str()),
            RuntimeError::Json(e) => cat("json error: ", e.as_str()),
        }
    }
}

/// The result of an operation of the runtime.
pub type Result<T> = std::result::Result<T, RuntimeError>;


/// What is told of an error names its kind first, and then what the host said.
pub proof fn law_messages(name: Seq<char>, e: Seq<char>)
    ensures
        RuntimeErrorView::Io(e).message() == "io error: "@ + e,
        RuntimeErrorView::Syscall(name, e).message() == "syscall "@ + (name + (" failed: "@ + e)),
        RuntimeErrorView::Cgroup(e).message() == "cgroup error: "@ + e,
        RuntimeErrorView::Filesystem(e).message() == "filesystem error: "@ + e,
        RuntimeErrorView::Network(e).message() == "network error: "@ + e,
        RuntimeErrorView::Seccomp(e).message() == "seccomp error: "@ + e,
        RuntimeErrorView::Config(e).message() == "config error: "@ + e,
        RuntimeErrorView::Json(e).message() == "json error: "@ + e,
{
    assert("syscall "@ + name + " failed: "@ + e =~= "syscall "@ + (name + (" failed: "@ + e)));
}

} // verus!
