//! A minimal container runtime.
//!
//! A container gets its own PID, mount, UTS, IPC and network namespaces, a root file
//! system of its own, limits on memory, CPU and processes by cgroups v2, and a seccomp
//! filter; dangerous capabilities are dropped.
//!
//! Everything that the runtime decides is decided here, and nothing is done here: it
//! names one operation of the host at a time (see [`host`]) and goes on from the
//! answer. What is to be done without a decision in between is a plan (see [`plan`]).

pub mod account;
pub mod capabilities;
pub mod cgroups;
pub mod clock;
pub mod commands;
pub mod config;
pub mod container;
pub mod endings;
pub mod error;
pub mod guarantees;
pub mod host;
pub mod lifecycle;
pub mod network;
pub mod order;
pub mod plan;
pub mod promises;
pub mod rootfs;
pub mod scan;
pub mod seccomp;
pub mod starts;
pub mod state;
pub mod stats;
pub mod tally;
pub mod text;
pub mod verbs;

pub use config::{ContainerConfig, Resources, Volume};
pub use container::{run, Metrics};
pub use error::{Result, RuntimeError};
pub use state::{ContainerState, ContainerStateDir};
