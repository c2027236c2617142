//! A low-level launcher of child processes on Linux.
//!
//! The crate holds the decisions of a launch: which namespaces are created
//! and joined and in which order, how UID and GID ranges are written down,
//! how the root directory is changed, which capabilities are kept, how file
//! descriptors are wired, in which order the child performs its steps, how a
//! failure travels from the child to the parent, and who learns of a child's
//! death. Every function here is a function from plain values to plain values
//! with a proved contract; the system calls themselves are made by the caller,
//! which feeds their results back in.

pub use crate::caps::Capability;
pub use crate::child::Child;
pub use crate::command::Command;
pub use crate::config::Config;
pub use crate::error::Error;
pub use crate::idmap::{GidMap, UidMap};
pub use crate::namespace::Namespace;
pub use crate::status::ExitStatus;
pub use crate::stdio::{Fd, Stdio};
pub use crate::zombies::ChildEvent;

pub mod action;
pub mod bytes;
pub mod caps;
pub mod child;
pub mod chroot;
pub mod command;
pub mod config;
pub mod env;
pub mod error;
pub mod fds;
pub mod idmap;
pub mod namespace;
pub mod run;
pub mod script;
pub mod status;
pub mod stdio;
pub mod zombies;
