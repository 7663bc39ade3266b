//! Tools for supervising an external process and diagnosing why it hangs.
//!
//! The crate models the text that the Linux `/proc` filesystem exposes about
//! processes, threads and file descriptors, and builds bounded, best-effort
//! reports about what a stuck process is blocked on and which other process
//! holds the far end of that block.  A small state machine drives a
//! PTY-backed supervisor with a wall-clock deadline and two-phase signal
//! escalation.

pub mod doctor;
pub mod fdres;
pub mod index;
pub mod inventory;
pub mod keydconf;
pub mod muvm;
pub mod numfmt;
pub mod procstat;
pub mod snapshot;
pub mod stacklog;
pub mod strutil;
pub mod supervise;
pub mod syscall;
pub mod vecset;
pub mod waitgraph;
