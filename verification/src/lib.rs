//! A native process-control debugger core, with supporting data structures.
//!
//! The heart of the crate is the breakpoint machinery: byte-exact word
//! patching for installing and removing trap instructions, a breakpoint
//! store, a command parser, and the resume/wait decision machine that a
//! thin front end drives against the operating system's tracing surface.

pub mod breakpoint;
pub mod command;
pub mod connection;
pub mod diff;
pub mod grid;
pub mod linked_list;
pub mod patch;
pub mod session;
pub mod unwinder;
pub mod wc;
