//! A minimal build-task runner library.
//!
//! A configuration text names substitutable variables (`$K = "V"` lines),
//! tasks (`[name]` headers followed by a `command = ...` line), and an
//! execution order (an `[execute]` section listing task names). This crate
//! parses that text, resolves each task's command line against the variable
//! map, and drives the sequential execution of the resulting command
//! specifications. Process spawning and file access stay outside the
//! library: callers hand in raw bytes and receive plain values back.

use vstd::prelude::*;

pub mod assoc;
pub mod engine;
pub mod parse;
pub mod resolve;
pub mod text;
pub mod vars;

verus! {

} // verus!
