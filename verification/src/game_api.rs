//! Types of the host-side API surface that the engine offers to plugins.

use vstd::prelude::*;

verus! {

/// Log severity level.
#[derive(Clone, Copy, Debug, PartialEq, Eq, Structural)]
pub enum LogLevel {
    Debug,
    Info,
    Warn,
    Error,
}

} // verus!
