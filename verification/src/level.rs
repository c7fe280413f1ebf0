//! The severity of a captured log event.

use vstd::prelude::*;

verus! {

/// Severity of a log event, mirroring the five conventional levels of a
/// structured-logging framework, from most to least severe.
#[derive(Clone, Copy, Debug, PartialEq, Eq, Structural)]
pub enum Level {
    /// The most severe level.
    Error,
    /// Warnings.
    Warn,
    /// Informational events.
    Info,
    /// Debugging events.
    Debug,
    /// The least severe level.
    Trace,
}

} // verus!
