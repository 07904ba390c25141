use vstd::prelude::*;

verus! {

/// The error kinds of the runtime.
///
/// Setup failures (an unbound closure, an empty closure, a bad argument)
/// are returned synchronously to the caller; a failure inside an already
/// running stage is only ever reported to the diagnostics sink.
#[derive(Clone, Copy, PartialEq, Eq, Structural, Debug)]
pub enum Error {
    /// An argument or schema mismatch.
    ArgumentError,
    /// An unresolved scope lookup.
    NameError,
    /// An operation on an unbound closure.
    EnvironmentError,
    /// A closure with zero stages was invoked.
    EmptyClosureError,
    /// A non-duplicable cell was cloned.
    CloneError,
    /// A generic runtime failure inside a running command.
    StageError,
}

} // verus!
