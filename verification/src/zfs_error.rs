//! Error values surfaced by the library's operations.

use vstd::prelude::*;

verus! {

/// What went wrong, following the operation taxonomy: a backend query or
/// command failed, a local file or pipe failed, the spawned pipeline exited
/// non-zero (with its exit code), or its telemetry could not be parsed.
#[derive(Clone, Copy, PartialEq, Eq, Structural, Debug)]
pub enum ZfsErrorKind {
    Backend,
    Io,
    ExternalProcess(i32),
    Protocol,
}

/// An error with its kind and a human-readable description.
#[derive(Clone, Debug)]
pub struct ZfsError {
    pub kind: ZfsErrorKind,
    pub descr: String,
}

impl ZfsError {
    pub fn backend(descr: String) -> (r: ZfsError)
        ensures
            r.kind == ZfsErrorKind::Backend,
            r.descr@ == descr@,
    {
        ZfsError { kind: ZfsErrorKind::Backend, descr }
    }

    pub fn io(descr: String) -> (r: ZfsError)
        ensures
            r.kind == ZfsErrorKind::Io,
            r.descr@ == descr@,
    {
        ZfsError { kind: ZfsErrorKind::Io, descr }
    }

    pub fn external_process(code: i32, descr: String) -> (r: ZfsError)
        ensures
            r.kind == ZfsErrorKind::ExternalProcess(code),
            r.descr@ == descr@,
    {
        ZfsError { kind: ZfsErrorKind::ExternalProcess(code), descr }
    }

    pub fn protocol(descr: String) -> (r: ZfsError)
        ensures
            r.kind == ZfsErrorKind::Protocol,
            r.descr@ == descr@,
    {
        ZfsError { kind: ZfsErrorKind::Protocol, descr }
    }

    /// The description text of this error.
    pub fn description(&self) -> (r: &str)
        ensures
            r@ == self.descr@,
    {
        self.descr.as_str()
    }
}

} // verus!
