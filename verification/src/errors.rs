use vstd::prelude::*;

verus! {

/// The failure taxonomy of the pod helper.
///
/// Lower-level functions return these typed failures; the lifecycle
/// orchestration decides severity (a hostname-registration failure after a
/// successful install is downgraded to a warning by the caller).
#[derive(Debug, PartialEq, Eq)]
pub enum OpError {
    /// A workload name or numeric input was rejected before any work was done.
    Validation,
    /// An external program could not be started at all.
    Spawn,
    /// An external program started but exited unsuccessfully.
    CommandFailed { stderr: String },
    /// A configuration, manifest or hosts file could not be read or written.
    Io,
    /// A hostname to be added already appears in the hosts table.
    DuplicateHostname { hostname: String },
    /// The hosts file could not be persisted even through elevation.
    PermissionDenied,
    /// A login or uninstall target is absent from a freshly refreshed inventory.
    PodNotFound,
}

} // verus!
