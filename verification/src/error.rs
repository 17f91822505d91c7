//! Errors of the library.

use vstd::prelude::*;

verus! {

/// Library errors.
#[derive(Debug, Clone)]
pub enum Error {
    /// A `/proc` file could not be read or parsed; the text says why.
    Procfs(String),
    /// An I/O error, by its raw OS error number.
    Io(i32),
    /// A request that cannot be carried out, with the reason.
    Ipc(String),
    /// No process has the PID.
    ProcessNotFound(i32),
    /// The operation is not permitted; the text says which.
    PermissionDenied(String),
    /// The configuration is not valid; the text says why.
    Config(String),
}

} // verus!
