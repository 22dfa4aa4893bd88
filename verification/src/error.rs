//! Errors and the outcomes of device operations.
use vstd::prelude::*;

verus! {

#[verifier::external_type_specification]
#[verifier::external_body]
pub struct ExIoError(std::io::Error);

/// Everything that can go wrong while talking to a device.
#[derive(Debug)]
pub enum AdbError {
    Connect(String),
    Auth(String),
    StreamOpen { destination: String, reason: String },
    ConnectionClosed(String),
    Timeout(String),
    Protocol(String),
    StreamClosed(u32),
    Io(std::io::Error),
}

/// The result type of fallible device operations.
pub type Result<T> = core::result::Result<T, AdbError>;

/// A device operation that ran but did not succeed.
#[derive(Debug)]
pub struct AdbOperationFailedError {
    pub reason: String,
    pub exit_code: Option<i32>,
}

/// The outcome of installing a package.
#[derive(Debug, Clone, PartialEq, Eq)]
pub enum InstallResult {
    Success,
    Failure(String),
}

/// The outcome of uninstalling a package.
#[derive(Debug, Clone, PartialEq, Eq)]
pub enum UninstallResult {
    Success,
    Failure { reason: String, exit_code: i32 },
}

/// The outcome of switching the device daemon into or out of root mode.
#[derive(Debug, Clone, PartialEq, Eq)]
pub enum RootResult {
    Success,
    Failure(String),
}

/// The outcome of a file transfer.
#[derive(Debug, Clone, PartialEq, Eq)]
pub enum SyncResult {
    Success,
    Failure(String),
}

} // verus!
