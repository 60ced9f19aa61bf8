//! Error taxonomy shared by the transfer and hosting subsystems.

use vstd::prelude::*;

verus! {

/// Every failure the engine can report.
///
/// `Malformed` is recovered locally (a corrupt manifest is treated as
/// absent); `ProtocolViolation` maps to an HTTP 416 answer; the rest abort
/// the operation that raised them.
#[derive(Clone, Copy, Debug, PartialEq, Eq, Structural)]
pub enum TransferError {
    /// A requested path does not exist.
    NotFound,
    /// A read, write or seek failed.
    IoFailure,
    /// A persisted document could not be decoded.
    Malformed,
    /// Key derivation failed — the password exceeds the hash's input
    /// bound; fatal to the run.
    CryptoFailure,
    /// A malformed byte-range request.
    ProtocolViolation,
    /// No tunnel URL appeared within the detection window.
    Timeout,
    /// Spawning or waiting on the tunnel process failed.
    ProcessFailure,
}

impl TransferError {
    /// A short stable label for logs and user-facing messages.
    pub fn label(&self) -> (r: &'static str)
        ensures
            r@ == spec_label(*self),
    {
        match self {
            TransferError::NotFound => "not found",
            TransferError::IoFailure => "i/o failure",
            TransferError::Malformed => "malformed document",
            TransferError::CryptoFailure => "crypto failure",
            TransferError::ProtocolViolation => "protocol violation",
            TransferError::Timeout => "timeout",
            TransferError::ProcessFailure => "process failure",
        }
    }
}

/// The label `TransferError::label` returns for each variant.
pub open spec fn spec_label(e: TransferError) -> Seq<char> {
    match e {
        TransferError::NotFound => "not found"@,
        TransferError::IoFailure => "i/o failure"@,
        TransferError::Malformed => "malformed document"@,
        TransferError::CryptoFailure => "crypto failure"@,
        TransferError::ProtocolViolation => "protocol violation"@,
        TransferError::Timeout => "timeout"@,
        TransferError::ProcessFailure => "process failure"@,
    }
}

} // verus!
