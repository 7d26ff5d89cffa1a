use vstd::prelude::*;
use crate::record::{AgreementStatus, EscrowStatus};

verus! {

/// A caller-fixable rejection of an input, raised before any external call is
/// made.
#[derive(Clone, Copy, Debug, PartialEq, Eq, Structural)]
pub enum ValidationError {
    /// The input string is empty or consists only of whitespace.
    EmptyInput,
    /// No known address format matches the string's prefix.
    UnrecognizedFormat,
    /// The string's length is outside the range its format allows.
    BadLength,
    /// A character is outside the alphabet its format allows.
    BadCharacter,
    /// A segwit-family address has no separator character.
    MissingSeparator,
    /// The part after the separator of a segwit-family address is too short.
    DataPartTooShort,
    /// An amount that must be strictly positive is zero.
    NonPositiveAmount,
    /// A linked address has never transacted on the external chain.
    NoActivity,
}

/// The typed failure returned by the external value-transfer service.
#[derive(Clone, Copy, Debug, PartialEq, Eq, Structural)]
pub enum TransferError {
    BadFee,
    InsufficientFunds,
    TooOld,
    Other,
}

/// Every failure an escrow or loan ledger operation can surface. All of
/// these are returned, never raised as faults, and local validation always
/// precedes any external call.
#[derive(Clone, Copy, Debug, PartialEq, Eq, Structural)]
pub enum EscrowError {
    /// Bad amount, malformed address or empty input; always caller-fixable.
    Validation(ValidationError),
    /// No record exists under the requested id.
    NotFound,
    /// The caller is not the role the attempted transition authorizes.
    Unauthorized,
    /// Right caller, wrong current status; names required and actual status.
    InvalidStateTransition { required: EscrowStatus, actual: EscrowStatus },
    /// A transport-level failure of an external call, surfaced verbatim.
    ExternalCallFailed,
}

/// Every failure a catalog (saga) operation can surface.
#[derive(Clone, Copy, Debug, PartialEq, Eq, Structural)]
pub enum CatalogError {
    /// Bad amount, malformed address or empty input; always caller-fixable.
    Validation(ValidationError),
    /// No reference record exists under the requested id.
    NotFound,
    /// The caller is not the owning party of the record.
    Unauthorized,
    /// Right caller, wrong current status; names required and actual status.
    InvalidStateTransition { required: AgreementStatus, actual: AgreementStatus },
    /// A transport-level failure of an external call, surfaced verbatim.
    ExternalCallFailed,
    /// A typed failure returned by the external value-transfer service.
    ExternalServiceRejected(TransferError),
    /// An externally fetched payload did not decode.
    CorruptRecord,
}

/// What the external liveness query reported about an address.
#[derive(Clone, Copy, Debug, PartialEq, Eq, Structural)]
pub enum ProbeOutcome {
    /// The query itself failed (network or parse failure).
    Unreachable,
    /// The query succeeded and reported this many prior transactions.
    Activity(u64),
}

/// What the external value-transfer call came back with.
#[derive(Clone, Copy, Debug, PartialEq, Eq, Structural)]
pub enum TransferOutcome {
    /// The transfer succeeded with this transfer id.
    Completed(u64),
    /// The service returned a typed failure.
    Rejected(TransferError),
    /// The call itself failed (timeout, transport).
    CallFailed,
}

impl EscrowError {
    /// A human-readable description of the failure.
    pub fn message(&self) -> &'static str {
        match self {
            EscrowError::Validation(ValidationError::EmptyInput) => "address is empty",
            EscrowError::Validation(ValidationError::UnrecognizedFormat) => {
                "unrecognized address format"
            },
            EscrowError::Validation(ValidationError::BadLength) => "bad address length",
            EscrowError::Validation(ValidationError::BadCharacter) => "bad address character",
            EscrowError::Validation(ValidationError::MissingSeparator) => "missing separator",
            EscrowError::Validation(ValidationError::DataPartTooShort) => "data part too short",
            EscrowError::Validation(ValidationError::NonPositiveAmount) => {
                "amount must be positive"
            },
            EscrowError::Validation(ValidationError::NoActivity) => "address has no activity",
            EscrowError::NotFound => "record not found",
            EscrowError::Unauthorized => "caller is not authorized",
            EscrowError::InvalidStateTransition { .. } => "invalid state transition",
            EscrowError::ExternalCallFailed => "external call failed",
        }
    }
}

} // verus!
