//! The rejection branches of the protocol, one variant each.

use vstd::prelude::*;
use vstd::string::StringExecFns;

verus! {

/// Every way a MARK-X run can be refused.
#[derive(Debug, PartialEq, Eq)]
pub enum MarkXError {
    /// The bootstrap signature did not verify under the server's key.
    BadSignature,
    /// The announced policy hash differs from the hash of the local policy.
    PolicyMismatch,
    /// The announced algorithm, parameter set or variant is not allowed.
    AlgorithmNotAllowed,
    /// The announced epoch is below the policy floor, or does not advance
    /// the stored state.
    EpochRollback,
    /// KEM decapsulation input was malformed, or a MAC did not verify.
    DecryptError,
    /// A wire message could not be parsed.
    MalformedMessage,
    /// The persistent state could not be read or written.
    StorageError(String),
    /// The driver was used out of order.
    InvalidState(&'static str),
}

/// Abstract value of an error: the variant, with the text of its message.
pub ghost enum ErrorModel {
    BadSignature,
    PolicyMismatch,
    AlgorithmNotAllowed,
    EpochRollback,
    DecryptError,
    MalformedMessage,
    StorageError(Seq<char>),
    InvalidState(Seq<char>),
}

impl View for MarkXError {
    type V = ErrorModel;

    open spec fn view(&self) -> ErrorModel {
        match self {
            MarkXError::BadSignature => ErrorModel::BadSignature,
            MarkXError::PolicyMismatch => ErrorModel::PolicyMismatch,
            MarkXError::AlgorithmNotAllowed => ErrorModel::AlgorithmNotAllowed,
            MarkXError::EpochRollback => ErrorModel::EpochRollback,
            MarkXError::DecryptError => ErrorModel::DecryptError,
            MarkXError::MalformedMessage => ErrorModel::MalformedMessage,
            MarkXError::StorageError(s) => ErrorModel::StorageError(s@),
            MarkXError::InvalidState(s) => ErrorModel::InvalidState(s@),
        }
    }
}

/// Abstract value of a result: `Ok` with the value's view, or the error's.
pub open spec fn result_view<T: View>(r: core::result::Result<T, MarkXError>) -> core::result::Result<T::V, ErrorModel> {
    match r {
        Ok(v) => Ok(v@),
        Err(e) => Err(e@),
    }
}

/// The human-readable text of an error.
pub open spec fn error_message(e: ErrorModel) -> Seq<char> {
    match e {
        ErrorModel::BadSignature => "MARK-X: classical signature did not verify"@,
        ErrorModel::PolicyMismatch => "MARK-X: announced policy_hash did not match local policy"@,
        ErrorModel::AlgorithmNotAllowed => "MARK-X: announced alg/param/variant not permitted by local policy"@,
        ErrorModel::EpochRollback => "MARK-X: epoch/counter violates monotonicity or min_epoch"@,
        ErrorModel::DecryptError => "MARK-X: KEM decapsulation or MAC verify failed"@,
        ErrorModel::MalformedMessage => "MARK-X: wire-format parse error"@,
        ErrorModel::StorageError(s) => "MARK-X: persistent state I/O error: "@ + s,
        ErrorModel::InvalidState(s) => "MARK-X: invalid state transition: "@ + s,
    }
}

impl MarkXError {
    /// The human-readable text of the error.
    pub fn message(&self) -> (m: String)
        ensures
            m@ == error_message(self@),
    {
        match self {
            MarkXError::BadSignature => "MARK-X: classical signature did not verify".to_owned(),
            MarkXError::PolicyMismatch => "MARK-X: announced policy_hash did not match local policy".to_owned(),
            MarkXError::AlgorithmNotAllowed => "MARK-X: announced alg/param/variant not permitted by local policy".to_owned(),
            MarkXError::EpochRollback => "MARK-X: epoch/counter violates monotonicity or min_epoch".to_owned(),
            MarkXError::DecryptError => "MARK-X: KEM decapsulation or MAC verify failed".to_owned(),
            MarkXError::MalformedMessage => "MARK-X: wire-format parse error".to_owned(),
            MarkXError::StorageError(s) => {
                let mut m = "MARK-X: persistent state I/O error: ".to_owned();
                m.append(s.as_str());
                m
            },
            MarkXError::InvalidState(s) => {
                let mut m = "MARK-X: invalid state transition: ".to_owned();
                m.append(s);
                m
            },
        }
    }
}

/// Result type of the library.
pub type Result<T> = core::result::Result<T, MarkXError>;

} // verus!
