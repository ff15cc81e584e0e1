//! Errors of the forest of sparse Merkle trees and of its storage backends.
use crate::forest::{LineageId, TreeId};
use crate::history::HistoryError;
use vstd::prelude::*;

verus! {

/// Errors raised by a storage backend of the forest.
#[derive(Debug, Clone)]
pub enum BackendError {
    /// An error of the Merkle tree semantics within the backend, by its description.
    Merkle(String),
    /// Any other error within the backend, by its description.
    Other(String),
}

/// Errors returned by operations on the forest.
#[derive(Debug, Clone)]
pub enum LargeSmtForestError {
    /// An error of the history of a lineage.
    HistoryError(HistoryError),
    /// An error of the Merkle tree operations of the forest, by its description.
    MerkleError(String),
    /// An operation named a lineage that is not in the forest.
    UnknownLineage(LineageId),
    /// An operation named a tree that is not in the forest.
    UnknownTree(TreeId),
    /// An operation requested a version that the forest does not know.
    UnknownVersion(u64),
    /// Any other error, by its description.
    Other(String),
}

/// The forest error a backend error is forwarded as: a Merkle error as a Merkle error, any other
/// as another error, each with its description.
pub open spec fn forwarded_backend_error(e: BackendError) -> LargeSmtForestError {
    match e {
        BackendError::Merkle(m) => LargeSmtForestError::MerkleError(m),
        BackendError::Other(m) => LargeSmtForestError::Other(m),
    }
}

impl From<BackendError> for LargeSmtForestError {
    fn from(value: BackendError) -> (r: LargeSmtForestError) {
        match value {
            BackendError::Merkle(e) => LargeSmtForestError::MerkleError(e),
            BackendError::Other(e) => LargeSmtForestError::Other(e),
        }
    }
}

impl vstd::std_specs::convert::FromSpecImpl<BackendError> for LargeSmtForestError {
    open spec fn obeys_from_spec() -> bool {
        true
    }

    open spec fn from_spec(v: BackendError) -> LargeSmtForestError {
        forwarded_backend_error(v)
    }
}

impl From<HistoryError> for LargeSmtForestError {
    fn from(value: HistoryError) -> (r: LargeSmtForestError) {
        LargeSmtForestError::HistoryError(value)
    }
}

impl vstd::std_specs::convert::FromSpecImpl<HistoryError> for LargeSmtForestError {
    open spec fn obeys_from_spec() -> bool {
        true
    }

    open spec fn from_spec(v: HistoryError) -> LargeSmtForestError {
        LargeSmtForestError::HistoryError(v)
    }
}

} // verus!
