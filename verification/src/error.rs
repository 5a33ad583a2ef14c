//! Errors the registry can signal.

use vstd::prelude::*;

verus! {

/// Every way a registry call can fail.  Any error aborts the whole
/// call: the caller must discard the partially updated state and keep
/// the old one, as the host's all-or-nothing call boundary does.
#[derive(Debug, PartialEq, Eq)]
pub enum ContractError {
    /// The caller may not perform this action.
    NotAuthorized,
    /// A managed contract could not be instantiated.
    CreateFailed,
    /// An empty default label was supplied.
    InvalidLabel,
    /// No allowed code ids were supplied at initialization.
    NoAllowedCodeIds,
    /// The requested code id is not on the allow list.
    CodeIdNotAllowed,
    /// No item is known under the given identifier or address.
    NotFound,
    /// An access-control list is already configured.
    AclAlreadyEnabled,
    /// A preset with this name is already stored.
    PresetExists,
    /// The record to create already exists.
    AlreadyExists,
    /// A compound key that a built-in index must hold is missing: the
    /// sync invariant was already violated, so the call aborts rather
    /// than silently repairing.
    NotInIndex,
    /// Querying a managed contract's state failed.
    QueryStateError,
    /// Caller-supplied input failed validation.
    ValidationError,
    /// No label was given and no default label is configured.
    LabelRequired,
    /// The slot's metadata record was never initialized.
    InvalidIndexSlot,
    /// The caller named a slot at or above `SLOT_COUNT`.
    SlotOutOfBounds { slot: u8 },
}

} // verus!
