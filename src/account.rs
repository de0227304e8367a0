//! Accounts are the host's 32-byte addresses, carried as they are.

use vstd::prelude::*;
use multiversx_sc::types::Address;

verus! {

/// The host's account address; the ledger only compares and copies it.
#[verifier::external_type_specification]
#[verifier::external_body]
pub struct ExAddress(Address);

/// Relies on the derived `PartialEq` of multiversx_sc's `Address`, a wrapper
/// around a 32-byte array: two addresses compare equal exactly when they are
/// the same value.
#[verifier::external_body]
pub(crate) fn same_address(a: &Address, b: &Address) -> (r: bool)
    ensures
        r == (*a == *b),
{
    a == b
}

/// Relies on the derived `Clone` of multiversx_sc's `Address`: the copy holds
/// the same 32 bytes.
#[verifier::external_body]
pub(crate) fn copy_address(a: &Address) -> (r: Address)
    ensures
        r == *a,
{
    a.clone()
}

} // verus!
