//! Field elements, which the library takes from `starknet`.
//!
//! Nothing in this file is proved: each item states what the library assumes
//! of the outside crate.

use vstd::prelude::*;

verus! {

/// `starknet::core::types::Felt`, an element of the Stark field. Its inside
/// is not visible to proofs; the library only hands such values on.
#[verifier::external_type_specification]
#[verifier::external_body]
pub struct ExFelt(starknet::core::types::Felt);

/// `starknet::core::types::FromStrError`.
#[verifier::external_type_specification]
#[verifier::external_body]
pub struct ExFromStrError(starknet::core::types::FromStrError);

/// The fixed-width identifier of addresses and keys: a field element.
pub type Identifier = starknet::core::types::Felt;

/// The field element that `hex` spells in hexadecimal, where it spells one.
pub uninterp spec fn hex_felt(hex: Seq<char>) -> Option<starknet::core::types::Felt>;

/// `Felt::from_hex`: succeeds exactly on the texts that `hex_felt` knows, with
/// that element.
#[verifier::external_body]
pub(crate) fn felt_from_hex(hex: &str) -> (r: Result<
    starknet::core::types::Felt,
    starknet::core::types::FromStrError,
>)
    ensures
        r matches Ok(felt) ==> hex_felt(hex@) == Some(felt),
        r is Err ==> hex_felt(hex@) is None,
{
    starknet::core::types::Felt::from_hex(hex)
}

} // verus!
