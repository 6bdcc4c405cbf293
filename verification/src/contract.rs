//! The storage interface of contract execution and the opaque random
//! number generator handle exposed to contracts.
use vstd::prelude::*;

verus! {

/// An error reported by a contract storage provider.
#[derive(Clone, Copy, Debug, PartialEq, Eq, Structural)]
pub enum ProviderError {
    Storage,
}

/// Access to contract state in storage, implemented by the node's storage
/// backend.
pub trait ContractProvider {
    /// Returns the topoheight and balance of the contract for the asset at
    /// or below the given topoheight, if any.
    fn get_contract_balance_for_asset(
        &self,
        contract: &crate::hash::Hash,
        asset: &crate::hash::Hash,
        topoheight: u64,
    ) -> Result<Option<(u64, u64)>, ProviderError>;
}

/// A wrapper owning a contract storage provider, letting it travel inside
/// an execution context.
pub struct ContractProviderWrapper<S: ContractProvider>(pub S);

/// The opaque handle through which a contract draws deterministic random
/// values.
#[derive(Clone, Copy, Debug, PartialEq, Eq, Structural)]
pub struct OpaqueRandom;

/// The boolean a contract's random draw yields from one random byte: its
/// lowest bit.
pub fn random_bool_from_byte(b: u8) -> (r: bool)
    ensures
        r == (b % 2 == 1),
{
    b % 2 == 1
}

} // verus!
