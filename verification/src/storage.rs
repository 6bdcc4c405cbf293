//! Storage-layer interfaces for versioned account state, and the key
//! layout of versioned multisig entries.
use vstd::prelude::*;

use crate::endian::spec_u64_to_be_bytes;
use crate::endian::u64_to_be_bytes;

verus! {

/// The height of a block in topological order.
pub type TopoHeight = u64;

/// An error of the storage layer.
#[derive(Clone, Copy, Debug, PartialEq, Eq, Structural)]
pub enum BlockchainError {
    /// The account has no multisig state.
    NoMultisig,
    /// The underlying store failed.
    Storage,
}

/// Pruning of versioned balances, implemented by the storage backend.
pub trait VersionedBalanceProvider {
    /// Deletes every versioned balance recorded at the topoheight.
    fn delete_versioned_balances_at_topoheight(&mut self, topoheight: TopoHeight) -> Result<
        (),
        BlockchainError,
    >;

    /// Deletes every versioned balance recorded above the topoheight.
    fn delete_versioned_balances_above_topoheight(&mut self, topoheight: TopoHeight) -> Result<
        (),
        BlockchainError,
    >;

    /// Deletes versioned balances below the topoheight; with `keep_last`
    /// set, each account keeps its chain down to its latest spending
    /// version.
    fn delete_versioned_balances_below_topoheight(
        &mut self,
        topoheight: TopoHeight,
        keep_last: bool,
    ) -> Result<(), BlockchainError>;
}

/// Pruning of versioned multisig state, implemented by the storage backend.
pub trait VersionedMultiSigProvider {
    /// Deletes every versioned multisig entry recorded at the topoheight.
    fn delete_versioned_multisigs_at_topoheight(&mut self, topoheight: TopoHeight) -> Result<
        (),
        BlockchainError,
    >;

    /// Deletes every versioned multisig entry recorded above the
    /// topoheight.
    fn delete_versioned_multisigs_above_topoheight(&mut self, topoheight: TopoHeight) -> Result<
        (),
        BlockchainError,
    >;

    /// Deletes versioned multisig entries below the topoheight; with
    /// `keep_last` set, each account keeps its latest version.
    fn delete_versioned_multisigs_below_topoheight(
        &mut self,
        topoheight: TopoHeight,
        keep_last: bool,
    ) -> Result<(), BlockchainError>;
}

/// A multisig setup: the participating keys and how many signatures a
/// transaction needs.
#[derive(Clone, Debug)]
pub struct MultiSigPayload {
    pub participants: Vec<crate::hash::PublicKey>,
    pub threshold: u8,
}

/// One version of an account's multisig state: a link to the previous
/// version's topoheight and the payload, `None` when the setup was deleted.
#[derive(Clone, Debug)]
pub struct VersionedMultiSig {
    pub previous_topoheight: Option<TopoHeight>,
    pub payload: Option<MultiSigPayload>,
}

/// Multisig state lookups, implemented by the storage backend. The two spec
/// functions are the backend's abstract contents; each implementation must
/// make its methods agree with them.
pub trait MultiSigProvider {
    /// The last topoheight at which the account's multisig state changed,
    /// if it ever did.
    spec fn spec_last_topoheight(&self, account: Seq<u8>) -> Option<TopoHeight>;

    /// The multisig state recorded for the account at a topoheight.
    spec fn spec_multisig_at(&self, account: Seq<u8>, topoheight: TopoHeight) -> Option<
        VersionedMultiSig,
    >;

    /// Retrieves the last topoheight for the account.
    fn get_last_topoheight_for_multisig(&self, account: &crate::hash::PublicKey) -> (r: Result<
        Option<TopoHeight>,
        BlockchainError,
    >)
        ensures
            r matches Ok(t) ==> t == self.spec_last_topoheight(account@),
    ;

    /// Retrieves the multisig state of the account at a topoheight.
    fn get_multisig_at_topoheight_for(
        &self,
        account: &crate::hash::PublicKey,
        topoheight: TopoHeight,
    ) -> (r: Result<VersionedMultiSig, BlockchainError>)
        ensures
            r matches Ok(v) ==> Some(v) == self.spec_multisig_at(account@, topoheight),
    ;

    /// Retrieves the last multisig state of the account: the topoheight
    /// from the index, the state from the versioned tree; an account with
    /// no recorded state yields `NoMultisig`.
    fn get_last_multisig(&self, account: &crate::hash::PublicKey) -> (r: Result<
        (TopoHeight, VersionedMultiSig),
        BlockchainError,
    >)
        ensures
            r matches Ok((t, v)) ==> {
                &&& self.spec_last_topoheight(account@) == Some(t)
                &&& self.spec_multisig_at(account@, t) == Some(v)
            },
    {
        let topoheight = match self.get_last_topoheight_for_multisig(account) {
            Ok(Some(t)) => t,
            Ok(None) => {
                return Err(BlockchainError::NoMultisig);
            },
            Err(e) => {
                return Err(e);
            },
        };
        match self.get_multisig_at_topoheight_for(account, topoheight) {
            Ok(state) => Ok((topoheight, state)),
            Err(e) => Err(e),
        }
    }
}

/// What happened to an account's multisig setup within a topoheight range.
#[derive(Clone, Debug)]
pub enum MultiSigState {
    /// A setup was recorded in the range.
    Updated(MultiSigPayload),
    /// The setup was removed in the range.
    Removed,
    /// The last change lies below the range: nothing new.
    Unchanged,
    /// The account never had a setup.
    Absent,
}

/// How one account's multisig lookup is classified against the minimum
/// topoheight of interest: no version at all is absent; a version below the
/// minimum is unchanged; a version in range updates or removes the setup
/// according to its payload.
pub open spec fn spec_classify_multisig_update(
    found: Option<(TopoHeight, VersionedMultiSig)>,
    minimum_topoheight: TopoHeight,
) -> MultiSigState {
    match found {
        None => MultiSigState::Absent,
        Some((topoheight, version)) => if topoheight >= minimum_topoheight {
            match version.payload {
                Some(payload) => MultiSigState::Updated(payload),
                None => MultiSigState::Removed,
            }
        } else {
            MultiSigState::Unchanged
        },
    }
}

/// Classifies the result of one account's multisig lookup at the maximum
/// topoheight against the minimum topoheight of interest.
pub fn classify_multisig_update(
    found: Option<(TopoHeight, VersionedMultiSig)>,
    minimum_topoheight: TopoHeight,
) -> (r: MultiSigState)
    ensures
        r == spec_classify_multisig_update(found, minimum_topoheight),
{
    match found {
        None => MultiSigState::Absent,
        Some((topoheight, version)) => {
            if topoheight >= minimum_topoheight {
                match version.payload {
                    Some(payload) => MultiSigState::Updated(payload),
                    None => MultiSigState::Removed,
                }
            } else {
                MultiSigState::Unchanged
            }
        },
    }
}

/// The 40-byte storage key of an account's multisig state at a topoheight:
/// the account's public key followed by the topoheight in big-endian form.
pub open spec fn versioned_multisig_key_bytes(account: Seq<u8>, topoheight: u64) -> Seq<u8> {
    account + spec_u64_to_be_bytes(topoheight)
}

/// Builds the storage key of an account's multisig state at a topoheight.
pub fn get_versioned_multisig_key(account: &crate::hash::PublicKey, topoheight: TopoHeight) -> (r:
    Vec<u8>)
    ensures
        r@ == versioned_multisig_key_bytes(account@, topoheight),
        r@.len() == 40,
{
    let ab = account.as_bytes();
    let mut key: Vec<u8> = Vec::new();
    let mut i: usize = 0;
    proof {
        assert(key@ =~= account@.subrange(0, 0));
    }
    while i < 32
        invariant
            i <= 32,
            account@.len() == 32,
            key@ == account@.subrange(0, i as int),
        decreases 32 - i,
    {
        key.push(ab[i]);
        proof {
            assert(account@.subrange(0, i + 1) =~= account@.subrange(0, i as int).push(
                account@[i as int],
            ));
        }
        i += 1;
    }
    proof {
        assert(account@.subrange(0, 32) =~= account@);
    }
    let be = u64_to_be_bytes(topoheight);
    let mut j: usize = 0;
    while j < be.len()
        invariant
            j <= be@.len(),
            be@ == spec_u64_to_be_bytes(topoheight),
            key@ == account@ + be@.subrange(0, j as int),
        decreases be@.len() - j,
    {
        key.push(be[j]);
        proof {
            assert(account@ + be@.subrange(0, j + 1) =~= (account@ + be@.subrange(
                0,
                j as int,
            )).push(be@[j as int]));
        }
        j += 1;
    }
    proof {
        assert(be@.subrange(0, be@.len() as int) =~= be@);
        assert(key@ =~= versioned_multisig_key_bytes(account@, topoheight));
    }
    key
}

} // verus!
