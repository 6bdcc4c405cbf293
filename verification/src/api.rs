//! Wallet API parameter and result types: plain data carried between a
//! wallet and its callers.
use vstd::prelude::*;

use crate::storage::TopoHeight;

verus! {

/// A wallet or daemon address in its textual form.
#[derive(Clone, Debug)]
pub struct Address {
    pub value: String,
}

/// A private key's raw bytes.
#[derive(Clone, Debug)]
pub struct PrivateKey {
    pub bytes: Vec<u8>,
}

/// A plain value stored in or queried from a wallet's encrypted store.
#[derive(Clone, Debug)]
pub enum DataValue {
    Bool(bool),
    U64(u64),
    Text(String),
    Id(crate::hash::Hash),
}

/// A structured element of the wallet's encrypted store: a value or an
/// array of values.
#[derive(Clone, Debug)]
pub enum DataElement {
    Value(DataValue),
    Array(Vec<DataValue>),
}

/// A filter over stored keys or values.
#[derive(Clone, Debug)]
pub enum Query {
    Equal(DataValue),
    ContainsText(String),
}

/// Decrypted extra data attached to a transfer.
#[derive(Clone, Debug)]
pub struct PlaintextExtraData {
    pub data: Option<DataElement>,
}

/// A signer taking part in a multisig transaction build.
#[derive(Clone, Debug)]
pub struct SignerId {
    pub id: u8,
    pub private_key: PrivateKey,
}

/// Parameters asking to sign a previously built unsigned transaction.
#[derive(Clone, Debug)]
pub struct SignUnsignedTransactionParams {
    pub hash: crate::hash::Hash,
    pub signer_id: u8,
}

/// Parameters asking for an asset's decimals count.
#[derive(Clone, Debug)]
pub struct GetAssetPrecisionParams {
    pub asset: crate::hash::Hash,
}

/// Parameters asking for an address, optionally integrated with data.
#[derive(Clone, Debug)]
pub struct GetAddressParams {
    pub integrated_data: Option<DataElement>,
}

/// Parameters asking to rescan the chain from a topoheight.
#[derive(Clone, Debug)]
pub struct RescanParams {
    pub until_topoheight: Option<TopoHeight>,
    pub auto_reconnect: bool,
}

/// Parameters asking to go online against a daemon.
#[derive(Clone, Debug)]
pub struct SetOnlineModeParams {
    pub daemon_address: String,
    pub auto_reconnect: bool,
}

/// Parameters asking for a balance, for one asset or the native one.
#[derive(Clone, Debug)]
pub struct GetBalanceParams {
    pub asset: Option<crate::hash::Hash>,
}

/// Parameters asking for one transaction by hash.
#[derive(Clone, Debug)]
pub struct GetTransactionParams {
    pub hash: crate::hash::Hash,
}

/// Event payload: an asset's balance changed.
#[derive(Clone, Debug)]
pub struct BalanceChanged {
    pub asset: crate::hash::Hash,
    pub balance: u64,
}

/// Parameters reading one value by key from a store tree.
#[derive(Clone, Debug)]
pub struct GetValueFromKeyParams {
    pub tree: String,
    pub key: DataValue,
}

/// Parameters asking whether a key exists in a store tree.
#[derive(Clone, Debug)]
pub struct HasKeyParams {
    pub tree: String,
    pub key: DataValue,
}

/// Parameters listing keys of a store tree matching a query.
#[derive(Clone, Debug)]
pub struct GetMatchingKeysParams {
    pub tree: String,
    pub query: Option<Query>,
    pub limit: Option<usize>,
    pub skip: Option<usize>,
}

/// Parameters counting entries of a store tree matching queries.
#[derive(Clone, Debug)]
pub struct CountMatchingEntriesParams {
    pub tree: String,
    pub key: Option<Query>,
    pub value: Option<Query>,
}

/// Parameters storing one entry in a store tree.
#[derive(Clone, Debug)]
pub struct StoreParams {
    pub tree: String,
    pub key: DataValue,
    pub value: DataElement,
}

/// Parameters deleting one entry of a store tree.
#[derive(Clone, Debug)]
pub struct DeleteParams {
    pub tree: String,
    pub key: DataValue,
}

/// Parameters deleting every entry of a store tree.
#[derive(Clone, Debug)]
pub struct DeleteTreeEntriesParams {
    pub tree: String,
}

/// Parameters querying a store tree by key and value filters.
#[derive(Clone, Debug)]
pub struct QueryDBParams {
    pub tree: String,
    pub key: Option<Query>,
    pub value: Option<Query>,
    pub limit: Option<usize>,
    pub skip: Option<usize>,
}

/// Parameters listing wallet transactions with filters.
#[derive(Clone, Debug)]
pub struct ListTransactionsParams {
    pub asset: Option<crate::hash::Hash>,
    pub min_topoheight: Option<TopoHeight>,
    pub max_topoheight: Option<TopoHeight>,
    pub address: Option<Address>,
    pub accept_incoming: bool,
    pub accept_outgoing: bool,
    pub accept_coinbase: bool,
    pub accept_burn: bool,
    pub query: Option<Query>,
    pub limit: Option<usize>,
    pub skip: Option<usize>,
}

/// Events a wallet can notify its listeners of.
#[derive(Clone, Copy, Debug, PartialEq, Eq, Structural)]
pub enum NotifyEvent {
    NewTopoHeight,
    NewAsset,
    NewTransaction,
    BalanceChanged,
    Rescan,
    HistorySynced,
    Online,
    Offline,
}

/// An outgoing transfer of a transaction entry.
#[derive(Clone, Debug)]
pub struct TransferOut {
    pub destination: Address,
    pub asset: crate::hash::Hash,
    pub amount: u64,
    pub extra_data: Option<PlaintextExtraData>,
}

/// An incoming transfer of a transaction entry.
#[derive(Clone, Debug)]
pub struct TransferIn {
    pub asset: crate::hash::Hash,
    pub amount: u64,
    pub extra_data: Option<PlaintextExtraData>,
}

/// Parameters estimating the size of integrated extra data.
#[derive(Clone, Debug)]
pub struct EstimateExtraDataSizeParams {
    pub destinations: Vec<Address>,
}

/// The estimated size of integrated extra data.
#[derive(Clone, Copy, Debug, PartialEq, Eq, Structural)]
pub struct EstimateExtraDataSizeResult {
    pub size: usize,
}

} // verus!
