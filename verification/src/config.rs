//! Network-dependent chain configuration: genesis blocks, seed nodes,
//! minimum difficulties, hard forks and the pre-mine.
use vstd::prelude::*;
use vstd::string::StringExecFns;

use crate::utils::Difficulty;

verus! {

/// Which chain a node runs on.
#[derive(Clone, Copy, Debug, PartialEq, Eq, Structural)]
pub enum Network {
    Mainnet,
    Testnet,
    Dev,
}

/// Consensus rule versions activated by hard forks.
#[derive(Clone, Copy, Debug, PartialEq, Eq, Structural)]
pub enum BlockVersion {
    V0,
    V1,
    V2,
    V3,
}

/// One scheduled hard fork: the height it activates at, the block version
/// it brings, a short changelog, and the minimum node version required.
#[derive(Clone, Debug)]
pub struct HardFork {
    pub height: u64,
    pub version: BlockVersion,
    pub changelog: String,
    pub version_requirement: Option<String>,
}

/// Milliseconds per second.
pub const MILLIS_PER_SECOND: u64 = 1000;

/// Target block time in milliseconds.
pub const BLOCK_TIME_MILLIS: u64 = 15 * MILLIS_PER_SECOND;

/// Minimum mainnet difficulty: each point is one hash per second.
pub const MAINNET_MINIMUM_DIFFICULTY: u64 = BLOCK_TIME_MILLIS * 20;

/// Minimum difficulty on testnet and devnet.
pub const OTHER_MINIMUM_DIFFICULTY: u64 = BLOCK_TIME_MILLIS * 2;

/// Coins pre-mined at genesis, in atomic units.
pub const PREMINE_AMOUNT: u64 = 50_000_000 * 100_000_000;

/// Milliseconds until a requested object is considered timed out.
pub const PEER_TIMEOUT_REQUEST_OBJECT: u64 = 15_000;

/// The mainnet genesis block in hexadecimal form.
pub open spec fn mainnet_genesis_hex() -> Seq<char> {
    "00000000000000000000000197eda17a440000000000000000000000000000000000000000000000000000000000000000000000000000000000000064c8b0cb00388f508ff5d3973f5da303387545a26421eecb49dd65230166874a"@
}

/// The testnet genesis block in hexadecimal form.
pub open spec fn testnet_genesis_hex() -> Seq<char> {
    "0000000000000000000000018f116b47cf000000000000000000000000000000000000000000000000000000000000000000000000000000000000006423b4908e5bd32241e3443fccfb7bab86a899a8cca12b3fedf255634d156d66"@
}

/// The bytes of the mainnet genesis block's hash.
pub open spec fn mainnet_genesis_hash_bytes() -> Seq<u8> {
    seq![
        200u8, 136, 173, 12, 139, 40, 70, 152, 29, 39, 9, 185, 197, 2, 58, 96, 155, 61, 229,
        48, 134, 20, 120, 148, 88, 45, 254, 210, 219, 250, 173, 26,
    ]
}

/// The bytes of the testnet genesis block's hash.
pub open spec fn testnet_genesis_hash_bytes() -> Seq<u8> {
    seq![
        145u8, 152, 150, 21, 160, 79, 96, 50, 124, 213, 35, 97, 129, 129, 175, 9, 145, 52, 98,
        164, 191, 88, 87, 152, 45, 178, 119, 134, 215, 2, 177, 180,
    ]
}

/// The pre-mine address.
pub open spec fn premine_address_chars() -> Seq<char> {
    "dap:vnytpjcq8z84prl46wtn7hdrqvu823dzvss7aj6fm4jjxqtxsa9qqz9lrvx"@
}

/// The genesis block for the network, in hexadecimal; devnet generates a
/// fresh one on start and has none here.
pub fn get_hex_genesis_block(network: &Network) -> (r: Option<&'static str>)
    ensures
        network is Mainnet ==> (r matches Some(s) && s@ == mainnet_genesis_hex()),
        network is Testnet ==> (r matches Some(s) && s@ == testnet_genesis_hex()),
        network is Dev ==> r is None,
{
    match network {
        Network::Mainnet => Some(
            "00000000000000000000000197eda17a440000000000000000000000000000000000000000000000000000000000000000000000000000000000000064c8b0cb00388f508ff5d3973f5da303387545a26421eecb49dd65230166874a",
        ),
        Network::Testnet => Some(
            "0000000000000000000000018f116b47cf000000000000000000000000000000000000000000000000000000000000000000000000000000000000006423b4908e5bd32241e3443fccfb7bab86a899a8cca12b3fedf255634d156d66",
        ),
        Network::Dev => None,
    }
}

/// The genesis block's hash for the network; none on devnet.
pub fn get_genesis_block_hash(network: &Network) -> (r: Option<crate::hash::Hash>)
    ensures
        network is Mainnet ==> (r matches Some(h) && h@ == mainnet_genesis_hash_bytes()),
        network is Testnet ==> (r matches Some(h) && h@ == testnet_genesis_hash_bytes()),
        network is Dev ==> r is None,
{
    match network {
        Network::Mainnet => {
            let h = crate::hash::Hash::new(
                [
                    200u8, 136, 173, 12, 139, 40, 70, 152, 29, 39, 9, 185, 197, 2, 58, 96, 155,
                    61, 229, 48, 134, 20, 120, 148, 88, 45, 254, 210, 219, 250, 173, 26,
                ],
            );
            proof {
                assert(h@ =~= mainnet_genesis_hash_bytes());
            }
            Some(h)
        },
        Network::Testnet => {
            let h = crate::hash::Hash::new(
                [
                    145u8, 152, 150, 21, 160, 79, 96, 50, 124, 213, 35, 97, 129, 129, 175, 9,
                    145, 52, 98, 164, 191, 88, 87, 152, 45, 178, 119, 134, 215, 2, 177, 180,
                ],
            );
            proof {
                assert(h@ =~= testnet_genesis_hash_bytes());
            }
            Some(h)
        },
        Network::Dev => None,
    }
}

/// The seed nodes of the network; testnet and devnet have none.
pub fn get_seed_nodes(network: &Network) -> (r: Vec<String>)
    ensures
        network is Mainnet ==> {
            &&& r@.len() == 3
            &&& r@[0]@ == "185.198.27.165:20100"@
            &&& r@[1]@ == "45.84.138.159:20100"@
            &&& r@[2]@ == "194.163.189.149:20100"@
        },
        !(network is Mainnet) ==> r@.len() == 0,
{
    let mut v: Vec<String> = Vec::new();
    match network {
        Network::Mainnet => {
            v.push(String::from_str("185.198.27.165:20100"));
            v.push(String::from_str("45.84.138.159:20100"));
            v.push(String::from_str("194.163.189.149:20100"));
        },
        Network::Testnet => {
        },
        Network::Dev => {
        },
    }
    v
}

/// The minimum difficulty enforced on the network: mainnet's floor guards
/// against low-difficulty spam; testnet and devnet mine faster.
pub fn get_minimum_difficulty(network: &Network) -> (r: Difficulty)
    ensures
        network is Mainnet ==> r.0 == MAINNET_MINIMUM_DIFFICULTY,
        !(network is Mainnet) ==> r.0 == OTHER_MINIMUM_DIFFICULTY,
{
    match network {
        Network::Mainnet => Difficulty(MAINNET_MINIMUM_DIFFICULTY),
        _ => Difficulty(OTHER_MINIMUM_DIFFICULTY),
    }
}

/// The difficulty a hard fork resets to: on mainnet the first two versions
/// keep the minimum, later ones raise it a hundred-thousand-fold.
pub fn get_difficulty_at_hard_fork(network: &Network, block_version: BlockVersion) -> (r: Difficulty)
    ensures
        !(network is Mainnet) ==> r.0 == OTHER_MINIMUM_DIFFICULTY,
        network is Mainnet && (block_version is V0 || block_version is V1)
            ==> r.0 == MAINNET_MINIMUM_DIFFICULTY,
        network is Mainnet && !(block_version is V0) && !(block_version is V1)
            ==> r.0 == MAINNET_MINIMUM_DIFFICULTY * 100_000,
{
    match network {
        Network::Mainnet => match block_version {
            BlockVersion::V0 | BlockVersion::V1 => Difficulty(MAINNET_MINIMUM_DIFFICULTY),
            _ => Difficulty(MAINNET_MINIMUM_DIFFICULTY * 100_000),
        },
        _ => Difficulty(OTHER_MINIMUM_DIFFICULTY),
    }
}

/// The hard-fork schedule of the network.
pub fn get_hard_forks(network: &Network) -> (r: Vec<HardFork>)
    ensures
        network is Mainnet ==> {
            &&& r@.len() == 3
            &&& r@[0].height == 0 && r@[0].version is V0
            &&& r@[1].height == 434_100 && r@[1].version is V1
            &&& r@[2].height == 1_376_000 && r@[2].version is V2
        },
        !(network is Mainnet) ==> {
            &&& r@.len() == 4
            &&& r@[0].height == 0 && r@[0].version is V0
            &&& r@[1].height == 5 && r@[1].version is V1
            &&& r@[2].height == 10 && r@[2].version is V2
            &&& r@[3].height == 15 && r@[3].version is V3
        },
{
    let mut v: Vec<HardFork> = Vec::new();
    match network {
        Network::Mainnet => {
            v.push(HardFork {
                height: 0,
                version: BlockVersion::V0,
                changelog: String::from_str("Initial version"),
                version_requirement: None,
            });
            v.push(HardFork {
                height: 434_100,
                version: BlockVersion::V1,
                changelog: String::from_str("xelis-hash v2"),
                version_requirement: Some(String::from_str(">=1.13.0")),
            });
            v.push(HardFork {
                height: 1_376_000,
                version: BlockVersion::V2,
                changelog: String::from_str("MultiSig, P2P"),
                version_requirement: Some(String::from_str(">=1.16.0")),
            });
        },
        _ => {
            v.push(HardFork {
                height: 0,
                version: BlockVersion::V0,
                changelog: String::from_str("Initial version"),
                version_requirement: None,
            });
            v.push(HardFork {
                height: 5,
                version: BlockVersion::V1,
                changelog: String::from_str("xelis-hash v2"),
                version_requirement: Some(String::from_str(">=1.13.0")),
            });
            v.push(HardFork {
                height: 10,
                version: BlockVersion::V2,
                changelog: String::from_str("MultiSig, P2P"),
                version_requirement: Some(String::from_str(">=1.16.0")),
            });
            v.push(HardFork {
                height: 15,
                version: BlockVersion::V3,
                changelog: String::from_str("Smart Contracts"),
                version_requirement: Some(String::from_str(">=1.16.0")),
            });
        },
    }
    v
}

/// The amount pre-mined at genesis, in atomic units.
pub fn get_premine_amount() -> (r: u64)
    ensures
        r == PREMINE_AMOUNT,
{
    PREMINE_AMOUNT
}

/// The address the pre-mine is paid to.
pub fn get_premine_address() -> (r: &'static str)
    ensures
        r@ == premine_address_chars(),
{
    "dap:vnytpjcq8z84prl46wtn7hdrqvu823dzvss7aj6fm4jjxqtxsa9qqz9lrvx"
}

} // verus!
