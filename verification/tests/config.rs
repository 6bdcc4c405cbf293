use dapa::config::BlockVersion;
use dapa::config::Network;
use dapa::config::get_difficulty_at_hard_fork;
use dapa::config::get_genesis_block_hash;
use dapa::config::get_hard_forks;
use dapa::config::get_hex_genesis_block;
use dapa::config::get_minimum_difficulty;
use dapa::config::get_premine_address;
use dapa::config::get_premine_amount;
use dapa::config::get_seed_nodes;
use dapa::endian::u64_to_be_bytes;
use dapa::storage::classify_multisig_update;
use dapa::storage::get_versioned_multisig_key;
use dapa::storage::MultiSigPayload;
use dapa::storage::MultiSigState;
use dapa::storage::VersionedMultiSig;

#[test]
fn genesis_blocks_per_network() {
    let mainnet = get_hex_genesis_block(&Network::Mainnet).unwrap();
    let testnet = get_hex_genesis_block(&Network::Testnet).unwrap();
    assert!(mainnet.starts_with("00000000000000000000000197eda17a44"));
    assert!(testnet.starts_with("0000000000000000000000018f116b47cf"));
    assert!(get_hex_genesis_block(&Network::Dev).is_none());

    let mh = get_genesis_block_hash(&Network::Mainnet).unwrap();
    assert_eq!(mh.as_bytes()[0], 200);
    assert_eq!(mh.as_bytes()[31], 26);
    let th = get_genesis_block_hash(&Network::Testnet).unwrap();
    assert_eq!(th.as_bytes()[0], 145);
    assert!(get_genesis_block_hash(&Network::Dev).is_none());
}

#[test]
fn seed_nodes_only_on_mainnet() {
    let nodes = get_seed_nodes(&Network::Mainnet);
    assert_eq!(nodes.len(), 3);
    assert_eq!(nodes[0], "185.198.27.165:20100");
    assert!(get_seed_nodes(&Network::Testnet).is_empty());
    assert!(get_seed_nodes(&Network::Dev).is_empty());
}

#[test]
fn minimum_difficulty_per_network() {
    assert_eq!(get_minimum_difficulty(&Network::Mainnet).0, 300_000);
    assert_eq!(get_minimum_difficulty(&Network::Testnet).0, 30_000);
    assert_eq!(get_minimum_difficulty(&Network::Dev).0, 30_000);
}

#[test]
fn hard_fork_difficulty_jumps_after_v1() {
    assert_eq!(
        get_difficulty_at_hard_fork(&Network::Mainnet, BlockVersion::V0).0,
        300_000
    );
    assert_eq!(
        get_difficulty_at_hard_fork(&Network::Mainnet, BlockVersion::V1).0,
        300_000
    );
    assert_eq!(
        get_difficulty_at_hard_fork(&Network::Mainnet, BlockVersion::V2).0,
        30_000_000_000
    );
    assert_eq!(
        get_difficulty_at_hard_fork(&Network::Testnet, BlockVersion::V2).0,
        30_000
    );
}

#[test]
fn hard_fork_schedules() {
    let mainnet = get_hard_forks(&Network::Mainnet);
    assert_eq!(mainnet.len(), 3);
    assert_eq!(mainnet[1].height, 434_100);
    assert_eq!(mainnet[1].changelog, "xelis-hash v2");
    assert_eq!(mainnet[1].version_requirement.as_deref(), Some(">=1.13.0"));
    let testnet = get_hard_forks(&Network::Testnet);
    assert_eq!(testnet.len(), 4);
    assert_eq!(testnet[3].height, 15);
    assert_eq!(testnet[3].changelog, "Smart Contracts");
}

#[test]
fn premine_values() {
    assert_eq!(get_premine_amount(), 5_000_000_000_000_000);
    assert!(get_premine_address().starts_with("dap:"));
}

#[test]
fn be_bytes_match_std() {
    for v in [0u64, 1, 0xFF, 0x0102030405060708, u64::MAX] {
        assert_eq!(u64_to_be_bytes(v), v.to_be_bytes().to_vec());
    }
}

#[test]
fn multisig_key_is_account_then_topoheight() {
    let pk = dapa::hash::PublicKey::new([9u8; 32]);
    let key = get_versioned_multisig_key(&pk, 0x1122334455667788);
    assert_eq!(key.len(), 40);
    assert_eq!(&key[..32], &[9u8; 32]);
    assert_eq!(&key[32..], &0x1122334455667788u64.to_be_bytes());
}

#[test]
fn multisig_updates_are_classified_by_range() {
    let version_set = VersionedMultiSig {
        previous_topoheight: Some(5),
        payload: Some(MultiSigPayload { participants: Vec::new(), threshold: 2 }),
    };
    let version_removed = VersionedMultiSig { previous_topoheight: Some(5), payload: None };
    assert!(matches!(
        classify_multisig_update(None, 10),
        MultiSigState::Absent
    ));
    assert!(matches!(
        classify_multisig_update(Some((9, version_set.clone())), 10),
        MultiSigState::Unchanged
    ));
    assert!(matches!(
        classify_multisig_update(Some((10, version_set)), 10),
        MultiSigState::Updated(_)
    ));
    assert!(matches!(
        classify_multisig_update(Some((12, version_removed)), 10),
        MultiSigState::Removed
    ));
}
