use dapa::asset::derive_asset_hash;
use dapa::asset::is_valid_char_for_asset;
use dapa::asset::is_valid_str_for_asset;
use dapa::asset::validate_asset_create;
use dapa::asset::AssetCreateError;
use dapa::asset::TICKER_LEN;

#[test]
fn test_various_asset_names() {
    assert!(is_valid_str_for_asset("DAPA", true, false));
    assert!(is_valid_str_for_asset("DAPAAI99", true, false));
    assert!(is_valid_str_for_asset("DAPA POW 123", true, false));
    assert!(is_valid_str_for_asset("ZZZZZZ", true, true));

    // check only uppercase
    assert!(!is_valid_str_for_asset("ZZZZZZzzzZ", true, true));

    // check whitespaces
    assert!(!is_valid_str_for_asset(" DAPA", true, false));
    assert!(!is_valid_str_for_asset("DAPA   ", true, false));
}

#[test]
fn asset_chars_follow_the_flags() {
    assert!(is_valid_char_for_asset('A', false, true));
    assert!(is_valid_char_for_asset('7', false, true));
    assert!(!is_valid_char_for_asset('a', false, true));
    assert!(is_valid_char_for_asset('a', false, false));
    assert!(!is_valid_char_for_asset(' ', false, false));
    assert!(is_valid_char_for_asset(' ', true, false));
    assert!(!is_valid_char_for_asset('-', true, false));
    assert!(TICKER_LEN == 8);
}

#[test]
fn inner_spaces_are_allowed_edges_are_not() {
    assert!(is_valid_str_for_asset("", true, false));
    assert!(is_valid_str_for_asset("A B", true, false));
    assert!(!is_valid_str_for_asset("A B", false, false));
}

#[test]
fn asset_hash_matches_blake3_of_contract_and_id() {
    let contract = dapa::hash::Hash::new([7u8; 32]);
    let id: u64 = 0x0102030405060708;
    let derived = derive_asset_hash(&contract, id);

    let mut preimage = [0u8; 40];
    preimage[..32].copy_from_slice(contract.as_bytes());
    preimage[32..].copy_from_slice(&id.to_be_bytes());
    let expected: [u8; 32] = blake3::hash(&preimage).into();
    assert_eq!(*derived.as_bytes(), expected);
}

#[test]
fn asset_hash_depends_on_id() {
    let contract = dapa::hash::Hash::new([1u8; 32]);
    let a = derive_asset_hash(&contract, 0);
    let b = derive_asset_hash(&contract, 1);
    assert!(a != b);
    assert!(a != contract);
}

#[test]
fn asset_create_rules_are_checked_in_order() {
    assert_eq!(validate_asset_create("My Token", "TOK"), Ok(()));
    assert_eq!(
        validate_asset_create("My Token", "TOOLONGTICKER"),
        Err(AssetCreateError::TickerTooLong)
    );
    assert_eq!(
        validate_asset_create("My Token", "tok"),
        Err(AssetCreateError::TickerInvalid)
    );
    assert_eq!(
        validate_asset_create("My Token", "T K"),
        Err(AssetCreateError::TickerInvalid)
    );
    let long_name = "A".repeat(256);
    assert_eq!(
        validate_asset_create(&long_name, "TOK"),
        Err(AssetCreateError::NameTooLong)
    );
    assert_eq!(
        validate_asset_create(" Edge", "TOK"),
        Err(AssetCreateError::NameInvalid)
    );
}
