use dapa::utils::Difficulty;
use dapa::utils::COIN_VALUE;
use dapa::utils::FEE_PER_ACCOUNT_CREATION;
use dapa::utils::FEE_PER_KB;
use dapa::utils::FEE_PER_TRANSFER;
use dapa::utils::calculate_tx_fee;
use dapa::utils::format_coin;
use dapa::utils::format_difficulty;
use dapa::utils::format_dapa;
use dapa::utils::from_coin;
use dapa::utils::from_dapa;
use dapa::utils::sanitize_daemon_address_core;

#[test]
fn test_format_coin() {
    assert_eq!(from_coin("10", 8), Some(10 * COIN_VALUE));
    assert_eq!(from_coin("1", 8), Some(COIN_VALUE));
    assert_eq!(from_coin("0.1", 8), Some(COIN_VALUE / 10));
    assert_eq!(from_coin("0.01", 8), Some(COIN_VALUE / 100));

    assert_eq!(from_coin("0.1", 1), Some(1));
    assert_eq!(from_coin("1", 0), Some(1));
}

#[test]
fn test_dapa_format() {
    assert_eq!(format_dapa(FEE_PER_ACCOUNT_CREATION), "0.00100000");
    assert_eq!(format_dapa(FEE_PER_KB), "0.00010000");
    assert_eq!(format_dapa(FEE_PER_TRANSFER), "0.00005000");
    assert_eq!(format_dapa(COIN_VALUE), "1.00000000");
    assert_eq!(format_dapa(1), "0.00000001");
}

#[test]
fn test_difficulty_format_zero() {
    let value = Difficulty::zero();
    assert_eq!(format_difficulty(value), "0");
}

#[test]
fn test_difficulty_format_thousand_k() {
    let value: Difficulty = 1000u64.into();
    assert_eq!(format_difficulty(value), "1K");
}

#[test]
fn test_difficulty_format_thousand_k_left() {
    let value: Difficulty = 1150u64.into();
    assert_eq!(format_difficulty(value), "1.15K");
}

#[test]
fn test_high_difficulty() {
    let value: Difficulty = 1150_000_000u64.into();
    assert_eq!(format_difficulty(value), "1.15G");
}

#[test]
fn test_from_dapa() {
    let value = from_dapa("100.123");
    assert_eq!(value, Some(100_123_00000));
}

#[test]
fn format_coin_zero_decimals_and_zero_value() {
    assert_eq!(format_coin(0, 0), "0");
    assert_eq!(format_coin(7, 0), "7");
    assert_eq!(format_coin(0, 2), "0.00");
    assert_eq!(format_coin(123, 2), "1.23");
    assert_eq!(format_coin(120, 2), "1.20");
}

#[test]
fn from_coin_trims_whitespace() {
    assert_eq!(from_coin("  42.5 ", 2), Some(4250));
    assert_eq!(from_coin("\t1\n", 0), Some(1));
}

#[test]
fn from_coin_accepts_leading_plus() {
    assert_eq!(from_coin("+3", 0), Some(3));
    assert_eq!(from_coin("+1.5", 1), Some(15));
}

#[test]
fn from_coin_rejects_malformed() {
    assert_eq!(from_coin("", 8), None);
    assert_eq!(from_coin("   ", 8), None);
    assert_eq!(from_coin("abc", 8), None);
    assert_eq!(from_coin("1.x", 8), None);
    assert_eq!(from_coin("-1", 8), None);
    assert_eq!(from_coin("1.5", 0), None);
    assert_eq!(from_coin("+", 0), None);
}

#[test]
fn from_coin_truncates_extra_fraction_digits() {
    assert_eq!(from_coin("0.123456789", 8), Some(12_345_678));
    assert_eq!(from_coin("1.2.3", 8), Some(120_000_000));
}

#[test]
fn from_coin_rejects_overflow() {
    assert_eq!(from_coin("18446744073709551616", 0), None);
    assert_eq!(from_coin("18446744073709551615", 0), Some(u64::MAX));
    assert_eq!(from_coin("999999999999", 8), None);
}

#[test]
fn round_trip_format_then_parse() {
    for v in [0u64, 1, 99, 100_000_000, 123_456_789, 98_765_432_101] {
        let s = format_dapa(v);
        assert_eq!(from_dapa(&s), Some(v), "round trip failed for {}", v);
    }
}

#[test]
fn tx_fee_counts_started_kilobytes() {
    assert_eq!(calculate_tx_fee(0, 0, 0, 0), 0);
    assert_eq!(calculate_tx_fee(1, 0, 0, 0), FEE_PER_KB);
    assert_eq!(calculate_tx_fee(1024, 0, 0, 0), FEE_PER_KB);
    assert_eq!(calculate_tx_fee(1025, 0, 0, 0), 2 * FEE_PER_KB);
    assert_eq!(
        calculate_tx_fee(2048, 3, 1, 2),
        2 * FEE_PER_KB + 3 * FEE_PER_TRANSFER + FEE_PER_ACCOUNT_CREATION + 2 * FEE_PER_TRANSFER
    );
}

#[test]
fn difficulty_units_scale_by_thousand() {
    assert_eq!(format_difficulty(999u64.into()), "999");
    assert_eq!(format_difficulty(1_000_000u64.into()), "1M");
    assert_eq!(format_difficulty(1_005_000u64.into()), "1.0M");
    assert_eq!(format_difficulty(1_050_000u64.into()), "1.5M");
    assert_eq!(format_difficulty(u64::MAX.into()), "18.44E");
}

#[test]
fn sanitize_rewrites_protocols() {
    assert_eq!(
        sanitize_daemon_address_core("https://node.example.org/", false),
        "wss://node.example.org"
    );
    assert_eq!(
        sanitize_daemon_address_core("http://node.example.org", false),
        "ws://node.example.org"
    );
    assert_eq!(
        sanitize_daemon_address_core("wss://node.example.org", false),
        "wss://node.example.org"
    );
    assert_eq!(
        sanitize_daemon_address_core("ws://127.0.0.1:8080/", true),
        "ws://127.0.0.1:8080"
    );
    // a bare socket address gets the plain protocol, a domain the secure one
    assert_eq!(
        sanitize_daemon_address_core("127.0.0.1:8080", true),
        "ws://127.0.0.1:8080"
    );
    assert_eq!(
        sanitize_daemon_address_core("node.example.org", false),
        "wss://node.example.org"
    );
}
