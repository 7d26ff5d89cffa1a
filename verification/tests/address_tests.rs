use escrow_ledger::address::{identify_btc_address_type, validate_address_by_type,
    validate_btc_address, BtcAddressType};
use escrow_ledger::errors::ValidationError;

fn base58_of_len(prefix: &str, total: usize) -> String {
    let mut s = String::from(prefix);
    while s.len() < total {
        s.push('A');
    }
    s
}

fn bech32_of_len(prefix: &str, total: usize) -> String {
    let mut s = String::from(prefix);
    while s.len() < total {
        s.push('q');
    }
    s
}

#[test]
fn legacy_26_chars_is_valid() {
    let addr = base58_of_len("1", 26);
    assert_eq!(addr.len(), 26);
    assert!(matches!(identify_btc_address_type(&addr), BtcAddressType::Legacy));
    assert_eq!(validate_btc_address(&addr), Ok(()));
}

#[test]
fn bech32_42_chars_is_valid() {
    let addr = bech32_of_len("bc1q", 42);
    assert_eq!(addr.len(), 42);
    assert!(matches!(identify_btc_address_type(&addr), BtcAddressType::Bech32));
    assert_eq!(validate_btc_address(&addr), Ok(()));
}

#[test]
fn bc1_with_wrong_sub_prefix_is_rejected() {
    assert!(matches!(identify_btc_address_type("bc1snafas"), BtcAddressType::Invalid));
    assert_eq!(validate_btc_address("bc1snafas"), Err(ValidationError::UnrecognizedFormat));
}

#[test]
fn ten_digit_string_is_rejected() {
    assert!(validate_btc_address("1234567890").is_err());
    assert_eq!(validate_btc_address("0123456789"), Err(ValidationError::UnrecognizedFormat));
}

#[test]
fn empty_and_whitespace_are_rejected() {
    assert_eq!(validate_btc_address(""), Err(ValidationError::EmptyInput));
    assert_eq!(validate_btc_address("   \t\n"), Err(ValidationError::EmptyInput));
}

#[test]
fn legacy_too_short_or_long_is_bad_length() {
    assert_eq!(validate_btc_address(&base58_of_len("1", 25)), Err(ValidationError::BadLength));
    assert_eq!(validate_btc_address(&base58_of_len("1", 35)), Err(ValidationError::BadLength));
    assert_eq!(validate_btc_address(&base58_of_len("3", 34)), Ok(()));
}

#[test]
fn base58_excludes_zero_o_i_l() {
    let mut addr = String::from("1");
    while addr.len() < 26 {
        addr.push('O');
    }
    assert_eq!(validate_btc_address(&addr), Err(ValidationError::BadCharacter));
}

#[test]
fn taproot_is_not_misclassified_as_bech32() {
    let addr = bech32_of_len("bc1p", 62);
    assert!(matches!(identify_btc_address_type(&addr), BtcAddressType::Taproot));
    assert_eq!(validate_btc_address(&addr), Ok(()));
    // A taproot-length check differs from bech32: 42 chars is too short.
    assert_eq!(
        validate_btc_address(&bech32_of_len("bc1p", 42)),
        Err(ValidationError::BadLength)
    );
}

#[test]
fn testnet_prefixes_classify() {
    assert!(matches!(identify_btc_address_type(&base58_of_len("m", 26)), BtcAddressType::TestnetLegacy));
    assert!(matches!(identify_btc_address_type(&base58_of_len("n", 26)), BtcAddressType::TestnetLegacy));
    assert!(matches!(identify_btc_address_type(&base58_of_len("2", 26)), BtcAddressType::TestnetScript));
    assert!(matches!(identify_btc_address_type(&bech32_of_len("tb1q", 42)), BtcAddressType::TestnetBech32));
    assert!(matches!(identify_btc_address_type(&bech32_of_len("tb1p", 62)), BtcAddressType::TestnetTaproot));
    assert_eq!(validate_btc_address(&bech32_of_len("tb1q", 42)), Ok(()));
}

#[test]
fn data_part_too_short_is_rejected() {
    // Second separator right after the first leaves a one-character data part.
    let mut addr = String::from("bc1q1");
    while addr.len() < 42 {
        addr.push('z');
    }
    assert_eq!(validate_btc_address(&addr), Err(ValidationError::DataPartTooShort));
}

#[test]
fn missing_separator_reported_for_unclassified_input() {
    // Reachable only by validating against an explicitly chosen variant.
    let mut addr = String::from("bcq");
    while addr.len() < 42 {
        addr.push('z');
    }
    assert_eq!(
        validate_address_by_type(&addr, BtcAddressType::Bech32),
        Err(ValidationError::MissingSeparator)
    );
}

#[test]
fn validator_is_deterministic() {
    let addr = bech32_of_len("bc1q", 50);
    let first = validate_btc_address(&addr);
    let second = validate_btc_address(&addr);
    assert_eq!(first, second);
    assert_eq!(first, Ok(()));
}
