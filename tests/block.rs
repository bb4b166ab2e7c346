use gitvote::block::Block;
use gitvote::genesis::create_genesis_block;
use gitvote::error::LedgerError;
use sha2::{Digest, Sha256};

fn sample() -> Block {
    Block { index: 0, timestamp: 0, choice: "blue".to_string(), voter: "alice".to_string(), prev_hash: None }
}

#[test]
fn canonical_form_is_compact_json_in_field_order() {
    assert_eq!(
        sample().canonical_json(),
        "{\"index\":0,\"timestamp\":\"1970-01-01T00:00:00Z\",\"choice\":\"blue\",\"voter\":\"alice\",\"prev_hash\":null}"
    );
    let b = Block {
        index: 12,
        timestamp: 1_700_000_000,
        choice: "a\"b".to_string(),
        voter: "x\\y".to_string(),
        prev_hash: Some("ff".to_string()),
    };
    assert_eq!(
        b.canonical_json(),
        "{\"index\":12,\"timestamp\":\"2023-11-14T22:13:20Z\",\"choice\":\"a\\\"b\",\"voter\":\"x\\\\y\",\"prev_hash\":\"ff\"}"
    );
}

#[test]
fn control_characters_are_escaped() {
    let b = Block {
        index: 1,
        timestamp: 0,
        choice: "a\u{8}\t\n\u{c}\r\u{1}\u{1f}é".to_string(),
        voter: "/".to_string(),
        prev_hash: None,
    };
    assert_eq!(
        b.canonical_json(),
        "{\"index\":1,\"timestamp\":\"1970-01-01T00:00:00Z\",\"choice\":\"a\\b\\t\\n\\f\\r\\u0001\\u001fé\",\"voter\":\"/\",\"prev_hash\":null}"
    );
}

#[test]
fn latest_time_is_written_with_four_digit_year() {
    let mut b = sample();
    b.timestamp = 253402300799;
    assert!(b.canonical_json().contains("\"9999-12-31T23:59:59Z\""));
}

#[test]
fn hash_is_sha256_hex_of_canonical_form() {
    let b = sample();
    let expected = format!("{:x}", Sha256::digest(b.canonical_json().as_bytes()));
    assert_eq!(b.block_hash(), expected);
    assert_eq!(b.block_hash().len(), 64);
    assert_ne!(b.block_hash(), b.canonical_json());
}

#[test]
fn genesis_block_is_seed() {
    let b = create_genesis_block("president", false, 1_700_000_000).unwrap();
    assert_eq!(b.index, 0);
    assert_eq!(b.timestamp, 1_700_000_000);
    assert_eq!(b.voter, "");
    assert_eq!(b.choice, "");
    assert_eq!(b.prev_hash, None);
}

#[test]
fn genesis_refuses_when_block_zero_exists() {
    assert_eq!(create_genesis_block("president", true, 1_700_000_000), Err(LedgerError::GenesisExists));
}

#[test]
fn genesis_refuses_reserved_branch() {
    assert_eq!(create_genesis_block("main", false, 1_700_000_000), Err(LedgerError::WrongBranch));
    assert_eq!(create_genesis_block("main", true, 1_700_000_000), Err(LedgerError::WrongBranch));
}

#[test]
fn genesis_refuses_time_out_of_range() {
    assert_eq!(create_genesis_block("president", false, -1), Err(LedgerError::InvalidTimestamp { index: 0 }));
}
