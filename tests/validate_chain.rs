use chrono::Utc;
use gitvote::block::Block;
use gitvote::error::{ChainBreak, LedgerError};
use gitvote::validate::validate_votes;

#[test]
fn test_valid_chain() {
    let mut blocks = Vec::new();
    let mut prev_hash = None;

    for i in 0..3 {
        let block = Block {
            index: i,
            timestamp: Utc::now().timestamp(),
            choice: if i % 2 == 0 { "blue".to_string() } else { "red".to_string() },
            voter: format!("voter-{}", i),
            prev_hash: prev_hash.clone(),
        };

        let hash = block.block_hash();

        prev_hash = Some(hash);
        blocks.push(block);
    }

    // Now validate
    let mut prev = None;
    for block in &blocks {
        let hash = block.block_hash();

        if block.index > 0 {
            assert_eq!(block.prev_hash, prev);
        }
        prev = Some(hash);
    }

    assert_eq!(validate_votes(&blocks), Ok(3));
}

fn linked(entries: &[(&str, &str)]) -> Vec<Block> {
    let mut blocks: Vec<Block> = Vec::new();
    for (i, (voter, choice)) in entries.iter().enumerate() {
        let prev_hash = blocks.last().map(|b| b.block_hash());
        blocks.push(Block {
            index: i,
            timestamp: 1_700_000_000 + i as i64,
            choice: choice.to_string(),
            voter: voter.to_string(),
            prev_hash,
        });
    }
    blocks
}

#[test]
fn empty_chain_is_valid() {
    assert_eq!(validate_votes(&Vec::new()), Ok(0));
}

#[test]
fn rewritten_block_two_is_caught_at_block_three() {
    let mut blocks = linked(&[("a", "blue"), ("b", "red"), ("c", "blue"), ("d", "red")]);
    let observed = blocks[3].prev_hash.clone();
    blocks[2].choice = "red".to_string();
    let expected = Some(blocks[2].block_hash());
    assert_ne!(expected, observed);
    assert_eq!(
        validate_votes(&blocks),
        Err(LedgerError::ChainBroken { index: 3, cause: ChainBreak::HashMismatch { expected, observed } })
    );
}

#[test]
fn edited_choice_of_block_one_breaks_block_two() {
    let mut blocks = linked(&[("alice", "blue"), ("bob", "red"), ("carol", "blue")]);
    let observed = blocks[2].prev_hash.clone();
    blocks[1].choice = "blue".to_string();
    let expected = Some(blocks[1].block_hash());
    match validate_votes(&blocks) {
        Err(LedgerError::ChainBroken { index, cause: ChainBreak::HashMismatch { expected: e, observed: o } }) => {
            assert_eq!(index, 2);
            assert_eq!(e, expected);
            assert_eq!(o, observed);
        }
        other => panic!("unexpected {:?}", other),
    }
}

#[test]
fn index_gap_is_reported() {
    let mut blocks = linked(&[("a", "blue"), ("b", "red")]);
    blocks[1].index = 5;
    assert_eq!(validate_votes(&blocks), Err(LedgerError::ChainBroken { index: 1, cause: ChainBreak::IndexGap { found: 5 } }));
}

#[test]
fn duplicate_voter_is_reported() {
    let blocks = linked(&[("a", "blue"), ("b", "red"), ("a", "red")]);
    assert_eq!(
        validate_votes(&blocks),
        Err(LedgerError::DuplicateVoter { index: 2, voter: "a".to_string() })
    );
}

#[test]
fn first_block_must_have_no_previous_hash() {
    let mut blocks = linked(&[("a", "blue")]);
    blocks[0].prev_hash = Some("00".to_string());
    assert_eq!(
        validate_votes(&blocks),
        Err(LedgerError::ChainBroken {
            index: 0,
            cause: ChainBreak::HashMismatch { expected: None, observed: Some("00".to_string()) },
        })
    );
}

#[test]
fn out_of_range_time_is_reported() {
    let mut blocks = linked(&[("a", "blue")]);
    blocks[0].timestamp = -1;
    assert_eq!(validate_votes(&blocks), Err(LedgerError::InvalidTimestamp { index: 0 }));
}

#[test]
fn missing_block_file_is_an_index_gap() {
    let mut blocks = linked(&[("a", "blue"), ("b", "red"), ("c", "blue"), ("d", "red")]);
    blocks.remove(1);
    assert_eq!(
        validate_votes(&blocks),
        Err(LedgerError::ChainBroken { index: 1, cause: ChainBreak::IndexGap { found: 2 } })
    );
}
