use chrono::Utc;
use gitvote::block::Block;
use gitvote::tally::tally_votes;
use std::collections::HashMap;

#[test]
fn test_tally_votes() {
    let blocks = vec![
        Block {
            index: 0,
            timestamp: Utc::now().timestamp(),
            choice: "blue".to_string(),
            voter: "voter1".to_string(),
            prev_hash: None,
        },
        Block {
            index: 1,
            timestamp: Utc::now().timestamp(),
            choice: "red".to_string(),
            voter: "voter2".to_string(),
            prev_hash: Some("dummy".to_string()),
        },
        Block {
            index: 2,
            timestamp: Utc::now().timestamp(),
            choice: "blue".to_string(),
            voter: "voter3".to_string(),
            prev_hash: Some("dummy".to_string()),
        },
    ];

    let mut tally: HashMap<String, u64> = HashMap::new();

    for block in &blocks {
        *tally.entry(block.choice.clone()).or_insert(0) += 1;
    }

    assert_eq!(*tally.get("blue").unwrap(), 2);
    assert_eq!(*tally.get("red").unwrap(), 1);

    let result = tally_votes(&blocks);
    assert_eq!(result.count_of("blue"), 2);
    assert_eq!(result.count_of("red"), 1);
}

fn block(index: usize, voter: &str, choice: &str) -> Block {
    Block {
        index,
        timestamp: 1_700_000_000 + index as i64,
        choice: choice.to_string(),
        voter: voter.to_string(),
        prev_hash: None,
    }
}

#[test]
fn tally_counts_first_block_of_each_voter() {
    let blocks = vec![block(0, "alice", "blue"), block(1, "bob", "red"), block(2, "alice", "red")];
    let result = tally_votes(&blocks);
    assert_eq!(result.count_of("blue"), 1);
    assert_eq!(result.count_of("red"), 1);
    assert_eq!(result.choice_of("alice"), Some("blue".to_string()));
    assert_eq!(result.choice_of("bob"), Some("red".to_string()));
    assert_eq!(result.voters.len(), 2);
}

#[test]
fn tally_of_no_blocks_is_empty() {
    let result = tally_votes(&Vec::new());
    assert!(result.counts.is_empty());
    assert!(result.voters.is_empty());
    assert_eq!(result.count_of("blue"), 0);
    assert_eq!(result.choice_of("alice"), None);
}

#[test]
fn tally_lists_choices_in_order_of_first_vote() {
    let blocks = vec![
        block(0, "a", "green"),
        block(1, "b", "blue"),
        block(2, "c", "green"),
        block(3, "d", "green"),
    ];
    let result = tally_votes(&blocks);
    assert_eq!(result.counts.len(), 2);
    assert_eq!(result.counts[0].choice, "green");
    assert_eq!(result.counts[0].count, 3);
    assert_eq!(result.counts[1].choice, "blue");
    assert_eq!(result.counts[1].count, 1);
}
