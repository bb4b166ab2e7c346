use gitvote::error::LedgerError;
use gitvote::schema::Schema;
use gitvote::vote::{cast_vote, generate_fake_signature, validate_vote_files, Vote};
use sha2::{Digest, Sha256};

fn schema() -> Schema {
    Schema { allowed: vec!["blue".to_string(), "red".to_string()] }
}

fn vote(voter: &str, choice: &str) -> Vote {
    Vote {
        voter: voter.to_string(),
        choice: choice.to_string(),
        signature: generate_fake_signature(voter, choice),
        timestamp: None,
    }
}

#[test]
fn signature_is_sha256_of_voter_and_choice() {
    let expected = format!("{:x}", Sha256::digest("alice:blue".as_bytes()));
    assert_eq!(generate_fake_signature("alice", "blue"), expected);
    assert_ne!(generate_fake_signature("alice", "blue"), generate_fake_signature("alice", "red"));
    let sig = generate_fake_signature("x", "y");
    assert_eq!(sig.len(), 64);
    assert!(sig.chars().all(|c| c.is_ascii_digit() || ('a'..='f').contains(&c)));
}

#[test]
fn schema_allows_listed_choices_only() {
    assert!(schema().allows("blue"));
    assert!(!schema().allows("green"));
    assert!(!Schema { allowed: Vec::new() }.allows("blue"));
}

#[test]
fn valid_votes_pass() {
    assert_eq!(validate_vote_files(&schema(), &vec![vote("alice", "blue"), vote("bob", "red")]), Ok(()));
    assert_eq!(validate_vote_files(&schema(), &Vec::new()), Ok(()));
}

#[test]
fn vote_for_unknown_choice_fails() {
    assert_eq!(
        validate_vote_files(&schema(), &vec![vote("alice", "blue"), vote("dave", "green")]),
        Err(LedgerError::InvalidChoice { choice: "green".to_string() })
    );
}

#[test]
fn second_vote_of_voter_fails() {
    assert_eq!(
        validate_vote_files(&schema(), &vec![vote("alice", "blue"), vote("alice", "red")]),
        Err(LedgerError::DuplicateVoter { index: 1, voter: "alice".to_string() })
    );
}

#[test]
fn forged_signature_fails() {
    let mut v = vote("bob", "red");
    v.signature = generate_fake_signature("bob", "blue");
    assert_eq!(
        validate_vote_files(&schema(), &vec![v]),
        Err(LedgerError::SignatureMismatch { voter: "bob".to_string() })
    );
}

#[test]
fn cast_vote_gives_file_and_record() {
    let c = cast_vote(&schema(), "red", "Ann <ann@x.org>", "1234", 42).unwrap();
    assert_eq!(c.file_name, "votes/vote-1234.json");
    assert_eq!(c.vote, Vote {
        voter: "Ann <ann@x.org>".to_string(),
        choice: "red".to_string(),
        signature: generate_fake_signature("Ann <ann@x.org>", "red"),
        timestamp: Some(42),
    });
}

#[test]
fn cast_vote_refuses_unknown_choice() {
    assert_eq!(
        cast_vote(&schema(), "green", "Ann", "1", 1).unwrap_err(),
        LedgerError::InvalidChoice { choice: "green".to_string() }
    );
}
