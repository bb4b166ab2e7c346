use gitvote::error::LedgerError;
use gitvote::history::{AddedFile, Commit, SchemaLookup};
use gitvote::replay::{admit_votes, build, check_writable_branch, generate_blocks, select_vote_file};
use gitvote::schema::Schema;
use gitvote::tally::tally_votes;
use gitvote::validate::validate_votes;

fn schema(choices: &[&str]) -> Schema {
    Schema { allowed: choices.iter().map(|c| c.to_string()).collect() }
}

fn vote_commit(signer: Option<&str>, t: i64, files: &[(&str, &str)], allowed: &[&str]) -> Commit {
    Commit {
        signer: signer.map(|s| s.to_string()),
        timestamp: t,
        added: files
            .iter()
            .map(|(p, c)| AddedFile { path: p.to_string(), choice: Some(c.to_string()) })
            .collect(),
        schema: SchemaLookup::Found(schema(allowed)),
    }
}

const RACE: [&str; 3] = ["blue", "red", "green"];

fn scenario_a() -> Vec<Commit> {
    vec![
        vote_commit(Some("alice"), 100, &[("votes/a.json", "blue")], &RACE),
        vote_commit(Some("bob"), 200, &[("votes/b.json", "red")], &RACE),
        vote_commit(Some("carol"), 300, &[("votes/c.json", "blue")], &RACE),
    ]
}

#[test]
fn happy_path_writes_three_blocks() {
    let blocks = generate_blocks("president", "president", &scenario_a()).unwrap();
    assert_eq!(blocks.len(), 3);
    for (i, b) in blocks.iter().enumerate() {
        assert_eq!(b.index, i);
    }
    assert_eq!(blocks[0].voter, "alice");
    assert_eq!(blocks[0].prev_hash, None);
    assert_eq!(blocks[1].prev_hash, Some(blocks[0].block_hash()));
    assert_eq!(blocks[2].prev_hash, Some(blocks[1].block_hash()));
    assert_eq!(blocks[2].timestamp, 300);
    assert_eq!(validate_votes(&blocks), Ok(3));
    let t = tally_votes(&blocks);
    assert_eq!(t.count_of("blue"), 2);
    assert_eq!(t.count_of("red"), 1);
    assert_eq!(t.counts.len(), 2);
    assert_eq!(t.choice_of("alice"), Some("blue".to_string()));
    assert_eq!(t.choice_of("bob"), Some("red".to_string()));
    assert_eq!(t.choice_of("carol"), Some("blue".to_string()));
}

#[test]
fn later_vote_by_same_signer_is_dropped() {
    let mut h = scenario_a();
    h.push(vote_commit(Some("alice"), 400, &[("votes/d.json", "red")], &RACE));
    let blocks = generate_blocks("president", "president", &h).unwrap();
    assert_eq!(blocks.len(), 3);
    let t = tally_votes(&blocks);
    assert_eq!(t.count_of("blue"), 2);
    assert_eq!(t.count_of("red"), 1);
    assert_eq!(t.choice_of("alice"), Some("blue".to_string()));
}

#[test]
fn invalid_choice_aborts_replay() {
    let allowed = ["blue", "red"];
    let h = vec![
        vote_commit(Some("alice"), 100, &[("votes/a.json", "blue")], &allowed),
        vote_commit(Some("dave"), 200, &[("votes/d.json", "green")], &allowed),
        vote_commit(Some("bob"), 300, &[("votes/b.json", "red")], &allowed),
    ];
    assert_eq!(
        generate_blocks("president", "president", &h),
        Err(LedgerError::InvalidChoice { choice: "green".to_string() })
    );
}

#[test]
fn unsigned_commit_is_skipped() {
    let h = vec![
        vote_commit(Some("alice"), 100, &[("votes/a.json", "blue")], &RACE),
        vote_commit(None, 150, &[("votes/m.json", "red")], &RACE),
        vote_commit(Some("bob"), 200, &[("votes/b.json", "red")], &RACE),
    ];
    let blocks = generate_blocks("president", "president", &h).unwrap();
    assert_eq!(blocks.len(), 2);
    assert_eq!(blocks[1].index, 1);
    assert_eq!(blocks[1].voter, "bob");
    assert_eq!(blocks[1].prev_hash, Some(blocks[0].block_hash()));
    assert_eq!(validate_votes(&blocks), Ok(2));
}

#[test]
fn commit_without_vote_file_takes_no_index() {
    let h = vec![
        vote_commit(Some("admin"), 50, &[("schema.json", "x"), ("README.md", "y")], &RACE),
        vote_commit(Some("alice"), 100, &[("votes/a.json", "blue")], &RACE),
        vote_commit(Some("bob"), 120, &[], &RACE),
    ];
    let blocks = generate_blocks("president", "president", &h).unwrap();
    assert_eq!(blocks.len(), 1);
    assert_eq!(blocks[0].index, 0);
    assert_eq!(blocks[0].voter, "alice");
}

#[test]
fn commit_with_several_vote_files_uses_first_path() {
    let h = vec![vote_commit(
        Some("alice"),
        100,
        &[("votes/zeta.json", "red"), ("votes/alpha.json", "green"), ("votes/beta.json", "blue")],
        &RACE,
    )];
    let blocks = generate_blocks("president", "president", &h).unwrap();
    assert_eq!(blocks.len(), 1);
    assert_eq!(blocks[0].choice, "green");
}

#[test]
fn select_vote_file_picks_least_vote_path() {
    let files = vec![
        AddedFile { path: "votes/b.json".to_string(), choice: None },
        AddedFile { path: "notes/a.json".to_string(), choice: None },
        AddedFile { path: "votes/a.json".to_string(), choice: None },
    ];
    assert_eq!(select_vote_file(&files), Some(2));
    let none = vec![AddedFile { path: "vote.json".to_string(), choice: None }];
    assert_eq!(select_vote_file(&none), None);
}

#[test]
fn replay_twice_gives_identical_bytes() {
    let h = scenario_a();
    let first = generate_blocks("president", "president", &h).unwrap();
    let second = generate_blocks("president", "president", &h).unwrap();
    assert_eq!(first.len(), second.len());
    for (a, b) in first.iter().zip(second.iter()) {
        assert_eq!(a.canonical_json(), b.canonical_json());
    }
}

#[test]
fn voters_are_distinct_signers_of_history() {
    let mut h = scenario_a();
    h.push(vote_commit(Some("bob"), 400, &[("votes/e.json", "blue")], &RACE));
    let blocks = generate_blocks("president", "president", &h).unwrap();
    let signers: Vec<String> = h.iter().filter_map(|c| c.signer.clone()).collect();
    for (i, b) in blocks.iter().enumerate() {
        assert!(signers.contains(&b.voter));
        for other in &blocks[..i] {
            assert_ne!(other.voter, b.voter);
        }
    }
}

#[test]
fn wrong_or_reserved_branch_is_refused() {
    assert_eq!(generate_blocks("president", "senate", &scenario_a()), Err(LedgerError::WrongBranch));
    assert_eq!(generate_blocks("main", "main", &scenario_a()), Err(LedgerError::WrongBranch));
    assert_eq!(check_writable_branch("main"), Err(LedgerError::WrongBranch));
    assert_eq!(check_writable_branch("president"), Ok(()));
}

#[test]
fn unreadable_vote_file_aborts_replay() {
    let mut c = vote_commit(Some("bob"), 200, &[("votes/b.json", "red")], &RACE);
    c.added[0].choice = None;
    let h = vec![vote_commit(Some("alice"), 100, &[("votes/a.json", "blue")], &RACE), c];
    assert_eq!(generate_blocks("president", "president", &h), Err(LedgerError::MalformedVote { index: 1 }));
}

#[test]
fn missing_schema_aborts_replay() {
    let mut c = vote_commit(Some("alice"), 100, &[("votes/a.json", "blue")], &RACE);
    c.schema = SchemaLookup::Missing;
    assert_eq!(generate_blocks("president", "president", &vec![c.clone()]), Err(LedgerError::SchemaMissing));
    c.schema = SchemaLookup::Invalid;
    assert_eq!(generate_blocks("president", "president", &vec![c]), Err(LedgerError::SchemaInvalid));
}

#[test]
fn time_going_backwards_aborts_replay() {
    let h = vec![
        vote_commit(Some("alice"), 100, &[("votes/a.json", "blue")], &RACE),
        vote_commit(Some("bob"), 99, &[("votes/b.json", "red")], &RACE),
    ];
    assert_eq!(generate_blocks("president", "president", &h), Err(LedgerError::InvalidTimestamp { index: 1 }));
    let equal = vec![
        vote_commit(Some("alice"), 100, &[("votes/a.json", "blue")], &RACE),
        vote_commit(Some("bob"), 100, &[("votes/b.json", "red")], &RACE),
    ];
    assert_eq!(generate_blocks("president", "president", &equal).unwrap().len(), 2);
    let negative = vec![vote_commit(Some("alice"), -5, &[("votes/a.json", "blue")], &RACE)];
    assert_eq!(generate_blocks("president", "president", &negative), Err(LedgerError::InvalidTimestamp { index: 0 }));
}

#[test]
fn build_links_admitted_votes() {
    let votes = admit_votes(&scenario_a()).unwrap();
    assert_eq!(votes.len(), 3);
    assert_eq!(votes[1].voter, "bob");
    let blocks = build(&votes);
    assert_eq!(blocks.len(), 3);
    assert_eq!(blocks[1].choice, "red");
    assert_eq!(blocks[2].prev_hash, Some(blocks[1].block_hash()));
    assert!(build(&Vec::new()).is_empty());
}

#[test]
fn empty_history_gives_empty_chain() {
    assert_eq!(generate_blocks("president", "president", &Vec::new()), Ok(Vec::new()));
}

#[test]
fn removing_later_vote_of_same_signer_changes_nothing() {
    let mut with_later = scenario_a();
    with_later.insert(2, vote_commit(Some("alice"), 250, &[("votes/x.json", "green")], &RACE));
    let a = generate_blocks("president", "president", &with_later).unwrap();
    let b = generate_blocks("president", "president", &scenario_a()).unwrap();
    assert_eq!(a, b);
    assert_eq!(tally_votes(&a).count_of("green"), 0);
}

#[test]
fn keeping_only_first_vote_file_changes_nothing() {
    let several = vec![
        vote_commit(Some("bob"), 50, &[("votes/b.json", "red")], &RACE),
        vote_commit(
            Some("alice"),
            100,
            &[("notes.txt", "x"), ("votes/zeta.json", "red"), ("votes/alpha.json", "green")],
            &RACE,
        ),
        vote_commit(Some("carol"), 150, &[("votes/c.json", "blue")], &RACE),
    ];
    let mut single = several.clone();
    single[1].added = vec![several[1].added[0].clone(), several[1].added[2].clone()];
    let a = generate_blocks("president", "president", &several).unwrap();
    let b = generate_blocks("president", "president", &single).unwrap();
    assert_eq!(a, b);
    assert_eq!(a[1].index, 1);
    assert_eq!(a[1].choice, "green");
    assert_eq!(a[2].index, 2);
}
