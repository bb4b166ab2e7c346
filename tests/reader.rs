use gitvote::environment::{get_git_voter, run_doctor_check};
use gitvote::error::LedgerError;
use gitvote::reader::{added_paths, parse_commit_time, signer_fingerprint};

#[test]
fn added_paths_keep_status_a_lines() {
    let diff = "A\tvotes/vote-1.json\nM\tschema.json\nA\tREADME.md\r\nD\tvotes/old.json\n";
    assert_eq!(added_paths(diff), vec!["votes/vote-1.json".to_string(), "README.md".to_string()]);
    assert!(added_paths("").is_empty());
    assert_eq!(added_paths("A\tlast"), vec!["last".to_string()]);
}

#[test]
fn fingerprint_of_good_signature() {
    let log = "commit 0123\ngpg: Signature made Mon\ngpg:                using RSA key 4AEE18F83AFDEB23\ngpg: Good signature from \"Ann <ann@x.org>\" [ultimate]\n";
    assert_eq!(signer_fingerprint(log), Some("4AEE18F83AFDEB23".to_string()));
    let spaced = "gpg:                using   RSA\tkey   ABCD  trailing\ngpg: Good signature from \"B\"\n";
    assert_eq!(signer_fingerprint(spaced), Some("ABCD".to_string()));
    let eddsa = "gpg:                using EDDSA key 99AA\r\ngpg: Good signature from \"C\"\r\n";
    assert_eq!(signer_fingerprint(eddsa), Some("99AA".to_string()));
}

#[test]
fn no_identity_for_bad_or_unchecked_signature() {
    let bad = "gpg:                using RSA key 4AEE18F83AFDEB23\ngpg: BAD signature from \"Ann <ann@x.org>\" [ultimate]\n";
    assert_eq!(signer_fingerprint(bad), None);
    let unchecked = "gpg:                using RSA key 4AEE18F83AFDEB23\ngpg: Can't check signature: No public key\n";
    assert_eq!(signer_fingerprint(unchecked), None);
    let both = "gpg:                using RSA key AA\ngpg: Good signature from \"A\"\ngpg: BAD signature from \"A\"\n";
    assert_eq!(signer_fingerprint(both), None);
}

#[test]
fn no_identity_without_key_line() {
    assert_eq!(signer_fingerprint("commit 0123\nAuthor: a\n"), None);
    assert_eq!(signer_fingerprint("gpg: Good signature from \"A\"\n"), None);
    assert_eq!(signer_fingerprint("gpg:                using RSA key\ngpg: Good signature from \"A\"\n"), None);
    assert_eq!(signer_fingerprint(""), None);
}

#[test]
fn commit_time_is_decimal_seconds() {
    assert_eq!(parse_commit_time("1700000000"), Some(1_700_000_000));
    assert_eq!(parse_commit_time("0"), Some(0));
    assert_eq!(parse_commit_time("253402300799"), Some(253402300799));
    assert_eq!(parse_commit_time("253402300800"), None);
    assert_eq!(parse_commit_time("99999999999999999999999"), None);
    assert_eq!(parse_commit_time(""), None);
    assert_eq!(parse_commit_time("12a"), None);
    assert_eq!(parse_commit_time("-5"), None);
}

#[test]
fn voter_identity_is_name_and_email() {
    assert_eq!(get_git_voter("Ann Lee", "ann@x.org"), Ok("Ann Lee <ann@x.org>".to_string()));
    assert_eq!(get_git_voter("", "ann@x.org"), Err(LedgerError::IdentityMissing));
    assert_eq!(get_git_voter("Ann", ""), Err(LedgerError::IdentityMissing));
}

#[test]
fn environment_checks_in_order() {
    assert_eq!(run_doctor_check(true, "ABCD", "true", true), Ok("ABCD".to_string()));
    assert_eq!(run_doctor_check(false, "", "", false), Err(LedgerError::NotARepository));
    assert_eq!(run_doctor_check(true, "", "true", true), Err(LedgerError::NoSigningKey));
    assert_eq!(run_doctor_check(true, "ABCD", "false", true), Err(LedgerError::SigningDisabled));
    assert_eq!(run_doctor_check(true, "ABCD", "true", false), Err(LedgerError::SigningFailed));
}
