//! Checks on the local environment: the voter's identity and commit signing.
use vstd::prelude::*;
use crate::error::{Fault, LedgerError};
use crate::text::push_text;

verus! {

/// The identity a voter signs with: `name <email>`.
pub open spec fn identity_of(name: Seq<char>, email: Seq<char>) -> Seq<char> {
    name + " <"@ + email + ">"@
}

/// The voter identity from the configured user name and email (both
/// trimmed); fails with `IdentityMissing` when either is empty.
pub fn get_git_voter(name: &str, email: &str) -> (r: Result<String, LedgerError>)
    ensures
        r is Err <==> (name@.len() == 0 || email@.len() == 0),
        r matches Err(e) ==> e@ == Fault::IdentityMissing,
        r matches Ok(s) ==> s@ == identity_of(name@, email@),
{
    if name.unicode_len() == 0 || email.unicode_len() == 0 {
        return Err(LedgerError::IdentityMissing);
    }
    let mut s = String::new();
    push_text(&mut s, name);
    push_text(&mut s, " <");
    push_text(&mut s, email);
    push_text(&mut s, ">");
    assert(s@ =~= identity_of(name@, email@));
    Ok(s)
}

/// The verdict on the signing setup, checked in order: inside a repository,
/// a signing key configured, commit signing switched on (`true`), and a
/// trial signed commit that succeeded. Returns the signing key.
pub open spec fn environment_verdict(in_repository: bool, signing_key: Seq<char>, gpgsign: Seq<char>, dry_run_ok: bool) -> Result<Seq<char>, Fault> {
    if !in_repository {
        Err(Fault::NotARepository)
    } else if signing_key.len() == 0 {
        Err(Fault::NoSigningKey)
    } else if gpgsign != "true"@ {
        Err(Fault::SigningDisabled)
    } else if !dry_run_ok {
        Err(Fault::SigningFailed)
    } else {
        Ok(signing_key)
    }
}

pub open spec fn text_result(r: Result<String, LedgerError>) -> Result<Seq<char>, Fault> {
    match r {
        Ok(s) => Ok(s@),
        Err(e) => Err(e@),
    }
}

/// Decides whether the environment is ready to vote, from what the
/// repository reports (configuration values trimmed).
pub fn run_doctor_check(in_repository: bool, signing_key: &str, gpgsign: &str, dry_run_ok: bool) -> (r: Result<String, LedgerError>)
    ensures
        text_result(r) == environment_verdict(in_repository, signing_key@, gpgsign@, dry_run_ok),
{
    if !in_repository {
        return Err(LedgerError::NotARepository);
    }
    if signing_key.unicode_len() == 0 {
        return Err(LedgerError::NoSigningKey);
    }
    if !crate::text::text_eq(gpgsign, "true") {
        return Err(LedgerError::SigningDisabled);
    }
    if !dry_run_ok {
        return Err(LedgerError::SigningFailed);
    }
    Ok(signing_key.to_owned())
}

} // verus!
