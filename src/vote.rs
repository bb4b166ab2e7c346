//! Vote records: the signed intents that voters publish.
use vstd::prelude::*;
use crate::block::{is_lower_hex, sha256_hex, sha256_hex_of};
use crate::error::{Fault, LedgerError};
use crate::schema::Schema;
use crate::text::{push_text};

verus! {

/// A vote intent as a voter publishes it.
#[derive(Clone, Debug, PartialEq, Eq)]
pub struct Vote {
    /// The voter's identifier, e.g. a name or key fingerprint.
    pub voter: String,
    /// The selected choice.
    pub choice: String,
    /// The signature artifact stored with the vote.
    pub signature: String,
    /// When the vote was cast, in seconds since the Unix epoch, if recorded.
    pub timestamp: Option<i64>,
}

pub struct VoteView {
    pub voter: Seq<char>,
    pub choice: Seq<char>,
    pub signature: Seq<char>,
    pub timestamp: Option<int>,
}

impl View for Vote {
    type V = VoteView;

    open spec fn view(&self) -> VoteView {
        VoteView {
            voter: self.voter@,
            choice: self.choice@,
            signature: self.signature@,
            timestamp: match self.timestamp {
                Some(t) => Some(t as int),
                None => None,
            },
        }
    }
}

pub open spec fn votes_view(s: Seq<Vote>) -> Seq<VoteView> {
    s.map_values(|v: Vote| v@)
}

/// The signature stored with a vote: SHA-256 of `voter:choice`, in lowercase hex.
pub open spec fn signature_of(voter: Seq<char>, choice: Seq<char>) -> Seq<char> {
    sha256_hex_of(voter + ":"@ + choice)
}

/// The signature a vote by `voter` for `choice` carries.
pub fn generate_fake_signature(voter: &str, choice: &str) -> (r: String)
    ensures
        r@ == signature_of(voter@, choice@),
        r@.len() == 64,
        forall|i: int| 0 <= i < r@.len() ==> is_lower_hex(#[trigger] r@[i]),
{
    let mut text = String::new();
    push_text(&mut text, voter);
    push_text(&mut text, ":");
    push_text(&mut text, choice);
    assert(text@ =~= voter@ + ":"@ + choice@);
    sha256_hex(text.as_str())
}

/// Whether a vote of `vs` before position `n` was cast by `voter`.
pub open spec fn voter_before(vs: Seq<VoteView>, n: int, voter: Seq<char>) -> bool {
    exists|k: int| 0 <= k < n && vs[k].voter == voter
}

/// The first fault of vote `n`: a choice the schema does not allow, a voter
/// seen before, or a signature that does not match.
pub open spec fn vote_fault(allowed: Seq<Seq<char>>, vs: Seq<VoteView>, n: int) -> Option<Fault> {
    let v = vs[n];
    if !allowed.contains(v.choice) {
        Some(Fault::InvalidChoice { choice: v.choice })
    } else if voter_before(vs, n, v.voter) {
        Some(Fault::DuplicateVoter { index: n as nat, voter: v.voter })
    } else if v.signature != signature_of(v.voter, v.choice) {
        Some(Fault::SignatureMismatch { voter: v.voter })
    } else {
        None
    }
}

/// The verdict on a set of vote files read in order: the fault of the
/// first faulty vote, if any.
pub open spec fn check_votes(allowed: Seq<Seq<char>>, vs: Seq<VoteView>) -> Result<(), Fault>
    decreases vs.len(),
{
    if vs.len() == 0 {
        Ok(())
    } else {
        match check_votes(allowed, vs.drop_last()) {
            Ok(_) => match vote_fault(allowed, vs, vs.len() - 1) {
                Some(f) => Err(f),
                None => Ok(()),
            },
            Err(e) => Err(e),
        }
    }
}

pub open spec fn unit_result(r: Result<(), LedgerError>) -> Result<(), Fault> {
    match r {
        Ok(_) => Ok(()),
        Err(e) => Err(e@),
    }
}

pub proof fn lemma_check_votes_err_stays(allowed: Seq<Seq<char>>, vs: Seq<VoteView>, n: int)
    requires
        0 <= n <= vs.len(),
        check_votes(allowed, vs.take(n)) is Err,
    ensures
        check_votes(allowed, vs) == check_votes(allowed, vs.take(n)),
    decreases vs.len() - n,
{
    if n == vs.len() {
        assert(vs.take(n) =~= vs);
    } else {
        assert(vs.drop_last().take(n) =~= vs.take(n));
        lemma_check_votes_err_stays(allowed, vs.drop_last(), n);
    }
}

/// Checks vote files read in order: each choice is allowed, no voter votes
/// twice, and each signature matches its voter and choice.
pub fn validate_vote_files(schema: &Schema, votes: &Vec<Vote>) -> (r: Result<(), LedgerError>)
    ensures
        unit_result(r) == check_votes(schema@, votes_view(votes@)),
{
    let ghost vv = votes_view(votes@);
    assert(vv.take(0) =~= Seq::<VoteView>::empty());
    for i in 0..votes.len()
        invariant
            vv == votes_view(votes@),
            check_votes(schema@, vv.take(i as int)) == Ok::<(), Fault>(()),
    {
        let v = &votes[i];
        proof {
            let t = vv.take(i + 1);
            assert(t.drop_last() =~= vv.take(i as int));
            assert(t[i as int] == vv[i as int]);
            assert forall|k: int| 0 <= k < i implies t[k] == vv[k] by {}
        }
        let ghost t = vv.take(i + 1);
        if !schema.allows(v.choice.as_str()) {
            proof { lemma_check_votes_err_stays(schema@, vv, i + 1); }
            return Err(LedgerError::InvalidChoice { choice: v.choice.clone() });
        }
        for j in 0..i
            invariant
                vv == votes_view(votes@),
                i < votes.len(),
                v == votes@[i as int],
                t == vv.take(i + 1),
                t.drop_last() == vv.take(i as int),
                t[i as int] == v@,
                check_votes(schema@, vv.take(i as int)) == Ok::<(), Fault>(()),
                schema@.contains(v@.choice),
                forall|k: int| 0 <= k < j ==> vv[k].voter != v@.voter,
        {
            if votes[j].voter == v.voter {
                proof {
                    assert(t[j as int] == vv[j as int]);
                    assert(t[j as int].voter == t[i as int].voter);
                    assert(voter_before(t, i as int, t[i as int].voter));
                    lemma_check_votes_err_stays(schema@, vv, i + 1);
                }
                return Err(LedgerError::DuplicateVoter { index: i, voter: v.voter.clone() });
            }
        }
        assert(!voter_before(t, i as int, t[i as int].voter));
        let expected = generate_fake_signature(v.voter.as_str(), v.choice.as_str());
        if !(v.signature == expected) {
            proof { lemma_check_votes_err_stays(schema@, vv, i + 1); }
            return Err(LedgerError::SignatureMismatch { voter: v.voter.clone() });
        }
    }
    assert(vv.take(votes.len() as int) =~= vv);
    Ok(())
}

/// A vote ready to be published: the file it goes to and its record.
#[derive(Clone, Debug)]
pub struct CastVote {
    pub file_name: String,
    pub vote: Vote,
}

/// The path of the vote file named by `id`: `votes/vote-<id>.json`.
pub open spec fn vote_file_of(id: Seq<char>) -> Seq<char> {
    "votes/vote-"@ + id + ".json"@
}

/// The vote record of `voter` for `choice` cast at `t`.
pub open spec fn vote_record(voter: Seq<char>, choice: Seq<char>, t: int) -> VoteView {
    VoteView { voter, choice, signature: signature_of(voter, choice), timestamp: Some(t) }
}

/// The outcome of preparing a vote: the file and the record, or why not.
pub open spec fn cast_outcome(allowed: Seq<Seq<char>>, choice: Seq<char>, voter: Seq<char>, id: Seq<char>, t: int) -> Result<(Seq<char>, VoteView), Fault> {
    if !allowed.contains(choice) {
        Err(Fault::InvalidChoice { choice })
    } else {
        Ok((vote_file_of(id), vote_record(voter, choice, t)))
    }
}

pub open spec fn cast_result(r: Result<CastVote, LedgerError>) -> Result<(Seq<char>, VoteView), Fault> {
    match r {
        Ok(c) => Ok((c.file_name@, c.vote@)),
        Err(e) => Err(e@),
    }
}

/// Casts the vote of `voter` for `choice` at `timestamp`, to be published
/// in the vote file named by `id`; fails with `InvalidChoice` when the
/// schema does not allow the choice.
pub fn cast_vote(
    schema: &Schema,
    choice: &str,
    voter: &str,
    id: &str,
    timestamp: i64,
) -> (r: Result<CastVote, LedgerError>)
    ensures
        cast_result(r) == cast_outcome(schema@, choice@, voter@, id@, timestamp as int),
{
    if !schema.allows(choice) {
        return Err(LedgerError::InvalidChoice { choice: choice.to_owned() });
    }
    let signature = generate_fake_signature(voter, choice);
    let mut file_name = String::new();
    push_text(&mut file_name, "votes/vote-");
    push_text(&mut file_name, id);
    push_text(&mut file_name, ".json");
    assert(file_name@ =~= vote_file_of(id@));
    let vote = Vote { voter: voter.to_owned(), choice: choice.to_owned(), signature, timestamp: Some(timestamp) };
    Ok(CastVote { file_name, vote })
}

} // verus!
