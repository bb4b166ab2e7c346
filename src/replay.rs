//! Replay: the fold from the signed commit history to the hash-chained block sequence.
use vstd::prelude::*;
use crate::block::{Block, BlockView, block_hash_of, blocks_view, timestamp_in_range, MAX_TIMESTAMP};
use crate::error::{Fault, LedgerError};
use crate::history::{AddedFile, AddedFileView, Commit, CommitView, SchemaLookup, SchemaLookupView, history_view};
use crate::text::{has_prefix, is_vote_path, lex_lt, text_eq, text_lt};

verus! {

/// A vote that replay admitted: who cast it, for what, and when it was published.
#[derive(Clone, Debug)]
pub struct AdmittedVote {
    pub timestamp: i64,
    pub voter: String,
    pub choice: String,
}

pub struct AdmittedView {
    pub timestamp: int,
    pub voter: Seq<char>,
    pub choice: Seq<char>,
}

impl View for AdmittedVote {
    type V = AdmittedView;

    open spec fn view(&self) -> AdmittedView {
        AdmittedView { timestamp: self.timestamp as int, voter: self.voter@, choice: self.choice@ }
    }
}

pub open spec fn admitted_view(s: Seq<AdmittedVote>) -> Seq<AdmittedView> {
    s.map_values(|v: AdmittedVote| v@)
}

pub open spec fn pos_view(o: Option<usize>) -> Option<int> {
    match o {
        Some(i) => Some(i as int),
        None => None,
    }
}

/// Whether a path lies in the vote directory.
pub open spec fn is_vote(p: Seq<char>) -> bool {
    has_prefix(p, "votes/"@)
}

/// The position of the file through which a commit casts its vote: among
/// the added files under `votes/`, the first by path in lexicographic order
/// (the earlier one where two paths are equal); `None` when there is none.
pub open spec fn first_vote_file(files: Seq<AddedFileView>) -> Option<int>
    decreases files.len(),
{
    if files.len() == 0 {
        None
    } else {
        let rest = first_vote_file(files.drop_last());
        let i = files.len() - 1;
        if !is_vote(files[i].path) {
            rest
        } else {
            match rest {
                None => Some(i),
                Some(j) => if lex_lt(files[i].path, files[j].path) {
                    Some(i)
                } else {
                    rest
                },
            }
        }
    }
}

/// Whether `voter` already cast one of the admitted votes.
pub open spec fn has_voter(vs: Seq<AdmittedView>, voter: Seq<char>) -> bool {
    exists|k: int| 0 <= k < vs.len() && vs[k].voter == voter
}

/// Whether `t` can follow the admitted votes `vs` as a block time.
pub open spec fn timestamp_fits(vs: Seq<AdmittedView>, t: int) -> bool {
    timestamp_in_range(t) && (vs.len() == 0 || vs.last().timestamp <= t)
}

/// One step of replay: what commit `c` does to the votes admitted before it.
pub open spec fn admit_step(vs: Seq<AdmittedView>, c: CommitView) -> Result<Seq<AdmittedView>, Fault> {
    match first_vote_file(c.added) {
        None => Ok(vs),
        Some(i) => match c.signer {
            None => Ok(vs),
            Some(s) => if has_voter(vs, s) {
                Ok(vs)
            } else {
                match c.added[i].choice {
                    None => Err(Fault::MalformedVote { index: vs.len() }),
                    Some(choice) => match c.schema {
                        SchemaLookupView::Missing => Err(Fault::SchemaMissing),
                        SchemaLookupView::Invalid => Err(Fault::SchemaInvalid),
                        SchemaLookupView::Found(allowed) => if !allowed.contains(choice) {
                            Err(Fault::InvalidChoice { choice })
                        } else if !timestamp_fits(vs, c.timestamp) {
                            Err(Fault::InvalidTimestamp { index: vs.len() })
                        } else {
                            Ok(vs.push(AdmittedView { timestamp: c.timestamp, voter: s, choice }))
                        },
                    },
                }
            },
        },
    }
}

/// The votes admitted from a history, oldest commit first, or the first failure.
pub open spec fn admitted(h: Seq<CommitView>) -> Result<Seq<AdmittedView>, Fault>
    decreases h.len(),
{
    if h.len() == 0 {
        Ok(Seq::empty())
    } else {
        match admitted(h.drop_last()) {
            Ok(vs) => admit_step(vs, h.last()),
            Err(e) => Err(e),
        }
    }
}

/// The block that follows the chain `prev` for the admitted vote `v`.
pub open spec fn link(prev: Seq<BlockView>, v: AdmittedView) -> BlockView {
    BlockView {
        index: prev.len(),
        timestamp: v.timestamp,
        choice: v.choice,
        voter: v.voter,
        prev_hash: if prev.len() == 0 {
            None
        } else {
            Some(block_hash_of(prev.last()))
        },
    }
}

/// The hash-linked chain of a sequence of admitted votes.
pub open spec fn chain_of(vs: Seq<AdmittedView>) -> Seq<BlockView>
    decreases vs.len(),
{
    if vs.len() == 0 {
        Seq::empty()
    } else {
        let prev = chain_of(vs.drop_last());
        prev.push(link(prev, vs.last()))
    }
}

/// Whether blocks may be written for `branch`: the default trunk is reserved.
pub open spec fn branch_writable(branch: Seq<char>) -> bool {
    branch != "main"@
}

/// The outcome of replaying history `h` for `branch` while the working
/// state is on `current`.
pub open spec fn replay(branch: Seq<char>, current: Seq<char>, h: Seq<CommitView>) -> Result<Seq<BlockView>, Fault> {
    if !branch_writable(branch) || branch != current {
        Err(Fault::WrongBranch)
    } else {
        match admitted(h) {
            Ok(vs) => Ok(chain_of(vs)),
            Err(e) => Err(e),
        }
    }
}

pub open spec fn chain_result(r: Result<Vec<Block>, LedgerError>) -> Result<Seq<BlockView>, Fault> {
    match r {
        Ok(bs) => Ok(blocks_view(bs@)),
        Err(e) => Err(e@),
    }
}

pub open spec fn admitted_result(r: Result<Vec<AdmittedVote>, LedgerError>) -> Result<Seq<AdmittedView>, Fault> {
    match r {
        Ok(vs) => Ok(admitted_view(vs@)),
        Err(e) => Err(e@),
    }
}

/// Admitted votes are well formed: times in range and non-decreasing,
/// and no voter twice.
pub open spec fn votes_wf(vs: Seq<AdmittedView>) -> bool {
    &&& forall|k: int| 0 <= k < vs.len() ==> timestamp_in_range(#[trigger] vs[k].timestamp)
    &&& forall|j: int, k: int| 0 <= j < k < vs.len() ==> vs[j].timestamp <= vs[k].timestamp
    &&& forall|j: int, k: int| 0 <= j < k < vs.len() ==> vs[j].voter != vs[k].voter
}

pub proof fn lemma_admitted_wf(h: Seq<CommitView>)
    ensures
        admitted(h) is Ok ==> votes_wf(admitted(h)->Ok_0),
    decreases h.len(),
{
    if h.len() > 0 {
        lemma_admitted_wf(h.drop_last());
    }
}

pub proof fn lemma_first_vote_file_bounds(files: Seq<AddedFileView>)
    ensures
        first_vote_file(files) matches Some(i) ==> 0 <= i < files.len() && is_vote(files[i].path),
    decreases files.len(),
{
    if files.len() > 0 {
        lemma_first_vote_file_bounds(files.drop_last());
    }
}

pub proof fn lemma_admitted_err_stays(h: Seq<CommitView>, n: int)
    requires
        0 <= n <= h.len(),
        admitted(h.take(n)) is Err,
    ensures
        admitted(h) == admitted(h.take(n)),
    decreases h.len() - n,
{
    if n == h.len() {
        assert(h.take(n) =~= h);
    } else {
        assert(h.drop_last().take(n) =~= h.take(n));
        lemma_admitted_err_stays(h.drop_last(), n);
    }
}

pub proof fn lemma_chain_len(vs: Seq<AdmittedView>)
    ensures
        chain_of(vs).len() == vs.len(),
    decreases vs.len(),
{
    if vs.len() > 0 {
        lemma_chain_len(vs.drop_last());
    }
}

/// Whether the reserved default trunk is named: writes go only to other branches.
pub fn check_writable_branch(branch: &str) -> (r: Result<(), LedgerError>)
    ensures
        r is Ok <==> branch_writable(branch@),
        r is Err ==> r == Err::<(), LedgerError>(LedgerError::WrongBranch),
{
    if text_eq(branch, "main") {
        Err(LedgerError::WrongBranch)
    } else {
        Ok(())
    }
}

/// Whether blocks for `branch` may be written while the working state is
/// on `current`: the two must agree and `branch` must not be the trunk.
pub fn check_branch(branch: &str, current: &str) -> (r: Result<(), LedgerError>)
    ensures
        r is Ok <==> (branch_writable(branch@) && branch@ == current@),
        r is Err ==> r == Err::<(), LedgerError>(LedgerError::WrongBranch),
{
    check_writable_branch(branch)?;
    if !text_eq(branch, current) {
        return Err(LedgerError::WrongBranch);
    }
    Ok(())
}

/// The position of the file through which a commit with these added files votes.
pub fn select_vote_file(files: &Vec<AddedFile>) -> (r: Option<usize>)
    ensures
        pos_view(r) == first_vote_file(files@.map_values(|f: AddedFile| f@)),
{
    let ghost fv = files@.map_values(|f: AddedFile| f@);
    let mut best: Option<usize> = None;
    for i in 0..files.len()
        invariant
            fv == files@.map_values(|f: AddedFile| f@),
            pos_view(best) == first_vote_file(fv.take(i as int)),
            best matches Some(j) ==> j < i,
    {
        assert(fv.take(i + 1).drop_last() =~= fv.take(i as int));
        if is_vote_path(files[i].path.as_str()) {
            match best {
                None => {
                    best = Some(i);
                },
                Some(j) => {
                    if text_lt(files[i].path.as_str(), files[j].path.as_str()) {
                        best = Some(i);
                    }
                },
            }
        }
    }
    assert(fv.take(files.len() as int) =~= fv);
    best
}

fn contains_voter(vs: &Vec<AdmittedVote>, voter: &String) -> (r: bool)
    ensures
        r == has_voter(admitted_view(vs@), voter@),
{
    let ghost av = admitted_view(vs@);
    for i in 0..vs.len()
        invariant
            av == admitted_view(vs@),
            forall|k: int| 0 <= k < i ==> av[k].voter != voter@,
    {
        if vs[i].voter == *voter {
            assert(av[i as int].voter == voter@);
            return true;
        }
    }
    false
}

/// Folds the commit history, oldest first, into the votes it admits.
pub fn admit_votes(history: &Vec<Commit>) -> (r: Result<Vec<AdmittedVote>, LedgerError>)
    ensures
        admitted_result(r) == admitted(history_view(history@)),
{
    let ghost hv = history_view(history@);
    let mut out: Vec<AdmittedVote> = Vec::new();
    assert(hv.take(0) =~= Seq::<CommitView>::empty());
    assert(admitted_view(out@) =~= Seq::<AdmittedView>::empty());
    for i in 0..history.len()
        invariant
            hv == history_view(history@),
            admitted(hv.take(i as int)) == Ok::<Seq<AdmittedView>, Fault>(admitted_view(out@)),
    {
        let c = &history[i];
        let ghost before = admitted_view(out@);
        proof {
            assert(hv.take(i + 1).drop_last() =~= hv.take(i as int));
            assert(hv.take(i + 1).last() == c@);
            lemma_admitted_wf(hv.take(i as int));
        }
        let pick = select_vote_file(&c.added);
        proof { lemma_first_vote_file_bounds(c@.added); }
        if let Some(fi) = pick {
            if let Some(s) = &c.signer {
                if !contains_voter(&out, s) {
                    let file = &c.added[fi];
                    assert(file@ == c@.added[fi as int]);
                    match &file.choice {
                        None => {
                            let e = LedgerError::MalformedVote { index: out.len() };
                            proof { lemma_admitted_err_stays(hv, i + 1); }
                            return Err(e);
                        },
                        Some(choice) => {
                            match &c.schema {
                                SchemaLookup::Missing => {
                                    proof { lemma_admitted_err_stays(hv, i + 1); }
                                    return Err(LedgerError::SchemaMissing);
                                },
                                SchemaLookup::Invalid => {
                                    proof { lemma_admitted_err_stays(hv, i + 1); }
                                    return Err(LedgerError::SchemaInvalid);
                                },
                                SchemaLookup::Found(schema) => {
                                    if !schema.allows(choice.as_str()) {
                                        proof { lemma_admitted_err_stays(hv, i + 1); }
                                        return Err(LedgerError::InvalidChoice { choice: choice.clone() });
                                    }
                                    let t = c.timestamp;
                                    let fits = 0 <= t && t <= MAX_TIMESTAMP && (out.len() == 0
                                        || out[out.len() - 1].timestamp <= t);
                                    if !fits {
                                        proof { lemma_admitted_err_stays(hv, i + 1); }
                                        return Err(LedgerError::InvalidTimestamp { index: out.len() });
                                    }
                                    out.push(AdmittedVote { timestamp: t, voter: s.clone(), choice: choice.clone() });
                                    assert(admitted_view(out@) =~= before.push(AdmittedView {
                                        timestamp: t as int,
                                        voter: s@,
                                        choice: choice@,
                                    }));
                                },
                            }
                        },
                    }
                }
            }
        }
    }
    assert(hv.take(history.len() as int) =~= hv);
    Ok(out)
}

/// Links admitted votes, in order, into a hash chain: block `i` carries
/// index `i` and the canonical hash of block `i - 1`.
pub fn build(votes: &Vec<AdmittedVote>) -> (r: Vec<Block>)
    requires
        forall|k: int| 0 <= k < votes@.len() ==> timestamp_in_range(#[trigger] votes@[k].timestamp as int),
    ensures
        blocks_view(r@) == chain_of(admitted_view(votes@)),
{
    let ghost vv = admitted_view(votes@);
    let mut out: Vec<Block> = Vec::new();
    let mut prev: Option<String> = None;
    for i in 0..votes.len()
        invariant
            vv == admitted_view(votes@),
            forall|k: int| 0 <= k < votes@.len() ==> timestamp_in_range(#[trigger] votes@[k].timestamp as int),
            out.len() == i,
            blocks_view(out@) == chain_of(vv.take(i as int)),
            i == 0 ==> prev is None,
            i > 0 ==> (prev matches Some(h) && h@ == block_hash_of(blocks_view(out@).last())),
    {
        let v = &votes[i];
        let ghost before = blocks_view(out@);
        proof {
            assert(vv.take(i + 1).drop_last() =~= vv.take(i as int));
            lemma_chain_len(vv.take(i as int));
        }
        let b = Block {
            index: i,
            timestamp: v.timestamp,
            choice: v.choice.clone(),
            voter: v.voter.clone(),
            prev_hash: prev,
        };
        assert(timestamp_in_range(votes@[i as int].timestamp as int));
        let h = b.block_hash();
        out.push(b);
        assert(blocks_view(out@) =~= before.push(b@));
        prev = Some(h);
    }
    assert(vv.take(votes.len() as int) =~= vv);
    out
}

/// Replays the commit history of `branch` into its block sequence.
///
/// `current_branch` is the branch the working state is on. Fails with
/// `WrongBranch` when the two differ or `branch` is the reserved trunk,
/// and otherwise with the first failure of the fold.
pub fn generate_blocks(branch: &str, current_branch: &str, history: &Vec<Commit>) -> (r: Result<Vec<Block>, LedgerError>)
    ensures
        chain_result(r) == replay(branch@, current_branch@, history_view(history@)),
{
    check_branch(branch, current_branch)?;
    let votes = admit_votes(history)?;
    proof {
        lemma_admitted_wf(history_view(history@));
        assert forall|k: int| 0 <= k < votes@.len() implies timestamp_in_range(#[trigger] votes@[k].timestamp as int) by {
            assert(admitted_view(votes@)[k].timestamp == votes@[k].timestamp as int);
        }
    }
    Ok(build(&votes))
}

} // verus!
