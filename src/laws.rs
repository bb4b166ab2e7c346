//! Laws that relate replay, validation and tally, proved over the spec functions that define them.
use vstd::prelude::*;
use crate::block::{BlockView, block_hash_of, canonical_form, timestamp_in_range};
use crate::error::{BreakView, Fault};
use crate::history::{AddedFileView, CommitView};
use crate::replay::{
    AdmittedView, admit_step, admitted, chain_of, first_vote_file, has_voter, is_vote, lemma_admitted_wf,
    lemma_admitted_err_stays, lemma_chain_len, lemma_first_vote_file_bounds, link, replay, votes_wf,
};
use crate::tally::{tally_counts, tally_voters};
use crate::text::lex_lt;
use crate::validate::{block_fault, check_chain, expected_prev, has_block_voter, lemma_check_chain_err_stays};

verus! {

proof fn lemma_chain_fields(vs: Seq<AdmittedView>)
    ensures
        chain_of(vs).len() == vs.len(),
        forall|k: int| 0 <= k < vs.len() ==> {
            &&& #[trigger] chain_of(vs)[k].voter == vs[k].voter
            &&& chain_of(vs)[k].choice == vs[k].choice
            &&& chain_of(vs)[k].timestamp == vs[k].timestamp
            &&& chain_of(vs)[k].index == k
        },
    decreases vs.len(),
{
    if vs.len() > 0 {
        lemma_chain_fields(vs.drop_last());
        lemma_chain_len(vs.drop_last());
    }
}

proof fn lemma_chain_valid(vs: Seq<AdmittedView>)
    requires
        votes_wf(vs),
    ensures
        check_chain(chain_of(vs)) == Ok::<nat, Fault>(vs.len()),
    decreases vs.len(),
{
    if vs.len() > 0 {
        let pre = vs.drop_last();
        assert(votes_wf(pre));
        lemma_chain_valid(pre);
        lemma_chain_fields(vs);
        lemma_chain_fields(pre);
        let c = chain_of(vs);
        let p = chain_of(pre);
        assert(c.drop_last() =~= p);
        assert(c.last() == link(p, vs.last()));
        assert(timestamp_in_range(vs[vs.len() - 1].timestamp));
        if has_block_voter(p, c.last().voter) {
            let k = choose|k: int| 0 <= k < p.len() && p[k].voter == c.last().voter;
            assert(pre[k].voter == vs[vs.len() - 1].voter);
        }
        assert(block_fault(p, c.last()) is None);
    }
}

/// A history that replays without failure yields a chain that the
/// validator accepts, with one verified block per block written.
pub proof fn lemma_replay_validates(branch: Seq<char>, current: Seq<char>, h: Seq<CommitView>)
    requires
        replay(branch, current, h) is Ok,
    ensures
        check_chain(replay(branch, current, h)->Ok_0) == Ok::<nat, Fault>(replay(branch, current, h)->Ok_0.len()),
{
    lemma_admitted_wf(h);
    let vs = admitted(h)->Ok_0;
    lemma_chain_valid(vs);
    lemma_chain_len(vs);
}

/// Replay is a function of its inputs: the same history, branch and
/// working branch give the same blocks, hence the same canonical bytes.
pub proof fn lemma_replay_deterministic(
    branch: Seq<char>,
    current: Seq<char>,
    h1: Seq<CommitView>,
    h2: Seq<CommitView>,
)
    requires
        h1 == h2,
    ensures
        replay(branch, current, h1) == replay(branch, current, h2),
        replay(branch, current, h1) is Ok ==> forall|k: int| 0 <= k < replay(branch, current, h1)->Ok_0.len()
            ==> #[trigger] canonical_form(replay(branch, current, h1)->Ok_0[k]) == canonical_form(replay(branch, current, h2)->Ok_0[k]),
{
}

proof fn lemma_admitted_sources(h: Seq<CommitView>)
    ensures
        admitted(h) is Ok ==> forall|k: int| 0 <= k < admitted(h)->Ok_0.len() ==> exists|i: int| {
            &&& 0 <= i < h.len()
            &&& h[i].signer == Some(#[trigger] admitted(h)->Ok_0[k].voter)
            &&& first_vote_file(h[i].added) is Some
        },
    decreases h.len(),
{
    if h.len() > 0 {
        let pre = h.drop_last();
        lemma_admitted_sources(pre);
        if admitted(h) is Ok {
            let vs = admitted(pre)->Ok_0;
            let ws = admitted(h)->Ok_0;
            assert forall|k: int| 0 <= k < ws.len() implies exists|i: int| {
                &&& 0 <= i < h.len()
                &&& h[i].signer == Some(#[trigger] ws[k].voter)
                &&& first_vote_file(h[i].added) is Some
            } by {
                if k < vs.len() {
                    assert(ws[k] == vs[k]);
                    let i = choose|i: int| {
                        &&& 0 <= i < pre.len()
                        &&& pre[i].signer == Some(#[trigger] vs[k].voter)
                        &&& first_vote_file(pre[i].added) is Some
                    };
                    assert(h[i] == pre[i]);
                } else {
                    assert(h[h.len() - 1] == h.last());
                }
            }
        }
    }
}

/// Every voter of a replayed chain is the signer identity of some commit
/// of the history, and no voter has two blocks.
pub proof fn lemma_replay_voters(branch: Seq<char>, current: Seq<char>, h: Seq<CommitView>)
    requires
        replay(branch, current, h) is Ok,
    ensures
        forall|k: int| 0 <= k < replay(branch, current, h)->Ok_0.len() ==> exists|i: int|
            0 <= i < h.len() && h[i].signer == Some(#[trigger] replay(branch, current, h)->Ok_0[k].voter),
        forall|j: int, k: int| 0 <= j < k < replay(branch, current, h)->Ok_0.len() ==>
            replay(branch, current, h)->Ok_0[j].voter != replay(branch, current, h)->Ok_0[k].voter,
{
    let vs = admitted(h)->Ok_0;
    let bs = chain_of(vs);
    lemma_admitted_wf(h);
    lemma_admitted_sources(h);
    lemma_chain_fields(vs);
    assert forall|k: int| 0 <= k < bs.len() implies exists|i: int|
        0 <= i < h.len() && h[i].signer == Some(#[trigger] bs[k].voter) by {
        assert(bs[k].voter == vs[k].voter);
    }
    assert forall|j: int, k: int| 0 <= j < k < bs.len() implies bs[j].voter != bs[k].voter by {
        assert(bs[j].voter == vs[j].voter);
        assert(bs[k].voter == vs[k].voter);
    }
}

proof fn lemma_admitted_prefix(h: Seq<CommitView>, m: int)
    requires
        0 <= m <= h.len(),
        admitted(h) is Ok,
    ensures
        admitted(h.take(m)) is Ok,
        admitted(h.take(m))->Ok_0.len() <= admitted(h)->Ok_0.len(),
        admitted(h)->Ok_0.take(admitted(h.take(m))->Ok_0.len() as int) == admitted(h.take(m))->Ok_0,
    decreases h.len() - m,
{
    if admitted(h.take(m)) is Err {
        lemma_admitted_err_stays(h, m);
    }
    if m == h.len() {
        assert(h.take(m) =~= h);
        assert(admitted(h)->Ok_0.take(admitted(h)->Ok_0.len() as int) =~= admitted(h)->Ok_0);
    } else {
        let pre = h.drop_last();
        assert(pre.take(m) =~= h.take(m));
        lemma_admitted_prefix(pre, m);
        let x = admitted(h.take(m))->Ok_0;
        let y = admitted(pre)->Ok_0;
        let z = admitted(h)->Ok_0;
        assert(z.take(y.len() as int) =~= y);
        assert(z.take(x.len() as int) =~= y.take(x.len() as int));
    }
}

proof fn lemma_tally_domain(bs: Seq<BlockView>)
    ensures
        forall|v: Seq<char>| #[trigger] tally_voters(bs).contains_key(v) ==> has_block_voter(bs, v),
    decreases bs.len(),
{
    if bs.len() > 0 {
        let pre = bs.drop_last();
        lemma_tally_domain(pre);
        assert forall|v: Seq<char>| #[trigger] tally_voters(bs).contains_key(v) implies has_block_voter(bs, v) by {
            if tally_voters(pre).contains_key(v) {
                let k = choose|k: int| 0 <= k < pre.len() && pre[k].voter == v;
                assert(bs[k] == pre[k]);
            } else {
                assert(bs[bs.len() - 1].voter == v);
            }
        }
    }
}

proof fn lemma_tally_distinct(bs: Seq<BlockView>)
    requires
        forall|j: int, k: int| 0 <= j < k < bs.len() ==> bs[j].voter != bs[k].voter,
    ensures
        forall|k: int| 0 <= k < bs.len() ==> tally_voters(bs).contains_key(#[trigger] bs[k].voter)
            && tally_voters(bs)[bs[k].voter] == bs[k].choice,
    decreases bs.len(),
{
    if bs.len() > 0 {
        let pre = bs.drop_last();
        lemma_tally_distinct(pre);
        lemma_tally_domain(pre);
        let last = bs.last();
        if tally_voters(pre).contains_key(last.voter) {
            let k = choose|k: int| 0 <= k < pre.len() && pre[k].voter == last.voter;
            assert(bs[k].voter == bs[bs.len() - 1].voter);
        }
        assert forall|k: int| 0 <= k < bs.len() implies tally_voters(bs).contains_key(#[trigger] bs[k].voter)
            && tally_voters(bs)[bs[k].voter] == bs[k].choice by {
            if k < pre.len() {
                assert(bs[k] == pre[k]);
                assert(bs[k].voter != bs[bs.len() - 1].voter);
            }
        }
    }
}

/// The choice a commit votes for: the choice read from its first vote file.
pub open spec fn commit_choice(c: CommitView) -> Option<Seq<char>> {
    match first_vote_file(c.added) {
        Some(i) => c.added[i].choice,
        None => None,
    }
}

/// Where several commits carry votes signed by the same identity, the
/// tally counts the earliest one: its choice is the one recorded for that
/// voter, whatever the later ones say.
pub proof fn lemma_earliest_vote_counts(
    branch: Seq<char>,
    current: Seq<char>,
    h: Seq<CommitView>,
    j: int,
    s: Seq<char>,
)
    requires
        replay(branch, current, h) is Ok,
        0 <= j < h.len(),
        h[j].signer == Some(s),
        first_vote_file(h[j].added) is Some,
        forall|i: int| 0 <= i < j && h[i].signer == Some(s) ==> first_vote_file(h[i].added) is None,
    ensures
        commit_choice(h[j]) is Some,
        admitted(h.take(j)) is Ok,
        admitted(h.take(j + 1)) is Ok,
        admitted(h.take(j + 1))->Ok_0.len() == admitted(h.take(j))->Ok_0.len() + 1,
        ({
            let bs = replay(branch, current, h)->Ok_0;
            let p = admitted(h.take(j))->Ok_0.len() as int;
            &&& p < bs.len()
            &&& bs[p].index == p
            &&& bs[p].voter == s
            &&& bs[p].choice == commit_choice(h[j])->Some_0
            &&& forall|q: int| 0 <= q < bs.len() && bs[q].voter == s ==> q == p
        }),
        tally_voters(replay(branch, current, h)->Ok_0).contains_key(s),
        tally_voters(replay(branch, current, h)->Ok_0)[s] == commit_choice(h[j])->Some_0,
{
    let pre = h.take(j);
    let upto = h.take(j + 1);
    lemma_admitted_prefix(h, j);
    lemma_admitted_prefix(h, j + 1);
    let x = admitted(pre)->Ok_0;
    let y = admitted(upto)->Ok_0;
    let z = admitted(h)->Ok_0;
    assert(upto.drop_last() =~= pre);
    assert(upto.last() == h[j]);
    lemma_admitted_sources(pre);
    if has_voter(x, s) {
        let k = choose|k: int| 0 <= k < x.len() && x[k].voter == s;
        let i = choose|i: int| {
            &&& 0 <= i < pre.len()
            &&& pre[i].signer == Some(#[trigger] x[k].voter)
            &&& first_vote_file(pre[i].added) is Some
        };
        assert(h[i] == pre[i]);
    }
    let fi = first_vote_file(h[j].added)->Some_0;
    assert(admit_step(x, h[j]) == Ok::<Seq<AdmittedView>, Fault>(y));
    assert(y == x.push(AdmittedView { timestamp: h[j].timestamp, voter: s, choice: h[j].added[fi].choice->Some_0 }));
    let p = x.len() as int;
    assert(z[p] == y[p]);
    lemma_admitted_wf(h);
    let bs = chain_of(z);
    lemma_chain_fields(z);
    assert forall|a: int, b: int| 0 <= a < b < bs.len() implies bs[a].voter != bs[b].voter by {
        assert(bs[a].voter == z[a].voter);
        assert(bs[b].voter == z[b].voter);
    }
    lemma_tally_distinct(bs);
    assert(bs[p].voter == s);
    assert forall|q: int| 0 <= q < bs.len() && bs[q].voter == s implies q == p by {
        if q != p {
            if q < p {
                assert(bs[q].voter != bs[p].voter);
            } else {
                assert(bs[p].voter != bs[q].voter);
            }
        }
    }
}

/// A commit that adds no file under `votes/` is skipped: replay gives the
/// same outcome with or without it, so it takes no index.
pub proof fn lemma_non_vote_commit_skipped(branch: Seq<char>, current: Seq<char>, h: Seq<CommitView>, c: CommitView)
    requires
        forall|i: int| 0 <= i < c.added.len() ==> !is_vote(#[trigger] c.added[i].path),
    ensures
        replay(branch, current, h.push(c)) == replay(branch, current, h),
{
    lemma_first_vote_file_bounds(c.added);
    assert(h.push(c).drop_last() =~= h);
}

/// A commit without a resolved signer identity is skipped in the same way.
pub proof fn lemma_unsigned_commit_skipped(branch: Seq<char>, current: Seq<char>, h: Seq<CommitView>, c: CommitView)
    requires
        c.signer is None,
    ensures
        replay(branch, current, h.push(c)) == replay(branch, current, h),
{
    assert(h.push(c).drop_last() =~= h);
}

proof fn lemma_lex_lt_irreflexive(a: Seq<char>)
    ensures
        !lex_lt(a, a),
    decreases a.len(),
{
    if a.len() > 0 {
        lemma_lex_lt_irreflexive(a.drop_first());
    }
}

proof fn lemma_lex_lt_transitive(a: Seq<char>, b: Seq<char>, c: Seq<char>)
    requires
        lex_lt(a, b),
        lex_lt(b, c),
    ensures
        lex_lt(a, c),
    decreases a.len(),
{
    if a.len() > 0 && b.len() > 0 && c.len() > 0 && a[0] == b[0] && b[0] == c[0] {
        lemma_lex_lt_transitive(a.drop_first(), b.drop_first(), c.drop_first());
    }
}

/// The vote file of a commit is the first of its vote files in
/// lexicographic order: it exists exactly when some added path lies under
/// `votes/`, it lies there itself, and no vote path comes before it.
pub proof fn lemma_first_vote_file_least(files: Seq<AddedFileView>)
    ensures
        first_vote_file(files) is Some <==> exists|j: int| 0 <= j < files.len() && is_vote(#[trigger] files[j].path),
        first_vote_file(files) matches Some(i) ==> {
            &&& 0 <= i < files.len()
            &&& is_vote(files[i].path)
            &&& forall|j: int| 0 <= j < files.len() && is_vote(#[trigger] files[j].path) ==> !lex_lt(files[j].path, files[i].path)
        },
    decreases files.len(),
{
    if files.len() > 0 {
        let pre = files.drop_last();
        lemma_first_vote_file_least(pre);
        let n = files.len() - 1;
        assert forall|j: int| 0 <= j < n implies #[trigger] files[j] == pre[j] by {}
        if first_vote_file(files) is Some {
            let i = first_vote_file(files)->Some_0;
            assert forall|j: int| 0 <= j < files.len() && is_vote(#[trigger] files[j].path) implies !lex_lt(files[j].path, files[i].path) by {
                lemma_lex_lt_irreflexive(files[j].path);
                if j < n {
                    assert(is_vote(pre[j].path));
                    let i0 = first_vote_file(pre)->Some_0;
                    if i == n && lex_lt(files[j].path, files[i].path) {
                        lemma_lex_lt_transitive(files[j].path, files[n].path, files[i0].path);
                    }
                }
            }
        }
        if exists|j: int| 0 <= j < files.len() && is_vote(#[trigger] files[j].path) {
            let j = choose|j: int| 0 <= j < files.len() && is_vote(#[trigger] files[j].path);
            if j < n {
                assert(is_vote(pre[j].path));
            }
        }
    }
}

/// A commit that adds several vote files admits at most one vote, and that
/// vote carries the choice read from its lexicographically first vote file.
pub proof fn lemma_one_vote_per_commit(h: Seq<CommitView>, c: CommitView)
    requires
        admitted(h.push(c)) is Ok,
    ensures
        admitted(h) is Ok,
        admitted(h.push(c))->Ok_0 == admitted(h)->Ok_0 || admitted(h.push(c))->Ok_0 == admitted(h)->Ok_0.push(
            AdmittedView { timestamp: c.timestamp, voter: c.signer->Some_0, choice: commit_choice(c)->Some_0 },
        ),
{
    assert(h.push(c).drop_last() =~= h);
    assert(h.push(c).last() == c);
}

/// Rewriting block `k` of a valid chain, into a block that passes its own
/// checks but hashes differently, is caught at block `k + 1`, whose stored
/// link no longer matches.
pub proof fn lemma_rewrite_detected(bs: Seq<BlockView>, k: int, b: BlockView)
    requires
        check_chain(bs) is Ok,
        0 <= k,
        k + 1 < bs.len(),
        block_fault(bs.take(k), b) is None,
        block_hash_of(b) != block_hash_of(bs[k]),
    ensures
        check_chain(bs.update(k, b)) == Err::<nat, Fault>(Fault::ChainBroken {
            index: (k + 1) as nat,
            cause: BreakView::HashMismatch { expected: Some(block_hash_of(b)), observed: bs[k + 1].prev_hash },
        }),
{
    let cs = bs.update(k, b);
    lemma_check_chain_prefix(bs, k + 2);
    lemma_check_chain_prefix(bs, k);
    assert(cs.take(k) =~= bs.take(k));
    assert(cs.take(k + 1).drop_last() =~= cs.take(k));
    assert(cs.take(k + 1).last() == b);
    assert(check_chain(cs.take(k + 1)) == Ok::<nat, Fault>((k + 1) as nat));
    assert(cs.take(k + 2).drop_last() =~= cs.take(k + 1));
    assert(cs.take(k + 2).last() == bs[k + 1]);
    assert(bs.take(k + 2).drop_last() =~= bs.take(k + 1));
    assert(bs.take(k + 2).last() == bs[k + 1]);
    assert(bs.take(k + 1).last() == bs[k]);
    assert(expected_prev(bs.take(k + 1)) == Some(block_hash_of(bs[k])));
    assert(expected_prev(cs.take(k + 1)) == Some(block_hash_of(b)));
    lemma_check_chain_err_stays(cs, k + 2);
}

proof fn lemma_check_chain_prefix(bs: Seq<BlockView>, m: int)
    requires
        check_chain(bs) is Ok,
        0 <= m <= bs.len(),
    ensures
        check_chain(bs.take(m)) == Ok::<nat, Fault>(m as nat),
    decreases bs.len() - m,
{
    if check_chain(bs.take(m)) is Err {
        lemma_check_chain_err_stays(bs, m);
    }
    lemma_check_chain_ok_len(bs.take(m));
}

proof fn lemma_check_chain_ok_len(bs: Seq<BlockView>)
    ensures
        check_chain(bs) is Ok ==> check_chain(bs)->Ok_0 == bs.len(),
{
}

proof fn lemma_admitted_replace(h: Seq<CommitView>, k: int, c: CommitView)
    requires
        0 <= k < h.len(),
        forall|vs: Seq<AdmittedView>| #[trigger] admit_step(vs, c) == admit_step(vs, h[k]),
    ensures
        admitted(h.update(k, c)) == admitted(h),
    decreases h.len(),
{
    let g = h.update(k, c);
    if k == h.len() - 1 {
        assert(g.drop_last() =~= h.drop_last());
        assert(admit_step(admitted(h.drop_last())->Ok_0, c) == admit_step(admitted(h.drop_last())->Ok_0, h[k]));
    } else {
        assert(g.drop_last() =~= h.drop_last().update(k, c));
        lemma_admitted_replace(h.drop_last(), k, c);
        assert(g.last() == h.last());
    }
}

/// The added files with every vote file dropped but the one at position `i`;
/// the other files stay, in order.
pub open spec fn keep_vote_at(files: Seq<AddedFileView>, i: int) -> Seq<AddedFileView>
    decreases files.len(),
{
    if files.len() == 0 {
        Seq::empty()
    } else {
        let pre = keep_vote_at(files.drop_last(), i);
        let k = files.len() - 1;
        if !is_vote(files[k].path) || k == i {
            pre.push(files[k])
        } else {
            pre
        }
    }
}

proof fn lemma_keep_vote_at(files: Seq<AddedFileView>, i: int)
    requires
        0 <= i,
        i < files.len() ==> is_vote(files[i].path),
    ensures
        i < files.len() ==> (first_vote_file(keep_vote_at(files, i)) matches Some(j)
            && 0 <= j < keep_vote_at(files, i).len() && keep_vote_at(files, i)[j] == files[i]),
        i >= files.len() ==> first_vote_file(keep_vote_at(files, i)) is None,
    decreases files.len(),
{
    if files.len() > 0 {
        let pre = files.drop_last();
        let k = files.len() - 1;
        if i < k {
            assert(pre[i] == files[i]);
        }
        lemma_keep_vote_at(pre, i);
        let kp = keep_vote_at(pre, i);
        let kf = keep_vote_at(files, i);
        if !is_vote(files[k].path) || k == i {
            assert(kf.drop_last() =~= kp);
            lemma_first_vote_file_bounds(kp);
        }
    }
}

/// The commit `c` with its vote files reduced to the one through which it votes.
pub open spec fn first_vote_only(c: CommitView) -> CommitView {
    CommitView { added: keep_vote_at(c.added, first_vote_file(c.added)->Some_0), ..c }
}

/// Only the lexicographically first vote file of a commit counts: replay
/// gives the same outcome when commit `k` drops its other vote files.
pub proof fn lemma_first_vote_file_decides(branch: Seq<char>, current: Seq<char>, h: Seq<CommitView>, k: int)
    requires
        0 <= k < h.len(),
        first_vote_file(h[k].added) is Some,
    ensures
        replay(branch, current, h.update(k, first_vote_only(h[k]))) == replay(branch, current, h),
{
    let c = h[k];
    let d = first_vote_only(c);
    let i = first_vote_file(c.added)->Some_0;
    lemma_first_vote_file_bounds(c.added);
    lemma_keep_vote_at(c.added, i);
    let j = first_vote_file(d.added)->Some_0;
    assert(d.added[j] == c.added[i]);
    assert forall|vs: Seq<AdmittedView>| #[trigger] admit_step(vs, d) == admit_step(vs, h[k]) by {}
    lemma_admitted_replace(h, k, d);
}

proof fn lemma_voter_admitted(h: Seq<CommitView>, m: int, i: int, s: Seq<char>)
    requires
        0 <= i < m <= h.len(),
        h[i].signer == Some(s),
        first_vote_file(h[i].added) is Some,
        admitted(h.take(m)) is Ok,
    ensures
        has_voter(admitted(h.take(m))->Ok_0, s),
    decreases m,
{
    let t = h.take(m);
    assert(t.drop_last() =~= h.take(m - 1));
    assert(t.last() == h[m - 1]);
    let vs = admitted(h.take(m - 1))->Ok_0;
    let ws = admitted(t)->Ok_0;
    if i < m - 1 {
        lemma_voter_admitted(h, m - 1, i, s);
    }
    if has_voter(vs, s) {
        let k = choose|k: int| 0 <= k < vs.len() && vs[k].voter == s;
        assert(ws[k] == vs[k]);
    } else {
        assert(ws[vs.len() as int].voter == s);
    }
}

proof fn lemma_admitted_suffix(a: Seq<CommitView>, c: CommitView, b: Seq<CommitView>)
    requires
        admitted(a.push(c)) == admitted(a),
    ensures
        admitted(a.push(c) + b) == admitted(a + b),
    decreases b.len(),
{
    if b.len() == 0 {
        assert(a.push(c) + b =~= a.push(c));
        assert(a + b =~= a);
    } else {
        lemma_admitted_suffix(a, c, b.drop_last());
        assert((a.push(c) + b).drop_last() =~= a.push(c) + b.drop_last());
        assert((a + b).drop_last() =~= a + b.drop_last());
        assert((a.push(c) + b).last() == b.last());
        assert((a + b).last() == b.last());
    }
}

/// A later vote by an identity that already voted changes nothing: replay,
/// and hence the tally, is the same with that commit removed.
pub proof fn lemma_later_vote_ignored(
    branch: Seq<char>,
    current: Seq<char>,
    h: Seq<CommitView>,
    j1: int,
    j2: int,
    s: Seq<char>,
)
    requires
        replay(branch, current, h) is Ok,
        0 <= j1 < j2 < h.len(),
        h[j1].signer == Some(s),
        first_vote_file(h[j1].added) is Some,
        h[j2].signer == Some(s),
    ensures
        replay(branch, current, h.remove(j2)) == replay(branch, current, h),
        tally_voters(replay(branch, current, h.remove(j2))->Ok_0) == tally_voters(replay(branch, current, h)->Ok_0),
        tally_counts(replay(branch, current, h.remove(j2))->Ok_0) == tally_counts(replay(branch, current, h)->Ok_0),
{
    let a = h.take(j2);
    let b = h.skip(j2 + 1);
    lemma_admitted_prefix(h, j2);
    lemma_voter_admitted(h, j2, j1, s);
    assert(a.push(h[j2]).drop_last() =~= a);
    assert(admitted(a.push(h[j2])) == admitted(a));
    lemma_admitted_suffix(a, h[j2], b);
    assert(a.push(h[j2]) + b =~= h);
    assert(a + b =~= h.remove(j2));
}

/// The number of blocks of `bs` that carry `choice`.
pub open spec fn count_choice(bs: Seq<BlockView>, choice: Seq<char>) -> nat
    decreases bs.len(),
{
    if bs.len() == 0 {
        0
    } else {
        count_choice(bs.drop_last(), choice) + if bs.last().choice == choice { 1nat } else { 0nat }
    }
}

/// Over a chain without repeated voters, each block counts once: a choice's
/// count is the number of blocks that carry it.
pub proof fn lemma_tally_counts_blocks(bs: Seq<BlockView>)
    requires
        forall|j: int, k: int| 0 <= j < k < bs.len() ==> bs[j].voter != bs[k].voter,
    ensures
        forall|x: Seq<char>| #[trigger] tally_counts(bs).contains_key(x) <==> count_choice(bs, x) > 0,
        forall|x: Seq<char>| #[trigger] tally_counts(bs).contains_key(x) ==> tally_counts(bs)[x] == count_choice(bs, x),
    decreases bs.len(),
{
    if bs.len() > 0 {
        let pre = bs.drop_last();
        lemma_tally_counts_blocks(pre);
        lemma_tally_domain(pre);
        let last = bs.last();
        if tally_voters(pre).contains_key(last.voter) {
            let k = choose|k: int| 0 <= k < pre.len() && pre[k].voter == last.voter;
            assert(bs[k].voter == bs[bs.len() - 1].voter);
        }
        assert(!tally_voters(pre).contains_key(last.voter));
        let cm = tally_counts(pre);
        let n: nat = if cm.contains_key(last.choice) { cm[last.choice] + 1 } else { 1 };
        assert(tally_counts(bs) == cm.insert(last.choice, n));
        assert forall|x: Seq<char>| #[trigger] tally_counts(bs).contains_key(x) <==> count_choice(bs, x) > 0 by {
            assert(count_choice(bs, x) == count_choice(pre, x) + if last.choice == x { 1nat } else { 0nat });
            assert(cm.contains_key(x) <==> count_choice(pre, x) > 0);
        }
        assert forall|x: Seq<char>| #[trigger] tally_counts(bs).contains_key(x) implies tally_counts(bs)[x] == count_choice(bs, x) by {
            assert(count_choice(bs, x) == count_choice(pre, x) + if last.choice == x { 1nat } else { 0nat });
            assert(cm.contains_key(x) <==> count_choice(pre, x) > 0);
            if cm.contains_key(x) {
                assert(cm[x] == count_choice(pre, x));
            }
        }
    }
}

} // verus!
