//! The tally engine: reduces a block sequence to counts per choice and the choice of each voter.
use vstd::prelude::*;
use crate::block::{Block, BlockView, blocks_view};
use crate::text::text_eq;

verus! {

/// How many counted votes a choice received.
#[derive(Clone, Debug)]
pub struct ChoiceCount {
    pub choice: String,
    pub count: u64,
}

/// The choice counted for a voter.
#[derive(Clone, Debug)]
pub struct VoterChoice {
    pub voter: String,
    pub choice: String,
}

/// The result of a tally: one entry per choice that received a vote, and
/// one per voter counted, each in order of first appearance.
#[derive(Clone, Debug)]
pub struct Tally {
    pub counts: Vec<ChoiceCount>,
    pub voters: Vec<VoterChoice>,
}

/// The choice counted for each voter: the first block of each voter counts.
pub open spec fn tally_voters(bs: Seq<BlockView>) -> Map<Seq<char>, Seq<char>>
    decreases bs.len(),
{
    if bs.len() == 0 {
        Map::empty()
    } else {
        let before = tally_voters(bs.drop_last());
        let b = bs.last();
        if before.contains_key(b.voter) {
            before
        } else {
            before.insert(b.voter, b.choice)
        }
    }
}

/// The number of counted votes per choice; choices without votes are absent.
pub open spec fn tally_counts(bs: Seq<BlockView>) -> Map<Seq<char>, nat>
    decreases bs.len(),
{
    if bs.len() == 0 {
        Map::empty()
    } else {
        let before = tally_counts(bs.drop_last());
        let b = bs.last();
        if tally_voters(bs.drop_last()).contains_key(b.voter) {
            before
        } else if before.contains_key(b.choice) {
            before.insert(b.choice, before[b.choice] + 1)
        } else {
            before.insert(b.choice, 1)
        }
    }
}

/// `v` lists exactly the map `m`, each choice once.
pub open spec fn counts_match(v: Seq<ChoiceCount>, m: Map<Seq<char>, nat>) -> bool {
    &&& forall|i: int, j: int| 0 <= i < j < v.len() ==> v[i].choice@ != v[j].choice@
    &&& forall|i: int| 0 <= i < v.len() ==> m.contains_key(#[trigger] v[i].choice@) && m[v[i].choice@] == v[i].count
    &&& forall|c: Seq<char>| #[trigger] m.contains_key(c) ==> exists|i: int| 0 <= i < v.len() && v[i].choice@ == c
}

/// `v` lists exactly the map `m`, each voter once.
pub open spec fn voters_match(v: Seq<VoterChoice>, m: Map<Seq<char>, Seq<char>>) -> bool {
    &&& forall|i: int, j: int| 0 <= i < j < v.len() ==> v[i].voter@ != v[j].voter@
    &&& forall|i: int| 0 <= i < v.len() ==> m.contains_key(#[trigger] v[i].voter@) && m[v[i].voter@] == v[i].choice@
    &&& forall|c: Seq<char>| #[trigger] m.contains_key(c) ==> exists|i: int| 0 <= i < v.len() && v[i].voter@ == c
}

fn find_voter(v: &Vec<VoterChoice>, voter: &String) -> (r: Option<usize>)
    ensures
        r matches Some(k) ==> k < v.len() && v@[k as int].voter@ == voter@,
        r is None ==> forall|k: int| 0 <= k < v.len() ==> v@[k].voter@ != voter@,
{
    for k in 0..v.len()
        invariant
            forall|j: int| 0 <= j < k ==> v@[j].voter@ != voter@,
    {
        if v[k].voter == *voter {
            return Some(k);
        }
    }
    None
}

fn find_choice(v: &Vec<ChoiceCount>, choice: &String) -> (r: Option<usize>)
    ensures
        r matches Some(k) ==> k < v.len() && v@[k as int].choice@ == choice@,
        r is None ==> forall|k: int| 0 <= k < v.len() ==> v@[k].choice@ != choice@,
{
    for k in 0..v.len()
        invariant
            forall|j: int| 0 <= j < k ==> v@[j].choice@ != choice@,
    {
        if v[k].choice == *choice {
            return Some(k);
        }
    }
    None
}

/// Walks the blocks in order and counts, for each voter not yet counted,
/// one vote for the block's choice.
pub fn tally_votes(blocks: &Vec<Block>) -> (r: Tally)
    ensures
        counts_match(r.counts@, tally_counts(blocks_view(blocks@))),
        voters_match(r.voters@, tally_voters(blocks_view(blocks@))),
{
    let ghost bv = blocks_view(blocks@);
    let mut counts: Vec<ChoiceCount> = Vec::new();
    let mut voters: Vec<VoterChoice> = Vec::new();
    assert(bv.take(0) =~= Seq::<BlockView>::empty());
    for i in 0..blocks.len()
        invariant
            bv == blocks_view(blocks@),
            counts_match(counts@, tally_counts(bv.take(i as int))),
            voters_match(voters@, tally_voters(bv.take(i as int))),
            forall|k: int| 0 <= k < counts.len() ==> #[trigger] counts@[k].count <= i,
    {
        let b = &blocks[i];
        let ghost pre = bv.take(i as int);
        let ghost vm = tally_voters(pre);
        let ghost cm = tally_counts(pre);
        proof {
            assert(bv.take(i + 1).drop_last() =~= pre);
            assert(bv.take(i + 1).last() == b@);
        }
        match find_voter(&voters, &b.voter) {
            Some(k) => {
                assert(vm.contains_key(voters@[k as int].voter@));
            },
            None => {
                assert(!vm.contains_key(b@.voter));
                let ghost old_counts = counts@;
                match find_choice(&counts, &b.choice) {
                    Some(k) => {
                        let n = counts[k].count;
                        let entry = ChoiceCount { choice: counts[k].choice.clone(), count: n + 1 };
                        counts.set(k, entry);
                        let ghost m2 = cm.insert(b@.choice, cm[b@.choice] + 1);
                        assert(counts@ =~= old_counts.update(k as int, entry));
                        assert forall|c: Seq<char>| #[trigger] m2.contains_key(c) implies exists|j: int| 0 <= j < counts@.len() && counts@[j].choice@ == c by {
                            if c != b@.choice {
                                assert(cm.contains_key(c));
                                let j = choose|j: int| 0 <= j < old_counts.len() && old_counts[j].choice@ == c;
                                assert(counts@[j].choice@ == c);
                            } else {
                                assert(counts@[k as int].choice@ == c);
                            }
                        }
                    },
                    None => {
                        let entry = ChoiceCount { choice: b.choice.clone(), count: 1 };
                        counts.push(entry);
                        let ghost m2 = cm.insert(b@.choice, 1);
                        assert(counts@ =~= old_counts.push(entry));
                        assert forall|c: Seq<char>| #[trigger] m2.contains_key(c) implies exists|j: int| 0 <= j < counts@.len() && counts@[j].choice@ == c by {
                            if c != b@.choice {
                                assert(cm.contains_key(c));
                                let j = choose|j: int| 0 <= j < old_counts.len() && old_counts[j].choice@ == c;
                                assert(counts@[j].choice@ == c);
                            } else {
                                assert(counts@[old_counts.len() as int].choice@ == c);
                            }
                        }
                    },
                }
                let ghost old_voters = voters@;
                let entry = VoterChoice { voter: b.voter.clone(), choice: b.choice.clone() };
                voters.push(entry);
                let ghost m3 = vm.insert(b@.voter, b@.choice);
                assert(voters@ =~= old_voters.push(entry));
                assert forall|c: Seq<char>| #[trigger] m3.contains_key(c) implies exists|j: int| 0 <= j < voters@.len() && voters@[j].voter@ == c by {
                    if c != b@.voter {
                        assert(vm.contains_key(c));
                        let j = choose|j: int| 0 <= j < old_voters.len() && old_voters[j].voter@ == c;
                        assert(voters@[j].voter@ == c);
                    } else {
                        assert(voters@[old_voters.len() as int].voter@ == c);
                    }
                }
            },
        }
    }
    assert(bv.take(blocks.len() as int) =~= bv);
    Tally { counts, voters }
}

impl Tally {
    /// The number of votes counted for `choice`; 0 when it received none.
    pub fn count_of(&self, choice: &str) -> (r: u64)
        ensures
            (exists|k: int| 0 <= k < self.counts.len() && self.counts@[k].choice@ == choice@ && r == self.counts@[k].count)
                || (r == 0 && forall|k: int| 0 <= k < self.counts.len() ==> self.counts@[k].choice@ != choice@),
    {
        for k in 0..self.counts.len()
            invariant
                forall|j: int| 0 <= j < k ==> self.counts@[j].choice@ != choice@,
        {
            if text_eq(self.counts[k].choice.as_str(), choice) {
                return self.counts[k].count;
            }
        }
        0
    }

    /// The choice counted for `voter`, if the voter was counted.
    pub fn choice_of(&self, voter: &str) -> (r: Option<String>)
        ensures
            r matches Some(c) ==> exists|k: int| 0 <= k < self.voters.len() && self.voters@[k].voter@ == voter@ && c@ == self.voters@[k].choice@,
            r is None ==> forall|k: int| 0 <= k < self.voters.len() ==> self.voters@[k].voter@ != voter@,
    {
        for k in 0..self.voters.len()
            invariant
                forall|j: int| 0 <= j < k ==> self.voters@[j].voter@ != voter@,
        {
            if text_eq(self.voters[k].voter.as_str(), voter) {
                return Some(self.voters[k].choice.clone());
            }
        }
        None
    }
}

} // verus!
