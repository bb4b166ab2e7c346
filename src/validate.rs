//! The validator: checks the integrity of a persisted block sequence.
use vstd::prelude::*;
use crate::block::{Block, BlockView, block_hash_of, blocks_view, copy_opt, opt_text_eq, opt_view, timestamp_in_range, MAX_TIMESTAMP};
use crate::error::{BreakView, ChainBreak, Fault, LedgerError};

verus! {

/// The `prev_hash` that the block after `prefix` must carry.
pub open spec fn expected_prev(prefix: Seq<BlockView>) -> Option<Seq<char>> {
    if prefix.len() == 0 {
        None
    } else {
        Some(block_hash_of(prefix.last()))
    }
}

/// Whether some block of `bs` was cast by `voter`.
pub open spec fn has_block_voter(bs: Seq<BlockView>, voter: Seq<char>) -> bool {
    exists|k: int| 0 <= k < bs.len() && bs[k].voter == voter
}

/// The first thing wrong with block `b` read after the valid blocks `prefix`,
/// checked in this order: its index, its time, its hash link, its voter.
pub open spec fn block_fault(prefix: Seq<BlockView>, b: BlockView) -> Option<Fault> {
    let n = prefix.len();
    if b.index != n {
        Some(Fault::ChainBroken { index: n, cause: BreakView::IndexGap { found: b.index } })
    } else if !timestamp_in_range(b.timestamp) {
        Some(Fault::InvalidTimestamp { index: n })
    } else if b.prev_hash != expected_prev(prefix) {
        Some(Fault::ChainBroken {
            index: n,
            cause: BreakView::HashMismatch { expected: expected_prev(prefix), observed: b.prev_hash },
        })
    } else if has_block_voter(prefix, b.voter) {
        Some(Fault::DuplicateVoter { index: n, voter: b.voter })
    } else {
        None
    }
}

/// The verdict on a block sequence: the number of blocks when all are
/// valid, else the first fault in file order.
pub open spec fn check_chain(bs: Seq<BlockView>) -> Result<nat, Fault>
    decreases bs.len(),
{
    if bs.len() == 0 {
        Ok(0)
    } else {
        match check_chain(bs.drop_last()) {
            Ok(n) => match block_fault(bs.drop_last(), bs.last()) {
                Some(f) => Err(f),
                None => Ok(bs.len()),
            },
            Err(e) => Err(e),
        }
    }
}

pub open spec fn count_result(r: Result<usize, LedgerError>) -> Result<nat, Fault> {
    match r {
        Ok(n) => Ok(n as nat),
        Err(e) => Err(e@),
    }
}

pub proof fn lemma_check_chain_err_stays(bs: Seq<BlockView>, n: int)
    requires
        0 <= n <= bs.len(),
        check_chain(bs.take(n)) is Err,
    ensures
        check_chain(bs) == check_chain(bs.take(n)),
    decreases bs.len() - n,
{
    if n == bs.len() {
        assert(bs.take(n) =~= bs);
    } else {
        assert(bs.drop_last().take(n) =~= bs.take(n));
        lemma_check_chain_err_stays(bs.drop_last(), n);
    }
}

/// Verifies a block sequence read in file order: each block's index is its
/// position, each hash link matches the block before, and no voter repeats.
/// Returns the number of blocks verified.
pub fn validate_votes(blocks: &Vec<Block>) -> (r: Result<usize, LedgerError>)
    ensures
        count_result(r) == check_chain(blocks_view(blocks@)),
{
    let ghost bv = blocks_view(blocks@);
    let mut prev: Option<String> = None;
    assert(bv.take(0) =~= Seq::<BlockView>::empty());
    for i in 0..blocks.len()
        invariant
            bv == blocks_view(blocks@),
            check_chain(bv.take(i as int)) == Ok::<nat, Fault>(i as nat),
            opt_view(prev) == expected_prev(bv.take(i as int)),
    {
        let b = &blocks[i];
        proof {
            assert(bv.take(i + 1).drop_last() =~= bv.take(i as int));
            assert(bv.take(i + 1).last() == b@);
        }
        if b.index != i {
            proof { lemma_check_chain_err_stays(bv, i + 1); }
            return Err(LedgerError::ChainBroken { index: i, cause: ChainBreak::IndexGap { found: b.index } });
        }
        if !(0 <= b.timestamp && b.timestamp <= MAX_TIMESTAMP) {
            proof { lemma_check_chain_err_stays(bv, i + 1); }
            return Err(LedgerError::InvalidTimestamp { index: i });
        }
        if !opt_text_eq(&b.prev_hash, &prev) {
            proof { lemma_check_chain_err_stays(bv, i + 1); }
            return Err(LedgerError::ChainBroken {
                index: i,
                cause: ChainBreak::HashMismatch { expected: copy_opt(&prev), observed: copy_opt(&b.prev_hash) },
            });
        }
        for j in 0..i
            invariant
                bv == blocks_view(blocks@),
                i < blocks.len(),
                b == blocks@[i as int],
                check_chain(bv.take(i as int)) == Ok::<nat, Fault>(i as nat),
                bv.take(i + 1).drop_last() == bv.take(i as int),
                bv.take(i + 1).last() == b@,
                b@.index == i,
                timestamp_in_range(b@.timestamp),
                b@.prev_hash == expected_prev(bv.take(i as int)),
                forall|k: int| 0 <= k < j ==> bv[k].voter != b@.voter,
        {
            if blocks[j].voter == b.voter {
                proof {
                    assert(bv.take(i as int)[j as int].voter == b@.voter);
                    lemma_check_chain_err_stays(bv, i + 1);
                }
                return Err(LedgerError::DuplicateVoter { index: i, voter: b.voter.clone() });
            }
        }
        assert(!has_block_voter(bv.take(i as int), b@.voter));
        prev = Some(b.block_hash());
        assert(bv.take(i + 1).last() == bv[i as int]);
    }
    assert(bv.take(blocks.len() as int) =~= bv);
    Ok(blocks.len())
}

} // verus!
