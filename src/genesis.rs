//! The genesis builder: the seed block of a fresh race.
use vstd::prelude::*;
use crate::block::{Block, BlockView, timestamp_in_range, MAX_TIMESTAMP};
use crate::error::{Fault, LedgerError};
use crate::replay::{branch_writable, check_writable_branch};

verus! {

/// The outcome of creating the genesis block of `branch` at publication
/// time `t`, given whether a block 0 already exists.
pub open spec fn genesis(branch: Seq<char>, exists: bool, t: int) -> Result<BlockView, Fault> {
    if !branch_writable(branch) {
        Err(Fault::WrongBranch)
    } else if exists {
        Err(Fault::GenesisExists)
    } else if !timestamp_in_range(t) {
        Err(Fault::InvalidTimestamp { index: 0 })
    } else {
        Ok(BlockView { index: 0, timestamp: t, choice: Seq::empty(), voter: Seq::empty(), prev_hash: None })
    }
}

pub open spec fn block_result(r: Result<Block, LedgerError>) -> Result<BlockView, Fault> {
    match r {
        Ok(b) => Ok(b@),
        Err(e) => Err(e@),
    }
}

/// Builds block 0 of a fresh race on `branch`: index 0, publication time
/// `timestamp`, empty voter and choice, no previous hash. Refuses the
/// reserved trunk and a race whose block 0 already exists.
pub fn create_genesis_block(branch: &str, genesis_exists: bool, timestamp: i64) -> (r: Result<Block, LedgerError>)
    ensures
        block_result(r) == genesis(branch@, genesis_exists, timestamp as int),
{
    check_writable_branch(branch)?;
    if genesis_exists {
        return Err(LedgerError::GenesisExists);
    }
    if !(0 <= timestamp && timestamp <= MAX_TIMESTAMP) {
        return Err(LedgerError::InvalidTimestamp { index: 0 });
    }
    let b = Block {
        index: 0,
        timestamp,
        choice: String::new(),
        voter: String::new(),
        prev_hash: None,
    };
    assert(b@ == BlockView { index: 0, timestamp: timestamp as int, choice: Seq::empty(), voter: Seq::empty(), prev_hash: None });
    Ok(b)
}

} // verus!
