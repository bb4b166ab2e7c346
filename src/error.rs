//! Errors of the ledger and their mathematical values.
use vstd::prelude::*;
use crate::block::opt_view;

verus! {

/// Why a ledger operation failed.
#[derive(Clone, Debug, PartialEq, Eq)]
pub enum LedgerError {
    /// The working state is not on the requested branch, or the branch is reserved.
    WrongBranch,
    /// A genesis block already exists.
    GenesisExists,
    /// No schema file at a commit that carries an admissible vote.
    SchemaMissing,
    /// The schema file exists but cannot be read as a schema.
    SchemaInvalid,
    /// A vote names a choice that the schema does not allow.
    InvalidChoice { choice: String },
    /// The vote file chosen for block `index` cannot be read as a vote record.
    MalformedVote { index: usize },
    /// The time for block `index` cannot stand in the chain: outside the
    /// range that RFC 3339 writes, or earlier than the block before it.
    InvalidTimestamp { index: usize },
    /// Block `index` breaks the chain, for the reason `cause`.
    ChainBroken { index: usize, cause: ChainBreak },
    /// `voter` already has a block before `index`.
    DuplicateVoter { index: usize, voter: String },
    /// The signature stored with a vote does not match its voter and choice.
    SignatureMismatch { voter: String },
    /// The working directory is not inside a repository.
    NotARepository,
    /// No signing key is configured.
    NoSigningKey,
    /// Commit signing is not switched on.
    SigningDisabled,
    /// A trial signed commit failed.
    SigningFailed,
    /// The user's name or email is not configured.
    IdentityMissing,
}

/// How a block breaks the chain.
#[derive(Clone, Debug, PartialEq, Eq)]
pub enum ChainBreak {
    /// The block carries index `found`, not its position.
    IndexGap { found: usize },
    /// Its stored link is `observed` where the hash of the block before is `expected`
    /// (`None` for the first block, which links to nothing).
    HashMismatch { expected: Option<String>, observed: Option<String> },
}

/// The mathematical value of a [`ChainBreak`].
pub enum BreakView {
    IndexGap { found: nat },
    HashMismatch { expected: Option<Seq<char>>, observed: Option<Seq<char>> },
}

impl View for ChainBreak {
    type V = BreakView;

    open spec fn view(&self) -> BreakView {
        match self {
            ChainBreak::IndexGap { found } => BreakView::IndexGap { found: *found as nat },
            ChainBreak::HashMismatch { expected, observed } => BreakView::HashMismatch {
                expected: opt_view(*expected),
                observed: opt_view(*observed),
            },
        }
    }
}

/// The mathematical value of a [`LedgerError`].
pub enum Fault {
    WrongBranch,
    GenesisExists,
    SchemaMissing,
    SchemaInvalid,
    InvalidChoice { choice: Seq<char> },
    MalformedVote { index: nat },
    InvalidTimestamp { index: nat },
    ChainBroken { index: nat, cause: BreakView },
    DuplicateVoter { index: nat, voter: Seq<char> },
    SignatureMismatch { voter: Seq<char> },
    NotARepository,
    NoSigningKey,
    SigningDisabled,
    SigningFailed,
    IdentityMissing,
}

impl View for LedgerError {
    type V = Fault;

    open spec fn view(&self) -> Fault {
        match self {
            LedgerError::WrongBranch => Fault::WrongBranch,
            LedgerError::GenesisExists => Fault::GenesisExists,
            LedgerError::SchemaMissing => Fault::SchemaMissing,
            LedgerError::SchemaInvalid => Fault::SchemaInvalid,
            LedgerError::InvalidChoice { choice } => Fault::InvalidChoice { choice: choice@ },
            LedgerError::MalformedVote { index } => Fault::MalformedVote { index: *index as nat },
            LedgerError::InvalidTimestamp { index } => Fault::InvalidTimestamp {
                index: *index as nat,
            },
            LedgerError::ChainBroken { index, cause } => Fault::ChainBroken {
                index: *index as nat,
                cause: cause@,
            },
            LedgerError::DuplicateVoter { index, voter } => Fault::DuplicateVoter {
                index: *index as nat,
                voter: voter@,
            },
            LedgerError::SignatureMismatch { voter } => Fault::SignatureMismatch { voter: voter@ },
            LedgerError::NotARepository => Fault::NotARepository,
            LedgerError::NoSigningKey => Fault::NoSigningKey,
            LedgerError::SigningDisabled => Fault::SigningDisabled,
            LedgerError::SigningFailed => Fault::SigningFailed,
            LedgerError::IdentityMissing => Fault::IdentityMissing,
        }
    }
}

} // verus!
