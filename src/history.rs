//! The commit history as the replay engine reads it.
use vstd::prelude::*;
use crate::schema::Schema;
use crate::block::opt_view;

verus! {

/// A file that a commit added, with the choice read from it when it is a vote file.
#[derive(Clone, Debug)]
pub struct AddedFile {
    pub path: String,
    /// The `choice` of the vote record in the file; `None` when the file
    /// could not be read as a vote record (or was not read).
    pub choice: Option<String>,
}

/// One commit of the election branch, as the history reader reports it.
#[derive(Clone, Debug)]
pub struct Commit {
    /// The verified signer identity; `None` when the commit is unsigned or
    /// its signature cannot be resolved to an identity.
    pub signer: Option<String>,
    /// The commit's own publication time, in seconds since the Unix epoch.
    pub timestamp: i64,
    /// The files that the commit added, in the reader's order.
    pub added: Vec<AddedFile>,
    /// The schema as of this commit.
    pub schema: SchemaLookup,
}

pub struct AddedFileView {
    pub path: Seq<char>,
    pub choice: Option<Seq<char>>,
}

pub struct CommitView {
    pub signer: Option<Seq<char>>,
    pub timestamp: int,
    pub added: Seq<AddedFileView>,
    pub schema: SchemaLookupView,
}

impl View for AddedFile {
    type V = AddedFileView;

    open spec fn view(&self) -> AddedFileView {
        AddedFileView { path: self.path@, choice: opt_view(self.choice) }
    }
}

/// What the schema file of a commit held.
#[derive(Clone, Debug)]
pub enum SchemaLookup {
    /// The schema file, read.
    Found(Schema),
    /// No schema file at this commit.
    Missing,
    /// A schema file that cannot be read as a schema.
    Invalid,
}

pub enum SchemaLookupView {
    Found(Seq<Seq<char>>),
    Missing,
    Invalid,
}

impl View for SchemaLookup {
    type V = SchemaLookupView;

    open spec fn view(&self) -> SchemaLookupView {
        match self {
            SchemaLookup::Found(s) => SchemaLookupView::Found(s@),
            SchemaLookup::Missing => SchemaLookupView::Missing,
            SchemaLookup::Invalid => SchemaLookupView::Invalid,
        }
    }
}

impl View for Commit {
    type V = CommitView;

    open spec fn view(&self) -> CommitView {
        CommitView {
            signer: opt_view(self.signer),
            timestamp: self.timestamp as int,
            added: self.added@.map_values(|f: AddedFile| f@),
            schema: self.schema@,
        }
    }
}

/// The values of a sequence of commits.
pub open spec fn history_view(h: Seq<Commit>) -> Seq<CommitView> {
    h.map_values(|c: Commit| c@)
}

} // verus!
