//! Commit records: one immutable value per visited commit, carrying its
//! identifier, its message (normalized to a fixed placeholder when the store
//! has none), and its parent identifiers in stored order.

use vstd::prelude::*;
use vstd::string::StringExecFns;
use crate::ids::CommitId;

verus! {

/// The mathematical value of a [`CommitRecord`].
pub struct RecordView {
    pub id: Seq<char>,
    pub message: Seq<char>,
    pub parents: Seq<Seq<char>>,
}

/// The text shown for a commit whose message is absent or unreadable.
pub open spec fn spec_placeholder() -> Seq<char> {
    "NO MESSAGE"@
}

/// What a record's message is, given what the store held: the stored text
/// verbatim, or the placeholder when there was none.
pub open spec fn normalized_message(stored: Option<Seq<char>>) -> Seq<char> {
    match stored {
        Option::Some(m) => m,
        Option::None => spec_placeholder(),
    }
}

/// One enumerated commit: identifier, message, and parent identifiers.
pub struct CommitRecord {
    pub id: CommitId,
    pub message: String,
    pub parent_ids: Vec<CommitId>,
}

impl View for CommitRecord {
    type V = RecordView;

    open spec fn view(&self) -> RecordView {
        RecordView {
            id: self.id@,
            message: self.message@,
            parents: self.parent_ids@.map_values(|p: CommitId| p@),
        }
    }
}

impl CommitRecord {
    /// Builds the record for one commit, normalizing an absent message to
    /// the fixed placeholder.
    pub fn new(id: CommitId, message: Option<String>, parent_ids: Vec<CommitId>) -> (r:
        CommitRecord)
        ensures
            r@.id == id@,
            r@.message == normalized_message(
                match message {
                    Option::Some(m) => Option::Some(m@),
                    Option::None => Option::None,
                },
            ),
            r@.parents == parent_ids@.map_values(|p: CommitId| p@),
    {
        let message = match message {
            Option::Some(m) => m,
            Option::None => {
                proof {
                    reveal_strlit("NO MESSAGE");
                }
                "NO MESSAGE".to_owned()
            },
        };
        CommitRecord { id, message, parent_ids }
    }

    /// The identifier's canonical textual form.
    pub fn hash(&self) -> (r: String)
        ensures
            r@ == self@.id,
    {
        self.id.hex.clone()
    }

    /// The message as it will be shown.
    pub fn output(&self) -> (r: String)
        ensures
            r@ == self@.message,
    {
        self.message.clone()
    }

    /// The one output line for this record: `<id>: <message>`, the message
    /// verbatim, terminated by a newline so that consecutive records never
    /// run together on one line.
    pub fn format_line(&self) -> (r: String)
        ensures
            r@ == self@.id + ": "@ + self@.message + "\n"@,
    {
        let mut line = self.id.hex.clone();
        line.append(": ");
        line.append(self.message.as_str());
        line.append("\n");
        line
    }
}

} // verus!
