//! Commit identifiers: opaque, immutable names for commits, compared by
//! value and used as the traversal's dedupe key.

use vstd::prelude::*;

verus! {

/// A commit identifier in its canonical textual (hexadecimal) form.
///
/// The identifier is opaque to the traversal: all that matters is equality
/// by value, which is equality of the text.
pub struct CommitId {
    pub hex: String,
}

impl View for CommitId {
    type V = Seq<char>;

    open spec fn view(&self) -> Seq<char> {
        self.hex@
    }
}

impl CommitId {
    pub fn new(hex: String) -> (r: CommitId)
        ensures
            r@ == hex@,
    {
        CommitId { hex }
    }

    /// Value equality: two identifiers name the same commit exactly when
    /// their canonical texts are equal.
    pub fn eq_id(&self, other: &CommitId) -> (r: bool)
        ensures
            r == (self@ == other@),
    {
        self.hex == other.hex
    }

    /// An owned copy with the same value.
    pub fn duplicate(&self) -> (r: CommitId)
        ensures
            r@ == self@,
    {
        CommitId { hex: self.hex.clone() }
    }
}

} // verus!
