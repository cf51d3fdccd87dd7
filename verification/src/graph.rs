//! An in-memory commit store: the library's own model of a repository's
//! object store, holding each commit's message and parent identifiers and an
//! optional head reference. The traversal engine is verified against this
//! model; the on-disk store is reached through the repository module.

use vstd::prelude::*;
use crate::errors::HistoryError;
use crate::ids::CommitId;

verus! {

/// The mathematical value of one stored commit.
pub struct EntryView {
    pub id: Seq<char>,
    pub message: Option<Seq<char>>,
    pub parents: Seq<Seq<char>>,
}

/// One commit as the store holds it: identifier, message (absent when the
/// store has none), and parent identifiers in stored order.
pub struct CommitEntry {
    pub id: CommitId,
    pub message: Option<String>,
    pub parents: Vec<CommitId>,
}

impl View for CommitEntry {
    type V = EntryView;

    open spec fn view(&self) -> EntryView {
        EntryView {
            id: self.id@,
            message: match self.message {
                Option::Some(m) => Option::Some(m@),
                Option::None => Option::None,
            },
            parents: self.parents@.map_values(|p: CommitId| p@),
        }
    }
}

/// Looks an identifier up in a store, returning the first entry that bears
/// it, as the executable lookup does.
pub open spec fn lookup(g: Seq<EntryView>, id: Seq<char>) -> Option<EntryView>
    decreases g.len(),
{
    if g.len() == 0 {
        Option::None
    } else if g[0].id == id {
        Option::Some(g[0])
    } else {
        lookup(g.drop_first(), id)
    }
}

/// Whether the store holds a commit under this identifier.
pub open spec fn has_id(g: Seq<EntryView>, id: Seq<char>) -> bool {
    lookup(g, id) is Some
}

/// What `lookup` finds: a present entry bears the looked-up identifier and
/// stands in the store; an absent one matches no entry.
pub proof fn lemma_lookup(g: Seq<EntryView>, id: Seq<char>)
    ensures
        match lookup(g, id) {
            Option::Some(e) => e.id == id && exists|i: int| 0 <= i < g.len() && g[i] == e,
            Option::None => forall|i: int| 0 <= i < g.len() ==> g[i].id != id,
        },
    decreases g.len(),
{
    if g.len() > 0 && g[0].id != id {
        lemma_lookup(g.drop_first(), id);
        match lookup(g.drop_first(), id) {
            Option::Some(e) => {
                let i = choose|i: int| 0 <= i < g.drop_first().len() && g.drop_first()[i] == e;
                assert(g[i + 1] == e);
            },
            Option::None => {
                assert forall|i: int| 0 <= i < g.len() implies g[i].id != id by {
                    if i > 0 {
                        assert(g.drop_first()[i - 1] == g[i]);
                    }
                }
            },
        }
    }
}

/// `lookup` finds the first matching entry.
pub proof fn lemma_lookup_first_match(g: Seq<EntryView>, id: Seq<char>, k: int)
    requires
        0 <= k < g.len(),
        g[k].id == id,
        forall|j: int| 0 <= j < k ==> g[j].id != id,
    ensures
        lookup(g, id) == Option::Some(g[k]),
    decreases k,
{
    if k > 0 {
        lemma_lookup_first_match(g.drop_first(), id, k - 1);
        assert(g.drop_first()[k - 1] == g[k]);
    }
}

/// The in-memory store: a sequence of commits and an optional head.
pub struct CommitGraph {
    pub entries: Vec<CommitEntry>,
    pub head: Option<CommitId>,
}

impl View for CommitGraph {
    type V = Seq<EntryView>;

    open spec fn view(&self) -> Seq<EntryView> {
        self.entries@.map_values(|e: CommitEntry| e@)
    }
}

impl CommitGraph {
    /// The head reference's value, if the store has one.
    pub open spec fn spec_head(&self) -> Option<Seq<char>> {
        match self.head {
            Option::Some(h) => Option::Some(h@),
            Option::None => Option::None,
        }
    }

    /// A store with no commits and no head.
    pub fn new() -> (g: CommitGraph)
        ensures
            g@ == Seq::<EntryView>::empty(),
            g.spec_head() is None,
    {
        CommitGraph { entries: Vec::new(), head: Option::None }
    }

    /// Adds one commit to the store.
    pub fn add_commit(&mut self, id: CommitId, message: Option<String>, parents: Vec<CommitId>)
        ensures
            final(self)@ == old(self)@.push(
                EntryView {
                    id: id@,
                    message: match message {
                        Option::Some(m) => Option::Some(m@),
                        Option::None => Option::None,
                    },
                    parents: parents@.map_values(|p: CommitId| p@),
                },
            ),
            final(self).spec_head() == old(self).spec_head(),
    {
        let ghost old_entries = self.entries@;
        let entry = CommitEntry { id, message, parents };
        let ghost ev = entry@;
        self.entries.push(entry);
        proof {
            assert(final(self)@ =~= old_entries.map_values(|e: CommitEntry| e@).push(ev));
        }
    }

    /// Points the head reference at the given commit identifier.
    pub fn set_head(&mut self, id: CommitId)
        ensures
            final(self)@ == old(self)@,
            final(self).spec_head() == Option::Some(id@),
    {
        self.head = Option::Some(id);
    }

    /// Resolves the head reference to a starting identifier, failing exactly
    /// when the store has none — the empty-repository outcome.
    pub fn resolve_head(&self) -> (r: Result<CommitId, HistoryError>)
        ensures
            match r {
                Result::Ok(id) => self.spec_head() == Option::Some(id@),
                Result::Err(e) => e == HistoryError::FailedToResolveHead && self.spec_head() is None,
            },
    {
        match &self.head {
            Option::Some(id) => Result::Ok(id.duplicate()),
            Option::None => Result::Err(HistoryError::FailedToResolveHead),
        }
    }

    /// Finds the commit stored under an identifier: the index of the first
    /// entry bearing it, or `None` when the store holds no such commit.
    pub fn find_entry(&self, id: &CommitId) -> (r: Option<usize>)
        ensures
            match r {
                Option::Some(i) => i < self.entries@.len() && lookup(self@, id@) == Option::Some(
                    self@[i as int],
                ),
                Option::None => lookup(self@, id@) is None,
            },
    {
        let n = self.entries.len();
        let mut j: usize = 0;
        while j < n
            invariant
                n == self.entries@.len(),
                j <= n,
                forall|t: int| 0 <= t < j ==> self@[t].id != id@,
            decreases n - j,
        {
            if self.entries[j].id.eq_id(id) {
                proof {
                    lemma_lookup_first_match(self@, id@, j as int);
                }
                return Option::Some(j);
            }
            j += 1;
        }
        proof {
            lemma_lookup(self@, id@);
            if lookup(self@, id@) is Some {
                let e = lookup(self@, id@)->Some_0;
                let i = choose|i: int| 0 <= i < self@.len() && self@[i] == e;
                assert(self@[i].id == id@);
            }
        }
        Option::None
    }
}

} // verus!
