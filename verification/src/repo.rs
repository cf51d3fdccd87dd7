//! The on-disk repository accessor, and the traversal driven against it.
//!
//! The accessor is the external collaborator: it opens a repository at a
//! filesystem path, resolves the head reference to a starting identifier,
//! and loads one commit's message and parent identifiers at a time. Each of
//! those capabilities stands behind a trusted declaration; everything the
//! traversal decides from what they return is verified, for every outcome
//! the store can produce.

use vstd::prelude::*;
use crate::cli::Config;
use crate::engine::{contains_id, id_set, lemma_id_set_push};
use crate::errors::HistoryError;
use crate::ids::CommitId;
use crate::record::CommitRecord;

verus! {

/// Relies on git2::Repository::open: opens an already-existing repository
/// at the path, and reports an error when the path does not hold a valid,
/// readable one.
#[verifier::external_body]
fn open_repository_raw(path: &str) -> (r: Result<git2::Repository, git2::Error>) {
    git2::Repository::open(path)
}

/// Relies on git2::Repository::refname_to_id: resolves a reference name
/// straight through to the identifier it points at, reported here in the
/// identifier's canonical hexadecimal form; an unborn reference (an empty
/// repository) is an error.
#[verifier::external_body]
fn resolve_reference_raw(repo: &git2::Repository, name: &str) -> (r: Result<
    CommitId,
    git2::Error,
>) {
    match repo.refname_to_id(name) {
        Ok(oid) => Ok(CommitId { hex: oid.to_string() }),
        Err(e) => Err(e),
    }
}

/// Relies on git2::Oid::from_str, git2::Repository::find_commit,
/// git2::Commit::message and git2::Commit::parent_ids: loads one commit,
/// giving its message (absent when the store holds none that reads as
/// text) and its parent identifiers in stored order, each in canonical
/// hexadecimal form.
#[verifier::external_body]
fn load_commit_raw(repo: &git2::Repository, id: &CommitId) -> (r: Result<
    (Option<String>, Vec<CommitId>),
    git2::Error,
>) {
    let oid = git2::Oid::from_str(&id.hex)?;
    let commit = repo.find_commit(oid)?;
    let message = commit.message().ok().map(|m| m.to_string());
    let parents = commit.parent_ids().map(|p| CommitId { hex: p.to_string() }).collect();
    Ok((message, parents))
}

/// Opens the repository at the given path; the one reported error is
/// `FailedToOpenRepository`, before any traversal begins.
pub fn open_repository(path: &String) -> (r: Result<git2::Repository, HistoryError>)
    ensures
        r is Err ==> r->Err_0 == HistoryError::FailedToOpenRepository,
{
    match open_repository_raw(path.as_str()) {
        Result::Ok(repo) => Result::Ok(repo),
        Result::Err(_) => Result::Err(HistoryError::FailedToOpenRepository),
    }
}

/// Resolves the head reference to the starting commit identifier; the one
/// reported error is `FailedToResolveHead`, the empty-repository outcome,
/// distinct from a traversal that yields zero records.
pub fn resolve_head(repo: &git2::Repository) -> (r: Result<CommitId, HistoryError>)
    ensures
        r is Err ==> r->Err_0 == HistoryError::FailedToResolveHead,
{
    match resolve_reference_raw(repo, "HEAD") {
        Result::Ok(id) => Result::Ok(id),
        Result::Err(_) => Result::Err(HistoryError::FailedToResolveHead),
    }
}

/// A traversal in progress against an on-disk repository: the pull-based
/// sequence of commit records. The consumer drives it one record at a
/// time; the walk holds only its visited set and work stack, so memory is
/// bounded by the frontier, and abandoning the walk leaks nothing.
pub struct HistoryWalk {
    visited: Vec<CommitId>,
    pending: Vec<CommitId>,
}

impl HistoryWalk {
    /// The identifiers this walk has already yielded.
    pub closed spec fn visited_ids(&self) -> Set<Seq<char>> {
        id_set(self.visited@)
    }

    /// How many identifiers this walk has already yielded.
    pub closed spec fn visited_count(&self) -> nat {
        self.visited@.len()
    }

    /// The work stack, top at the end.
    pub closed spec fn pending_ids(&self) -> Seq<Seq<char>> {
        self.pending@.map_values(|c: CommitId| c@)
    }

    /// A fresh walk, seeded with the starting identifier and with nothing
    /// visited.
    pub fn begin(start: CommitId) -> (w: HistoryWalk)
        ensures
            w.visited_ids() == Set::<Seq<char>>::empty(),
            w.visited_count() == 0,
            w.pending_ids() == seq![start@],
    {
        let mut pending: Vec<CommitId> = Vec::new();
        pending.push(start);
        let w = HistoryWalk { visited: Vec::new(), pending };
        proof {
            assert(w.pending_ids() =~= seq![w.pending@[0]@]);
            assert(w.visited_ids() =~= Set::<Seq<char>>::empty());
        }
        w
    }

    /// Yields the next commit record, or `None` when every stacked
    /// identifier has been visited and the walk is complete.
    ///
    /// Whatever the store answers, each record yielded over the walk's
    /// lifetime bears an identifier never yielded before (dedup-exact), it
    /// was taken from the work stack past only already-visited entries
    /// (depth-first), and its parents are stacked first parent on top. A
    /// commit that cannot be loaded ends the walk with
    /// `FailedToLoadCommit`; a visited set that can no longer grow ends it
    /// with `HistoryTooLarge`. Either error can arise only while an
    /// unvisited identifier remains on the stack: a walk whose stack is
    /// empty or holds only visited identifiers is owed its completion,
    /// `Ok(None)`, with no store access at all.
    pub fn next_record(&mut self, repo: &git2::Repository) -> (r: Result<
        Option<CommitRecord>,
        HistoryError,
    >)
        ensures
            match r {
                Result::Ok(Option::Some(rec)) => {
                    &&& !old(self).visited_ids().contains(rec.id@)
                    &&& old(self).pending_ids().contains(rec.id@)
                    &&& final(self).visited_ids() == old(self).visited_ids().insert(rec.id@)
                    &&& old(self).visited_count() < usize::MAX
                    &&& final(self).visited_count() == old(self).visited_count() + 1
                    &&& exists|k: int|
                        {
                            &&& 0 <= k < old(self).pending_ids().len()
                            &&& old(self).pending_ids()[k] == rec.id@
                            &&& forall|j: int|
                                k < j < old(self).pending_ids().len() ==> old(
                                    self,
                                ).visited_ids().contains(#[trigger] old(self).pending_ids()[j])
                            &&& final(self).pending_ids() == old(self).pending_ids().take(k)
                                + rec@.parents.reverse()
                        }
                },
                Result::Ok(Option::None) => {
                    &&& final(self).visited_ids() == old(self).visited_ids()
                    &&& final(self).visited_count() == old(self).visited_count()
                    &&& final(self).pending_ids().len() == 0
                    &&& forall|j: int|
                        0 <= j < old(self).pending_ids().len() ==> old(self).visited_ids().contains(
                            #[trigger] old(self).pending_ids()[j],
                        )
                },
                Result::Err(e) => {
                    &&& final(self).visited_ids() == old(self).visited_ids()
                    &&& final(self).visited_count() == old(self).visited_count()
                    &&& (e == HistoryError::FailedToLoadCommit || e == HistoryError::HistoryTooLarge)
                    &&& (e == HistoryError::HistoryTooLarge ==> old(self).visited_count() == usize::MAX)
                    &&& exists|k: int|
                        {
                            &&& 0 <= k < old(self).pending_ids().len()
                            &&& !old(self).visited_ids().contains(old(self).pending_ids()[k])
                            &&& forall|j: int|
                                k < j < old(self).pending_ids().len() ==> old(
                                    self,
                                ).visited_ids().contains(#[trigger] old(self).pending_ids()[j])
                            &&& final(self).pending_ids() == old(self).pending_ids().take(k)
                        }
                },
            },
    {
        let ghost p0 = self.pending_ids();
        let ghost vseq0 = self.visited@;
        loop
            invariant
                self.visited@ == vseq0,
                self.visited@ == old(self).visited@,
                self.pending_ids() == p0.take(self.pending@.len() as int),
                self.pending@.len() <= p0.len(),
                p0 == old(self).pending_ids(),
                forall|j: int|
                    self.pending@.len() <= j < p0.len() ==> id_set(vseq0).contains(
                        #[trigger] p0[j],
                    ),
            decreases self.pending@.len(),
        {
            let ghost len_before = self.pending@.len() as int;
            match self.pending.pop() {
                Option::None => {
                    proof {
                        assert(self.pending_ids() =~= p0.take(0));
                    }
                    return Result::Ok(Option::None);
                },
                Option::Some(id) => {
                    let ghost k = self.pending@.len() as int;
                    proof {
                        assert(self.pending_ids() =~= p0.take(k));
                        assert(p0.take(len_before)[k] == id@);
                        assert(p0[k] == id@);
                    }
                    if !contains_id(&self.visited, &id) {
                        proof {
                            assert(!id_set(vseq0).contains(p0[k]));
                            assert(forall|j: int|
                                k < j < p0.len() ==> id_set(vseq0).contains(#[trigger] p0[j]));
                            assert(self.pending_ids() == p0.take(k));
                        }
                        if self.visited.len() == usize::MAX {
                            return Result::Err(HistoryError::HistoryTooLarge);
                        }
                        proof {
                            assert(vseq0.len() < usize::MAX);
                            assert(!id_set(vseq0).contains(id@));
                        }
                        match load_commit_raw(repo, &id) {
                            Result::Err(_) => {
                                return Result::Err(HistoryError::FailedToLoadCommit);
                            },
                            Result::Ok((message, parents)) => {
                                let ghost visited_before = self.visited@;
                                self.visited.push(id.duplicate());
                                proof {
                                    lemma_id_set_push(visited_before, self.visited@.last());
                                    assert(self.visited@ == visited_before.push(
                                        self.visited@.last()));
                                    assert(id_set(self.visited@) == id_set(vseq0).insert(id@));
                                }
                                let ghost pend_before = self.pending_ids();
                                let ghost pv = parents@.map_values(|c: CommitId| c@);
                                let mut q = parents.len();
                                while q > 0
                                    invariant
                                        q <= parents@.len(),
                                        pv == parents@.map_values(|c: CommitId| c@),
                                        self.pending_ids() == pend_before + pv.reverse().take(
                                            pv.len() - q,
                                        ),
                                        self.visited@.len() == vseq0.len() + 1,
                                        id_set(self.visited@) == id_set(vseq0).insert(id@),
                                    decreases q,
                                {
                                    let ghost before = self.pending_ids();
                                    q -= 1;
                                    self.pending.push(parents[q].duplicate());
                                    proof {
                                        assert(self.pending_ids() =~= before.push(pv[q as int]));
                                        assert(pv.reverse()[pv.len() - 1 - q] == pv[q as int]);
                                        assert(self.pending_ids() =~= pend_before + pv.reverse()
                                            .take(pv.len() - q));
                                    }
                                }
                                let rec = CommitRecord::new(id, message, parents);
                                proof {
                                    assert(pv.reverse().take(pv.len() as int) =~= pv.reverse());
                                    assert(rec@.parents == pv);
                                    assert(self.pending_ids() == p0.take(k) + rec@.parents
                                        .reverse());
                                }
                                return Result::Ok(Option::Some(rec));
                            },
                        }
                    }
                    proof {
                        assert(id_set(vseq0).contains(p0[k]));
                    }
                },
            }
        }
    }
}

/// Opens the repository named by the configuration, resolves its head, and
/// collects the whole history reachable from it: every record bears a
/// distinct identifier, each visited exactly once however many paths led
/// to it. A failure to open, to resolve, or to load one commit ends the
/// traversal with that error and no records.
pub fn find_commits(config: Config) -> (r: Result<Vec<CommitRecord>, HistoryError>)
    ensures
        match r {
            Result::Ok(records) => forall|a: int, b: int|
                0 <= a < b < records@.len() ==> records@[a].id@ != records@[b].id@,
            Result::Err(e) => e == HistoryError::FailedToOpenRepository || e
                == HistoryError::FailedToResolveHead || e == HistoryError::FailedToLoadCommit || e
                == HistoryError::HistoryTooLarge,
        },
{
    let repo = match open_repository(&config.repo_path) {
        Result::Ok(repo) => repo,
        Result::Err(e) => {
            return Result::Err(e);
        },
    };
    let start = match resolve_head(&repo) {
        Result::Ok(start) => start,
        Result::Err(e) => {
            return Result::Err(e);
        },
    };
    let mut walk = HistoryWalk::begin(start);
    let mut records: Vec<CommitRecord> = Vec::new();
    loop
        invariant
            walk.visited_count() <= usize::MAX,
            forall|t: int|
                0 <= t < records@.len() ==> walk.visited_ids().contains(
                    #[trigger] records@[t].id@,
                ),
            forall|a: int, b: int|
                0 <= a < b < records@.len() ==> records@[a].id@ != records@[b].id@,
        decreases usize::MAX - walk.visited_count(),
    {
        match walk.next_record(&repo) {
            Result::Ok(Option::Some(rec)) => {
                records.push(rec);
            },
            Result::Ok(Option::None) => {
                return Result::Ok(records);
            },
            Result::Err(e) => {
                return Result::Err(e);
            },
        }
    }
}

} // verus!
