//! The traversal engine: a depth-first, first-parent-first walk of the
//! commit graph from a starting identifier, visiting every reachable commit
//! exactly once. The discipline is a deliberate design decision: the work
//! stack pops the most recently pushed identifier, and a commit's parents
//! are pushed so that its first parent is taken before its siblings, giving
//! the conventional main-line-first reading of history.

use vstd::prelude::*;
use crate::graph::{CommitGraph, EntryView, lookup, has_id, lemma_lookup};
use crate::ids::CommitId;
use crate::record::{CommitRecord, RecordView, normalized_message};

verus! {

broadcast use vstd::set::group_set_axioms, vstd::seq_lib::seq_to_set_is_finite;

/// The mathematical value of one whole traversal: the records enumerated in
/// order, and the identifier whose lookup failed when the walk ended early.
pub struct RunView {
    pub records: Seq<RecordView>,
    pub failed: Option<Seq<char>>,
}

/// The record an entry of the store yields when it is visited.
pub open spec fn record_of(e: EntryView) -> RecordView {
    RecordView { id: e.id, message: normalized_message(e.message), parents: e.parents }
}

/// The set of identifiers the store holds.
pub open spec fn ids_of(g: Seq<EntryView>) -> Set<Seq<char>> {
    g.map_values(|e: EntryView| e.id).to_set()
}

/// The identifiers the store holds that a walk has not yet visited: the
/// termination measure of the traversal.
pub open spec fn ids_left(g: Seq<EntryView>, visited: Set<Seq<char>>) -> Set<Seq<char>> {
    ids_of(g).difference(visited)
}

/// The set of identifier values in a vector of identifiers.
pub open spec fn id_set(v: Seq<CommitId>) -> Set<Seq<char>> {
    v.map_values(|c: CommitId| c@).to_set()
}

/// The views of a vector of records, in order.
pub open spec fn recs_view(rs: Seq<CommitRecord>) -> Seq<RecordView> {
    rs.map_values(|r: CommitRecord| r@)
}

/// An identifier the store holds is among the store's identifiers.
pub proof fn lemma_has_id_in_ids(g: Seq<EntryView>, id: Seq<char>)
    requires
        has_id(g, id),
    ensures
        ids_of(g).contains(id),
{
    lemma_lookup(g, id);
    let e = lookup(g, id)->Some_0;
    let i = choose|i: int| 0 <= i < g.len() && g[i] == e;
    assert(g.map_values(|e: EntryView| e.id)[i] == id);
}

/// Visiting a held, unvisited identifier strictly shrinks what is left:
/// the traversal terminates.
pub proof fn lemma_visit_shrinks(g: Seq<EntryView>, visited: Set<Seq<char>>, id: Seq<char>)
    requires
        visited.finite(),
        has_id(g, id),
        !visited.contains(id),
    ensures
        ids_left(g, visited.insert(id)) == ids_left(g, visited).remove(id),
        ids_left(g, visited.insert(id)).len() < ids_left(g, visited).len(),
{
    lemma_has_id_in_ids(g, id);
    assert(ids_left(g, visited.insert(id)) =~= ids_left(g, visited).remove(id));
    assert(ids_of(g).finite());
    assert(ids_left(g, visited).finite());
    assert(ids_left(g, visited).contains(id));
}

/// What one traversal of the store yields, given the work stack (top at the
/// end) and the identifiers already visited: each popped identifier is
/// skipped when already visited, ends the walk when its lookup fails, and
/// otherwise yields its record once and stacks its parents so that the
/// first parent is walked first.
pub open spec fn spec_run(g: Seq<EntryView>, stack: Seq<Seq<char>>, visited: Set<Seq<char>>)
    -> RunView
    decreases ids_left(g, visited).len(), stack.len(),
        when visited.finite()
{
    if stack.len() == 0 {
        RunView { records: Seq::empty(), failed: Option::None }
    } else {
        let id = stack.last();
        let rest = stack.drop_last();
        if visited.contains(id) {
            spec_run(g, rest, visited)
        } else {
            match lookup(g, id) {
                Option::None => RunView { records: Seq::empty(), failed: Option::Some(id) },
                Option::Some(e) => {
                    proof {
                        lemma_visit_shrinks(g, visited, id);
                    }
                    let tail = spec_run(g, rest + e.parents.reverse(), visited.insert(id));
                    RunView { records: seq![record_of(e)] + tail.records, failed: tail.failed }
                },
            }
        }
    }
}

/// A finished traversal: the records in the order they were yielded, and
/// the identifier that could not be looked up when the walk ended early.
pub struct TraversalOutput {
    pub records: Vec<CommitRecord>,
    pub failed: Option<CommitId>,
}

impl View for TraversalOutput {
    type V = RunView;

    open spec fn view(&self) -> RunView {
        RunView {
            records: recs_view(self.records@),
            failed: match self.failed {
                Option::Some(id) => Option::Some(id@),
                Option::None => Option::None,
            },
        }
    }
}

/// Whether a vector of identifiers holds this identifier value.
pub fn contains_id(v: &Vec<CommitId>, id: &CommitId) -> (r: bool)
    ensures
        r == id_set(v@).contains(id@),
{
    let ghost mapped = v@.map_values(|c: CommitId| c@);
    let n = v.len();
    let mut j: usize = 0;
    while j < n
        invariant
            n == v@.len(),
            j <= n,
            mapped == v@.map_values(|c: CommitId| c@),
            forall|t: int| 0 <= t < j ==> mapped[t] != id@,
        decreases n - j,
    {
        if v[j].eq_id(id) {
            proof {
                assert(mapped[j as int] == id@);
            }
            return true;
        }
        j += 1;
    }
    proof {
        if id_set(v@).contains(id@) {
            let t = choose|t: int| 0 <= t < mapped.len() && mapped[t] == id@;
            assert(false);
        }
    }
    false
}

/// Appending an identifier to a vector adds exactly its value to the set.
pub proof fn lemma_id_set_push(v: Seq<CommitId>, id: CommitId)
    ensures
        id_set(v.push(id)) == id_set(v).insert(id@),
{
    let f = |c: CommitId| c@;
    assert(v.push(id).map_values(f) =~= v.map_values(f).push(id@));
    v.map_values(f).lemma_push_to_set_commute(id@);
    assert(id_set(v.push(id)) =~= id_set(v).insert(id@));
}

/// Walks the store depth-first from `start`, first parent first, yielding
/// each reachable commit's record exactly once, in traversal order; a
/// lookup failure ends the walk early and is reported. The whole outcome is
/// a function of the store and the starting identifier alone: traversing
/// the same store twice from the same start yields the same records.
pub fn traverse(g: &CommitGraph, start: &CommitId) -> (out: TraversalOutput)
    ensures
        out@ == spec_run(g@, seq![start@], Set::<Seq<char>>::empty()),
{
    let ghost gv = g@;
    let ghost total = spec_run(gv, seq![start@], Set::<Seq<char>>::empty());
    let mut visited: Vec<CommitId> = Vec::new();
    let mut stack: Vec<CommitId> = Vec::new();
    let mut records: Vec<CommitRecord> = Vec::new();
    let mut failed: Option<CommitId> = Option::None;
    stack.push(start.duplicate());
    proof {
        assert(stack@.map_values(|c: CommitId| c@) =~= seq![start@]);
        assert(id_set(visited@) =~= Set::<Seq<char>>::empty());
    }
    loop
        invariant_except_break
            failed is None,
            spec_run(gv, stack@.map_values(|c: CommitId| c@), id_set(visited@)).records =~= total.records.skip(records@.len() as int),
            recs_view(records@) =~= total.records.take(records@.len() as int),
            records@.len() <= total.records.len(),
            spec_run(gv, stack@.map_values(|c: CommitId| c@), id_set(visited@)).failed == total.failed,
        invariant
            gv == g@,
            id_set(visited@).finite(),
            total == spec_run(gv, seq![start@], Set::<Seq<char>>::empty()),
        ensures
            recs_view(records@) == total.records,
            (match failed {
                Option::Some(id) => Option::Some(id@),
                Option::None => Option::<Seq<char>>::None,
            }) == total.failed,
        decreases ids_left(gv, id_set(visited@)).len(), stack@.len(),
    {
        let ghost stackv = stack@.map_values(|c: CommitId| c@);
        let ghost visitedv = id_set(visited@);
        let ghost rem = spec_run(gv, stackv, visitedv);
        match stack.pop() {
            Option::None => {
                proof {
                    assert(stackv.len() == 0);
                    assert(rem.records =~= Seq::<RecordView>::empty());
                    assert(total.records =~= recs_view(records@));
                }
                break;
            },
            Option::Some(id) => {
                proof {
                    assert(stackv.last() == id@);
                    assert(stack@.map_values(|c: CommitId| c@) =~= stackv.drop_last());
                }
                if contains_id(&visited, &id) {
                    proof {
                        assert(rem == spec_run(gv, stackv.drop_last(), visitedv));
                    }
                    continue;
                }
                match g.find_entry(&id) {
                    Option::None => {
                        proof {
                            assert(rem.failed == Option::Some(id@));
                            assert(rem.records =~= Seq::<RecordView>::empty());
                            assert(total.records =~= recs_view(records@));
                        }
                        failed = Option::Some(id);
                        break;
                    },
                    Option::Some(i) => {
                        let ghost e = g@[i as int];
                        proof {
                            assert(lookup(gv, id@) == Option::Some(e));
                            lemma_lookup(gv, id@);
                            assert(e.id == id@);
                            assert(e == g.entries@[i as int]@);
                        }
                        let entry_id = g.entries[i].id.duplicate();
                        let entry_message = match &g.entries[i].message {
                            Option::Some(m) => Option::Some(m.clone()),
                            Option::None => Option::None,
                        };
                        // parents, copied in stored order
                        let mut entry_parents: Vec<CommitId> = Vec::new();
                        let np = g.entries[i].parents.len();
                        let mut k: usize = 0;
                        while k < np
                            invariant
                                gv == g@,
                                i < g.entries@.len(),
                                np == g.entries@[i as int].parents@.len(),
                                k <= np,
                                entry_parents@.len() == k,
                                forall|t: int| 0 <= t < k ==> entry_parents@[t]@
                                    == g.entries@[i as int].parents@[t]@,
                            decreases np - k,
                        {
                            entry_parents.push(g.entries[i].parents[k].duplicate());
                            k += 1;
                        }
                        proof {
                            assert(e == g.entries@[i as int]@);
                            assert(entry_parents@.map_values(|p: CommitId| p@) =~= e.parents);
                        }
                        // mark visited, yield the record, stack the parents
                        // so that the first parent is walked first
                        let ghost visited_before = visited@;
                        visited.push(entry_id.duplicate());
                        proof {
                            lemma_id_set_push(visited_before, visited@.last());
                            assert(visited@ == visited_before.push(visited@.last()));
                            assert(id_set(visited@) == visitedv.insert(id@));
                        }
                        let ghost records_before = records@;
                        let rec = CommitRecord::new(
                            entry_id,
                            entry_message,
                            entry_parents,
                        );
                        records.push(rec);
                        let mut p = g.entries[i].parents.len();
                        proof {
                            assert(stack@.map_values(|c: CommitId| c@) =~= stackv.drop_last()
                                + e.parents.reverse().take(0));
                        }
                        while p > 0
                            invariant
                                gv == g@,
                                i < g.entries@.len(),
                                e == g.entries@[i as int]@,
                                p <= g.entries@[i as int].parents@.len(),
                                e.parents.len() == g.entries@[i as int].parents@.len(),
                                stack@.map_values(|c: CommitId| c@) =~= stackv.drop_last()
                                    + e.parents.reverse().take(e.parents.len() - p),
                            decreases p,
                        {
                            let ghost before = stack@.map_values(|c: CommitId| c@);
                            p -= 1;
                            stack.push(g.entries[i].parents[p].duplicate());
                            proof {
                                assert(stack@.map_values(|c: CommitId| c@) =~= before.push(
                                    e.parents[p as int]));
                                assert(e.parents.reverse()[e.parents.len() - 1 - p] == e.parents[
                                    p as int]);
                                assert(stack@.map_values(|c: CommitId| c@) =~= stackv.drop_last()
                                    + e.parents.reverse().take(e.parents.len() - p));
                            }
                        }
                        proof {
                            assert(e.parents.reverse().take(e.parents.len() as int) =~= e
                                .parents.reverse());
                            assert(stack@.map_values(|c: CommitId| c@) =~= stackv.drop_last()
                                + e.parents.reverse());
                            assert(lookup(gv, id@) == Option::Some(e));
                            lemma_lookup(gv, id@);
                            assert(e.id == id@);
                            lemma_visit_shrinks(gv, visitedv, id@);
                            let tail = spec_run(gv, stackv.drop_last() + e.parents.reverse(),
                                visitedv.insert(id@));
                            assert(rem.records == seq![record_of(e)] + tail.records);
                            assert(rem.failed == tail.failed);
                            assert(recs_view(records@) =~= recs_view(records_before).push(rec@));
                            assert(rec@ == record_of(e));
                            let n0 = records_before.len() as int;
                            assert(rem.records == total.records.skip(n0));
                            assert(rem.records.len() == total.records.len() - n0);
                            assert(rem.records[0] == record_of(e));
                            assert(total.records.skip(n0)[0] == total.records[n0]);
                            assert(total.records[n0] == record_of(e));
                            assert(recs_view(records@) =~= total.records.take(n0 + 1)) by {
                                assert forall|t: int| 0 <= t < n0 + 1 implies recs_view(records@)[t]
                                    == total.records[t] by {
                                    if t < n0 {
                                        assert(recs_view(records_before)[t] == total.records.take(
                                            n0)[t]);
                                    }
                                }
                            }
                            assert(tail.records =~= total.records.skip(n0 + 1)) by {
                                assert forall|t: int| 0 <= t < tail.records.len() implies tail
                                    .records[t] == total.records.skip(n0 + 1)[t] by {
                                    assert(tail.records[t] == rem.records[t + 1]);
                                    assert(rem.records[t + 1] == total.records.skip(n0)[t + 1]);
                                    assert(total.records.skip(n0)[t + 1] == total.records[n0 + 1
                                        + t]);
                                }
                            }
                        }
                    },
                }
            },
        }
    }
    TraversalOutput { records, failed }
}

} // verus!
