//! The traversal's guarantees, stated and proved over the engine's
//! mathematical model: reachability-complete, dedup-exact enumeration, and
//! a wholly deterministic outcome.

use vstd::prelude::*;
use crate::engine::{spec_run, record_of, ids_left, lemma_visit_shrinks, RunView};
use crate::graph::{EntryView, has_id, lookup, lemma_lookup};

verus! {

/// One parent link: the store holds `a`, and `b` is among `a`'s parents.
pub open spec fn step(g: Seq<EntryView>, a: Seq<char>, b: Seq<char>) -> bool {
    has_id(g, a) && lookup(g, a)->Some_0.parents.contains(b)
}

/// A non-empty sequence of identifiers, each linked to the next by one
/// parent link.
pub open spec fn is_chain(g: Seq<EntryView>, p: Seq<Seq<char>>) -> bool {
    p.len() > 0 && forall|i: int| 0 <= i < p.len() - 1 ==> step(g, #[trigger] p[i], p[i + 1])
}

/// `to` can be reached from `from` by following parent links.
pub open spec fn reachable(g: Seq<EntryView>, from: Seq<char>, to: Seq<char>) -> bool {
    exists|p: Seq<Seq<char>>| is_chain(g, p) && p.first() == from && p.last() == to
}

/// A set of identifiers no parent link leaves.
pub open spec fn closed_under_parents(g: Seq<EntryView>, v: Set<Seq<char>>) -> bool {
    forall|a: Seq<char>, b: Seq<char>| v.contains(a) && #[trigger] step(g, a, b) ==> v.contains(b)
}

/// The identifiers a traversal outcome enumerates, in order.
pub open spec fn emitted(out: RunView) -> Seq<Seq<char>> {
    out.records.map_values(|r: crate::record::RecordView| r.id)
}

/// Every commit reachable from `start` by parent links is held by the
/// store: the premise under which a traversal owes the whole history.
pub open spec fn reachable_closed(g: Seq<EntryView>, start: Seq<char>) -> bool {
    forall|id: Seq<char>| #[trigger] reachable(g, start, id) ==> has_id(g, id)
}

/// Every identifier reaches itself.
pub proof fn lemma_reachable_self(g: Seq<EntryView>, id: Seq<char>)
    ensures
        reachable(g, id, id),
{
    let p = seq![id];
    assert(is_chain(g, p) && p.first() == id && p.last() == id);
}

/// Reachability extends across one more parent link.
pub proof fn lemma_reachable_step(g: Seq<EntryView>, from: Seq<char>, mid: Seq<char>, to: Seq<
    char>)
    requires
        reachable(g, from, mid),
        step(g, mid, to),
    ensures
        reachable(g, from, to),
{
    let p = choose|p: Seq<Seq<char>>| is_chain(g, p) && p.first() == from && p.last() == mid;
    let q = p.push(to);
    assert(is_chain(g, q)) by {
        assert forall|i: int| 0 <= i < q.len() - 1 implies #[trigger] step(g, q[i], q[i + 1]) by {
            if i < p.len() - 1 {
                assert(q[i] == p[i] && q[i + 1] == p[i + 1]);
                assert(step(g, p[i], p[i + 1]));
            } else {
                assert(q[i] == p.last() && q[i + 1] == to);
            }
        }
    }
    assert(q.first() == from && q.last() == to);
}

/// A set that holds a chain's first identifier and that no parent link
/// leaves holds the chain's last identifier too.
pub proof fn lemma_closed_covers(g: Seq<EntryView>, v: Set<Seq<char>>, p: Seq<Seq<char>>)
    requires
        closed_under_parents(g, v),
        is_chain(g, p),
        v.contains(p.first()),
    ensures
        v.contains(p.last()),
    decreases p.len(),
{
    if p.len() > 1 {
        assert(step(g, p[0], p[1]));
        assert(v.contains(p[1]));
        let q = p.drop_first();
        assert(is_chain(g, q)) by {
            assert forall|i: int| 0 <= i < q.len() - 1 implies #[trigger] step(g, q[i], q[i + 1])
                by {
                assert(q[i] == p[i + 1] && q[i + 1] == p[i + 2]);
                assert(step(g, p[i + 1], p[i + 2]));
            }
        }
        lemma_closed_covers(g, v, q);
    }
}

/// The traversal's inductive invariant: from any state whose stacked
/// identifiers are held by the store and reachable from the start, in a
/// store that holds everything reachable from the start,
/// and whose visited identifiers keep their parents on the stack or
/// already visited, the walk ends without failure, enumerates only fresh
/// reachable identifiers without repetition, drains the whole stack into
/// the enumeration, and leaves no parent link out of what was seen.
pub proof fn lemma_run_invariant(
    g: Seq<EntryView>,
    start: Seq<char>,
    stack: Seq<Seq<char>>,
    visited: Set<Seq<char>>,
)
    requires
        visited.finite(),
        reachable_closed(g, start),
        forall|j: int| 0 <= j < stack.len() ==> has_id(g, #[trigger] stack[j]),
        forall|j: int| 0 <= j < stack.len() ==> reachable(g, start, #[trigger] stack[j]),
        forall|id: Seq<char>|
            #[trigger] visited.contains(id) ==> has_id(g, id) && reachable(g, start, id),
        forall|a: Seq<char>, b: Seq<char>|
            visited.contains(a) && #[trigger] step(g, a, b) ==> visited.contains(b)
                || stack.contains(b),
    ensures
        ({
            let out = spec_run(g, stack, visited);
            let emit = emitted(out);
            &&& out.failed is None
            &&& emit.no_duplicates()
            &&& forall|t: int| 0 <= t < emit.len() ==> !visited.contains(#[trigger] emit[t])
            &&& forall|t: int|
                0 <= t < emit.len() ==> has_id(g, #[trigger] emit[t]) && reachable(
                    g,
                    start,
                    emit[t],
                )
            &&& forall|t: int|
                0 <= t < out.records.len() ==> #[trigger] out.records[t] == record_of(
                    lookup(g, out.records[t].id)->Some_0,
                )
            &&& forall|j: int|
                0 <= j < stack.len() ==> visited.contains(#[trigger] stack[j]) || emit.contains(
                    stack[j],
                )
            &&& closed_under_parents(g, visited.union(emit.to_set()))
        }),
    decreases ids_left(g, visited).len(), stack.len(),
{
    let out = spec_run(g, stack, visited);
    let emit = emitted(out);
    if stack.len() == 0 {
        assert(emit =~= Seq::<Seq<char>>::empty());
        assert(visited.union(emit.to_set()) =~= visited);
    } else {
        let id = stack.last();
        let rest = stack.drop_last();
        if visited.contains(id) {
            assert forall|a: Seq<char>, b: Seq<char>|
                visited.contains(a) && #[trigger] step(g, a, b) implies visited.contains(b)
                || rest.contains(b) by {
                if !visited.contains(b) {
                    let j = choose|j: int| 0 <= j < stack.len() && stack[j] == b;
                    if j < stack.len() - 1 {
                        assert(rest[j] == b);
                    } else {
                        assert(b == id);
                    }
                }
            }
            lemma_run_invariant(g, start, rest, visited);
            assert(out == spec_run(g, rest, visited));
            assert forall|j: int| 0 <= j < stack.len() implies visited.contains(
                #[trigger] stack[j],
            ) || emit.contains(stack[j]) by {
                if j < stack.len() - 1 {
                    assert(rest[j] == stack[j]);
                }
            }
        } else {
            assert(has_id(g, stack.last()));
            let e = lookup(g, id)->Some_0;
            lemma_lookup(g, id);
            assert(e.id == id);
            let stack2 = rest + e.parents.reverse();
            let visited2 = visited.insert(id);
            lemma_visit_shrinks(g, visited, id);
            // the stacked parents are held by the store and reachable
            assert(reachable(g, start, id));
            assert forall|j: int| 0 <= j < stack2.len() implies has_id(g, #[trigger] stack2[j])
                && reachable(g, start, stack2[j]) by {
                if j < rest.len() {
                    assert(stack2[j] == stack[j]);
                } else {
                    let m = e.parents.len() - 1 - (j - rest.len());
                    assert(stack2[j] == e.parents.reverse()[j - rest.len()]);
                    assert(stack2[j] == e.parents[m]);
                    assert(step(g, id, e.parents[m]));
                    lemma_reachable_step(g, start, id, e.parents[m]);
                    assert(reachable(g, start, e.parents[m]));
                    assert(has_id(g, e.parents[m]));
                }
            }
            // no parent link leaves the grown visited set and stack
            assert forall|a: Seq<char>, b: Seq<char>|
                visited2.contains(a) && #[trigger] step(g, a, b) implies visited2.contains(b)
                || stack2.contains(b) by {
                if a == id {
                    let m = choose|m: int| 0 <= m < e.parents.len() && e.parents[m] == b;
                    assert(stack2[rest.len() + e.parents.len() - 1 - m] == e.parents.reverse()[
                        e.parents.len() - 1 - m]);
                    assert(stack2[rest.len() + e.parents.len() - 1 - m] == b);
                } else if !visited2.contains(b) {
                    assert(stack.contains(b));
                    let j = choose|j: int| 0 <= j < stack.len() && stack[j] == b;
                    if j < stack.len() - 1 {
                        assert(stack2[j] == b);
                    } else {
                        assert(b == id);
                    }
                }
            }
            lemma_run_invariant(g, start, stack2, visited2);
            let out2 = spec_run(g, stack2, visited2);
            let emit2 = emitted(out2);
            assert(out.records == seq![record_of(e)] + out2.records);
            assert(out.failed == out2.failed);
            assert(emit =~= seq![id] + emit2) by {
                assert forall|t: int| 0 <= t < out.records.len() implies emit[t] == (seq![id]
                    + emit2)[t] by {
                    if t > 0 {
                        assert(out.records[t] == out2.records[t - 1]);
                    }
                }
            }
            assert(emit[0] == id);
            assert forall|t: int| 1 <= t < emit.len() implies emit[t] == emit2[t - 1] by {}
            // each enumerated record is its store entry's record
            assert forall|t: int| 0 <= t < out.records.len() implies #[trigger] out.records[t]
                == record_of(lookup(g, out.records[t].id)->Some_0) by {
                if t == 0 {
                    assert(out.records[0] == record_of(e));
                    assert(out.records[0].id == id);
                } else {
                    assert(out.records[t] == out2.records[t - 1]);
                }
            }
            // freshness and no repetition
            assert forall|t: int| 0 <= t < emit.len() implies !visited.contains(
                #[trigger] emit[t],
            ) by {
                if t > 0 {
                    assert(!visited2.contains(emit2[t - 1]));
                }
            }
            assert(emit.no_duplicates()) by {
                assert forall|x: int, y: int|
                    0 <= x < emit.len() && 0 <= y < emit.len() && x != y implies emit[x] != emit[
                    y] by {
                    if x == 0 {
                        assert(!visited2.contains(emit2[y - 1]));
                    } else if y == 0 {
                        assert(!visited2.contains(emit2[x - 1]));
                    } else {
                        assert(emit2[x - 1] != emit2[y - 1]);
                    }
                }
            }
            // everything enumerated is held and reachable
            assert forall|t: int| 0 <= t < emit.len() implies has_id(g, #[trigger] emit[t])
                && reachable(g, start, emit[t]) by {
                if t > 0 {
                    assert(has_id(g, emit2[t - 1]) && reachable(g, start, emit2[t - 1]));
                }
            }
            // the whole stack drains into visited or the enumeration
            assert forall|j: int| 0 <= j < stack.len() implies visited.contains(
                #[trigger] stack[j],
            ) || emit.contains(stack[j]) by {
                if j == stack.len() - 1 {
                    assert(emit[0] == stack[j]);
                } else {
                    assert(stack2[j] == stack[j]);
                    if visited2.contains(stack[j]) && !visited.contains(stack[j]) {
                        assert(emit[0] == stack[j]);
                    }
                    if emit2.contains(stack[j]) {
                        let t = choose|t: int| 0 <= t < emit2.len() && emit2[t] == stack[j];
                        assert(emit[t + 1] == stack[j]);
                    }
                }
            }
            // what was seen, old and new, is one and the same closed set
            assert(visited.union(emit.to_set()) =~= visited2.union(emit2.to_set())) by {
                assert forall|x: Seq<char>| emit.to_set().contains(x) implies x == id
                    || emit2.to_set().contains(x) by {
                    let t = choose|t: int| 0 <= t < emit.len() && emit[t] == x;
                    if t > 0 {
                        assert(emit2[t - 1] == x);
                    }
                }
                assert forall|x: Seq<char>| emit2.to_set().contains(x) implies emit
                    .to_set().contains(x) by {
                    let t = choose|t: int| 0 <= t < emit2.len() && emit2[t] == x;
                    assert(emit[t + 1] == x);
                }
                assert(emit.to_set().contains(id)) by {
                    assert(emit[0] == id);
                }
            }
        }
    }
}

/// Completeness, exactly once: when every commit reachable from the start
/// is held by the store, a traversal from a held start ends without
/// failure and enumerates exactly the reachable identifiers, each exactly
/// once however many distinct paths lead to it — and each enumerated
/// record is its store entry's record: the entry's identifier, its
/// message normalized, its parents in stored order.
pub proof fn lemma_traversal_complete(g: Seq<EntryView>, start: Seq<char>)
    requires
        reachable_closed(g, start),
        has_id(g, start),
    ensures
        ({
            let out = spec_run(g, seq![start], Set::<Seq<char>>::empty());
            &&& out.failed is None
            &&& emitted(out).no_duplicates()
            &&& forall|id: Seq<char>|
                #[trigger] emitted(out).contains(id) <==> reachable(g, start, id)
            &&& forall|t: int|
                0 <= t < out.records.len() ==> #[trigger] out.records[t] == record_of(
                    lookup(g, out.records[t].id)->Some_0,
                )
        }),
{
    let visited = Set::<Seq<char>>::empty();
    let stack = seq![start];
    lemma_reachable_self(g, start);
    assert(stack[0] == start);
    lemma_run_invariant(g, start, stack, visited);
    let out = spec_run(g, stack, visited);
    let emit = emitted(out);
    assert(emit.contains(start)) by {
        assert(visited.contains(stack[0]) || emit.contains(stack[0]));
    }
    let seen = visited.union(emit.to_set());
    assert forall|id: Seq<char>| reachable(g, start, id) implies #[trigger] emit.contains(id) by {
        let p = choose|p: Seq<Seq<char>>| is_chain(g, p) && p.first() == start && p.last() == id;
        assert(seen.contains(p.first()));
        lemma_closed_covers(g, seen, p);
        assert(seen.contains(id));
    }
    assert forall|id: Seq<char>| #[trigger] emit.contains(id) implies reachable(g, start, id) by {
        let t = choose|t: int| 0 <= t < emit.len() && emit[t] == id;
        assert(reachable(g, start, emit[t]));
    }
}

/// Determinism: the traversal's outcome is a function of the store and
/// the starting identifier alone, so walking the same immutable store
/// twice from the same start yields identical record sequences. The
/// executable traversal's contract pins its result to `spec_run`, so any
/// two of its results from equal inputs meet this lemma's premises.
pub proof fn lemma_traversal_deterministic(
    g: Seq<EntryView>,
    start: Seq<char>,
    out1: RunView,
    out2: RunView,
)
    requires
        out1 == spec_run(g, seq![start], Set::<Seq<char>>::empty()),
        out2 == spec_run(g, seq![start], Set::<Seq<char>>::empty()),
    ensures
        out1 == out2,
{
}

} // verus!
