//! Aggregate Calculator: post-order sum of resident memory over the
//! subtree rooted at a watched pid.
//!
//! The snapshot a table was built from is not atomic, so the parent/child
//! links may in rare races form a cycle. The traversal therefore guards
//! every descent with the set of pids already on the current path; a pid
//! seen again contributes nothing and the walk below it is cut off.
use vstd::prelude::*;
use std::collections::HashMap;
use crate::tree::{ProcessEntry, ProcessEntryV, table_view};

verus! {

broadcast use {
    vstd::std_specs::hash::group_hash_axioms,
    vstd::seq_lib::seq_to_set_is_finite,
    vstd::seq_lib::lemma_seq_contains_after_push,
    vstd::set::group_set_axioms,
};

/// Per-pid memory figures of one tick: the process's own resident memory,
/// and that of its whole subtree, both in KiB.
#[derive(Clone, Copy, PartialEq, Eq, Structural)]
pub struct MemoryStats {
    pub aggregate_kib: u64,
    pub private_kib: u64,
}

/// The private memory of `p`: what its record reports, zero when the
/// entry is absent or carries no record.
pub open spec fn private_kib_of(t: Map<u64, ProcessEntryV>, p: u64) -> nat {
    if t.contains_key(p) {
        match t[p].record {
            Some(r) => r.memory_kib as nat,
            None => 0,
        }
    } else {
        0
    }
}

/// A sum capped at what a `u64` can hold.
pub open spec fn sat64(n: nat) -> u64 {
    if n > u64::MAX {
        u64::MAX
    } else {
        n as u64
    }
}

/// Aggregate memory, in KiB, of the subtree rooted at `p`, where `seen`
/// holds the pids already on the current path: a pid that is absent from
/// the table or already on the path contributes nothing.
pub open spec fn subtree_kib(t: Map<u64, ProcessEntryV>, p: u64, seen: Set<u64>) -> nat
    decreases t.dom().difference(seen).len(), 0nat, 0nat,
        when t.dom().finite() && seen.finite()
        via subtree_kib_decreases
{
    if !t.contains_key(p) || seen.contains(p) {
        0
    } else {
        private_kib_of(t, p) + children_kib(t, t[p].children, seen.insert(p))
    }
}

/// The sum of `subtree_kib` over a list of child pids, all under the same
/// path `seen`.
pub open spec fn children_kib(t: Map<u64, ProcessEntryV>, cs: Seq<u64>, seen: Set<u64>) -> nat
    decreases t.dom().difference(seen).len(), 1nat, cs.len(),
        when t.dom().finite() && seen.finite()
{
    if cs.len() == 0 {
        0
    } else {
        children_kib(t, cs.drop_last(), seen) + subtree_kib(t, cs.last(), seen)
    }
}

#[via_fn]
proof fn subtree_kib_decreases(t: Map<u64, ProcessEntryV>, p: u64, seen: Set<u64>) {
    if t.contains_key(p) && !seen.contains(p) {
        lemma_seen_insert_shrinks(t, p, seen);
    }
}

/// Putting a pid of the table onto the path shrinks the set of pids the
/// walk may still enter.
pub(crate) proof fn lemma_seen_insert_shrinks(t: Map<u64, ProcessEntryV>, p: u64, seen: Set<u64>)
    requires
        t.dom().finite(),
        t.contains_key(p),
        !seen.contains(p),
    ensures
        t.dom().difference(seen.insert(p)).len() < t.dom().difference(seen).len(),
{
    assert(t.dom().difference(seen.insert(p)) =~= t.dom().difference(seen).remove(p));
    assert(t.dom().difference(seen).contains(p));
    assert(t.dom().difference(seen).finite());
}

/// Aggregate memory of `p` measured from an empty path.
pub open spec fn aggregate_kib_of(t: Map<u64, ProcessEntryV>, p: u64) -> nat {
    subtree_kib(t, p, Set::empty())
}

/// The sum of the empty-path aggregates of a list of pids.
pub open spec fn children_sum(t: Map<u64, ProcessEntryV>, cs: Seq<u64>) -> nat
    decreases cs.len(),
{
    if cs.len() == 0 {
        0
    } else {
        children_sum(t, cs.drop_last()) + aggregate_kib_of(t, cs.last())
    }
}

/// `rank` witnesses that the parent/child links are acyclic: every child
/// that the table resolves sits strictly below its parent.
pub open spec fn is_ranked(t: Map<u64, ProcessEntryV>, rank: Map<u64, nat>) -> bool {
    forall|p: u64, i: int|
        t.contains_key(p) && 0 <= i < t[p].children.len() && t.contains_key(
            #[trigger] t[p].children[i],
        ) ==> rank[t[p].children[i]] < rank[p]
}

/// A table whose parent/child links admit no cycle.
pub open spec fn acyclic(t: Map<u64, ProcessEntryV>) -> bool {
    exists|rank: Map<u64, nat>| is_ranked(t, rank)
}

/// In an acyclic table the path set cannot influence a subtree's sum, as
/// long as everything on the path ranks strictly above the root walked.
proof fn lemma_subtree_seen_irrelevant(
    t: Map<u64, ProcessEntryV>,
    rank: Map<u64, nat>,
    p: u64,
    seen1: Set<u64>,
    seen2: Set<u64>,
)
    requires
        t.dom().finite(),
        seen1.finite(),
        seen2.finite(),
        is_ranked(t, rank),
        t.contains_key(p),
        forall|q: u64| seen1.contains(q) && t.contains_key(q) ==> rank[q] > rank[p],
        forall|q: u64| seen2.contains(q) && t.contains_key(q) ==> rank[q] > rank[p],
    ensures
        subtree_kib(t, p, seen1) == subtree_kib(t, p, seen2),
    decreases rank[p], 1nat, 0nat,
{
    assert(!seen1.contains(p));
    assert(!seen2.contains(p));
    lemma_children_seen_irrelevant(
        t,
        rank,
        rank[p],
        t[p].children,
        seen1.insert(p),
        seen2.insert(p),
    );
}

/// The list form of `lemma_subtree_seen_irrelevant`, over any list of
/// pids all ranking strictly below `bound`, with paths that rank at or
/// above `bound`.
proof fn lemma_children_seen_irrelevant(
    t: Map<u64, ProcessEntryV>,
    rank: Map<u64, nat>,
    bound: nat,
    cs: Seq<u64>,
    seen1: Set<u64>,
    seen2: Set<u64>,
)
    requires
        t.dom().finite(),
        seen1.finite(),
        seen2.finite(),
        is_ranked(t, rank),
        forall|i: int| 0 <= i < cs.len() && t.contains_key(#[trigger] cs[i]) ==> rank[cs[i]] < bound,
        forall|q: u64| seen1.contains(q) && t.contains_key(q) ==> rank[q] >= bound,
        forall|q: u64| seen2.contains(q) && t.contains_key(q) ==> rank[q] >= bound,
    ensures
        children_kib(t, cs, seen1) == children_kib(t, cs, seen2),
    decreases bound, 0nat, cs.len(),
{
    if cs.len() > 0 {
        lemma_children_seen_irrelevant(t, rank, bound, cs.drop_last(), seen1, seen2);
        let c = cs.last();
        assert(t.contains_key(c) ==> rank[c] < bound) by {
            assert(cs[cs.len() - 1] == c);
        }
        if t.contains_key(c) {
            lemma_subtree_seen_irrelevant(t, rank, c, seen1, seen2);
        }
    }
}

/// Along such a list, a path that ranks strictly above every member can
/// be dropped entirely: each member's sum is its empty-path aggregate.
proof fn lemma_children_sum_eq(
    t: Map<u64, ProcessEntryV>,
    rank: Map<u64, nat>,
    bound: nat,
    cs: Seq<u64>,
    seen: Set<u64>,
)
    requires
        t.dom().finite(),
        seen.finite(),
        is_ranked(t, rank),
        forall|i: int| 0 <= i < cs.len() && t.contains_key(#[trigger] cs[i]) ==> rank[cs[i]] < bound,
        forall|q: u64| seen.contains(q) && t.contains_key(q) ==> rank[q] >= bound,
    ensures
        children_kib(t, cs, seen) == children_sum(t, cs),
    decreases cs.len(),
{
    assert(Set::<u64>::empty().finite());
    if cs.len() > 0 {
        lemma_children_sum_eq(t, rank, bound, cs.drop_last(), seen);
        let c = cs.last();
        assert(t.contains_key(c) ==> rank[c] < bound) by {
            assert(cs[cs.len() - 1] == c);
        }
        if t.contains_key(c) {
            lemma_subtree_seen_irrelevant(t, rank, c, seen, Set::empty());
        } else {
            assert(subtree_kib(t, c, seen) == 0);
            assert(subtree_kib(t, c, Set::empty()) == 0);
        }
        assert(children_kib(t, cs, seen) == children_kib(t, cs.drop_last(), seen) + subtree_kib(
            t,
            c,
            seen,
        ));
        assert(children_sum(t, cs) == children_sum(t, cs.drop_last()) + aggregate_kib_of(t, c));
    }
}

/// Law: in an acyclic table, the aggregate memory of a pid is its private
/// memory plus the sum of its children's aggregates.
pub proof fn lemma_aggregate_decomposition(t: Map<u64, ProcessEntryV>, p: u64)
    requires
        t.dom().finite(),
        acyclic(t),
        t.contains_key(p),
    ensures
        aggregate_kib_of(t, p) == private_kib_of(t, p) + children_sum(t, t[p].children),
{
    let rank = choose|rank: Map<u64, nat>| is_ranked(t, rank);
    assert(!Set::<u64>::empty().contains(p));
    lemma_children_sum_eq(t, rank, rank[p], t[p].children, Set::empty().insert(p));
}

/// The per-pid figures that the walk from `p` leaves behind, on top of
/// what an earlier walk already recorded: each entered pid's entry is
/// written after its children's, the root's last.
pub open spec fn stats_after(
    t: Map<u64, ProcessEntryV>,
    p: u64,
    seen: Set<u64>,
    acc: Map<u64, MemoryStats>,
) -> Map<u64, MemoryStats>
    decreases t.dom().difference(seen).len(), 0nat, 0nat,
        when t.dom().finite() && seen.finite()
        via stats_after_decreases
{
    if !t.contains_key(p) || seen.contains(p) {
        acc
    } else {
        children_stats(t, t[p].children, seen.insert(p), acc).insert(
            p,
            MemoryStats {
                aggregate_kib: sat64(subtree_kib(t, p, seen)),
                private_kib: sat64(private_kib_of(t, p)),
            },
        )
    }
}

/// `stats_after` folded over a list of child pids, left to right.
pub open spec fn children_stats(
    t: Map<u64, ProcessEntryV>,
    cs: Seq<u64>,
    seen: Set<u64>,
    acc: Map<u64, MemoryStats>,
) -> Map<u64, MemoryStats>
    decreases t.dom().difference(seen).len(), 1nat, cs.len(),
        when t.dom().finite() && seen.finite()
{
    if cs.len() == 0 {
        acc
    } else {
        stats_after(t, cs.last(), seen, children_stats(t, cs.drop_last(), seen, acc))
    }
}

#[via_fn]
proof fn stats_after_decreases(
    t: Map<u64, ProcessEntryV>,
    p: u64,
    seen: Set<u64>,
    acc: Map<u64, MemoryStats>,
) {
    if t.contains_key(p) && !seen.contains(p) {
        lemma_seen_insert_shrinks(t, p, seen);
    }
}

/// Everything one tick records for the subtree rooted at `p`: empty when
/// the table does not resolve `p`.
pub open spec fn stats_map(t: Map<u64, ProcessEntryV>, p: u64) -> Map<u64, MemoryStats> {
    if t.contains_key(p) {
        stats_after(t, p, Set::empty(), Map::empty())
    } else {
        Map::empty()
    }
}

/// `true` iff `x` occurs in the vector.
pub(crate) fn vec_contains_u64(v: &Vec<u64>, x: u64) -> (b: bool)
    ensures
        b == v@.contains(x),
{
    let mut i: usize = 0;
    while i < v.len()
        invariant
            i <= v@.len(),
            forall|j: int| 0 <= j < i ==> v@[j] != x,
        decreases v@.len() - i,
    {
        if v[i] == x {
            return true;
        }
        i += 1;
    }
    false
}

/// Addition on KiB counts that sticks at the top instead of wrapping.
fn saturating_add_kib(a: u64, b: u64) -> (r: u64)
    ensures
        r as nat == if a + b > u64::MAX {
            u64::MAX as nat
        } else {
            (a + b) as nat
        },
{
    if a <= u64::MAX - b {
        a + b
    } else {
        u64::MAX
    }
}

/// Post-order walk from `p`: sums the subtree's memory, records per-pid
/// figures for every pid it enters, and returns the subtree's aggregate,
/// capped at `u64::MAX`. `visited` is the current path and is restored
/// before returning.
pub fn compute_aggregate_memory_kib(
    p: u64,
    process_children: &HashMap<u64, ProcessEntry>,
    visited: &mut Vec<u64>,
    process_memory: &mut HashMap<u64, MemoryStats>,
) -> (agg: u64)
    requires
        table_view(process_children@).contains_key(p),
        !old(visited)@.contains(p),
        forall|q: u64| #[trigger]
            old(process_memory)@.contains_key(q) ==> table_view(
                process_children@,
            ).contains_key(q) && old(process_memory)@[q].private_kib == private_kib_of(
                table_view(process_children@),
                q,
            ) && old(process_memory)@[q].aggregate_kib >= old(process_memory)@[q].private_kib,
    ensures
        final(visited)@ == old(visited)@,
        agg == sat64(subtree_kib(table_view(process_children@), p, old(visited)@.to_set())),
        final(process_memory)@ == stats_after(
            table_view(process_children@),
            p,
            old(visited)@.to_set(),
            old(process_memory)@,
        ),
        final(process_memory)@.contains_key(p),
        final(process_memory)@[p].aggregate_kib == agg,
        final(process_memory)@[p].private_kib == private_kib_of(table_view(process_children@), p),
        forall|q: u64| #[trigger]
            final(process_memory)@.contains_key(q) ==> table_view(process_children@).contains_key(
                q,
            ) && final(process_memory)@[q].private_kib == private_kib_of(
                table_view(process_children@),
                q,
            ) && final(process_memory)@[q].aggregate_kib >= final(process_memory)@[q].private_kib,
    decreases table_view(process_children@).dom().difference(old(visited)@.to_set()).len(),
{
    let ghost t = table_view(process_children@);
    let ghost seen0 = old(visited)@.to_set();
    proof {
        assert(t.dom() =~= process_children@.dom());
        assert(process_children@.dom().finite());
        assert(seen0.finite());
    }
    let entry_opt = process_children.get(&p);
    if entry_opt.is_none() {
        proof {
            assert(process_children@.contains_key(p));
            assert(false);
        }
    }
    let entry = entry_opt.unwrap();
    proof {
        assert(entry@ == t[p]);
    }
    let private_kib: u64 = match &entry.record {
        Some(r) => r.memory_kib,
        None => 0,
    };
    proof {
        assert(private_kib as nat == private_kib_of(t, p));
    }
    visited.push(p);
    let ghost seen = seen0.insert(p);
    proof {
        assert(visited@.to_set() =~= seen);
        lemma_seen_insert_shrinks(t, p, seen0);
    }
    let mut agg: u64 = private_kib;
    let ghost cs = t[p].children;
    let mut j: usize = 0;
    proof {
        assert(cs.take(0) =~= Seq::<u64>::empty());
    }
    while j < entry.children.len()
        invariant
            j <= cs.len(),
            cs == t[p].children,
            entry@ == t[p],
            t == table_view(process_children@),
            t.dom().finite(),
            seen.finite(),
            t.contains_key(p),
            visited@ == old(visited)@.push(p),
            visited@.to_set() == seen,
            seen == seen0.insert(p),
            seen0 == old(visited)@.to_set(),
            t.dom().difference(seen).len() < t.dom().difference(seen0).len(),
            agg as nat == sat64((private_kib_of(t, p) + children_kib(t, cs.take(j as int), seen)) as nat),
            process_memory@ == children_stats(t, cs.take(j as int), seen, old(process_memory)@),
            forall|q: u64| #[trigger]
                process_memory@.contains_key(q) ==> t.contains_key(q)
                    && process_memory@[q].private_kib == private_kib_of(t, q)
                    && process_memory@[q].aggregate_kib >= process_memory@[q].private_kib,
        decreases cs.len() - j,
    {
        let c = entry.children[j];
        proof {
            assert(cs[j as int] == c);
        }
        let resolvable = process_children.contains_key(&c);
        let on_path = vec_contains_u64(visited, c);
        if resolvable && !on_path {
            proof {
                assert(t.contains_key(c));
                assert(!visited@.contains(c));
            }
            proof {
                assert(visited@.to_set() == seen);
                assert(table_view(process_children@).dom().difference(visited@.to_set()).len()
                    < table_view(process_children@).dom().difference(
                    old(visited)@.to_set(),
                ).len());
            }
            let child_agg = compute_aggregate_memory_kib(c, process_children, visited, process_memory);
            proof {
                assert(child_agg == sat64(subtree_kib(t, c, seen)));
            }
            agg = saturating_add_kib(agg, child_agg);
        } else {
            proof {
                if !resolvable {
                    assert(!t.contains_key(c));
                    assert(subtree_kib(t, c, seen) == 0);
                } else {
                    assert(visited@.contains(c));
                    assert(seen.contains(c));
                    assert(subtree_kib(t, c, seen) == 0);
                }
            }
        }
        proof {
            assert(cs.take(j + 1).drop_last() =~= cs.take(j as int));
            assert(cs.take(j + 1).last() == cs[j as int]);
            assert(children_kib(t, cs.take(j + 1), seen) == children_kib(t, cs.take(j as int), seen)
                + subtree_kib(t, cs[j as int], seen));
            assert(children_stats(t, cs.take(j + 1), seen, old(process_memory)@) == stats_after(
                t,
                cs[j as int],
                seen,
                children_stats(t, cs.take(j as int), seen, old(process_memory)@),
            ));
        }
        j += 1;
    }
    proof {
        assert(cs.take(cs.len() as int) =~= cs);
        assert(agg as nat == sat64(subtree_kib(t, p, seen0)));
    }
    let popped = visited.pop();
    proof {
        assert(visited@ =~= old(visited)@);
    }
    process_memory.insert(
        p,
        MemoryStats { aggregate_kib: agg, private_kib },
    );
    proof {
        assert(sat64(private_kib_of(t, p)) == private_kib);
        assert(process_memory@ =~= stats_after(t, p, seen0, old(process_memory)@));
    }
    agg
}

/// Computes the per-pid memory figures for the subtree rooted at `pid`.
/// When `pid` has no entry in the table — the watched process exited
/// before the snapshot — the result is empty and the tick reports
/// nothing.
pub fn compute_memory_stats(
    pid: u64,
    process_children: &HashMap<u64, ProcessEntry>,
) -> (process_memory: HashMap<u64, MemoryStats>)
    ensures
        process_memory@ == stats_map(table_view(process_children@), pid),
        table_view(process_children@).contains_key(pid) ==> {
            &&& process_memory@.contains_key(pid)
            &&& process_memory@[pid].aggregate_kib == sat64(
                aggregate_kib_of(table_view(process_children@), pid),
            )
            &&& process_memory@[pid].private_kib == private_kib_of(
                table_view(process_children@),
                pid,
            )
        },
        !table_view(process_children@).contains_key(pid) ==> process_memory@ == Map::<
            u64,
            MemoryStats,
        >::empty(),
        forall|q: u64| #[trigger]
            process_memory@.contains_key(q) ==> table_view(process_children@).contains_key(q)
                && process_memory@[q].private_kib == private_kib_of(
                table_view(process_children@),
                q,
            ) && process_memory@[q].aggregate_kib >= process_memory@[q].private_kib,
{
    let mut process_memory: HashMap<u64, MemoryStats> = HashMap::new();
    if process_children.contains_key(&pid) {
        let mut visited: Vec<u64> = Vec::new();
        proof {
            assert(!visited@.contains(pid));
            assert(visited@.to_set() =~= Set::<u64>::empty());
        }
        compute_aggregate_memory_kib(pid, process_children, &mut visited, &mut process_memory);
        proof {
            assert(process_memory@ == stats_map(table_view(process_children@), pid));
        }
    } else {
        proof {
            assert(process_memory@ =~= Map::<u64, MemoryStats>::empty());
        }
    }
    process_memory
}

} // verus!
