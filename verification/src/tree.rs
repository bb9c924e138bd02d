//! Tree Builder: turns the flat set of process records from one snapshot
//! into a parent→children index keyed by pid.
use vstd::prelude::*;
use std::collections::HashMap;
use crate::process::{ProcessRecord, ProcessRecordV};

verus! {

broadcast use vstd::std_specs::hash::group_hash_axioms;

/// Mathematical view of a [`ProcessEntry`].
#[verifier::ext_equal]
pub struct ProcessEntryV {
    pub record: Option<ProcessRecordV>,
    pub children: Seq<u64>,
}

/// One node of the parent→children index: the record attached to this pid,
/// absent when the pid was only ever seen as some record's parent (the
/// process exited between indexing and lookup), and the pids of its
/// children in the order the pass discovered them.
pub struct ProcessEntry {
    pub record: Option<ProcessRecord>,
    pub children: Vec<u64>,
}

impl View for ProcessEntry {
    type V = ProcessEntryV;

    open spec fn view(&self) -> ProcessEntryV {
        ProcessEntryV {
            record: match self.record {
                Some(r) => Some(r@),
                None => None,
            },
            children: self.children@,
        }
    }
}

impl ProcessEntry {
    /// An entry holding no record and no children yet.
    pub fn empty() -> (e: Self)
        ensures
            e@.record is None,
            e@.children == Seq::<u64>::empty(),
    {
        ProcessEntry { record: None, children: Vec::new() }
    }
}

/// The view of a whole table: each entry replaced by its mathematical view.
pub open spec fn table_view(t: Map<u64, ProcessEntry>) -> Map<u64, ProcessEntryV> {
    t.map_values(|e: ProcessEntry| e@)
}

/// The entry at `p`, or a fresh empty one when the table has none.
pub open spec fn entry_or_empty(t: Map<u64, ProcessEntryV>, p: u64) -> ProcessEntryV {
    if t.contains_key(p) {
        t[p]
    } else {
        ProcessEntryV { record: None, children: Seq::empty() }
    }
}

/// The table after the builder has handled one record: the record is
/// attached to the entry at its own pid, and, when the record names a
/// parent, the record's pid is appended to that parent's children, the
/// parent's entry being created without a record if it is absent.
pub open spec fn insert_record(t: Map<u64, ProcessEntryV>, r: ProcessRecordV) -> Map<
    u64,
    ProcessEntryV,
> {
    let e = entry_or_empty(t, r.pid);
    let t1 = t.insert(r.pid, ProcessEntryV { record: Some(r), children: e.children });
    match r.parent {
        Some(pp) => {
            let pe = entry_or_empty(t1, pp);
            t1.insert(pp, ProcessEntryV { record: pe.record, children: pe.children.push(r.pid) })
        },
        None => t1,
    }
}

/// The parent→children index that a single left-to-right pass over the
/// snapshot builds.
pub open spec fn tree_of(rs: Seq<ProcessRecordV>) -> Map<u64, ProcessEntryV>
    decreases rs.len(),
{
    if rs.len() == 0 {
        Map::empty()
    } else {
        insert_record(tree_of(rs.drop_last()), rs.last())
    }
}

/// The views of a snapshot's records, in order.
pub open spec fn records_view(rs: Seq<ProcessRecord>) -> Seq<ProcessRecordV> {
    rs.map_values(|r: ProcessRecord| r@)
}

/// `p` is a pid the builder indexes: some record owns it or names it as
/// its parent.
pub open spec fn is_indexed(rs: Seq<ProcessRecordV>, p: u64) -> bool {
    exists|i: int| 0 <= i < rs.len() && (rs[i].pid == p || rs[i].parent == Some(p))
}

/// The pids of the records that name `p` as their parent, in order.
pub open spec fn child_pids(rs: Seq<ProcessRecordV>, p: u64) -> Seq<u64>
    decreases rs.len(),
{
    if rs.len() == 0 {
        Seq::empty()
    } else {
        child_pids(rs.drop_last(), p) + (if rs.last().parent == Some(p) {
            seq![rs.last().pid]
        } else {
            Seq::empty()
        })
    }
}

/// The last record that owns pid `p`, if any.
pub open spec fn last_record(rs: Seq<ProcessRecordV>, p: u64) -> Option<ProcessRecordV>
    decreases rs.len(),
{
    if rs.len() == 0 {
        None
    } else if rs.last().pid == p {
        Some(rs.last())
    } else {
        last_record(rs.drop_last(), p)
    }
}

/// What `tree_of` holds at any pid: the index has an entry for `p`
/// exactly when some record owns or names `p`; the entry carries the
/// last record owning `p` and the pids of the records naming `p`, in
/// order.
pub proof fn lemma_tree_of_characterization(rs: Seq<ProcessRecordV>, p: u64)
    ensures
        tree_of(rs).contains_key(p) == is_indexed(rs, p),
        tree_of(rs).contains_key(p) ==> tree_of(rs)[p].children == child_pids(rs, p)
            && tree_of(rs)[p].record == last_record(rs, p),
        !tree_of(rs).contains_key(p) ==> child_pids(rs, p) == Seq::<u64>::empty() && last_record(
            rs,
            p,
        ) is None,
    decreases rs.len(),
{
    if rs.len() == 0 {
        assert(child_pids(rs, p) =~= Seq::<u64>::empty());
    } else {
        let butlast = rs.drop_last();
        let r = rs.last();
        lemma_tree_of_characterization(butlast, p);
        let t = tree_of(butlast);
        assert(tree_of(rs) == insert_record(t, r));
        if is_indexed(rs, p) {
            if !is_indexed(butlast, p) {
                assert(forall|i: int|
                    0 <= i < butlast.len() ==> !(butlast[i].pid == p || butlast[i].parent == Some(
                        p,
                    )));
                assert(forall|i: int| 0 <= i < rs.len() - 1 ==> rs[i] == butlast[i]);
                assert(r.pid == p || r.parent == Some(p));
            }
        } else {
            assert(forall|i: int| 0 <= i < butlast.len() ==> rs[i] == butlast[i]);
            assert(!(r.pid == p || r.parent == Some(p)));
            assert(!is_indexed(butlast, p)) by {
                if is_indexed(butlast, p) {
                    let i = choose|i: int|
                        0 <= i < butlast.len() && (butlast[i].pid == p || butlast[i].parent == Some(
                            p,
                        ));
                    assert(rs[i].pid == p || rs[i].parent == Some(p));
                }
            }
            assert(child_pids(rs, p) =~= Seq::<u64>::empty());
        }
        if is_indexed(butlast, p) {
            let i = choose|i: int|
                0 <= i < butlast.len() && (butlast[i].pid == p || butlast[i].parent == Some(p));
            assert(rs[i].pid == p || rs[i].parent == Some(p));
            assert(is_indexed(rs, p));
        }
        if tree_of(rs).contains_key(p) {
            if r.parent == Some(p) {
                assert(child_pids(rs, p) =~= child_pids(butlast, p).push(r.pid));
            } else {
                assert(child_pids(rs, p) =~= child_pids(butlast, p));
            }
        }
    }
}

/// Law: a record whose parent pid owns no record of its own still hangs
/// off an entry for that parent — record-less, but holding the child —
/// so the orphan stays reachable when the parent pid is queried.
pub proof fn lemma_orphan_parent_entry(rs: Seq<ProcessRecordV>, i: int, pp: u64)
    requires
        0 <= i < rs.len(),
        rs[i].parent == Some(pp),
        forall|j: int| 0 <= j < rs.len() ==> rs[j].pid != pp,
    ensures
        tree_of(rs).contains_key(pp),
        tree_of(rs)[pp].record is None,
        tree_of(rs)[pp].children.contains(rs[i].pid),
{
    lemma_tree_of_characterization(rs, pp);
    assert(is_indexed(rs, pp));
    lemma_last_record_none(rs, pp);
    lemma_child_pids_contains(rs, i, pp);
}

/// No record owns `p`: the index resolves no record for it.
proof fn lemma_last_record_none(rs: Seq<ProcessRecordV>, p: u64)
    requires
        forall|j: int| 0 <= j < rs.len() ==> rs[j].pid != p,
    ensures
        last_record(rs, p) is None,
    decreases rs.len(),
{
    if rs.len() > 0 {
        assert(forall|j: int| 0 <= j < rs.len() - 1 ==> rs.drop_last()[j] == rs[j]);
        lemma_last_record_none(rs.drop_last(), p);
    }
}

/// A record naming `p` as its parent puts its pid among `p`'s children.
proof fn lemma_child_pids_contains(rs: Seq<ProcessRecordV>, i: int, p: u64)
    requires
        0 <= i < rs.len(),
        rs[i].parent == Some(p),
    ensures
        child_pids(rs, p).contains(rs[i].pid),
    decreases rs.len(),
{
    let butlast = rs.drop_last();
    if i == rs.len() - 1 {
        assert(child_pids(rs, p) =~= child_pids(butlast, p).push(rs[i].pid));
        assert(child_pids(rs, p).last() == rs[i].pid);
    } else {
        assert(butlast[i] == rs[i]);
        lemma_child_pids_contains(butlast, i, p);
        let k = choose|k: int| 0 <= k < child_pids(butlast, p).len() && child_pids(butlast, p)[k] == rs[i].pid;
        assert(child_pids(rs, p)[k] == rs[i].pid);
    }
}

/// Builds the parent→children index from one snapshot in a single pass:
/// for each record, attach it to the entry at its pid and append its pid
/// to its parent's children, creating either entry when absent. A parent
/// pid that is absent from the snapshot still gets an entry, with no
/// record, so that its children stay reachable.
pub fn get_process_children(records: &Vec<ProcessRecord>) -> (t: HashMap<u64, ProcessEntry>)
    ensures
        table_view(t@) == tree_of(records_view(records@)),
{
    let mut t: HashMap<u64, ProcessEntry> = HashMap::new();
    proof {
        assert(table_view(t@) =~~= tree_of(records_view(records@).take(0)));
    }
    let mut i: usize = 0;
    while i < records.len()
        invariant
            i <= records@.len(),
            table_view(t@) == tree_of(records_view(records@).take(i as int)),
        decreases records@.len() - i,
    {
        let ghost t_before = table_view(t@);
        let r = &records[i];
        let mut e = match t.remove(&r.pid) {
            Some(e) => e,
            None => ProcessEntry::empty(),
        };
        proof {
            assert(e@ =~~= entry_or_empty(t_before, r.pid));
        }
        let ghost e_v = e@;
        e.record = Some(r.clone());
        t.insert(r.pid, e);
        proof {
            assert(table_view(t@) =~~= t_before.insert(
                r@.pid,
                ProcessEntryV { record: Some(r@), children: e_v.children },
            ));
        }
        let ghost t_mid = table_view(t@);
        if let Some(pp) = r.parent {
            let mut pe = match t.remove(&pp) {
                Some(e) => e,
                None => ProcessEntry::empty(),
            };
            proof {
                assert(pe@ =~~= entry_or_empty(t_mid, pp));
            }
            let ghost pe_v = pe@;
            pe.children.push(r.pid);
            t.insert(pp, pe);
            proof {
                assert(table_view(t@) =~~= t_mid.insert(
                    pp,
                    ProcessEntryV { record: pe_v.record, children: pe_v.children.push(r@.pid) },
                ));
            }
        }
        proof {
            assert(table_view(t@) =~~= insert_record(t_before, r@));
            assert(records_view(records@).take(i + 1).drop_last() =~= records_view(
                records@,
            ).take(i as int));
            assert(records_view(records@).take(i + 1).last() == r@);
        }
        i += 1;
    }
    proof {
        assert(records_view(records@).take(records@.len() as int) =~= records_view(records@));
    }
    t
}

} // verus!
