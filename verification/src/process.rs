//! Plain-value model of one process as seen in a snapshot of the OS process
//! table, and of the machine-wide memory figures.
use vstd::prelude::*;

verus! {

/// Mathematical view of a [`ProcessRecord`].
#[verifier::ext_equal]
pub struct ProcessRecordV {
    pub pid: u64,
    pub parent: Option<u64>,
    pub memory_kib: u64,
    pub name: Seq<char>,
    pub exe: Seq<char>,
    pub cmd: Seq<Seq<char>>,
}

/// One process from a snapshot: its pid, the pid of its parent if it has
/// one, its resident memory in KiB, its reported name, the path of its
/// executable and its argument list. Records are produced fresh for each
/// snapshot and never persisted across ticks, since the OS may reuse pids.
pub struct ProcessRecord {
    pub pid: u64,
    pub parent: Option<u64>,
    pub memory_kib: u64,
    pub name: String,
    pub exe: String,
    pub cmd: Vec<String>,
}

impl View for ProcessRecord {
    type V = ProcessRecordV;

    open spec fn view(&self) -> ProcessRecordV {
        ProcessRecordV {
            pid: self.pid,
            parent: self.parent,
            memory_kib: self.memory_kib,
            name: self.name@,
            exe: self.exe@,
            cmd: self.cmd@.map_values(|s: String| s@),
        }
    }
}

impl Clone for ProcessRecord {
    fn clone(&self) -> (r: Self)
        ensures
            r@ == self@,
    {
        let mut cmd: Vec<String> = Vec::new();
        let mut i: usize = 0;
        while i < self.cmd.len()
            invariant
                i <= self.cmd@.len(),
                cmd@.len() == i as nat,
                forall|j: int| 0 <= j < i ==> cmd@[j]@ == self.cmd@[j]@,
            decreases self.cmd@.len() - i,
        {
            cmd.push(self.cmd[i].clone());
            i += 1;
        }
        let r = ProcessRecord {
            pid: self.pid,
            parent: self.parent,
            memory_kib: self.memory_kib,
            name: self.name.clone(),
            exe: self.exe.clone(),
            cmd,
        };
        proof {
            assert(r@.cmd =~= self@.cmd);
            assert(r@ =~= self@);
        }
        r
    }
}

/// Machine-wide memory and swap figures, in KiB, as one snapshot saw them.
#[derive(Clone, Copy, PartialEq, Eq, Structural)]
pub struct MemInfo {
    pub total_kib: u64,
    pub used_kib: u64,
    pub free_kib: u64,
    pub available_kib: u64,
    pub swap_total_kib: u64,
    pub swap_used_kib: u64,
    pub swap_free_kib: u64,
}

} // verus!
