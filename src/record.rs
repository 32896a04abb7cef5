//! Process records and snapshots.

use vstd::prelude::*;
use std::collections::HashSet;

verus! {

/// A point-in-time view of one operating-system process.
///
/// CPU usage is held in hundredths of a percent; `None` stands for a value
/// that the platform reported as invalid (not a number).
pub struct ProcessRecord {
    pub pid: u32,
    pub name: String,
    pub owner: Option<String>,
    pub cpu_centi: Option<u32>,
    pub memory_kb: u64,
    pub parent_pid: Option<u32>,
}

impl Clone for ProcessRecord {
    fn clone(&self) -> (r: Self)
        ensures
            r == *self,
    {
        let owner = match &self.owner {
            Some(o) => Some(o.clone()),
            None => None,
        };
        ProcessRecord {
            pid: self.pid,
            name: self.name.clone(),
            owner,
            cpu_centi: self.cpu_centi,
            memory_kb: self.memory_kb,
            parent_pid: self.parent_pid,
        }
    }
}

/// System-wide counters taken with a snapshot.
#[derive(Clone, Copy, PartialEq, Eq, Structural, Debug)]
pub struct SystemTotals {
    pub total_memory_kb: u64,
    pub used_memory_kb: u64,
    pub total_swap_kb: u64,
    pub used_swap_kb: u64,
    pub uptime_seconds: u64,
    pub cpu_core_count: u32,
}

/// One capture of the processes of the machine and its counters. The
/// records come in no particular order.
pub struct Snapshot {
    pub records: Vec<ProcessRecord>,
    pub totals: SystemTotals,
}

/// A snapshot's records are well formed: no pid occurs twice, and every
/// name is non-empty.
pub open spec fn well_formed(s: Seq<ProcessRecord>) -> bool {
    &&& forall|i: int, j: int| 0 <= i < j < s.len() ==> (#[trigger] s[i]).pid != (#[trigger] s[j]).pid
    &&& forall|i: int| 0 <= i < s.len() ==> (#[trigger] s[i]).name@.len() > 0
}

/// Tells whether records are well formed, in one pass over a set of the
/// pids seen so far.
pub fn is_well_formed(records: &Vec<ProcessRecord>) -> (r: bool)
    ensures
        r == well_formed(records@),
{
    broadcast use vstd::std_specs::hash::group_hash_axioms;

    let ghost s = records@;
    let mut seen: HashSet<u32> = HashSet::new();
    let mut i: usize = 0;
    while i < records.len()
        invariant
            s == records@,
            i <= s.len(),
            well_formed(s.take(i as int)),
            forall|p: u32| #[trigger] seen@.contains(p) <==> exists|j: int| 0 <= j < i && s[j].pid == p,
        decreases s.len() - i,
    {
        if records[i].name.as_str().is_empty() {
            return false;
        }
        let p = records[i].pid;
        if !seen.insert(p) {
            let ghost j = choose|j: int| 0 <= j < i && s[j].pid == p;
            assert(s[j].pid == s[i as int].pid);
            return false;
        }
        proof {
            let t = s.take(i + 1);
            assert forall|a: int, b: int| 0 <= a < b < t.len() implies (#[trigger] t[a]).pid
                != (#[trigger] t[b]).pid by {
                if b < i {
                    assert(s.take(i as int)[a] == t[a]);
                    assert(s.take(i as int)[b] == t[b]);
                } else {
                    assert(!(exists|j: int| 0 <= j < i && s[j].pid == p));
                    assert(s[a].pid != p);
                }
            }
            assert forall|a: int| 0 <= a < t.len() implies (#[trigger] t[a]).name@.len() > 0 by {
                if a < i {
                    assert(s.take(i as int)[a] == t[a]);
                }
            }
        }
        i = i + 1;
    }
    assert(s.take(s.len() as int) =~= s);
    true
}

/// A snapshot's records include one with identifier `pid`.
pub open spec fn has_pid(s: Seq<ProcessRecord>, pid: usize) -> bool {
    exists|j: int| 0 <= j < s.len() && s[j].pid as usize == pid
}

/// Tells whether some record carries identifier `pid`.
pub fn contains_pid(records: &Vec<ProcessRecord>, pid: usize) -> (r: bool)
    ensures
        r == has_pid(records@, pid),
{
    let mut i: usize = 0;
    while i < records.len()
        invariant
            i <= records@.len(),
            forall|j: int| 0 <= j < i ==> records@[j].pid as usize != pid,
        decreases records@.len() - i,
    {
        if records[i].pid as usize == pid {
            return true;
        }
        i = i + 1;
    }
    false
}

/// Copies a list of records, keeping every record and its position.
pub fn copy_records(records: &Vec<ProcessRecord>) -> (r: Vec<ProcessRecord>)
    ensures
        r@ == records@,
{
    let mut r: Vec<ProcessRecord> = Vec::new();
    let mut i: usize = 0;
    while i < records.len()
        invariant
            i <= records@.len(),
            r@ == records@.take(i as int),
        decreases records@.len() - i,
    {
        r.push(records[i].clone());
        i = i + 1;
        assert(r@ =~= records@.take(i as int));
    }
    assert(r@ =~= records@);
    r
}

} // verus!
