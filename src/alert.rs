//! Threshold scans of CPU and memory usage.

use vstd::prelude::*;

use crate::record::ProcessRecord;

verus! {

/// Which thresholds a process went over.
#[derive(Clone, Copy, PartialEq, Eq, Structural, Debug)]
pub struct Triggers {
    pub cpu: bool,
    pub memory: bool,
}

/// One process that went over a threshold.
pub struct AlertRecord {
    pub pid: u32,
    pub name: String,
    pub cpu_centi: Option<u32>,
    pub memory_kb: u64,
    pub triggered_by: Triggers,
}

/// CPU usage strictly above the threshold; an invalid reading never is.
pub open spec fn over_cpu(x: ProcessRecord, cpu_threshold_centi: u32) -> bool {
    match x.cpu_centi {
        Some(c) => c > cpu_threshold_centi,
        None => false,
    }
}

/// Memory strictly above the threshold.
pub open spec fn over_memory(x: ProcessRecord, memory_threshold_kb: u64) -> bool {
    x.memory_kb > memory_threshold_kb
}

pub open spec fn is_alert(x: ProcessRecord, ct: u32, mt: u64) -> bool {
    over_cpu(x, ct) || over_memory(x, mt)
}

/// The alert raised for `x`.
pub open spec fn alert_of(x: ProcessRecord, ct: u32, mt: u64) -> AlertRecord {
    AlertRecord {
        pid: x.pid,
        name: x.name,
        cpu_centi: x.cpu_centi,
        memory_kb: x.memory_kb,
        triggered_by: Triggers { cpu: over_cpu(x, ct), memory: over_memory(x, mt) },
    }
}

/// The records of `s` over a threshold, in the order of `s`.
pub open spec fn alerting(s: Seq<ProcessRecord>, ct: u32, mt: u64) -> Seq<ProcessRecord> {
    s.filter(|x: ProcessRecord| is_alert(x, ct, mt))
}

/// The alerts of a scan of `s`: one for each record over a threshold, in the
/// order of `s`.
pub open spec fn alerts_of(s: Seq<ProcessRecord>, ct: u32, mt: u64) -> Seq<AlertRecord> {
    alerting(s, ct, mt).map_values(|x: ProcessRecord| alert_of(x, ct, mt))
}

/// Scans records against a CPU threshold, in hundredths of a percent, and a
/// memory threshold in kilobytes. Both comparisons are strict.
pub fn scan_alerts(records: &Vec<ProcessRecord>, cpu_threshold_centi: u32, memory_threshold_kb: u64) -> (r: Vec<AlertRecord>)
    ensures
        r@ == alerts_of(records@, cpu_threshold_centi, memory_threshold_kb),
{
    let ghost ct = cpu_threshold_centi;
    let ghost mt = memory_threshold_kb;
    let mut r: Vec<AlertRecord> = Vec::new();
    let mut i: usize = 0;
    while i < records.len()
        invariant
            i <= records@.len(),
            ct == cpu_threshold_centi,
            mt == memory_threshold_kb,
            r@ == alerts_of(records@.take(i as int), ct, mt),
        decreases records@.len() - i,
    {
        let x = &records[i];
        let cpu = match x.cpu_centi {
            Some(c) => c > cpu_threshold_centi,
            None => false,
        };
        let memory = x.memory_kb > memory_threshold_kb;
        proof {
            reveal(Seq::filter);
            assert(records@.take(i + 1).drop_last() =~= records@.take(i as int));
            assert(records@.take(i + 1).last() == records@[i as int]);
        }
        proof {
            if !(cpu || memory) {
                assert(alerting(records@.take(i + 1), ct, mt) == alerting(records@.take(i as int), ct, mt));
            }
        }
        if cpu || memory {
            r.push(
                AlertRecord {
                    pid: x.pid,
                    name: x.name.clone(),
                    cpu_centi: x.cpu_centi,
                    memory_kb: x.memory_kb,
                    triggered_by: Triggers { cpu, memory },
                },
            );
            proof {
                let f0 = alerting(records@.take(i as int), ct, mt);
                assert(alerting(records@.take(i + 1), ct, mt) == f0.push(records@[i as int]));
                assert(f0.push(records@[i as int]).map_values(|x: ProcessRecord| alert_of(x, ct, mt))
                    =~= f0.map_values(|x: ProcessRecord| alert_of(x, ct, mt)).push(
                    alert_of(records@[i as int], ct, mt),
                ));
            }
        }
        i = i + 1;
    }
    assert(records@.take(records@.len() as int) =~= records@);
    r
}

} // verus!
