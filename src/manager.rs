//! The engine: the current snapshot, the queries over it, the control
//! actions and their history.

use vstd::prelude::*;

use crate::alert::{alerts_of, scan_alerts, AlertRecord};
use crate::history::{
    appended, outcome_of, platform_outcome, ControlAction, FailureReason, History, HistoryEntry,
    Outcome,
};
use crate::query::{filter_by_name, filter_by_owner, name_filtered, owner_filtered};
use crate::record::{
    contains_pid, copy_records, has_pid, well_formed, ProcessRecord, Snapshot, SystemTotals,
};
use crate::text::{export_text, history_text, render_export_text, render_history};
use crate::tree::{build_tree, is_forest_of, TreeNode};
use vstd::string::*;

verus! {

/// The lowest scheduling priority value the platform takes.
pub const MIN_NICENESS: i32 = -20;

/// The highest scheduling priority value the platform takes.
pub const MAX_NICENESS: i32 = 19;

/// A request made to the platform.
#[derive(Clone, Copy, PartialEq, Eq, Structural, Debug)]
pub enum ControlRequest {
    Kill { pid: usize },
    SetNiceness { pid: usize, niceness: i32 },
}

/// A pid that may be handed to the platform: not 0, which would signal the
/// caller's own process group, and within the platform's signed pid range.
pub open spec fn valid_target(pid: usize) -> bool {
    0 < pid <= i32::MAX as usize
}

/// The platform's process-control calls. Each call is one request, logged
/// with the success flag that the platform reported; nothing is assumed of
/// that flag.
pub trait ProcessControl {
    /// The requests made so far, oldest first, each with its answer.
    spec fn requests(&self) -> Seq<(ControlRequest, bool)>;

    /// Sends the forceful termination signal to `pid`.
    fn send_kill(&mut self, pid: usize) -> (ok: bool)
        ensures
            final(self).requests() == old(self).requests().push((ControlRequest::Kill { pid }, ok)),
    ;

    /// Sets the scheduling priority of `pid` to `niceness`.
    fn set_niceness(&mut self, pid: usize, niceness: i32) -> (ok: bool)
        ensures
            final(self).requests() == old(self).requests().push(
                (ControlRequest::SetNiceness { pid, niceness }, ok),
            ),
    ;
}

/// A stand-in platform that answers every request with a fixed flag and
/// keeps the requests it got.
pub struct ScriptedControl {
    pub answer: bool,
    pub log: Vec<(ControlRequest, bool)>,
}

impl ScriptedControl {
    pub fn new(answer: bool) -> (r: ScriptedControl)
        ensures
            r.answer == answer,
            r.log@ == Seq::<(ControlRequest, bool)>::empty(),
    {
        ScriptedControl { answer, log: Vec::new() }
    }
}

impl ProcessControl for ScriptedControl {
    open spec fn requests(&self) -> Seq<(ControlRequest, bool)> {
        self.log@
    }

    fn send_kill(&mut self, pid: usize) -> (ok: bool) {
        let ok = self.answer;
        self.log.push((ControlRequest::Kill { pid }, ok));
        ok
    }

    fn set_niceness(&mut self, pid: usize, niceness: i32) -> (ok: bool) {
        let ok = self.answer;
        self.log.push((ControlRequest::SetNiceness { pid, niceness }, ok));
        ok
    }
}

/// The platform, reached through one function that carries out a request
/// and reports whether it succeeded. Each call is logged.
pub struct PlatformControl<F: Fn(ControlRequest) -> bool> {
    call: F,
    made: Ghost<Seq<(ControlRequest, bool)>>,
}

impl<F: Fn(ControlRequest) -> bool> PlatformControl<F> {
    /// `call` may be handed any request.
    #[verifier::type_invariant]
    spec fn inv(&self) -> bool {
        forall|q: ControlRequest| #[trigger] self.call.requires((q,))
    }

    /// Wraps the function that carries out requests; no request made yet.
    pub fn new(call: F) -> (r: PlatformControl<F>)
        requires
            forall|q: ControlRequest| #[trigger] call.requires((q,)),
        ensures
            r.requests() == Seq::<(ControlRequest, bool)>::empty(),
    {
        PlatformControl { call, made: Ghost(Seq::empty()) }
    }

    fn issue(&mut self, q: ControlRequest) -> (ok: bool)
        ensures
            final(self).requests() == old(self).requests().push((q, ok)),
    {
        proof {
            use_type_invariant(&*self);
        }
        let ok = (self.call)(q);
        self.made = Ghost(self.made@.push((q, ok)));
        ok
    }
}

impl<F: Fn(ControlRequest) -> bool> ProcessControl for PlatformControl<F> {
    closed spec fn requests(&self) -> Seq<(ControlRequest, bool)> {
        self.made@
    }

    fn send_kill(&mut self, pid: usize) -> (ok: bool) {
        self.issue(ControlRequest::Kill { pid })
    }

    fn set_niceness(&mut self, pid: usize, niceness: i32) -> (ok: bool) {
        self.issue(ControlRequest::SetNiceness { pid, niceness })
    }
}

/// The forms an export can take.
#[derive(Clone, Copy, PartialEq, Eq, Structural, Debug)]
pub enum ExportFormat {
    /// One `<pid>: <name>` line per record.
    Text,
    /// An array of per-process objects, serialised by the caller.
    Json,
}

/// The export form that a format name selects: `"json"` the structured
/// one, any other name the text one.
pub open spec fn format_of(format: Seq<char>) -> ExportFormat {
    if format == "json"@ {
        ExportFormat::Json
    } else {
        ExportFormat::Text
    }
}

impl ExportFormat {
    /// `"json"` names the structured form; any other name the text form.
    pub fn parse(format: &str) -> (r: ExportFormat)
        ensures
            r == format_of(format@),
    {
        let given = String::from_str(format);
        let json = String::from_str("json");
        if given.eq(&json) {
            ExportFormat::Json
        } else {
            ExportFormat::Text
        }
    }
}

/// What an export hands to the writer: the text to write, or the records to
/// serialise.
pub enum ExportPayload {
    Text(String),
    Records(Vec<ProcessRecord>),
}

/// Exports a list of records in the given form: the text form is rendered
/// here, the structured form hands the records on for serialisation.
pub fn export_records(records: &Vec<ProcessRecord>, format: ExportFormat) -> (r: ExportPayload)
    ensures
        match format {
            ExportFormat::Text => r matches ExportPayload::Text(t) && t@ == export_text(records@),
            ExportFormat::Json => r matches ExportPayload::Records(v) && v@ == records@,
        },
{
    match format {
        ExportFormat::Text => ExportPayload::Text(render_export_text(records)),
        ExportFormat::Json => ExportPayload::Records(copy_records(records)),
    }
}

/// The process manager: it owns the current snapshot and the history of
/// control actions.
pub struct ProcessManager {
    snapshot: Snapshot,
    history: History,
}

impl ProcessManager {
    /// The current snapshot is always well formed.
    #[verifier::type_invariant]
    spec fn inv(&self) -> bool {
        well_formed(self.snapshot.records@)
    }

    /// The records of the current snapshot.
    pub closed spec fn records(&self) -> Seq<ProcessRecord> {
        self.snapshot.records@
    }

    /// The counters of the current snapshot.
    pub closed spec fn totals(&self) -> SystemTotals {
        self.snapshot.totals
    }

    /// The history of control actions, oldest first.
    pub closed spec fn log(&self) -> Seq<HistoryEntry> {
        self.history.view()
    }

    /// A manager with an empty snapshot and an empty history.
    pub fn new() -> (r: ProcessManager)
        ensures
            r.records() == Seq::<ProcessRecord>::empty(),
            r.log() == Seq::<HistoryEntry>::empty(),
    {
        let totals = SystemTotals {
            total_memory_kb: 0,
            used_memory_kb: 0,
            total_swap_kb: 0,
            used_swap_kb: 0,
            uptime_seconds: 0,
            cpu_core_count: 0,
        };
        ProcessManager {
            snapshot: Snapshot { records: Vec::new(), totals },
            history: History::new(),
        }
    }

    /// Replaces the current snapshot with a fresh, well-formed one; the
    /// history stays.
    pub fn update_snapshot(&mut self, snapshot: Snapshot)
        requires
            well_formed(snapshot.records@),
        ensures
            final(self).records() == snapshot.records@,
            final(self).totals() == snapshot.totals,
            final(self).log() == old(self).log(),
    {
        self.snapshot = snapshot;
    }

    /// The counters of the current snapshot.
    pub fn system_totals(&self) -> (r: SystemTotals)
        ensures
            r == self.totals(),
    {
        self.snapshot.totals
    }

    /// A copy of the current snapshot's records.
    pub fn list_processes(&self) -> (r: Vec<ProcessRecord>)
        ensures
            r@ == self.records(),
            well_formed(r@),
    {
        proof {
            use_type_invariant(self);
        }
        copy_records(&self.snapshot.records)
    }

    /// The records whose name contains `name`, ignoring case.
    pub fn list_processes_by_name(&self, name: &str) -> (r: Vec<ProcessRecord>)
        ensures
            r@ == name_filtered(self.records(), name@),
            name@.len() == 0 ==> r@ == self.records(),
    {
        filter_by_name(&self.snapshot.records, name)
    }

    /// The records owned by the user named `user`.
    pub fn list_processes_by_user(&self, user: &str) -> (r: Vec<ProcessRecord>)
        ensures
            r@ == owner_filtered(self.records(), user@),
    {
        filter_by_owner(&self.snapshot.records, user)
    }

    /// The forest of the current snapshot.
    pub fn process_tree(&self) -> (r: Vec<TreeNode>)
        ensures
            is_forest_of(self.records(), r@),
    {
        build_tree(&self.snapshot.records)
    }

    /// Each record's pid, name and parent pid, in snapshot order.
    pub fn get_process_tree(&self) -> (r: Vec<(usize, String, Option<usize>)>)
        ensures
            r@.len() == self.records().len(),
            forall|i: int|
                0 <= i < r@.len() ==> {
                    let x = self.records()[i];
                    &&& (#[trigger] r@[i]).0 == x.pid as usize
                    &&& r@[i].1@ == x.name@
                    &&& r@[i].2 == match x.parent_pid {
                        Some(p) => Some(p as usize),
                        None => None,
                    }
                },
    {
        let records = &self.snapshot.records;
        let mut r: Vec<(usize, String, Option<usize>)> = Vec::new();
        let mut i: usize = 0;
        while i < records.len()
            invariant
                records@ == self.records(),
                i <= records@.len(),
                r@.len() == i,
                forall|k: int|
                    0 <= k < i ==> {
                        let x = records@[k];
                        &&& (#[trigger] r@[k]).0 == x.pid as usize
                        &&& r@[k].1@ == x.name@
                        &&& r@[k].2 == match x.parent_pid {
                            Some(p) => Some(p as usize),
                            None => None,
                        }
                    },
            decreases records@.len() - i,
        {
            let x = &records[i];
            let parent = match x.parent_pid {
                Some(p) => Some(p as usize),
                None => None,
            };
            r.push((x.pid as usize, x.name.clone(), parent));
            i = i + 1;
        }
        r
    }

    /// The alerts of the current snapshot; the CPU threshold is in
    /// hundredths of a percent.
    pub fn check_alerts(&self, cpu_threshold_centi: u32, mem_threshold: u64) -> (r: Vec<
        AlertRecord,
    >)
        ensures
            r@ == alerts_of(self.records(), cpu_threshold_centi, mem_threshold),
    {
        scan_alerts(&self.snapshot.records, cpu_threshold_centi, mem_threshold)
    }

    /// Appends one entry to the history; the snapshot stays.
    fn log_action(&mut self, timestamp_ms: i64, action: ControlAction, pid: usize, outcome: Outcome)
        ensures
            final(self).records() == old(self).records(),
            appended(old(self).log(), final(self).log(), timestamp_ms, action, pid, outcome),
    {
        proof {
            use_type_invariant(&*self);
        }
        let mut h = History::new();
        std::mem::swap(&mut self.history, &mut h);
        h.record(timestamp_ms, action, pid, outcome);
        std::mem::swap(&mut self.history, &mut h);
    }

    /// Terminates `pid` by force. A pid that cannot be a target fails as an
    /// invalid argument, and a pid not in the current snapshot as not found,
    /// both without a request to the platform. Otherwise one kill request
    /// for `pid` goes to the platform, and its answer is the result. Either
    /// way one history entry, made at `timestamp_ms`, is added.
    pub fn kill_process<C: ProcessControl>(
        &mut self,
        control: &mut C,
        timestamp_ms: i64,
        pid: usize,
    ) -> (r: bool)
        ensures
            final(self).records() == old(self).records(),
            !valid_target(pid) ==> {
                &&& !r
                &&& *final(control) == *old(control)
                &&& appended(
                    old(self).log(),
                    final(self).log(),
                    timestamp_ms,
                    ControlAction::Kill,
                    pid,
                    Outcome::Failure { reason: FailureReason::InvalidArgument },
                )
            },
            valid_target(pid) && !has_pid(old(self).records(), pid) ==> {
                &&& !r
                &&& *final(control) == *old(control)
                &&& appended(
                    old(self).log(),
                    final(self).log(),
                    timestamp_ms,
                    ControlAction::Kill,
                    pid,
                    Outcome::Failure { reason: FailureReason::NotFound },
                )
            },
            valid_target(pid) && has_pid(old(self).records(), pid) ==> {
                &&& final(control).requests() == old(control).requests().push(
                    (ControlRequest::Kill { pid }, r),
                )
                &&& appended(
                    old(self).log(),
                    final(self).log(),
                    timestamp_ms,
                    ControlAction::Kill,
                    pid,
                    platform_outcome(r),
                )
            },
    {
        if pid == 0 || pid > i32::MAX as usize {
            self.log_action(
                timestamp_ms,
                ControlAction::Kill,
                pid,
                Outcome::Failure { reason: FailureReason::InvalidArgument },
            );
            return false;
        }
        if !contains_pid(&self.snapshot.records, pid) {
            self.log_action(
                timestamp_ms,
                ControlAction::Kill,
                pid,
                Outcome::Failure { reason: FailureReason::NotFound },
            );
            return false;
        }
        let ok = control.send_kill(pid);
        self.log_action(timestamp_ms, ControlAction::Kill, pid, outcome_of(ok));
        ok
    }

    /// Sets the scheduling priority of `pid`. A value outside
    /// `MIN_NICENESS..=MAX_NICENESS`, or a pid that cannot be a target,
    /// fails as an invalid argument, and a pid not in the current snapshot
    /// as not found, all without a request to the platform. Otherwise one
    /// priority request goes to the platform, and its answer is the result.
    /// Either way one history entry, made at `timestamp_ms`, is added.
    pub fn change_priority<C: ProcessControl>(
        &mut self,
        control: &mut C,
        timestamp_ms: i64,
        pid: usize,
        priority: i32,
    ) -> (r: bool)
        ensures
            final(self).records() == old(self).records(),
            !(MIN_NICENESS <= priority <= MAX_NICENESS && valid_target(pid)) ==> {
                &&& !r
                &&& *final(control) == *old(control)
                &&& appended(
                    old(self).log(),
                    final(self).log(),
                    timestamp_ms,
                    ControlAction::SetPriority { value: priority },
                    pid,
                    Outcome::Failure { reason: FailureReason::InvalidArgument },
                )
            },
            MIN_NICENESS <= priority <= MAX_NICENESS && valid_target(pid) && !has_pid(
                old(self).records(),
                pid,
            ) ==> {
                &&& !r
                &&& *final(control) == *old(control)
                &&& appended(
                    old(self).log(),
                    final(self).log(),
                    timestamp_ms,
                    ControlAction::SetPriority { value: priority },
                    pid,
                    Outcome::Failure { reason: FailureReason::NotFound },
                )
            },
            MIN_NICENESS <= priority <= MAX_NICENESS && valid_target(pid) && has_pid(
                old(self).records(),
                pid,
            ) ==> {
                &&& final(control).requests() == old(control).requests().push(
                    (ControlRequest::SetNiceness { pid, niceness: priority }, r),
                )
                &&& appended(
                    old(self).log(),
                    final(self).log(),
                    timestamp_ms,
                    ControlAction::SetPriority { value: priority },
                    pid,
                    platform_outcome(r),
                )
            },
    {
        let action = ControlAction::SetPriority { value: priority };
        if priority < MIN_NICENESS || priority > MAX_NICENESS || pid == 0 || pid > i32::MAX as usize {
            self.log_action(
                timestamp_ms,
                action,
                pid,
                Outcome::Failure { reason: FailureReason::InvalidArgument },
            );
            return false;
        }
        if !contains_pid(&self.snapshot.records, pid) {
            self.log_action(
                timestamp_ms,
                action,
                pid,
                Outcome::Failure { reason: FailureReason::NotFound },
            );
            return false;
        }
        let ok = control.set_niceness(pid, priority);
        self.log_action(timestamp_ms, action, pid, outcome_of(ok));
        ok
    }

    /// Restarting a process is not offered: the attempt is recorded as
    /// unsupported, at `timestamp_ms`, and fails.
    pub fn restart_process(&mut self, timestamp_ms: i64, pid: usize) -> (r: bool)
        ensures
            !r,
            final(self).records() == old(self).records(),
            appended(
                old(self).log(),
                final(self).log(),
                timestamp_ms,
                ControlAction::RestartAttempt,
                pid,
                Outcome::Failure { reason: FailureReason::Unsupported },
            ),
    {
        self.log_action(
            timestamp_ms,
            ControlAction::RestartAttempt,
            pid,
            Outcome::Failure { reason: FailureReason::Unsupported },
        );
        false
    }

    /// The history as text: one line per entry, or a notice when it is
    /// empty.
    pub fn show_history(&self) -> (r: String)
        ensures
            r@ == history_text(self.log()),
    {
        match self.history.read_all() {
            Some(entries) => render_history(&entries),
            None => {
                let empty: Vec<HistoryEntry> = Vec::new();
                assert(empty@ =~= self.log());
                render_history(&empty)
            },
        }
    }

    /// The current snapshot's records in the named export form.
    pub fn export_processes(&self, format: &str) -> (r: ExportPayload)
        ensures
            match format_of(format@) {
                ExportFormat::Text => r matches ExportPayload::Text(t) && t@ == export_text(
                    self.records(),
                ),
                ExportFormat::Json => r matches ExportPayload::Records(v) && v@ == self.records(),
            },
    {
        export_records(&self.snapshot.records, ExportFormat::parse(format))
    }

    /// The history, oldest first, or `None` when no action has been made.
    pub fn history(&self) -> (r: Option<Vec<HistoryEntry>>)
        ensures
            self.log().len() == 0 ==> r is None,
            self.log().len() > 0 ==> r is Some && r->0@ == self.log(),
    {
        self.history.read_all()
    }
}

} // verus!
