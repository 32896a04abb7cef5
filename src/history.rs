//! The audit trail of control actions.

use vstd::prelude::*;

verus! {

/// A control action that was attempted on a process.
#[derive(Clone, Copy, PartialEq, Eq, Structural, Debug)]
pub enum ControlAction {
    Kill,
    SetPriority { value: i32 },
    RestartAttempt,
}

/// Why a control action failed.
#[derive(Clone, Copy, PartialEq, Eq, Structural, Debug)]
pub enum FailureReason {
    /// No process with that identifier was in the current snapshot.
    NotFound,
    /// The argument was out of range; no call was made to the platform.
    InvalidArgument,
    /// The platform refused or failed the call.
    Refused,
    /// The action is not offered.
    Unsupported,
}

/// How a control action ended.
#[derive(Clone, Copy, PartialEq, Eq, Structural, Debug)]
pub enum Outcome {
    Success,
    Failure { reason: FailureReason },
}

/// One line of the audit trail. The timestamp is in milliseconds since the
/// Unix epoch, as the caller read it from the clock.
#[derive(Clone, Copy, PartialEq, Eq, Structural, Debug)]
pub struct HistoryEntry {
    pub timestamp_ms: i64,
    pub action: ControlAction,
    pub target_pid: usize,
    pub outcome: Outcome,
}

/// The outcome of an action that reached the platform, given what the
/// platform reported.
pub open spec fn platform_outcome(ok: bool) -> Outcome {
    if ok {
        Outcome::Success
    } else {
        Outcome::Failure { reason: FailureReason::Refused }
    }
}

/// Turns what the platform reported into an outcome.
pub fn outcome_of(ok: bool) -> (r: Outcome)
    ensures
        r == platform_outcome(ok),
{
    if ok {
        Outcome::Success
    } else {
        Outcome::Failure { reason: FailureReason::Refused }
    }
}

/// `new` is `old` with one entry more, made at `timestamp_ms`, for `action`
/// on `pid` with `outcome`.
pub open spec fn appended(
    old: Seq<HistoryEntry>,
    new: Seq<HistoryEntry>,
    timestamp_ms: i64,
    action: ControlAction,
    pid: usize,
    outcome: Outcome,
) -> bool {
    &&& new.len() == old.len() + 1
    &&& new.take(old.len() as int) == old
    &&& new.last().timestamp_ms == timestamp_ms
    &&& new.last().action == action
    &&& new.last().target_pid == pid
    &&& new.last().outcome == outcome
}

/// An append-only log of control actions, in the order they were made.
pub struct History {
    entries: Vec<HistoryEntry>,
}

impl History {
    /// The entries, oldest first.
    pub closed spec fn view(&self) -> Seq<HistoryEntry> {
        self.entries@
    }

    pub fn new() -> (r: History)
        ensures
            r.view() == Seq::<HistoryEntry>::empty(),
    {
        History { entries: Vec::new() }
    }

    /// Appends an entry; it never fails.
    pub fn record(&mut self, timestamp_ms: i64, action: ControlAction, pid: usize, outcome: Outcome)
        ensures
            appended(old(self).view(), final(self).view(), timestamp_ms, action, pid, outcome),
    {
        self.entries.push(HistoryEntry { timestamp_ms, action, target_pid: pid, outcome });
        assert(self.entries@.take(old(self).entries@.len() as int) =~= old(self).entries@);
    }

    /// The entries, oldest first, or `None` when nothing has been recorded.
    pub fn read_all(&self) -> (r: Option<Vec<HistoryEntry>>)
        ensures
            self.view().len() == 0 ==> r is None,
            self.view().len() > 0 ==> r is Some && r->0@ == self.view(),
    {
        if self.entries.len() == 0 {
            return None;
        }
        let mut v: Vec<HistoryEntry> = Vec::new();
        let mut i: usize = 0;
        while i < self.entries.len()
            invariant
                i <= self.entries@.len(),
                v@ == self.entries@.take(i as int),
            decreases self.entries@.len() - i,
        {
            v.push(self.entries[i]);
            i = i + 1;
            assert(v@ =~= self.entries@.take(i as int));
        }
        assert(v@ =~= self.entries@);
        Some(v)
    }
}

} // verus!
