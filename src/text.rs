//! Plain-text renderings: decimal numbers, the line-per-record export and
//! the history listing.

use vstd::prelude::*;
use vstd::string::*;

use crate::history::{ControlAction, HistoryEntry, Outcome};
use crate::record::ProcessRecord;

verus! {

/// The decimal digit for `d`.
pub open spec fn digit_char(d: nat) -> char {
    if d == 0 {
        '0'
    } else if d == 1 {
        '1'
    } else if d == 2 {
        '2'
    } else if d == 3 {
        '3'
    } else if d == 4 {
        '4'
    } else if d == 5 {
        '5'
    } else if d == 6 {
        '6'
    } else if d == 7 {
        '7'
    } else if d == 8 {
        '8'
    } else {
        '9'
    }
}

/// The decimal notation of `n`, without leading zeros.
pub open spec fn decimal(n: nat) -> Seq<char>
    decreases n,
{
    if n < 10 {
        seq![digit_char(n)]
    } else {
        decimal(n / 10).push(digit_char(n % 10))
    }
}

/// The decimal notation of `v`, with a minus sign when negative.
pub open spec fn signed_decimal(v: int) -> Seq<char> {
    if v < 0 {
        "-"@ + decimal((-v) as nat)
    } else {
        decimal(v as nat)
    }
}

/// The lines joined by line breaks, with none after the last.
pub open spec fn join_lines(lines: Seq<Seq<char>>) -> Seq<char>
    decreases lines.len(),
{
    if lines.len() == 0 {
        Seq::empty()
    } else if lines.len() == 1 {
        lines[0]
    } else {
        join_lines(lines.drop_last()) + "\n"@ + lines.last()
    }
}

/// The export line of one record: `<pid>: <name>`.
pub open spec fn export_line(x: ProcessRecord) -> Seq<char> {
    decimal(x.pid as nat) + ": "@ + x.name@
}

/// The plain-text export of a list of records, one line per record.
pub open spec fn export_text(s: Seq<ProcessRecord>) -> Seq<char> {
    join_lines(s.map_values(|x: ProcessRecord| export_line(x)))
}

pub open spec fn bool_text(b: bool) -> Seq<char> {
    if b {
        "true"@
    } else {
        "false"@
    }
}

/// The history line of one entry.
pub open spec fn entry_line(e: HistoryEntry) -> Seq<char> {
    let ok = e.outcome == Outcome::Success;
    match e.action {
        ControlAction::Kill => "Tried to kill PID "@ + decimal(e.target_pid as nat) + " -> "@
            + bool_text(ok),
        ControlAction::SetPriority { value } => "Priority change: PID "@ + decimal(
            e.target_pid as nat,
        ) + " -> "@ + signed_decimal(value as int) + " -> "@ + bool_text(ok),
        ControlAction::RestartAttempt => "Restart requested for PID "@ + decimal(
            e.target_pid as nat,
        ) + " -> unsupported"@,
    }
}

/// The history listing: one line per entry, or a notice when it is empty.
pub open spec fn history_text(h: Seq<HistoryEntry>) -> Seq<char> {
    if h.len() == 0 {
        "No actions performed yet."@
    } else {
        join_lines(h.map_values(|e: HistoryEntry| entry_line(e)))
    }
}

fn digit_str(d: u64) -> (r: &'static str)
    requires
        d < 10,
    ensures
        r@ == seq![digit_char(d as nat)],
{
    proof {
        reveal_strlit("0");
        reveal_strlit("1");
        reveal_strlit("2");
        reveal_strlit("3");
        reveal_strlit("4");
        reveal_strlit("5");
        reveal_strlit("6");
        reveal_strlit("7");
        reveal_strlit("8");
        reveal_strlit("9");
    }
    let r = if d == 0 {
        "0"
    } else if d == 1 {
        "1"
    } else if d == 2 {
        "2"
    } else if d == 3 {
        "3"
    } else if d == 4 {
        "4"
    } else if d == 5 {
        "5"
    } else if d == 6 {
        "6"
    } else if d == 7 {
        "7"
    } else if d == 8 {
        "8"
    } else {
        "9"
    };
    assert(r@ =~= seq![digit_char(d as nat)]);
    r
}

/// Appends the decimal notation of `n`.
pub fn push_decimal(out: &mut String, n: u64)
    ensures
        final(out)@ == old(out)@ + decimal(n as nat),
    decreases n,
{
    if n >= 10 {
        push_decimal(out, n / 10);
        out.append(digit_str(n % 10));
        assert(final(out)@ =~= old(out)@ + decimal(n as nat));
    } else {
        out.append(digit_str(n));
    }
}

/// Appends the decimal notation of `v`, with a minus sign when negative.
pub fn push_signed_decimal(out: &mut String, v: i64)
    ensures
        final(out)@ == old(out)@ + signed_decimal(v as int),
{
    if v < 0 {
        out.append("-");
        let m: u64 = ((-(v + 1)) as u64) + 1;
        push_decimal(out, m);
        assert(final(out)@ =~= old(out)@ + signed_decimal(v as int));
    } else {
        push_decimal(out, v as u64);
    }
}

proof fn lemma_join_step(lines: Seq<Seq<char>>, i: int)
    requires
        0 <= i < lines.len(),
    ensures
        join_lines(lines.take(i + 1)) == if i == 0 {
            lines[0]
        } else {
            join_lines(lines.take(i)) + "\n"@ + lines[i]
        },
{
    assert(lines.take(i + 1).drop_last() =~= lines.take(i));
}

/// Renders records one per line as `<pid>: <name>`.
pub fn render_export_text(records: &Vec<ProcessRecord>) -> (r: String)
    ensures
        r@ == export_text(records@),
{
    let ghost lines = records@.map_values(|x: ProcessRecord| export_line(x));
    let mut out = String::new();
    let mut i: usize = 0;
    while i < records.len()
        invariant
            i <= records@.len(),
            lines == records@.map_values(|x: ProcessRecord| export_line(x)),
            out@ == join_lines(lines.take(i as int)),
        decreases records@.len() - i,
    {
        proof {
            lemma_join_step(lines, i as int);
        }
        let ghost before = out@;
        if i > 0 {
            out.append("\n");
        }
        push_decimal(&mut out, records[i].pid as u64);
        out.append(": ");
        out.append(records[i].name.as_str());
        assert(out@ =~= join_lines(lines.take(i + 1)));
        i = i + 1;
    }
    assert(lines.take(records@.len() as int) =~= lines);
    out
}

fn push_entry_line(out: &mut String, e: HistoryEntry)
    ensures
        final(out)@ == old(out)@ + entry_line(e),
{
    let ok = match e.outcome {
        Outcome::Success => true,
        Outcome::Failure { .. } => false,
    };
    match e.action {
        ControlAction::Kill => {
            out.append("Tried to kill PID ");
            push_decimal(out, e.target_pid as u64);
            out.append(" -> ");
            out.append(if ok { "true" } else { "false" });
        },
        ControlAction::SetPriority { value } => {
            out.append("Priority change: PID ");
            push_decimal(out, e.target_pid as u64);
            out.append(" -> ");
            push_signed_decimal(out, value as i64);
            out.append(" -> ");
            out.append(if ok { "true" } else { "false" });
        },
        ControlAction::RestartAttempt => {
            out.append("Restart requested for PID ");
            push_decimal(out, e.target_pid as u64);
            out.append(" -> unsupported");
        },
    }
    assert(final(out)@ =~= old(out)@ + entry_line(e));
}

/// Renders a history as one line per entry, or a notice when it is empty.
pub fn render_history(entries: &Vec<HistoryEntry>) -> (r: String)
    ensures
        r@ == history_text(entries@),
{
    if entries.len() == 0 {
        return String::from_str("No actions performed yet.");
    }
    let ghost lines = entries@.map_values(|e: HistoryEntry| entry_line(e));
    let mut out = String::new();
    let mut i: usize = 0;
    while i < entries.len()
        invariant
            i <= entries@.len(),
            lines == entries@.map_values(|e: HistoryEntry| entry_line(e)),
            out@ == join_lines(lines.take(i as int)),
        decreases entries@.len() - i,
    {
        proof {
            lemma_join_step(lines, i as int);
        }
        if i > 0 {
            out.append("\n");
        }
        push_entry_line(&mut out, entries[i]);
        assert(out@ =~= join_lines(lines.take(i + 1)));
        i = i + 1;
    }
    assert(lines.take(entries@.len() as int) =~= lines);
    out
}

} // verus!
