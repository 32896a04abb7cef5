use lpm_core::alert::{scan_alerts, Triggers};
use lpm_core::history::{ControlAction, FailureReason, Outcome};
use lpm_core::manager::{
    ControlRequest, ExportFormat, ExportPayload, PlatformControl, ProcessManager, ScriptedControl,
};
use lpm_core::query::{filter_by_name, filter_by_owner, matches_folded, query};
use lpm_core::record::{is_well_formed, ProcessRecord, Snapshot, SystemTotals};
use lpm_core::sort::{name_le, sort_records, SortKey};
use lpm_core::text::{push_decimal, push_signed_decimal, render_export_text};
use lpm_core::tree::{build_tree, children_of};

fn rec(pid: u32, name: &str, cpu: Option<u32>, mem: u64, parent: Option<u32>) -> ProcessRecord {
    ProcessRecord {
        pid,
        name: name.to_string(),
        owner: None,
        cpu_centi: cpu,
        memory_kb: mem,
        parent_pid: parent,
    }
}

fn owned(pid: u32, name: &str, owner: Option<&str>) -> ProcessRecord {
    ProcessRecord { owner: owner.map(|o| o.to_string()), ..rec(pid, name, Some(0), 0, None) }
}

fn pids(v: &[ProcessRecord]) -> Vec<u32> {
    v.iter().map(|r| r.pid).collect()
}

fn totals() -> SystemTotals {
    SystemTotals {
        total_memory_kb: 1000,
        used_memory_kb: 500,
        total_swap_kb: 0,
        used_swap_kb: 0,
        uptime_seconds: 10,
        cpu_core_count: 4,
    }
}

fn manager_with(records: Vec<ProcessRecord>) -> ProcessManager {
    let mut m = ProcessManager::new();
    assert!(is_well_formed(&records));
    m.update_snapshot(Snapshot { records, totals: totals() });
    m
}

#[test]
fn empty_name_filter_keeps_every_record_in_order() {
    let s = vec![rec(3, "zsh", None, 1, None), rec(1, "init", None, 2, None), rec(2, "Bash", None, 3, None)];
    let r = filter_by_name(&s, "");
    assert_eq!(pids(&r), vec![3, 1, 2]);
}

#[test]
fn name_filter_ignores_case_both_ways() {
    let s = vec![
        rec(1, "firefox", None, 0, None),
        rec(2, "bash", None, 0, None),
        rec(3, "FireWall", None, 0, None),
    ];
    assert_eq!(pids(&filter_by_name(&s, "FIRE")), vec![1, 3]);
    assert_eq!(pids(&filter_by_name(&s, "Bash")), vec![2]);
    assert_eq!(pids(&filter_by_name(&s, "xyz")), Vec::<u32>::new());
}

#[test]
fn matches_folded_finds_substrings() {
    assert!(matches_folded("firefox", "fox"));
    assert!(matches_folded("firefox", ""));
    assert!(!matches_folded("fox", "firefox"));
    assert!(!matches_folded("firefox", "Fox"));
}

#[test]
fn owner_filter_is_exact_and_skips_unresolved() {
    let s = vec![
        owned(1, "a", Some("root")),
        owned(2, "b", None),
        owned(3, "c", Some("rooted")),
        owned(4, "d", Some("root")),
    ];
    assert_eq!(pids(&filter_by_owner(&s, "root")), vec![1, 4]);
    assert_eq!(pids(&filter_by_owner(&s, "alice")), Vec::<u32>::new());
}

#[test]
fn memory_sort_is_descending_and_stable() {
    let s = vec![
        rec(1, "a", None, 100, None),
        rec(2, "b", None, 300, None),
        rec(3, "c", None, 100, None),
        rec(4, "d", None, 300, None),
        rec(5, "e", None, 200, None),
    ];
    assert_eq!(pids(&sort_records(&s, SortKey::Memory)), vec![2, 4, 5, 1, 3]);
}

#[test]
fn cpu_sort_puts_invalid_readings_last() {
    let s = vec![
        rec(1, "a", None, 0, None),
        rec(2, "b", Some(500), 0, None),
        rec(3, "c", Some(9000), 0, None),
        rec(4, "d", Some(500), 0, None),
    ];
    assert_eq!(pids(&sort_records(&s, SortKey::Cpu)), vec![3, 2, 4, 1]);
}

#[test]
fn pid_and_name_sorts_ascend() {
    let s = vec![
        rec(30, "zsh", None, 0, None),
        rec(10, "bash", None, 0, None),
        rec(20, "Xorg", None, 0, None),
    ];
    assert_eq!(pids(&sort_records(&s, SortKey::Pid)), vec![10, 20, 30]);
    assert_eq!(pids(&sort_records(&s, SortKey::Name)), vec![20, 10, 30]);
    assert!(name_le(&"ab".to_string(), &"abc".to_string()));
    assert!(!name_le(&"b".to_string(), &"abc".to_string()));
}

#[test]
fn query_filters_then_sorts() {
    let mut s = vec![
        owned(1, "bash", Some("alice")),
        owned(2, "bash", Some("bob")),
        owned(3, "zsh", Some("alice")),
        owned(4, "BASH", Some("alice")),
    ];
    s[0].memory_kb = 10;
    s[3].memory_kb = 20;
    let r = query(&s, Some("bash"), Some("alice"), Some(SortKey::Memory));
    assert_eq!(pids(&r), vec![4, 1]);
    let all = query(&s, None, None, None);
    assert_eq!(pids(&all), vec![1, 2, 3, 4]);
}

#[test]
fn two_cycle_becomes_two_roots() {
    let s = vec![
        rec(5, "a", None, 0, Some(6)),
        rec(6, "b", None, 0, Some(5)),
        rec(7, "c", None, 0, Some(5)),
    ];
    let t = build_tree(&s);
    assert_eq!(t.len(), 3);
    assert_eq!(t[0].parent, None);
    assert_eq!(t[1].parent, None);
    assert_eq!(t[2].parent, Some(0));
    assert_eq!(children_of(&t, None), vec![0, 1]);
    assert_eq!(children_of(&t, Some(0)), vec![2]);
}

#[test]
fn tree_links_chains_and_roots_orphans() {
    let s = vec![
        rec(10, "child", None, 0, Some(1)),
        rec(1, "init", None, 0, None),
        rec(11, "grandchild", None, 0, Some(10)),
        rec(12, "orphan", None, 0, Some(99)),
        rec(13, "selfish", None, 0, Some(13)),
    ];
    let t = build_tree(&s);
    let parents: Vec<Option<usize>> = t.iter().map(|n| n.parent).collect();
    assert_eq!(parents, vec![Some(1), None, Some(0), None, None]);
    assert_eq!(t[2].pid, 11);
    assert_eq!(t[2].name, "grandchild");
    assert_eq!(children_of(&t, None), vec![1, 3, 4]);
}

#[test]
fn kill_of_absent_pid_fails_and_logs_once() {
    let mut m = manager_with(vec![rec(1, "init", None, 0, None)]);
    let mut c = ScriptedControl::new(true);
    assert!(!m.kill_process(&mut c, 1000, 42));
    assert!(c.log.is_empty());
    let h = m.history().unwrap();
    assert_eq!(h.len(), 1);
    assert_eq!(h[0].action, ControlAction::Kill);
    assert_eq!(h[0].target_pid, 42);
    assert_eq!(h[0].timestamp_ms, 1000);
    assert_eq!(h[0].outcome, Outcome::Failure { reason: FailureReason::NotFound });
}

#[test]
fn kill_of_present_pid_follows_the_platform() {
    let mut m = manager_with(vec![rec(7, "sleep", None, 0, None)]);
    let mut ok = ScriptedControl::new(true);
    assert!(m.kill_process(&mut ok, 1000, 7));
    assert_eq!(ok.log, vec![(ControlRequest::Kill { pid: 7 }, true)]);
    let mut refused = ScriptedControl::new(false);
    assert!(!m.kill_process(&mut refused, 1000, 7));
    let h = m.history().unwrap();
    assert_eq!(h.len(), 2);
    assert_eq!(h[0].outcome, Outcome::Success);
    assert_eq!(h[1].outcome, Outcome::Failure { reason: FailureReason::Refused });
}

#[test]
fn priority_out_of_range_is_rejected_before_the_platform() {
    let mut m = manager_with(vec![rec(7, "sleep", None, 0, None)]);
    let mut c = ScriptedControl::new(true);
    assert!(!m.change_priority(&mut c, 1000, 7, 25));
    assert!(!m.change_priority(&mut c, 1000, 7, -21));
    assert!(c.log.is_empty());
    let h = m.history().unwrap();
    assert_eq!(h.len(), 2);
    assert_eq!(h[0].action, ControlAction::SetPriority { value: 25 });
    assert_eq!(h[0].outcome, Outcome::Failure { reason: FailureReason::InvalidArgument });
}

#[test]
fn priority_in_range_reaches_the_platform() {
    let mut m = manager_with(vec![rec(7, "sleep", None, 0, None)]);
    let mut c = ScriptedControl::new(true);
    assert!(m.change_priority(&mut c, 1000, 7, -20));
    assert!(m.change_priority(&mut c, 1000, 7, 19));
    assert!(!m.change_priority(&mut c, 1000, 8, 0));
    assert_eq!(
        c.log,
        vec![
            (ControlRequest::SetNiceness { pid: 7, niceness: -20 }, true),
            (ControlRequest::SetNiceness { pid: 7, niceness: 19 }, true)
        ]
    );
    let h = m.history().unwrap();
    assert_eq!(h[2].outcome, Outcome::Failure { reason: FailureReason::NotFound });
}

#[test]
fn restart_is_unsupported_and_logged() {
    let mut m = manager_with(vec![rec(7, "sleep", None, 0, None)]);
    assert!(!m.restart_process(1000, 7));
    let h = m.history().unwrap();
    assert_eq!(h.len(), 1);
    assert_eq!(h[0].action, ControlAction::RestartAttempt);
    assert_eq!(h[0].outcome, Outcome::Failure { reason: FailureReason::Unsupported });
}

#[test]
fn fresh_history_is_the_empty_indicator() {
    let m = ProcessManager::new();
    assert!(m.history().is_none());
    assert_eq!(m.show_history(), "No actions performed yet.");
}

#[test]
fn history_text_lists_each_action() {
    let mut m = manager_with(vec![rec(7, "sleep", None, 0, None)]);
    let mut c = ScriptedControl::new(true);
    m.kill_process(&mut c, 1000, 7);
    m.change_priority(&mut c, 1000, 7, -5);
    m.restart_process(1000, 7);
    m.kill_process(&mut c, 1000, 8);
    assert_eq!(
        m.show_history(),
        "Tried to kill PID 7 -> true\nPriority change: PID 7 -> -5 -> true\nRestart requested for PID 7 -> unsupported\nTried to kill PID 8 -> false"
    );
}

#[test]
fn cpu_alone_over_threshold_triggers_cpu() {
    let s = vec![rec(1, "spin", Some(8100), 100, None)];
    let a = scan_alerts(&s, 8000, 500000);
    assert_eq!(a.len(), 1);
    assert_eq!(a[0].pid, 1);
    assert_eq!(a[0].triggered_by, Triggers { cpu: true, memory: false });
}

#[test]
fn three_records_scan_gives_one_double_alert() {
    let s = vec![
        rec(1, "a", Some(1000), 100, None),
        rec(2, "b", Some(9000), 600000, None),
        rec(3, "c", Some(500), 50, None),
    ];
    let m = manager_with(s);
    let a = m.check_alerts(8000, 500000);
    assert_eq!(a.len(), 1);
    assert_eq!(a[0].pid, 2);
    assert_eq!(a[0].name, "b");
    assert_eq!(a[0].memory_kb, 600000);
    assert_eq!(a[0].triggered_by, Triggers { cpu: true, memory: true });
}

#[test]
fn alert_thresholds_are_strict_and_skip_invalid_cpu() {
    let s = vec![
        rec(1, "at", Some(8000), 500000, None),
        rec(2, "nan", None, 0, None),
        rec(3, "mem", None, 500001, None),
    ];
    let a = scan_alerts(&s, 8000, 500000);
    assert_eq!(a.len(), 1);
    assert_eq!(a[0].pid, 3);
    assert_eq!(a[0].triggered_by, Triggers { cpu: false, memory: true });
}

#[test]
fn text_export_writes_pid_and_name_lines() {
    let s = vec![rec(1, "init", None, 0, None), rec(4242, "bash", None, 0, None)];
    assert_eq!(render_export_text(&s), "1: init\n4242: bash");
    assert_eq!(render_export_text(&vec![]), "");
    let m = manager_with(s);
    match m.export_processes("txt") {
        ExportPayload::Text(t) => assert_eq!(t, "1: init\n4242: bash"),
        ExportPayload::Records(_) => panic!("expected text"),
    }
    match m.export_processes("json") {
        ExportPayload::Records(v) => assert_eq!(pids(&v), vec![1, 4242]),
        ExportPayload::Text(_) => panic!("expected records"),
    }
}

#[test]
fn export_format_names() {
    assert_eq!(ExportFormat::parse("json"), ExportFormat::Json);
    assert_eq!(ExportFormat::parse("JSON"), ExportFormat::Text);
    assert_eq!(ExportFormat::parse("text"), ExportFormat::Text);
}

#[test]
fn decimal_rendering() {
    let mut s = String::new();
    push_decimal(&mut s, 0);
    s.push(' ');
    push_decimal(&mut s, 1234567890);
    s.push(' ');
    push_signed_decimal(&mut s, -20);
    s.push(' ');
    push_signed_decimal(&mut s, i64::MIN);
    assert_eq!(s, "0 1234567890 -20 -9223372036854775808");
}

#[test]
fn manager_lists_and_queries_its_snapshot() {
    let mut s = vec![owned(1, "init", Some("root")), owned(2, "Bash", Some("alice"))];
    s[1].parent_pid = Some(1);
    let m = manager_with(s);
    assert_eq!(pids(&m.list_processes()), vec![1, 2]);
    assert_eq!(pids(&m.list_processes_by_name("bash")), vec![2]);
    assert_eq!(pids(&m.list_processes_by_user("root")), vec![1]);
    assert_eq!(m.system_totals().cpu_core_count, 4);
    let t = m.get_process_tree();
    assert_eq!(t, vec![(1, "init".to_string(), None), (2, "Bash".to_string(), Some(1))]);
    let forest = m.process_tree();
    assert_eq!(forest[1].parent, Some(0));
}

#[test]
fn export_records_of_a_filtered_list() {
    let s = vec![rec(1, "init", None, 0, None), rec(2, "bash", None, 0, None)];
    let picked = filter_by_name(&s, "BA");
    match lpm_core::manager::export_records(&picked, ExportFormat::Text) {
        ExportPayload::Text(t) => assert_eq!(t, "2: bash"),
        ExportPayload::Records(_) => panic!("expected text"),
    }
}

#[test]
fn kill_rejects_pids_that_cannot_be_targets() {
    let mut m = manager_with(vec![rec(0, "idle", None, 0, None), rec(u32::MAX, "odd", None, 0, None)]);
    let mut c = ScriptedControl::new(true);
    assert!(!m.kill_process(&mut c, 5, 0));
    assert!(!m.kill_process(&mut c, 6, u32::MAX as usize));
    assert!(!m.change_priority(&mut c, 7, 0, 1));
    assert!(c.log.is_empty());
    let h = m.history().unwrap();
    assert_eq!(h.len(), 3);
    for e in &h {
        assert_eq!(e.outcome, Outcome::Failure { reason: FailureReason::InvalidArgument });
    }
    assert_eq!(h[1].timestamp_ms, 6);
}

#[test]
fn well_formed_snapshots_have_unique_pids_and_names() {
    assert!(is_well_formed(&vec![]));
    assert!(is_well_formed(&vec![rec(1, "a", None, 0, None), rec(2, "b", None, 0, None)]));
    assert!(!is_well_formed(&vec![rec(1, "a", None, 0, None), rec(1, "b", None, 0, None)]));
    assert!(!is_well_formed(&vec![rec(1, "a", None, 0, None), rec(2, "", None, 0, None)]));
}

#[test]
fn pid_sort_of_a_snapshot_is_strict() {
    let m = manager_with(vec![rec(9, "a", None, 0, None), rec(3, "b", None, 0, None), rec(5, "c", None, 0, None)]);
    let r = sort_records(&m.list_processes(), SortKey::Pid);
    assert_eq!(pids(&r), vec![3, 5, 9]);
}

#[test]
fn platform_control_hands_each_request_to_its_function() {
    let seen = std::cell::RefCell::new(Vec::new());
    let mut control = PlatformControl::new(|q: ControlRequest| {
        seen.borrow_mut().push(q);
        matches!(q, ControlRequest::Kill { .. })
    });
    let mut m = manager_with(vec![rec(7, "sleep", None, 0, None)]);
    assert!(m.kill_process(&mut control, 1, 7));
    assert!(!m.change_priority(&mut control, 2, 7, 3));
    assert_eq!(
        *seen.borrow(),
        vec![ControlRequest::Kill { pid: 7 }, ControlRequest::SetNiceness { pid: 7, niceness: 3 }]
    );
}

#[test]
fn three_cycle_with_tails_marks_only_the_cycle() {
    let s = vec![
        rec(1, "tail", None, 0, Some(2)),
        rec(2, "a", None, 0, Some(3)),
        rec(3, "b", None, 0, Some(4)),
        rec(4, "c", None, 0, Some(2)),
        rec(5, "tail2", None, 0, Some(1)),
        rec(6, "root", None, 0, None),
        rec(7, "leaf", None, 0, Some(6)),
    ];
    let t = build_tree(&s);
    let parents: Vec<Option<usize>> = t.iter().map(|n| n.parent).collect();
    assert_eq!(parents, vec![Some(1), None, None, None, Some(0), None, Some(5)]);
}
