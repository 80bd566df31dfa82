use ptop::alert::{AlertCondition, AlertStatus, AlertTable};
use ptop::app::{handle_key, tick, AppState, Key, KeyAction, Mode};
use ptop::info::Info;
use ptop::process::{ProcessRecord, ProcessStatus, ProcessTable, SortBy};
use ptop::snapshot::MetricsSnapshot;

fn chars(s: &str) -> Vec<char> {
    s.chars().collect()
}

fn rec(pid: u32, name: &str, cpu: u64) -> ProcessRecord {
    ProcessRecord::new(pid, chars(name), cpu, 0, 0, ProcessStatus::Run)
}

fn table_of(rows: Vec<ProcessRecord>) -> ProcessTable {
    let mut t = ProcessTable::new();
    t.refresh(rows);
    t
}

fn snap(processes: Vec<ProcessRecord>) -> MetricsSnapshot {
    MetricsSnapshot {
        host_name: "box".to_string(),
        os_name: String::new(),
        kernel_version: String::new(),
        uptime_seconds: 12,
        cpu_brand: String::new(),
        global_cpu: 0,
        per_core_cpu: Vec::new(),
        total_memory: 100,
        total_swap: 0,
        used_memory: 0,
        used_swap: 0,
        processes,
    }
}

#[test]
fn quit_key_quits_only_in_normal_mode() {
    let mut state = AppState::new();
    let table = table_of(Vec::new());
    let mut alerts = AlertTable::new();
    assert_eq!(handle_key(&mut state, &table, &mut alerts, Key::Char('q')), KeyAction::Quit);

    let mut state = AppState::new();
    handle_key(&mut state, &table, &mut alerts, Key::Char('/'));
    assert_eq!(
        handle_key(&mut state, &table, &mut alerts, Key::Char('q')),
        KeyAction::Continue
    );
    assert_eq!(state.filter, chars("q"));
}

#[test]
fn filter_popup_edits_and_commits_buffer() {
    let mut state = AppState::new();
    let table = table_of(Vec::new());
    let mut alerts = AlertTable::new();
    handle_key(&mut state, &table, &mut alerts, Key::Char('/'));
    assert_eq!(state.mode, Mode::ProcessFilter);
    assert_eq!(state.filter, chars(""));
    for c in "pyx".chars() {
        handle_key(&mut state, &table, &mut alerts, Key::Char(c));
    }
    handle_key(&mut state, &table, &mut alerts, Key::Backspace);
    assert_eq!(state.filter, chars("py"));
    handle_key(&mut state, &table, &mut alerts, Key::Enter);
    assert_eq!(state.mode, Mode::Normal);
    assert_eq!(state.process_table_state.filter, chars("py"));
}

#[test]
fn entering_filter_mode_clears_the_old_buffer() {
    let mut state = AppState::new();
    let table = table_of(Vec::new());
    let mut alerts = AlertTable::new();
    handle_key(&mut state, &table, &mut alerts, Key::Char('/'));
    handle_key(&mut state, &table, &mut alerts, Key::Char('x'));
    handle_key(&mut state, &table, &mut alerts, Key::Enter);
    handle_key(&mut state, &table, &mut alerts, Key::Char('/'));
    assert_eq!(state.filter, chars(""));
}

#[test]
fn every_sort_key_press_toggles_direction() {
    let mut state = AppState::new();
    let table = table_of(Vec::new());
    let mut alerts = AlertTable::new();
    assert!(!state.process_table_state.sort_ascending);
    handle_key(&mut state, &table, &mut alerts, Key::Char('2'));
    assert_eq!(state.process_table_state.sort_condition, SortBy::Name);
    assert!(state.process_table_state.sort_ascending);
    handle_key(&mut state, &table, &mut alerts, Key::Char('2'));
    assert_eq!(state.process_table_state.sort_condition, SortBy::Name);
    assert!(!state.process_table_state.sort_ascending);
    handle_key(&mut state, &table, &mut alerts, Key::Char('6'));
    assert_eq!(state.process_table_state.sort_condition, SortBy::Status);
    assert!(state.process_table_state.sort_ascending);
}

#[test]
fn selection_keys_move_both_cursors() {
    let mut state = AppState::new();
    let table = table_of(Vec::new());
    let mut alerts = AlertTable::new();
    handle_key(&mut state, &table, &mut alerts, Key::Char('j'));
    handle_key(&mut state, &table, &mut alerts, Key::Char('j'));
    handle_key(&mut state, &table, &mut alerts, Key::Char('k'));
    assert_eq!(state.process_table_state.selected(), Some(1));
    handle_key(&mut state, &table, &mut alerts, Key::Down);
    handle_key(&mut state, &table, &mut alerts, Key::Up);
    handle_key(&mut state, &table, &mut alerts, Key::Up);
    assert_eq!(state.alert_table_state.selected(), Some(0));
}

#[test]
fn terminate_key_resolves_selected_row() {
    let mut state = AppState::new();
    let table = table_of(vec![rec(4, "a", 0), rec(5, "b", 0)]);
    let mut alerts = AlertTable::new();
    handle_key(&mut state, &table, &mut alerts, Key::Char('j'));
    assert_eq!(
        handle_key(&mut state, &table, &mut alerts, Key::Char('t')),
        KeyAction::Terminate(5)
    );
    // a stale selection is a silent no-op
    handle_key(&mut state, &table, &mut alerts, Key::Char('j'));
    assert_eq!(
        handle_key(&mut state, &table, &mut alerts, Key::Char('t')),
        KeyAction::Continue
    );
}

#[test]
fn exit_rule_key_binds_selected_process() {
    let mut state = AppState::new();
    let table = table_of(vec![rec(4, "worker", 0)]);
    let mut alerts = AlertTable::new();
    handle_key(&mut state, &table, &mut alerts, Key::Char('e'));
    assert_eq!(alerts.len(), 1);
    assert_eq!(alerts.get(0).pid, 4);
    assert_eq!(alerts.get(0).condition, AlertCondition::Exit);
    assert_eq!(alerts.get(0).status, AlertStatus::Armed);
    // the alert cursor advanced past the new rule
    assert_eq!(state.alert_table_state.selected(), Some(1));
}

#[test]
fn cpu_threshold_flow_creates_rule_from_text() {
    let mut state = AppState::new();
    let table = table_of(vec![rec(4, "worker", 0)]);
    let mut alerts = AlertTable::new();
    handle_key(&mut state, &table, &mut alerts, Key::Char('c'));
    assert_eq!(state.mode, Mode::AlertCpuThreshold);
    for c in "50.5".chars() {
        handle_key(&mut state, &table, &mut alerts, Key::Char(c));
    }
    handle_key(&mut state, &table, &mut alerts, Key::Enter);
    assert_eq!(state.mode, Mode::Normal);
    assert_eq!(alerts.len(), 1);
    assert_eq!(alerts.get(0).condition, AlertCondition::CpuUsage(5050));
}

#[test]
fn memory_threshold_flow_creates_rule_from_text() {
    let mut state = AppState::new();
    let table = table_of(vec![rec(4, "worker", 0)]);
    let mut alerts = AlertTable::new();
    handle_key(&mut state, &table, &mut alerts, Key::Char('m'));
    assert_eq!(state.mode, Mode::AlertMemoryThreshold);
    for c in "25".chars() {
        handle_key(&mut state, &table, &mut alerts, Key::Char(c));
    }
    handle_key(&mut state, &table, &mut alerts, Key::Enter);
    assert_eq!(state.mode, Mode::Normal);
    assert_eq!(alerts.len(), 1);
    assert_eq!(alerts.get(0).condition, AlertCondition::MemoryUsage(2500));
}

#[test]
fn malformed_threshold_returns_to_normal_without_a_rule() {
    let mut state = AppState::new();
    let table = table_of(vec![rec(4, "worker", 0)]);
    let mut alerts = AlertTable::new();
    handle_key(&mut state, &table, &mut alerts, Key::Char('c'));
    for c in "5x".chars() {
        handle_key(&mut state, &table, &mut alerts, Key::Char(c));
    }
    handle_key(&mut state, &table, &mut alerts, Key::Enter);
    assert_eq!(state.mode, Mode::Normal);
    assert_eq!(alerts.len(), 0);
}

#[test]
fn arm_and_disarm_keys_touch_the_selected_rule() {
    let mut state = AppState::new();
    let table = table_of(Vec::new());
    let mut alerts = AlertTable::new();
    alerts.add_exit_code_alert(1, chars("p"));
    handle_key(&mut state, &table, &mut alerts, Key::Char('d'));
    assert_eq!(alerts.get(0).status, AlertStatus::Disarmed);
    handle_key(&mut state, &table, &mut alerts, Key::Char('a'));
    assert_eq!(alerts.get(0).status, AlertStatus::Armed);
}

#[test]
fn tick_runs_filter_sort_evaluation_and_clamp() {
    let mut table = ProcessTable::new();
    let mut alerts = AlertTable::new();
    let mut info = Info::new();
    let mut state = AppState::new();
    state.process_table_state.filter = chars("a");
    state.process_table_state.sort_condition = SortBy::Pid;
    state.process_table_state.sort_ascending = true;
    alerts.add_exit_code_alert(9, chars("gone"));
    tick(
        &mut table,
        &mut alerts,
        &mut info,
        &mut state,
        snap(vec![rec(2, "cat", 0), rec(1, "map", 0), rec(3, "vim", 0)]),
    );
    assert_eq!(table.len(), 2);
    assert_eq!(table.get_process(0).pid, 1);
    assert_eq!(table.get_process(1).pid, 2);
    assert_eq!(alerts.get(0).status, AlertStatus::Triggered);
    assert_eq!(info.host_name, "box");
    assert_eq!(info.uptime, 12);
    assert_eq!(state.process_table_state.selected(), Some(0));
}
