use ptop::process::{ProcessRecord, ProcessStatus, ProcessTable, ProcessTableState, SortBy};
use ptop::selection::TableSelection;

fn chars(s: &str) -> Vec<char> {
    s.chars().collect()
}

fn rec(pid: u32, name: &str, cpu: u64) -> ProcessRecord {
    ProcessRecord::new(pid, chars(name), cpu, 0, 0, ProcessStatus::Run)
}

fn pids(table: &ProcessTable) -> Vec<u32> {
    let mut out = Vec::new();
    for i in 0..table.len() {
        out.push(table.get_process(i).pid);
    }
    out
}

#[test]
fn filter_retains_exactly_matching_names() {
    let mut table = ProcessTable::new();
    table.refresh(vec![
        rec(1, "python", 0),
        rec(2, "vim", 0),
        rec(3, "PYTEST", 0),
        rec(4, "happy", 0),
    ]);
    table.filter(&chars("py"));
    assert_eq!(pids(&table), vec![1, 3, 4]);
    for i in 0..table.len() {
        let name: String = table.get_process(i).name.iter().collect();
        assert!(name.to_lowercase().contains("py"));
    }
}

#[test]
fn empty_filter_retains_all() {
    let mut table = ProcessTable::new();
    table.refresh(vec![rec(1, "a", 0), rec(2, "b", 0)]);
    table.filter(&chars(""));
    assert_eq!(pids(&table), vec![1, 2]);
}

#[test]
fn filter_then_sort_name_ascending_scenario() {
    // filter "py", sort by name ascending: ["pytest", "python"]
    let mut table = ProcessTable::new();
    table.refresh(vec![rec(1, "python", 0), rec(2, "vim", 0), rec(3, "pytest", 0)]);
    table.filter(&chars("py"));
    table.sort_by(SortBy::Name, true);
    let names: Vec<String> = (0..table.len())
        .map(|i| table.get_process(i).name.iter().collect())
        .collect();
    assert_eq!(names, vec!["pytest".to_string(), "python".to_string()]);
}

#[test]
fn filter_and_sort_twice_is_same_as_once() {
    let mut table = ProcessTable::new();
    table.refresh(vec![
        rec(5, "bash", 40),
        rec(2, "alpha", 10),
        rec(9, "bash", 40),
        rec(1, "beta", 70),
    ]);
    table.filter(&chars("b"));
    table.sort_by(SortBy::CpuUsage, false);
    let once = pids(&table);
    table.filter(&chars("b"));
    table.sort_by(SortBy::CpuUsage, false);
    assert_eq!(pids(&table), once);
}

#[test]
fn sort_is_stable_on_equal_keys() {
    let mut table = ProcessTable::new();
    table.refresh(vec![
        rec(1, "a", 50),
        rec(2, "b", 90),
        rec(3, "c", 50),
        rec(4, "d", 50),
    ]);
    table.sort_by(SortBy::CpuUsage, false);
    // 90 first, then the three with 50 in their original relative order
    assert_eq!(pids(&table), vec![2, 1, 3, 4]);
}

#[test]
fn toggling_direction_reverses_distinct_keys() {
    let mut table = ProcessTable::new();
    table.refresh(vec![rec(3, "c", 30), rec(1, "a", 10), rec(2, "b", 20)]);
    table.sort_by(SortBy::CpuUsage, true);
    let up = pids(&table);
    table.sort_by(SortBy::CpuUsage, false);
    let mut down = pids(&table);
    down.reverse();
    assert_eq!(up, down);
    assert_eq!(up, vec![1, 2, 3]);
}

#[test]
fn sort_by_pid_memory_runtime_and_status() {
    let mut table = ProcessTable::new();
    table.refresh(vec![
        ProcessRecord::new(2, chars("x"), 0, 500, 9, ProcessStatus::Sleep),
        ProcessRecord::new(1, chars("y"), 0, 900, 3, ProcessStatus::Idle),
    ]);
    table.sort_by(SortBy::Pid, true);
    assert_eq!(pids(&table), vec![1, 2]);
    table.sort_by(SortBy::Memory, false);
    assert_eq!(pids(&table), vec![1, 2]);
    table.sort_by(SortBy::RunTime, true);
    assert_eq!(pids(&table), vec![1, 2]);
    // "Idle" < "Sleeping" lexicographically
    table.sort_by(SortBy::Status, true);
    assert_eq!(pids(&table), vec![1, 2]);
    table.sort_by(SortBy::Status, false);
    assert_eq!(pids(&table), vec![2, 1]);
}

#[test]
fn status_labels_match_display_texts() {
    let as_string = |s: ProcessStatus| -> String { s.label().iter().collect() };
    assert_eq!(as_string(ProcessStatus::Run), "Runnable");
    assert_eq!(as_string(ProcessStatus::Stop), "Stopped");
    assert_eq!(as_string(ProcessStatus::Sleep), "Sleeping");
    assert_eq!(as_string(ProcessStatus::UninterruptibleDiskSleep), "UninterruptibleDiskSleep");
    assert_eq!(as_string(ProcessStatus::Unknown(42)), "Unknown");
    assert_eq!(as_string(ProcessStatus::Suspended), "Unknown");
}

#[test]
fn terminate_resolves_row_to_pid_and_tolerates_stale_index() {
    let mut table = ProcessTable::new();
    table.refresh(vec![rec(7, "a", 0), rec(8, "b", 0)]);
    assert_eq!(table.terminate_process(1), Some(8));
    assert_eq!(table.terminate_process(2), None);
}

#[test]
fn selection_on_empty_list_is_none() {
    let mut sel = TableSelection::new();
    sel.select_next();
    sel.clamp_to(0);
    assert_eq!(sel.selected(), None);
}

#[test]
fn selection_on_single_row_list_always_lands_on_zero() {
    let mut sel = TableSelection::new();
    sel.select_next();
    sel.clamp_to(1);
    assert_eq!(sel.selected(), Some(0));
    sel.select_prev();
    sel.clamp_to(1);
    assert_eq!(sel.selected(), Some(0));
}

#[test]
fn selection_clamps_when_list_shrinks() {
    let mut sel = TableSelection::new();
    for _ in 0..9 {
        sel.select_next();
    }
    sel.clamp_to(10);
    assert_eq!(sel.selected(), Some(9));
    sel.clamp_to(4);
    assert_eq!(sel.selected(), Some(3));
}

#[test]
fn update_with_state_filters_sorts_and_clamps() {
    let mut table = ProcessTable::new();
    let mut state = ProcessTableState::new();
    state.filter = chars("a");
    state.sort_condition = SortBy::Pid;
    state.sort_ascending = true;
    for _ in 0..5 {
        state.select_next();
    }
    table.update_with_state(
        vec![rec(3, "cat", 0), rec(1, "map", 0), rec(2, "vim", 0)],
        &mut state,
    );
    assert_eq!(pids(&table), vec![1, 3]);
    // cursor was at 5, two rows remain: clamped to the last row
    assert_eq!(state.selected(), Some(1));
}
