use ptop::process::{ProcessRecord, ProcessStatus, ProcessTable, SortBy};

fn chars(s: &str) -> Vec<char> {
    s.chars().collect()
}

fn rec(pid: u32, name: &str) -> ProcessRecord {
    ProcessRecord::new(pid, chars(name), 0, 0, 0, ProcessStatus::Run)
}

fn names(table: &ProcessTable) -> Vec<String> {
    (0..table.len())
        .map(|i| table.get_process(i).name.iter().collect())
        .collect()
}

#[test]
fn name_sort_is_lexicographic_by_code_point() {
    // upper-case letters order before lower-case ones
    let mut table = ProcessTable::new();
    table.refresh(vec![rec(1, "alpha"), rec(2, "Bravo"), rec(3, "alp")]);
    table.sort_by(SortBy::Name, true);
    assert_eq!(names(&table), vec!["Bravo", "alp", "alpha"]);
}

#[test]
fn filter_longer_than_every_name_clears_the_table() {
    let mut table = ProcessTable::new();
    table.refresh(vec![rec(1, "sh"), rec(2, "vi")]);
    table.filter(&chars("shell"));
    assert_eq!(table.len(), 0);
}

#[test]
fn sorting_an_empty_table_is_a_no_op() {
    let mut table = ProcessTable::new();
    table.refresh(Vec::new());
    table.sort_by(SortBy::Name, false);
    assert_eq!(table.len(), 0);
}

#[test]
fn filter_matches_at_any_position_and_any_case() {
    let mut table = ProcessTable::new();
    table.refresh(vec![rec(1, "aXbY"), rec(2, "ab")]);
    table.filter(&chars("xBy"));
    assert_eq!(names(&table), vec!["aXbY"]);
}

#[test]
fn row_lookup_is_checked() {
    let mut table = ProcessTable::new();
    table.refresh(vec![rec(1, "a")]);
    assert!(table.row(0).is_some());
    assert!(table.row(1).is_none());
}
