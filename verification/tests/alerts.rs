use ptop::alert::{AlertCondition, AlertStatus, AlertTable};
use ptop::process::{ProcessRecord, ProcessStatus};
use ptop::snapshot::MetricsSnapshot;

fn chars(s: &str) -> Vec<char> {
    s.chars().collect()
}

fn snap(processes: Vec<ProcessRecord>, total_memory: u64) -> MetricsSnapshot {
    MetricsSnapshot {
        host_name: String::new(),
        os_name: String::new(),
        kernel_version: String::new(),
        uptime_seconds: 0,
        cpu_brand: String::new(),
        global_cpu: 0,
        per_core_cpu: Vec::new(),
        total_memory,
        total_swap: 0,
        used_memory: 0,
        used_swap: 0,
        processes,
    }
}

fn rec(pid: u32, name: &str, cpu: u64, memory: u64, status: ProcessStatus) -> ProcessRecord {
    ProcessRecord::new(pid, chars(name), cpu, memory, 0, status)
}

#[test]
fn cpu_threshold_triggers_on_strict_excess() {
    // processes (1, cpu 90%), (2, cpu 10%); rule on pid 1 at 50%;
    // next snapshot reports 95% for pid 1: the rule triggers
    let mut alerts = AlertTable::new();
    alerts.add_cpu_alert(1, chars("a"), 5000);
    alerts.update_alerts(&snap(
        vec![rec(1, "a", 9000, 0, ProcessStatus::Run), rec(2, "b", 1000, 0, ProcessStatus::Run)],
        0,
    ));
    assert_eq!(alerts.get(0).status, AlertStatus::Triggered);

    let mut alerts = AlertTable::new();
    alerts.add_cpu_alert(1, chars("a"), 5000);
    alerts.update_alerts(&snap(vec![rec(1, "a", 9500, 0, ProcessStatus::Run)], 0));
    assert_eq!(alerts.get(0).status, AlertStatus::Triggered);
}

#[test]
fn cpu_threshold_needs_strictly_more() {
    let mut alerts = AlertTable::new();
    alerts.add_cpu_alert(1, chars("a"), 5000);
    alerts.update_alerts(&snap(vec![rec(1, "a", 5000, 0, ProcessStatus::Run)], 0));
    assert_eq!(alerts.get(0).status, AlertStatus::Armed);
}

#[test]
fn exit_rule_triggers_when_pid_is_absent() {
    let mut alerts = AlertTable::new();
    alerts.add_exit_code_alert(7, chars("gone"));
    alerts.update_alerts(&snap(vec![rec(1, "other", 0, 0, ProcessStatus::Run)], 0));
    assert_eq!(alerts.get(0).status, AlertStatus::Triggered);
}

#[test]
fn exit_rule_triggers_on_stopped_status() {
    let mut alerts = AlertTable::new();
    alerts.add_exit_code_alert(7, chars("p"));
    alerts.update_alerts(&snap(vec![rec(7, "p", 0, 0, ProcessStatus::Stop)], 0));
    assert_eq!(alerts.get(0).status, AlertStatus::Triggered);
}

#[test]
fn exit_rule_stays_armed_while_process_runs() {
    let mut alerts = AlertTable::new();
    alerts.add_exit_code_alert(7, chars("p"));
    alerts.update_alerts(&snap(vec![rec(7, "p", 0, 0, ProcessStatus::Run)], 0));
    assert_eq!(alerts.get(0).status, AlertStatus::Armed);
}

#[test]
fn triggered_rule_never_reverts_by_evaluation() {
    let mut alerts = AlertTable::new();
    alerts.add_exit_code_alert(7, chars("p"));
    alerts.update_alerts(&snap(Vec::new(), 0));
    assert_eq!(alerts.get(0).status, AlertStatus::Triggered);
    // the process is back and healthy; the rule stays triggered
    alerts.update_alerts(&snap(vec![rec(7, "p", 0, 0, ProcessStatus::Run)], 0));
    assert_eq!(alerts.get(0).status, AlertStatus::Triggered);
}

#[test]
fn disarmed_rule_never_changes() {
    let mut alerts = AlertTable::new();
    alerts.add_exit_code_alert(7, chars("p"));
    alerts.disarm_alert(0);
    alerts.update_alerts(&snap(Vec::new(), 0));
    assert_eq!(alerts.get(0).status, AlertStatus::Disarmed);
    alerts.update_alerts(&snap(vec![rec(7, "p", 9999, 0, ProcessStatus::Stop)], 1));
    assert_eq!(alerts.get(0).status, AlertStatus::Disarmed);
}

#[test]
fn stale_threshold_rules_stay_armed_when_pid_is_gone() {
    let mut alerts = AlertTable::new();
    alerts.add_cpu_alert(9, chars("x"), 0);
    alerts.add_memory_alert(9, chars("x"), 0);
    alerts.update_alerts(&snap(Vec::new(), 100));
    assert_eq!(alerts.get(0).status, AlertStatus::Armed);
    assert_eq!(alerts.get(1).status, AlertStatus::Armed);
}

#[test]
fn memory_threshold_compares_share_of_total_exactly() {
    // 50 bytes of 100 is exactly 50.00%: not strictly above 50.00%
    let mut alerts = AlertTable::new();
    alerts.add_memory_alert(1, chars("m"), 5000);
    alerts.update_alerts(&snap(vec![rec(1, "m", 0, 50, ProcessStatus::Run)], 100));
    assert_eq!(alerts.get(0).status, AlertStatus::Armed);
    // 51 bytes of 100 is 51.00%: strictly above
    let mut alerts = AlertTable::new();
    alerts.add_memory_alert(1, chars("m"), 5000);
    alerts.update_alerts(&snap(vec![rec(1, "m", 0, 51, ProcessStatus::Run)], 100));
    assert_eq!(alerts.get(0).status, AlertStatus::Triggered);
}

#[test]
fn arm_and_disarm_are_silent_no_ops_out_of_range() {
    let mut alerts = AlertTable::new();
    alerts.add_exit_code_alert(1, chars("p"));
    alerts.arm_alert(5);
    alerts.disarm_alert(5);
    assert_eq!(alerts.len(), 1);
    assert_eq!(alerts.get(0).status, AlertStatus::Armed);
}

#[test]
fn re_arming_a_triggered_rule_lets_it_trigger_again() {
    let mut alerts = AlertTable::new();
    alerts.add_exit_code_alert(7, chars("p"));
    alerts.update_alerts(&snap(Vec::new(), 0));
    assert_eq!(alerts.get(0).status, AlertStatus::Triggered);
    alerts.arm_alert(0);
    assert_eq!(alerts.get(0).status, AlertStatus::Armed);
    alerts.update_alerts(&snap(Vec::new(), 0));
    assert_eq!(alerts.get(0).status, AlertStatus::Triggered);
}

#[test]
fn rules_accumulate_and_duplicates_are_legal() {
    let mut alerts = AlertTable::new();
    alerts.add_cpu_alert(1, chars("p"), 100);
    alerts.add_cpu_alert(1, chars("p"), 100);
    alerts.add_memory_alert(1, chars("p"), 200);
    alerts.add_exit_code_alert(1, chars("p"));
    assert_eq!(alerts.len(), 4);
    assert_eq!(alerts.get(0).condition, AlertCondition::CpuUsage(100));
    assert_eq!(alerts.get(2).condition, AlertCondition::MemoryUsage(200));
    assert_eq!(alerts.get(3).condition, AlertCondition::Exit);
}
