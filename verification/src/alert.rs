use vstd::prelude::*;

use crate::process::{ProcView, ProcessRecord, ProcessStatus};
use crate::selection::{sel_next, sel_prev, TableSelection};
use crate::snapshot::MetricsSnapshot;

verus! {

/// Lifecycle of an alert rule. Only Armed rules are evaluated; Triggered is
/// terminal until the operator re-arms.
#[derive(Clone, Copy, Debug, PartialEq, Eq, Structural)]
pub enum AlertStatus {
    Armed,
    Disarmed,
    Triggered,
}

/// What an alert rule watches for. Thresholds are in hundredths of a
/// percent, like the sampled CPU figures.
#[derive(Clone, Copy, Debug, PartialEq, Eq, Structural)]
pub enum AlertCondition {
    CpuUsage(u64),
    MemoryUsage(u64),
    Exit,
}

/// One alert rule, bound to a process by pid; the name is display only.
pub struct AlertEntry {
    pub pid: u32,
    pub name: Vec<char>,
    pub condition: AlertCondition,
    pub status: AlertStatus,
}

/// Mathematical image of an `AlertEntry`.
pub struct AlertView {
    pub pid: u32,
    pub name: Seq<char>,
    pub condition: AlertCondition,
    pub status: AlertStatus,
}

impl View for AlertEntry {
    type V = AlertView;

    open spec fn view(&self) -> AlertView {
        AlertView {
            pid: self.pid,
            name: self.name@,
            condition: self.condition,
            status: self.status,
        }
    }
}

impl DeepView for AlertEntry {
    type V = AlertView;

    open spec fn deep_view(&self) -> AlertView {
        self.view()
    }
}

// ---------------------------------------------------------------------------
// Rule evaluation, at the specification level
// ---------------------------------------------------------------------------

/// The first sampled process with the given pid, if any.
pub open spec fn find_pid(procs: Seq<ProcView>, pid: u32) -> Option<ProcView>
    decreases procs.len(),
{
    if procs.len() == 0 {
        None
    } else if procs[0].pid == pid {
        Some(procs[0])
    } else {
        find_pid(procs.drop_first(), pid)
    }
}

/// Whether `mem` bytes out of `total` exceed a threshold given in
/// hundredths of a percent, compared exactly by cross-multiplication.
pub open spec fn mem_exceeds(mem: u64, total: u64, threshold: u64) -> bool {
    (mem as int) * 10000 > (threshold as int) * (total as int)
}

/// The status an Armed rule advances to under one snapshot. A present pid
/// is judged by the rule's condition; an absent pid triggers exactly the
/// Exit rules, since absence proves exit.
pub open spec fn eval_armed(e: AlertView, procs: Seq<ProcView>, total_memory: u64) -> AlertStatus {
    match find_pid(procs, e.pid) {
        Some(p) => match e.condition {
            AlertCondition::CpuUsage(t) => if p.cpu_usage > t {
                AlertStatus::Triggered
            } else {
                AlertStatus::Armed
            },
            AlertCondition::MemoryUsage(t) => if mem_exceeds(p.memory, total_memory, t) {
                AlertStatus::Triggered
            } else {
                AlertStatus::Armed
            },
            AlertCondition::Exit => if p.status == ProcessStatus::Stop {
                AlertStatus::Triggered
            } else {
                AlertStatus::Armed
            },
        },
        None => if e.condition == AlertCondition::Exit {
            AlertStatus::Triggered
        } else {
            AlertStatus::Armed
        },
    }
}

/// One evaluation step of a rule: only Armed rules move, and only their
/// status; Disarmed and Triggered rules are left exactly as they are.
pub open spec fn eval_entry(e: AlertView, procs: Seq<ProcView>, total_memory: u64) -> AlertView {
    if e.status == AlertStatus::Armed {
        AlertView { status: eval_armed(e, procs, total_memory), ..e }
    } else {
        e
    }
}

/// An Armed Exit rule triggers exactly when its process is gone from the
/// snapshot or is reported stopped; and evaluation never un-triggers:
/// a Triggered rule stays Triggered whatever the snapshot holds.
pub proof fn lemma_exit_rule_triggers_iff(e: AlertView, procs: Seq<ProcView>, total_memory: u64)
    requires
        e.condition == AlertCondition::Exit,
    ensures
        e.status == AlertStatus::Armed ==> (eval_entry(e, procs, total_memory).status
            == AlertStatus::Triggered <==> (find_pid(procs, e.pid) is None
            || (find_pid(procs, e.pid) matches Some(p) && p.status == ProcessStatus::Stop))),
        e.status == AlertStatus::Triggered ==> eval_entry(e, procs, total_memory).status
            == AlertStatus::Triggered,
{
}

/// A Disarmed rule never changes at all, whatever the snapshot holds.
pub proof fn lemma_disarmed_rule_unchanged(e: AlertView, procs: Seq<ProcView>, total_memory: u64)
    requires
        e.status == AlertStatus::Disarmed,
    ensures
        eval_entry(e, procs, total_memory) == e,
{
}

// ---------------------------------------------------------------------------
// Executable lookup
// ---------------------------------------------------------------------------

/// Linear search for a pid in the sampled process list.
fn lookup_pid(procs: &Vec<ProcessRecord>, pid: u32) -> (r: Option<usize>)
    ensures
        match r {
            Some(i) => i < procs.deep_view().len() && find_pid(procs.deep_view(), pid)
                == Some(procs.deep_view()[i as int]),
            None => find_pid(procs.deep_view(), pid) is None,
        },
{
    let ghost all = procs.deep_view();
    assert(all.skip(0) =~= all);
    let mut i: usize = 0;
    while i < procs.len()
        invariant
            0 <= i <= procs@.len(),
            all == procs.deep_view(),
            all.len() == procs@.len(),
            forall|m: int| 0 <= m < procs@.len() ==> all[m] == procs@[m]@,
            find_pid(all, pid) == find_pid(all.skip(i as int), pid),
        decreases procs@.len() - i,
    {
        if procs[i].pid == pid {
            assert(all.skip(i as int)[0] == all[i as int]);
            return Some(i);
        }
        assert(all.skip(i as int)[0] == all[i as int]);
        assert(all.skip(i as int).drop_first() =~= all.skip(i + 1));
        i = i + 1;
    }
    assert(all.skip(i as int) =~= Seq::<ProcView>::empty());
    None
}

// ---------------------------------------------------------------------------
// The alert table engine
// ---------------------------------------------------------------------------

/// The list of alert rules. Rules accumulate for the session and are never
/// removed; several rules may watch one pid.
pub struct AlertTable {
    alerts: Vec<AlertEntry>,
}

impl View for AlertTable {
    type V = Seq<AlertView>;

    closed spec fn view(&self) -> Seq<AlertView> {
        self.alerts.deep_view()
    }
}

/// How the element-wise view of a rule vector reads off the rules.
proof fn lemma_alerts_deep_view_unfold(v: Vec<AlertEntry>)
    ensures
        v.deep_view().len() == v@.len(),
        forall|i: int| 0 <= i < v@.len() ==> v.deep_view()[i] == v@[i]@,
{
}

impl AlertTable {
    pub fn new() -> (r: Self)
        ensures
            r@ == Seq::<AlertView>::empty(),
    {
        let r = AlertTable { alerts: Vec::new() };
        assert(r@ =~= Seq::<AlertView>::empty());
        r
    }

    /// How many rules the table holds.
    pub fn len(&self) -> (r: usize)
        ensures
            r == self@.len(),
    {
        self.alerts.len()
    }

    /// The rule at `index`.
    pub fn get(&self, index: usize) -> (r: &AlertEntry)
        requires
            index < self@.len(),
        ensures
            r@ == self@[index as int],
    {
        proof {
            lemma_alerts_deep_view_unfold(self.alerts);
        }
        &self.alerts[index]
    }

    fn push_entry(&mut self, e: AlertEntry)
        ensures
            final(self)@ == old(self)@.push(e@),
    {
        let ghost prev = self.alerts@;
        let ghost prev_deep = self.alerts.deep_view();
        proof {
            lemma_alerts_deep_view_unfold(self.alerts);
        }
        self.alerts.push(e);
        proof {
            lemma_alerts_deep_view_unfold(self.alerts);
            assert forall|i: int| 0 <= i < self.alerts@.len() implies
                self.alerts.deep_view()[i] == prev_deep.push(e@)[i] by {
                if i < self.alerts@.len() - 1 {
                    assert(self.alerts@[i] == prev[i]);
                }
            }
            assert(self.alerts.deep_view() =~= prev_deep.push(e@));
        }
    }

    /// Append an Armed CPU-threshold rule; the threshold is in hundredths
    /// of a percent.
    pub fn add_cpu_alert(&mut self, pid: u32, name: Vec<char>, threshold: u64)
        ensures
            final(self)@ == old(self)@.push(AlertView {
                pid,
                name: name@,
                condition: AlertCondition::CpuUsage(threshold),
                status: AlertStatus::Armed,
            }),
    {
        self.push_entry(AlertEntry {
            pid,
            name,
            condition: AlertCondition::CpuUsage(threshold),
            status: AlertStatus::Armed,
        });
    }

    /// Append an Armed memory-threshold rule; the threshold is a share of
    /// total memory, in hundredths of a percent.
    pub fn add_memory_alert(&mut self, pid: u32, name: Vec<char>, threshold: u64)
        ensures
            final(self)@ == old(self)@.push(AlertView {
                pid,
                name: name@,
                condition: AlertCondition::MemoryUsage(threshold),
                status: AlertStatus::Armed,
            }),
    {
        self.push_entry(AlertEntry {
            pid,
            name,
            condition: AlertCondition::MemoryUsage(threshold),
            status: AlertStatus::Armed,
        });
    }

    /// Append an Armed exit-detection rule.
    pub fn add_exit_code_alert(&mut self, pid: u32, name: Vec<char>)
        ensures
            final(self)@ == old(self)@.push(AlertView {
                pid,
                name: name@,
                condition: AlertCondition::Exit,
                status: AlertStatus::Armed,
            }),
    {
        self.push_entry(AlertEntry {
            pid,
            name,
            condition: AlertCondition::Exit,
            status: AlertStatus::Armed,
        });
    }

    fn set_status(&mut self, index: usize, status: AlertStatus)
        ensures
            index < old(self)@.len() ==> final(self)@ == old(self)@.update(index as int,
                AlertView { status, ..old(self)@[index as int] }),
            index >= old(self)@.len() ==> final(self)@ == old(self)@,
    {
        proof {
            lemma_alerts_deep_view_unfold(self.alerts);
        }
        if index < self.alerts.len() {
            let ghost prev = self.alerts@;
            let ghost prev_deep = self.alerts.deep_view();
            let mut e = self.alerts.remove(index);
            e.status = status;
            self.alerts.insert(index, e);
            proof {
                lemma_alerts_deep_view_unfold(self.alerts);
                let target = prev_deep.update(index as int,
                    AlertView { status, ..prev_deep[index as int] });
                assert forall|i: int| 0 <= i < self.alerts@.len() implies
                    self.alerts.deep_view()[i] == target[i] by {
                    if i < index {
                        assert(self.alerts@[i] == prev.remove(index as int).insert(index as int, e)[i]);
                        assert(self.alerts@[i] == prev[i]);
                    } else if i == index {
                        assert(self.alerts@[i] == e);
                    } else {
                        assert(self.alerts@[i] == prev[i]);
                    }
                }
                assert(self.alerts.deep_view() =~= target);
            }
        }
    }

    /// Re-arm the rule at `index`; an out-of-range index is a silent no-op.
    pub fn arm_alert(&mut self, index: usize)
        ensures
            index < old(self)@.len() ==> final(self)@ == old(self)@.update(index as int,
                AlertView { status: AlertStatus::Armed, ..old(self)@[index as int] }),
            index >= old(self)@.len() ==> final(self)@ == old(self)@,
    {
        self.set_status(index, AlertStatus::Armed);
    }

    /// Disarm the rule at `index`; an out-of-range index is a silent no-op.
    pub fn disarm_alert(&mut self, index: usize)
        ensures
            index < old(self)@.len() ==> final(self)@ == old(self)@.update(index as int,
                AlertView { status: AlertStatus::Disarmed, ..old(self)@[index as int] }),
            index >= old(self)@.len() ==> final(self)@ == old(self)@,
    {
        self.set_status(index, AlertStatus::Disarmed);
    }

    /// Evaluate every rule against one snapshot: each Armed rule advances
    /// to what the snapshot shows, every other rule stays untouched.
    pub fn update_alerts(&mut self, snapshot: &MetricsSnapshot)
        ensures
            final(self)@.len() == old(self)@.len(),
            forall|i: int| 0 <= i < old(self)@.len() ==> final(self)@[i] == eval_entry(
                old(self)@[i], snapshot.processes.deep_view(), snapshot.total_memory),
    {
        let ghost orig = self.alerts.deep_view();
        let ghost procs = snapshot.processes.deep_view();
        let ghost total = snapshot.total_memory;
        let mut out: Vec<AlertEntry> = Vec::new();
        let ghost mut k: int = 0;
        assert(out.deep_view() =~= Seq::<AlertView>::empty());
        while self.alerts.len() > 0
            invariant
                0 <= k <= orig.len(),
                procs == snapshot.processes.deep_view(),
                total == snapshot.total_memory,
                self.alerts.deep_view() =~= orig.skip(k),
                out.deep_view().len() == k,
                forall|i: int| 0 <= i < k ==> out.deep_view()[i] == eval_entry(orig[i], procs,
                    total),
            decreases orig.len() - k,
        {
            proof {
                lemma_alerts_deep_view_unfold(self.alerts);
            }
            let ghost prev = self.alerts@;
            let mut e = self.alerts.remove(0);
            proof {
                lemma_alerts_deep_view_unfold(self.alerts);
                assert(e@ == orig.skip(k)[0]);
                assert(e@ == orig[k]);
                assert forall|i: int| 0 <= i < self.alerts@.len() implies
                    self.alerts.deep_view()[i] == orig.skip(k + 1)[i] by {
                    assert(self.alerts@[i] == prev[i + 1]);
                    assert(orig.skip(k)[i + 1] == prev[i + 1]@);
                }
                assert(self.alerts.deep_view() =~= orig.skip(k + 1));
            }
            let ghost e_orig = e@;
            let armed = matches!(e.status, AlertStatus::Armed);
            if armed {
                match lookup_pid(&snapshot.processes, e.pid) {
                    Some(i) => {
                        let p = &snapshot.processes[i];
                        proof {
                            assert(p@ == procs[i as int]);
                        }
                        match e.condition {
                            AlertCondition::CpuUsage(t) => {
                                if p.cpu_usage > t {
                                    e.status = AlertStatus::Triggered;
                                }
                            },
                            AlertCondition::MemoryUsage(t) => {
                                proof {
                                    vstd::arithmetic::mul::lemma_mul_upper_bound(
                                        t as int, u64::MAX as int,
                                        snapshot.total_memory as int, u64::MAX as int);
                                    assert((u64::MAX as int) * (u64::MAX as int)
                                        < u128::MAX as int) by (nonlinear_arith);
                                }
                                let lhs: u128 = (p.memory as u128) * 10000;
                                let rhs: u128 = (t as u128) * (snapshot.total_memory as u128);
                                if lhs > rhs {
                                    e.status = AlertStatus::Triggered;
                                }
                            },
                            AlertCondition::Exit => {
                                if matches!(p.status, ProcessStatus::Stop) {
                                    e.status = AlertStatus::Triggered;
                                }
                            },
                        }
                    },
                    None => {
                        if matches!(e.condition, AlertCondition::Exit) {
                            e.status = AlertStatus::Triggered;
                        }
                    },
                }
            }
            assert(e@ == eval_entry(e_orig, procs, total));
            let ghost out_prev = out@;
            let ghost out_deep = out.deep_view();
            proof {
                lemma_alerts_deep_view_unfold(out);
            }
            out.push(e);
            proof {
                lemma_alerts_deep_view_unfold(out);
                assert forall|i: int| 0 <= i < out@.len() implies
                    out.deep_view()[i] == out_deep.push(e@)[i] by {
                    if i < out@.len() - 1 {
                        assert(out@[i] == out_prev[i]);
                    }
                }
                assert(out.deep_view() =~= out_deep.push(e@));
                k = k + 1;
            }
        }
        self.alerts = out;
    }
}

// ---------------------------------------------------------------------------
// Alert list selection
// ---------------------------------------------------------------------------

/// The operator's cursor into the alert list.
pub struct AlertTableState {
    pub state: TableSelection,
}

impl View for AlertTableState {
    type V = Option<usize>;

    open spec fn view(&self) -> Option<usize> {
        self.state@
    }
}

impl AlertTableState {
    /// A fresh cursor starts on the first row.
    pub fn new() -> (r: Self)
        ensures
            r@ == Option::Some(0usize),
    {
        AlertTableState { state: TableSelection::new() }
    }

    pub fn select_prev(&mut self)
        ensures
            final(self)@ == sel_prev(old(self)@),
    {
        self.state.select_prev();
    }

    pub fn select_next(&mut self)
        ensures
            final(self)@ == sel_next(old(self)@),
    {
        self.state.select_next();
    }

    pub fn selected(&self) -> (r: Option<usize>)
        ensures
            r == self@,
    {
        self.state.selected()
    }
}

} // verus!
