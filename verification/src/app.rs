use vstd::prelude::*;

use crate::alert::{AlertCondition, AlertStatus, AlertTable, AlertTableState, AlertView};
use crate::info::Info;
use crate::parse::parse_threshold_spec;
use crate::parse::parse_threshold;
use crate::process::{matches_pred, ProcView, ProcessTable, ProcessTableState,
    ProcessTableStateView, SortBy};
use crate::ordering;
use crate::selection::{sel_clamped, sel_next, sel_prev};
use crate::snapshot::MetricsSnapshot;
use crate::text::clone_chars;

verus! {

/// The input mode: Normal, or one of the three text-entry popups. Each
/// popup owns one buffer, cleared on entry, that receives every character
/// while the popup is open.
#[derive(Clone, Copy, Debug, PartialEq, Eq, Structural)]
pub enum Mode {
    Normal,
    ProcessFilter,
    AlertCpuThreshold,
    AlertMemoryThreshold,
}

/// A decoded key, as the input layer hands it over.
#[derive(Clone, Copy, Debug, PartialEq, Eq, Structural)]
pub enum Key {
    Char(char),
    Up,
    Down,
    Enter,
    Backspace,
    Other,
}

/// What the surrounding loop must do after a key was dispatched: carry on,
/// stop the application, or ask the operating system to end a process.
#[derive(Clone, Copy, Debug, PartialEq, Eq, Structural)]
pub enum KeyAction {
    Continue,
    Quit,
    Terminate(u32),
}

/// The operator-owned state: the input mode, the three text buffers, and
/// the two table cursors with the sort and filter choices.
pub struct AppState {
    pub mode: Mode,
    pub filter: Vec<char>,
    pub alert_cpu_threshold: Vec<char>,
    pub alert_memory_threshold: Vec<char>,
    pub process_table_state: ProcessTableState,
    pub alert_table_state: AlertTableState,
}

/// Mathematical image of an `AppState`.
pub struct AppStateView {
    pub mode: Mode,
    pub filter: Seq<char>,
    pub alert_cpu_threshold: Seq<char>,
    pub alert_memory_threshold: Seq<char>,
    pub process_table_state: ProcessTableStateView,
    pub alert_table_state: Option<usize>,
}

impl View for AppState {
    type V = AppStateView;

    open spec fn view(&self) -> AppStateView {
        AppStateView {
            mode: self.mode,
            filter: self.filter@,
            alert_cpu_threshold: self.alert_cpu_threshold@,
            alert_memory_threshold: self.alert_memory_threshold@,
            process_table_state: self.process_table_state@,
            alert_table_state: self.alert_table_state@,
        }
    }
}

impl AppState {
    /// The initial state: Normal mode, empty buffers, both cursors on the
    /// first row, CPU usage column descending.
    pub fn new() -> (r: Self)
        ensures
            r@.mode == Mode::Normal,
            r@.filter == Seq::<char>::empty(),
            r@.alert_cpu_threshold == Seq::<char>::empty(),
            r@.alert_memory_threshold == Seq::<char>::empty(),
            r@.process_table_state.state == Some(0usize),
            r@.process_table_state.sort_condition == SortBy::CpuUsage,
            r@.process_table_state.sort_ascending == false,
            r@.process_table_state.filter == Seq::<char>::empty(),
            r@.alert_table_state == Some(0usize),
    {
        let r = AppState {
            mode: Mode::Normal,
            filter: Vec::new(),
            alert_cpu_threshold: Vec::new(),
            alert_memory_threshold: Vec::new(),
            process_table_state: ProcessTableState::new(),
            alert_table_state: AlertTableState::new(),
        };
        assert(r.filter@ =~= Seq::<char>::empty());
        assert(r.alert_cpu_threshold@ =~= Seq::<char>::empty());
        assert(r.alert_memory_threshold@ =~= Seq::<char>::empty());
        r
    }

    pub fn select_prev_process(&mut self)
        ensures
            final(self)@ == (AppStateView {
                process_table_state: ProcessTableStateView {
                    state: sel_prev(old(self)@.process_table_state.state),
                    ..old(self)@.process_table_state
                },
                ..old(self)@
            }),
    {
        self.process_table_state.select_prev();
    }

    pub fn select_next_process(&mut self)
        ensures
            final(self)@ == (AppStateView {
                process_table_state: ProcessTableStateView {
                    state: sel_next(old(self)@.process_table_state.state),
                    ..old(self)@.process_table_state
                },
                ..old(self)@
            }),
    {
        self.process_table_state.select_next();
    }

    pub fn select_prev_alert(&mut self)
        ensures
            final(self)@ == (AppStateView {
                alert_table_state: sel_prev(old(self)@.alert_table_state),
                ..old(self)@
            }),
    {
        self.alert_table_state.select_prev();
    }

    pub fn select_next_alert(&mut self)
        ensures
            final(self)@ == (AppStateView {
                alert_table_state: sel_next(old(self)@.alert_table_state),
                ..old(self)@
            }),
    {
        self.alert_table_state.select_next();
    }
}

// ---------------------------------------------------------------------------
// The key transition relation
// ---------------------------------------------------------------------------

/// What one key does: the state afterwards, the alert rules afterwards,
/// and the outward action.
pub struct StepResult {
    pub state: AppStateView,
    pub alerts: Seq<AlertView>,
    pub action: KeyAction,
}

/// The row the process cursor points at, if it points into the table.
pub open spec fn selected_row(table: Seq<ProcView>, sel: Option<usize>) -> Option<ProcView> {
    match sel {
        None => None,
        Some(i) => if i < table.len() {
            Some(table[i as int])
        } else {
            None
        },
    }
}

/// Set the status of the rule the alert cursor points at; a stale or
/// missing cursor changes nothing.
pub open spec fn set_status_at(alerts: Seq<AlertView>, sel: Option<usize>, status: AlertStatus)
    -> Seq<AlertView> {
    match sel {
        None => alerts,
        Some(i) => if i < alerts.len() {
            alerts.update(i as int, AlertView { status, ..alerts[i as int] })
        } else {
            alerts
        },
    }
}

/// Choose a sort column; every press toggles the direction, whether or not
/// the column changes.
pub open spec fn toggle_sort(s: AppStateView, key: SortBy) -> AppStateView {
    AppStateView {
        process_table_state: ProcessTableStateView {
            sort_condition: key,
            sort_ascending: !s.process_table_state.sort_ascending,
            ..s.process_table_state
        },
        ..s
    }
}

/// A step that changes only the state.
pub open spec fn state_step(s: AppStateView, alerts: Seq<AlertView>) -> StepResult {
    StepResult { state: s, alerts, action: KeyAction::Continue }
}

/// One key in Normal mode.
pub open spec fn step_normal(s: AppStateView, table: Seq<ProcView>, alerts: Seq<AlertView>,
    key: Key) -> StepResult {
    let psel = s.process_table_state.state;
    let asel = s.alert_table_state;
    match key {
        Key::Char(c) => if c == 'q' {
            StepResult { state: s, alerts, action: KeyAction::Quit }
        } else if c == 'j' {
            state_step(AppStateView {
                process_table_state: ProcessTableStateView {
                    state: sel_next(psel),
                    ..s.process_table_state
                },
                ..s
            }, alerts)
        } else if c == 'k' {
            state_step(AppStateView {
                process_table_state: ProcessTableStateView {
                    state: sel_prev(psel),
                    ..s.process_table_state
                },
                ..s
            }, alerts)
        } else if c == 't' {
            match selected_row(table, psel) {
                Some(p) => StepResult { state: s, alerts, action: KeyAction::Terminate(p.pid) },
                None => state_step(s, alerts),
            }
        } else if c == '/' {
            state_step(AppStateView {
                mode: Mode::ProcessFilter,
                filter: Seq::<char>::empty(),
                ..s
            }, alerts)
        } else if c == 'c' {
            state_step(AppStateView {
                mode: Mode::AlertCpuThreshold,
                alert_cpu_threshold: Seq::<char>::empty(),
                ..s
            }, alerts)
        } else if c == 'm' {
            state_step(AppStateView {
                mode: Mode::AlertMemoryThreshold,
                alert_memory_threshold: Seq::<char>::empty(),
                ..s
            }, alerts)
        } else if c == 'a' {
            state_step(s, set_status_at(alerts, asel, AlertStatus::Armed))
        } else if c == 'd' {
            state_step(s, set_status_at(alerts, asel, AlertStatus::Disarmed))
        } else if c == 'e' {
            match selected_row(table, psel) {
                Some(p) => state_step(AppStateView { alert_table_state: sel_next(asel), ..s },
                    alerts.push(AlertView {
                        pid: p.pid,
                        name: p.name,
                        condition: AlertCondition::Exit,
                        status: AlertStatus::Armed,
                    })),
                None => state_step(s, alerts),
            }
        } else if c == '1' {
            state_step(toggle_sort(s, SortBy::Pid), alerts)
        } else if c == '2' {
            state_step(toggle_sort(s, SortBy::Name), alerts)
        } else if c == '3' {
            state_step(toggle_sort(s, SortBy::CpuUsage), alerts)
        } else if c == '4' {
            state_step(toggle_sort(s, SortBy::Memory), alerts)
        } else if c == '5' {
            state_step(toggle_sort(s, SortBy::RunTime), alerts)
        } else if c == '6' {
            state_step(toggle_sort(s, SortBy::Status), alerts)
        } else {
            state_step(s, alerts)
        },
        Key::Up => state_step(AppStateView { alert_table_state: sel_prev(asel), ..s }, alerts),
        Key::Down => state_step(AppStateView { alert_table_state: sel_next(asel), ..s }, alerts),
        _ => state_step(s, alerts),
    }
}

/// One key while entering the process filter.
pub open spec fn step_filter(s: AppStateView, alerts: Seq<AlertView>, key: Key) -> StepResult {
    match key {
        Key::Enter => state_step(AppStateView {
            mode: Mode::Normal,
            process_table_state: ProcessTableStateView {
                filter: s.filter,
                ..s.process_table_state
            },
            ..s
        }, alerts),
        Key::Backspace => state_step(AppStateView {
            filter: if s.filter.len() > 0 {
                s.filter.drop_last()
            } else {
                s.filter
            },
            ..s
        }, alerts),
        Key::Char(c) => state_step(AppStateView { filter: s.filter.push(c), ..s }, alerts),
        _ => state_step(s, alerts),
    }
}

/// One key while entering the CPU threshold. On Enter the text is parsed;
/// a rule is created only when the text parses and the process cursor
/// points at a row; either way the mode returns to Normal.
pub open spec fn step_cpu_threshold(s: AppStateView, table: Seq<ProcView>,
    alerts: Seq<AlertView>, key: Key) -> StepResult {
    match key {
        Key::Enter => {
            match (parse_threshold_spec(s.alert_cpu_threshold), selected_row(table,
                s.process_table_state.state)) {
                (Some(t), Some(p)) => state_step(AppStateView {
                    mode: Mode::Normal,
                    alert_table_state: sel_next(s.alert_table_state),
                    ..s
                }, alerts.push(AlertView {
                    pid: p.pid,
                    name: p.name,
                    condition: AlertCondition::CpuUsage(t),
                    status: AlertStatus::Armed,
                })),
                _ => state_step(AppStateView { mode: Mode::Normal, ..s }, alerts),
            }
        },
        Key::Backspace => state_step(AppStateView {
            alert_cpu_threshold: if s.alert_cpu_threshold.len() > 0 {
                s.alert_cpu_threshold.drop_last()
            } else {
                s.alert_cpu_threshold
            },
            ..s
        }, alerts),
        Key::Char(c) => state_step(AppStateView {
            alert_cpu_threshold: s.alert_cpu_threshold.push(c),
            ..s
        }, alerts),
        _ => state_step(s, alerts),
    }
}

/// One key while entering the memory threshold; symmetric to the CPU
/// popup.
pub open spec fn step_memory_threshold(s: AppStateView, table: Seq<ProcView>,
    alerts: Seq<AlertView>, key: Key) -> StepResult {
    match key {
        Key::Enter => {
            match (parse_threshold_spec(s.alert_memory_threshold), selected_row(table,
                s.process_table_state.state)) {
                (Some(t), Some(p)) => state_step(AppStateView {
                    mode: Mode::Normal,
                    alert_table_state: sel_next(s.alert_table_state),
                    ..s
                }, alerts.push(AlertView {
                    pid: p.pid,
                    name: p.name,
                    condition: AlertCondition::MemoryUsage(t),
                    status: AlertStatus::Armed,
                })),
                _ => state_step(AppStateView { mode: Mode::Normal, ..s }, alerts),
            }
        },
        Key::Backspace => state_step(AppStateView {
            alert_memory_threshold: if s.alert_memory_threshold.len() > 0 {
                s.alert_memory_threshold.drop_last()
            } else {
                s.alert_memory_threshold
            },
            ..s
        }, alerts),
        Key::Char(c) => state_step(AppStateView {
            alert_memory_threshold: s.alert_memory_threshold.push(c),
            ..s
        }, alerts),
        _ => state_step(s, alerts),
    }
}

/// The whole transition relation: what one decoded key does to the state
/// and the alert rules, and what it asks of the surrounding loop.
pub open spec fn step(s: AppStateView, table: Seq<ProcView>, alerts: Seq<AlertView>, key: Key)
    -> StepResult {
    match s.mode {
        Mode::Normal => step_normal(s, table, alerts, key),
        Mode::ProcessFilter => step_filter(s, alerts, key),
        Mode::AlertCpuThreshold => step_cpu_threshold(s, table, alerts, key),
        Mode::AlertMemoryThreshold => step_memory_threshold(s, table, alerts, key),
    }
}

/// Dispatch one decoded key: the state and the alert rules move exactly as
/// the transition relation `step` says, and the returned action tells the
/// surrounding loop what is left to do.
pub fn handle_key(state: &mut AppState, table: &ProcessTable, alerts: &mut AlertTable, key: Key)
    -> (r: KeyAction)
    ensures
        final(state)@ == step(old(state)@, table@, old(alerts)@, key).state,
        final(alerts)@ == step(old(state)@, table@, old(alerts)@, key).alerts,
        r == step(old(state)@, table@, old(alerts)@, key).action,
{
    match state.mode {
        Mode::Normal => match key {
            Key::Char(c) => {
                if c == 'q' {
                    KeyAction::Quit
                } else if c == 'j' {
                    state.process_table_state.select_next();
                    KeyAction::Continue
                } else if c == 'k' {
                    state.process_table_state.select_prev();
                    KeyAction::Continue
                } else if c == 't' {
                    match state.process_table_state.selected() {
                        Some(i) => match table.terminate_process(i) {
                            Some(pid) => KeyAction::Terminate(pid),
                            None => KeyAction::Continue,
                        },
                        None => KeyAction::Continue,
                    }
                } else if c == '/' {
                    state.filter = Vec::new();
                    state.mode = Mode::ProcessFilter;
                    assert(state.filter@ =~= Seq::<char>::empty());
                    KeyAction::Continue
                } else if c == 'c' {
                    state.alert_cpu_threshold = Vec::new();
                    state.mode = Mode::AlertCpuThreshold;
                    assert(state.alert_cpu_threshold@ =~= Seq::<char>::empty());
                    KeyAction::Continue
                } else if c == 'm' {
                    state.alert_memory_threshold = Vec::new();
                    state.mode = Mode::AlertMemoryThreshold;
                    assert(state.alert_memory_threshold@ =~= Seq::<char>::empty());
                    KeyAction::Continue
                } else if c == 'a' {
                    match state.alert_table_state.selected() {
                        Some(i) => {
                            alerts.arm_alert(i);
                        },
                        None => {},
                    }
                    KeyAction::Continue
                } else if c == 'd' {
                    match state.alert_table_state.selected() {
                        Some(i) => {
                            alerts.disarm_alert(i);
                        },
                        None => {},
                    }
                    KeyAction::Continue
                } else if c == 'e' {
                    match state.process_table_state.selected() {
                        Some(i) => match table.row(i) {
                            Some(p) => {
                                let name = clone_chars(&p.name);
                                let pid = p.pid;
                                alerts.add_exit_code_alert(pid, name);
                                state.alert_table_state.select_next();
                            },
                            None => {},
                        },
                        None => {},
                    }
                    KeyAction::Continue
                } else if c == '1' {
                    state.process_table_state.sort_condition = SortBy::Pid;
                    state.process_table_state.sort_ascending =
                        !state.process_table_state.sort_ascending;
                    KeyAction::Continue
                } else if c == '2' {
                    state.process_table_state.sort_condition = SortBy::Name;
                    state.process_table_state.sort_ascending =
                        !state.process_table_state.sort_ascending;
                    KeyAction::Continue
                } else if c == '3' {
                    state.process_table_state.sort_condition = SortBy::CpuUsage;
                    state.process_table_state.sort_ascending =
                        !state.process_table_state.sort_ascending;
                    KeyAction::Continue
                } else if c == '4' {
                    state.process_table_state.sort_condition = SortBy::Memory;
                    state.process_table_state.sort_ascending =
                        !state.process_table_state.sort_ascending;
                    KeyAction::Continue
                } else if c == '5' {
                    state.process_table_state.sort_condition = SortBy::RunTime;
                    state.process_table_state.sort_ascending =
                        !state.process_table_state.sort_ascending;
                    KeyAction::Continue
                } else if c == '6' {
                    state.process_table_state.sort_condition = SortBy::Status;
                    state.process_table_state.sort_ascending =
                        !state.process_table_state.sort_ascending;
                    KeyAction::Continue
                } else {
                    KeyAction::Continue
                }
            },
            Key::Up => {
                state.alert_table_state.select_prev();
                KeyAction::Continue
            },
            Key::Down => {
                state.alert_table_state.select_next();
                KeyAction::Continue
            },
            _ => KeyAction::Continue,
        },
        Mode::ProcessFilter => match key {
            Key::Enter => {
                state.process_table_state.filter = clone_chars(&state.filter);
                state.mode = Mode::Normal;
                KeyAction::Continue
            },
            Key::Backspace => {
                state.filter.pop();
                KeyAction::Continue
            },
            Key::Char(c) => {
                state.filter.push(c);
                KeyAction::Continue
            },
            _ => KeyAction::Continue,
        },
        Mode::AlertCpuThreshold => match key {
            Key::Enter => {
                let parsed = parse_threshold(&state.alert_cpu_threshold);
                match parsed {
                    Some(t) => match state.process_table_state.selected() {
                        Some(i) => match table.row(i) {
                            Some(p) => {
                                let name = clone_chars(&p.name);
                                let pid = p.pid;
                                alerts.add_cpu_alert(pid, name, t);
                                state.alert_table_state.select_next();
                            },
                            None => {},
                        },
                        None => {},
                    },
                    None => {},
                }
                state.mode = Mode::Normal;
                KeyAction::Continue
            },
            Key::Backspace => {
                state.alert_cpu_threshold.pop();
                KeyAction::Continue
            },
            Key::Char(c) => {
                state.alert_cpu_threshold.push(c);
                KeyAction::Continue
            },
            _ => KeyAction::Continue,
        },
        Mode::AlertMemoryThreshold => match key {
            Key::Enter => {
                let parsed = parse_threshold(&state.alert_memory_threshold);
                match parsed {
                    Some(t) => match state.process_table_state.selected() {
                        Some(i) => match table.row(i) {
                            Some(p) => {
                                let name = clone_chars(&p.name);
                                let pid = p.pid;
                                alerts.add_memory_alert(pid, name, t);
                                state.alert_table_state.select_next();
                            },
                            None => {},
                        },
                        None => {},
                    },
                    None => {},
                }
                state.mode = Mode::Normal;
                KeyAction::Continue
            },
            Key::Backspace => {
                state.alert_memory_threshold.pop();
                KeyAction::Continue
            },
            Key::Char(c) => {
                state.alert_memory_threshold.push(c);
                KeyAction::Continue
            },
            _ => KeyAction::Continue,
        },
    }
}

// ---------------------------------------------------------------------------
// One tick of the whole engine
// ---------------------------------------------------------------------------

/// One iteration of the monitor between two key polls: evaluate the alert
/// rules against the snapshot, show the host facts, then rebuild the
/// process table -- filter first, then sort -- and re-clamp the cursor.
pub fn tick(table: &mut ProcessTable, alerts: &mut AlertTable, info: &mut Info,
    state: &mut AppState, snapshot: MetricsSnapshot)
    ensures
        final(alerts)@.len() == old(alerts)@.len(),
        forall|i: int| 0 <= i < old(alerts)@.len() ==> final(alerts)@[i]
            == crate::alert::eval_entry(old(alerts)@[i], snapshot.processes.deep_view(),
            snapshot.total_memory),
        final(table)@ == ordering::sort_spec(
            snapshot.processes.deep_view().filter(matches_pred(old(state)@.process_table_state.filter)),
            old(state)@.process_table_state.sort_condition,
            old(state)@.process_table_state.sort_ascending,
        ),
        final(state)@.process_table_state.state == sel_clamped(
            old(state)@.process_table_state.state, final(table)@.len() as usize),
        final(state)@.mode == old(state)@.mode,
        final(state)@.filter == old(state)@.filter,
        final(state)@.alert_cpu_threshold == old(state)@.alert_cpu_threshold,
        final(state)@.alert_memory_threshold == old(state)@.alert_memory_threshold,
        final(state)@.process_table_state.sort_condition
            == old(state)@.process_table_state.sort_condition,
        final(state)@.process_table_state.sort_ascending
            == old(state)@.process_table_state.sort_ascending,
        final(state)@.process_table_state.filter == old(state)@.process_table_state.filter,
        final(state)@.alert_table_state == old(state)@.alert_table_state,
        final(info).host_name@ == snapshot.host_name@,
        final(info).os_name@ == snapshot.os_name@,
        final(info).kernel_version@ == snapshot.kernel_version@,
        final(info).uptime == snapshot.uptime_seconds,
        final(info).cpu_name@ == snapshot.cpu_brand@,
{
    alerts.update_alerts(&snapshot);
    info.update(&snapshot);
    table.update_with_state(snapshot.processes, &mut state.process_table_state);
}

} // verus!
