use vstd::prelude::*;

use crate::ordering;
use crate::selection::{sel_clamped, sel_next, sel_prev, TableSelection};
use crate::text;

verus! {

/// The column a process table is ordered by.
#[derive(Clone, Copy, Debug, PartialEq, Eq, Structural)]
pub enum SortBy {
    Pid,
    Name,
    CpuUsage,
    Memory,
    RunTime,
    Status,
}

/// Reported state of an operating-system process.
#[derive(Clone, Copy, Debug, PartialEq, Eq, Structural)]
pub enum ProcessStatus {
    Idle,
    Run,
    Sleep,
    Stop,
    Zombie,
    Tracing,
    Dead,
    Wakekill,
    Waking,
    Parked,
    LockBlocked,
    UninterruptibleDiskSleep,
    Suspended,
    Unknown(u32),
}

/// The display text of a process status; states without one of their own
/// read "Unknown".
pub open spec fn status_label(s: ProcessStatus) -> Seq<char> {
    match s {
        ProcessStatus::Idle => seq!['I', 'd', 'l', 'e'],
        ProcessStatus::Run => seq!['R', 'u', 'n', 'n', 'a', 'b', 'l', 'e'],
        ProcessStatus::Sleep => seq!['S', 'l', 'e', 'e', 'p', 'i', 'n', 'g'],
        ProcessStatus::Stop => seq!['S', 't', 'o', 'p', 'p', 'e', 'd'],
        ProcessStatus::Zombie => seq!['Z', 'o', 'm', 'b', 'i', 'e'],
        ProcessStatus::Tracing => seq!['T', 'r', 'a', 'c', 'i', 'n', 'g'],
        ProcessStatus::Dead => seq!['D', 'e', 'a', 'd'],
        ProcessStatus::Wakekill => seq!['W', 'a', 'k', 'e', 'k', 'i', 'l', 'l'],
        ProcessStatus::Waking => seq!['W', 'a', 'k', 'i', 'n', 'g'],
        ProcessStatus::Parked => seq!['P', 'a', 'r', 'k', 'e', 'd'],
        ProcessStatus::UninterruptibleDiskSleep => seq![
            'U', 'n', 'i', 'n', 't', 'e', 'r', 'r', 'u', 'p', 't', 'i', 'b', 'l', 'e',
            'D', 'i', 's', 'k', 'S', 'l', 'e', 'e', 'p',
        ],
        _ => seq!['U', 'n', 'k', 'n', 'o', 'w', 'n'],
    }
}

impl ProcessStatus {
    /// The display text of this status, as characters.
    pub fn label(&self) -> (r: Vec<char>)
        ensures
            r@ == status_label(*self),
    {
        let r: Vec<char> = match self {
            ProcessStatus::Idle => vec!['I', 'd', 'l', 'e'],
            ProcessStatus::Run => vec!['R', 'u', 'n', 'n', 'a', 'b', 'l', 'e'],
            ProcessStatus::Sleep => vec!['S', 'l', 'e', 'e', 'p', 'i', 'n', 'g'],
            ProcessStatus::Stop => vec!['S', 't', 'o', 'p', 'p', 'e', 'd'],
            ProcessStatus::Zombie => vec!['Z', 'o', 'm', 'b', 'i', 'e'],
            ProcessStatus::Tracing => vec!['T', 'r', 'a', 'c', 'i', 'n', 'g'],
            ProcessStatus::Dead => vec!['D', 'e', 'a', 'd'],
            ProcessStatus::Wakekill => vec!['W', 'a', 'k', 'e', 'k', 'i', 'l', 'l'],
            ProcessStatus::Waking => vec!['W', 'a', 'k', 'i', 'n', 'g'],
            ProcessStatus::Parked => vec!['P', 'a', 'r', 'k', 'e', 'd'],
            ProcessStatus::UninterruptibleDiskSleep => vec![
                'U', 'n', 'i', 'n', 't', 'e', 'r', 'r', 'u', 'p', 't', 'i', 'b', 'l', 'e',
                'D', 'i', 's', 'k', 'S', 'l', 'e', 'e', 'p',
            ],
            _ => vec!['U', 'n', 'k', 'n', 'o', 'w', 'n'],
        };
        assert(r@ =~= status_label(*self));
        r
    }
}

/// One sampled process. CPU usage is carried in hundredths of a percent so
/// that the engines work on exact integers; the sampling layer converts.
pub struct ProcessRecord {
    pub pid: u32,
    pub name: Vec<char>,
    /// CPU usage in hundredths of a percent.
    pub cpu_usage: u64,
    /// Resident memory in bytes.
    pub memory: u64,
    /// Seconds since the process started.
    pub run_time: u64,
    pub status: ProcessStatus,
}

/// Mathematical image of a `ProcessRecord`.
pub struct ProcView {
    pub pid: u32,
    pub name: Seq<char>,
    pub cpu_usage: u64,
    pub memory: u64,
    pub run_time: u64,
    pub status: ProcessStatus,
}

impl View for ProcessRecord {
    type V = ProcView;

    open spec fn view(&self) -> ProcView {
        ProcView {
            pid: self.pid,
            name: self.name@,
            cpu_usage: self.cpu_usage,
            memory: self.memory,
            run_time: self.run_time,
            status: self.status,
        }
    }
}

impl DeepView for ProcessRecord {
    type V = ProcView;

    open spec fn deep_view(&self) -> ProcView {
        self.view()
    }
}

impl ProcessRecord {
    /// Assemble a record from sampled values.
    pub fn new(pid: u32, name: Vec<char>, cpu_usage: u64, memory: u64, run_time: u64,
        status: ProcessStatus) -> (r: Self)
        ensures
            r@ == (ProcView { pid, name: name@, cpu_usage, memory, run_time, status }),
    {
        ProcessRecord { pid, name, cpu_usage, memory, run_time, status }
    }
}

/// Whether a record's name matches a filter text.
pub open spec fn row_matches(p: ProcView, filter: Seq<char>) -> bool {
    text::name_matches(p.name, filter)
}

/// The rows whose name matches `filter`, as a predicate.
pub open spec fn matches_pred(filter: Seq<char>) -> spec_fn(ProcView) -> bool {
    |p: ProcView| row_matches(p, filter)
}

/// What filtering guarantees: every row that remains matches the filter
/// text, every matching row remains, and no row appears from nowhere.
pub proof fn lemma_filter_characterized(s: Seq<ProcView>, filter: Seq<char>)
    ensures
        forall|i: int| 0 <= i < s.filter(matches_pred(filter)).len()
            ==> row_matches(#[trigger] s.filter(matches_pred(filter))[i], filter),
        forall|x: ProcView| s.contains(x) && row_matches(x, filter)
            ==> #[trigger] s.filter(matches_pred(filter)).contains(x),
        forall|x: ProcView| #[trigger] s.filter(matches_pred(filter)).contains(x)
            ==> s.contains(x),
{
    let pred = matches_pred(filter);
    s.filter_lemma(pred);
    assert forall|x: ProcView| s.contains(x) && row_matches(x, filter) implies
        #[trigger] s.filter(pred).contains(x) by {
        let i = choose|i: int| 0 <= i < s.len() && s[i] == x;
        assert(pred(s[i]));
    }
    assert forall|x: ProcView| #[trigger] s.filter(pred).contains(x) implies s.contains(x) by {
        lemma_filter_subset(s, pred, x);
    }
}

/// A row of a filtered sequence is a row of the sequence.
proof fn lemma_filter_subset(s: Seq<ProcView>, pred: spec_fn(ProcView) -> bool, x: ProcView)
    requires
        s.filter(pred).contains(x),
    ensures
        s.contains(x),
    decreases s.len(),
{
    reveal(Seq::filter);
    if s.len() > 0 {
        let sub = s.drop_last().filter(pred);
        if pred(s.last()) && x == s.last() {
            assert(s[s.len() - 1] == x);
        } else {
            if pred(s.last()) {
                let f = s.filter(pred);
                let i = choose|i: int| 0 <= i < f.len() && f[i] == x;
                assert(f == sub.push(s.last()));
                assert(i < f.len() - 1);
                assert(sub[i] == x);
                assert(sub.contains(x));
            }
            lemma_filter_subset(s.drop_last(), pred, x);
            let j = choose|j: int| 0 <= j < s.drop_last().len() && s.drop_last()[j] == x;
            assert(s[j] == x);
        }
    }
}

// ---------------------------------------------------------------------------
// Row comparison, executable
// ---------------------------------------------------------------------------

/// Compare the sort keys of two records under one column.
fn key_le_exec(a: &ProcessRecord, b: &ProcessRecord, key: SortBy) -> (r: bool)
    ensures
        r == ordering::keyval_le(ordering::key_of(a@, key), ordering::key_of(b@, key)),
{
    match key {
        SortBy::Pid => a.pid <= b.pid,
        SortBy::Name => text::lex_le_exec(&a.name, &b.name),
        SortBy::CpuUsage => a.cpu_usage <= b.cpu_usage,
        SortBy::Memory => a.memory <= b.memory,
        SortBy::RunTime => a.run_time <= b.run_time,
        SortBy::Status => {
            let la = a.status.label();
            let lb = b.status.label();
            text::lex_le_exec(&la, &lb)
        },
    }
}

/// Find where to insert `p` in display order: just before the first row
/// strictly greater than it.
fn find_insert_pos(v: &Vec<ProcessRecord>, p: &ProcessRecord, key: SortBy, asc: bool) -> (j: usize)
    ensures
        j <= v.deep_view().len(),
        forall|m: int| 0 <= m < j ==> !ordering::row_lt(p@, #[trigger] v.deep_view()[m], key, asc),
        j < v.deep_view().len() ==> ordering::row_lt(p@, v.deep_view()[j as int], key, asc),
{
    proof {
        lemma_deep_view_unfold(*v);
    }
    let mut j: usize = 0;
    loop
        invariant
            0 <= j <= v@.len(),
            v.deep_view().len() == v@.len(),
            forall|i: int| 0 <= i < v@.len() ==> v.deep_view()[i] == v@[i]@,
            forall|m: int| 0 <= m < j ==> !ordering::row_lt(p@, #[trigger] v.deep_view()[m], key, asc),
        decreases v@.len() - j,
    {
        if j == v.len() {
            return j;
        }
        if row_le_exec(&v[j], p, key, asc) {
            j = j + 1;
        } else {
            return j;
        }
    }
}

/// Decide whether `a` comes weakly before `b` in display order.
fn row_le_exec(a: &ProcessRecord, b: &ProcessRecord, key: SortBy, ascending: bool) -> (r: bool)
    ensures
        r == ordering::row_le(a@, b@, key, ascending),
{
    if ascending {
        key_le_exec(a, b, key)
    } else {
        key_le_exec(b, a, key)
    }
}

/// How the element-wise view of a record vector reads off the records.
proof fn lemma_deep_view_unfold(v: Vec<ProcessRecord>)
    ensures
        v.deep_view().len() == v@.len(),
        forall|i: int| 0 <= i < v@.len() ==> v.deep_view()[i] == v@[i]@,
{
}

// ---------------------------------------------------------------------------
// The process table engine
// ---------------------------------------------------------------------------

/// The working set of processes, in display order once filtered and sorted.
pub struct ProcessTable {
    processes: Vec<ProcessRecord>,
}

impl View for ProcessTable {
    type V = Seq<ProcView>;

    closed spec fn view(&self) -> Seq<ProcView> {
        self.processes.deep_view()
    }
}

impl ProcessTable {
    pub fn new() -> (r: Self)
        ensures
            r@ == Seq::<ProcView>::empty(),
    {
        let r = ProcessTable { processes: Vec::new() };
        assert(r@ =~= Seq::<ProcView>::empty());
        r
    }

    /// Replace the working set wholesale with a fresh sample.
    pub fn refresh(&mut self, processes: Vec<ProcessRecord>)
        ensures
            final(self)@ == processes.deep_view(),
    {
        self.processes = processes;
    }

    /// How many rows the table currently shows.
    pub fn len(&self) -> (r: usize)
        ensures
            r == self@.len(),
    {
        self.processes.len()
    }

    /// Retain exactly the rows whose name contains `filter`,
    /// case-insensitively; the empty filter retains every row.
    pub fn filter(&mut self, filter: &Vec<char>)
        ensures
            final(self)@ == old(self)@.filter(matches_pred(filter@)),
    {
        let ghost orig = self.processes.deep_view();
        let ghost pred = matches_pred(filter@);
        let mut kept: Vec<ProcessRecord> = Vec::new();
        let ghost mut k: int = 0;
        assert(kept.deep_view() =~= orig.take(0).filter(pred)) by {
            reveal(Seq::filter);
            assert(orig.take(0) =~= Seq::<ProcView>::empty());
            assert(kept.deep_view() =~= Seq::<ProcView>::empty());
        }
        while self.processes.len() > 0
            invariant
                0 <= k <= orig.len(),
                pred == matches_pred(filter@),
                self.processes.deep_view() =~= orig.skip(k),
                kept.deep_view() == orig.take(k).filter(pred),
            decreases orig.len() - k,
        {
            proof {
                lemma_deep_view_unfold(self.processes);
            }
            let ghost prev = self.processes@;
            let p = self.processes.remove(0);
            proof {
                lemma_deep_view_unfold(self.processes);
                assert(p@ == orig.skip(k)[0]);
                assert(p@ == orig[k]);
                assert forall|i: int| 0 <= i < self.processes@.len() implies
                    self.processes.deep_view()[i] == orig.skip(k + 1)[i] by {
                    assert(self.processes@[i] == prev[i + 1]);
                    assert(orig.skip(k)[i + 1] == prev[i + 1]@);
                }
                assert(self.processes.deep_view() =~= orig.skip(k + 1));
            }
            let matched = text::name_matches_exec(&p.name, filter);
            assert(matched == pred(orig[k]));
            proof {
                ordering::lemma_filter_push(orig.take(k), orig[k], pred);
                assert(orig.take(k).push(orig[k]) =~= orig.take(k + 1));
            }
            if matched {
                let ghost kept_prev = kept@;
                let ghost kept_deep = kept.deep_view();
                proof {
                    lemma_deep_view_unfold(kept);
                }
                kept.push(p);
                proof {
                    lemma_deep_view_unfold(kept);
                    assert forall|i: int| 0 <= i < kept@.len() implies
                        kept.deep_view()[i] == kept_deep.push(orig[k])[i] by {
                        if i < kept@.len() - 1 {
                            assert(kept@[i] == kept_prev[i]);
                        }
                    }
                    assert(kept.deep_view() =~= kept_deep.push(orig[k]));
                }
            }
            proof {
                k = k + 1;
            }
        }
        assert(orig.take(orig.len() as int) =~= orig);
        self.processes = kept;
    }

    /// Put the rows in display order: sorted by the chosen column, ties
    /// keeping their current relative order.
    pub fn sort_by(&mut self, sort_by: SortBy, sort_ascending: bool)
        ensures
            final(self)@ == ordering::sort_spec(old(self)@, sort_by, sort_ascending),
    {
        let ghost orig = self.processes.deep_view();
        let mut sorted_v: Vec<ProcessRecord> = Vec::new();
        let ghost mut k: int = 0;
        assert(sorted_v.deep_view() =~= ordering::sort_spec(orig.take(0), sort_by, sort_ascending))
            by {
            assert(orig.take(0) =~= Seq::<ProcView>::empty());
            assert(sorted_v.deep_view() =~= Seq::<ProcView>::empty());
        }
        while self.processes.len() > 0
            invariant
                0 <= k <= orig.len(),
                self.processes.deep_view() =~= orig.skip(k),
                sorted_v.deep_view() == ordering::sort_spec(orig.take(k), sort_by, sort_ascending),
            decreases orig.len() - k,
        {
            proof {
                lemma_deep_view_unfold(self.processes);
            }
            let ghost prev = self.processes@;
            let p = self.processes.remove(0);
            proof {
                lemma_deep_view_unfold(self.processes);
                assert(p@ == orig.skip(k)[0]);
                assert(p@ == orig[k]);
                assert forall|i: int| 0 <= i < self.processes@.len() implies
                    self.processes.deep_view()[i] == orig.skip(k + 1)[i] by {
                    assert(self.processes@[i] == prev[i + 1]);
                    assert(orig.skip(k)[i + 1] == prev[i + 1]@);
                }
                assert(self.processes.deep_view() =~= orig.skip(k + 1));
            }
            let ghost t = sorted_v.deep_view();
            proof {
                ordering::lemma_insert_sorted_is_insert(p@, t, sort_by, sort_ascending);
            }
            let ghost pos = ordering::insert_pos(p@, t, sort_by, sort_ascending);
            let j: usize = find_insert_pos(&sorted_v, &p, sort_by, sort_ascending);
            proof {
                // j picks out the first strictly greater row: the insert position
                if j < pos {
                    assert(ordering::row_lt(p@, t[j as int], sort_by, sort_ascending));
                    assert(!ordering::row_lt(p@, t[j as int], sort_by, sort_ascending));
                }
                if pos < j {
                    assert(ordering::row_lt(p@, t[pos], sort_by, sort_ascending));
                    assert(!ordering::row_lt(p@, t[pos], sort_by, sort_ascending));
                }
                assert(j == pos);
            }
            let ghost sv_prev = sorted_v@;
            proof {
                lemma_deep_view_unfold(sorted_v);
            }
            sorted_v.insert(j, p);
            proof {
                lemma_deep_view_unfold(sorted_v);
                assert forall|i: int| 0 <= i < sorted_v@.len() implies
                    sorted_v.deep_view()[i] == t.insert(pos, p@)[i] by {
                    if i < pos {
                        assert(sorted_v@[i] == sv_prev[i]);
                        assert(t.insert(pos, p@)[i] == t[i]);
                    } else if i == pos {
                        assert(sorted_v@[i] == p);
                        assert(t.insert(pos, p@)[i] == p@);
                    } else {
                        assert(sorted_v@[i] == sv_prev[i - 1]);
                        assert(t.insert(pos, p@)[i] == t[i - 1]);
                    }
                }
                assert(sorted_v.deep_view() =~= t.insert(pos, p@));
                assert(orig.take(k + 1).drop_last() =~= orig.take(k));
                assert(orig.take(k + 1).last() == orig[k]);
                k = k + 1;
            }
        }
        assert(orig.take(orig.len() as int) =~= orig);
        self.processes = sorted_v;
    }

    /// The record shown in row `row`.
    pub fn get_process(&self, row: usize) -> (r: &ProcessRecord)
        requires
            row < self@.len(),
        ensures
            r@ == self@[row as int],
    {
        &self.processes[row]
    }

    /// The record shown in row `row`, or `None` when the index is out of
    /// range.
    pub fn row(&self, row: usize) -> (r: Option<&ProcessRecord>)
        ensures
            row < self@.len() ==> (r matches Some(p) && p@ == self@[row as int]),
            row >= self@.len() ==> r is None,
    {
        if row < self.processes.len() {
            Some(&self.processes[row])
        } else {
            None
        }
    }

    /// Resolve a row to the process to terminate. A stale index resolves to
    /// no process at all, never to an error.
    pub fn terminate_process(&self, row: usize) -> (r: Option<u32>)
        ensures
            row < self@.len() ==> r == Some(self@[row as int].pid),
            row >= self@.len() ==> r is None,
    {
        if row < self.processes.len() {
            Some(self.processes[row].pid)
        } else {
            None
        }
    }

    /// One tick of the table: take the fresh sample wholesale, filter it,
    /// then sort it -- in that order -- and re-clamp the selection to the
    /// rows that remain.
    pub fn update_with_state(&mut self, processes: Vec<ProcessRecord>, state: &mut ProcessTableState)
        ensures
            final(self)@ == ordering::sort_spec(
                processes.deep_view().filter(matches_pred(old(state)@.filter)),
                old(state)@.sort_condition,
                old(state)@.sort_ascending,
            ),
            final(state)@.state == sel_clamped(old(state)@.state, final(self)@.len() as usize),
            final(state)@.sort_condition == old(state)@.sort_condition,
            final(state)@.sort_ascending == old(state)@.sort_ascending,
            final(state)@.filter == old(state)@.filter,
    {
        self.refresh(processes);
        self.filter(&state.filter);
        self.sort_by(state.sort_condition, state.sort_ascending);
        let n = self.len();
        state.state.clamp_to(n);
    }
}

// ---------------------------------------------------------------------------
// Per-table interaction state
// ---------------------------------------------------------------------------

/// The operator-owned part of the table: cursor, sort choice, and the
/// committed filter text.
pub struct ProcessTableState {
    pub state: TableSelection,
    pub sort_condition: SortBy,
    pub sort_ascending: bool,
    pub filter: Vec<char>,
}

/// Mathematical image of a `ProcessTableState`.
pub struct ProcessTableStateView {
    pub state: Option<usize>,
    pub sort_condition: SortBy,
    pub sort_ascending: bool,
    pub filter: Seq<char>,
}

impl View for ProcessTableState {
    type V = ProcessTableStateView;

    open spec fn view(&self) -> ProcessTableStateView {
        ProcessTableStateView {
            state: self.state@,
            sort_condition: self.sort_condition,
            sort_ascending: self.sort_ascending,
            filter: self.filter@,
        }
    }
}

impl ProcessTableState {
    /// The initial state: first row selected, CPU usage column descending,
    /// no filter.
    pub fn new() -> (r: Self)
        ensures
            r@.state == Some(0usize),
            r@.sort_condition == SortBy::CpuUsage,
            r@.sort_ascending == false,
            r@.filter == Seq::<char>::empty(),
    {
        let r = ProcessTableState {
            state: TableSelection::new(),
            sort_condition: SortBy::CpuUsage,
            sort_ascending: false,
            filter: Vec::new(),
        };
        assert(r.filter@ =~= Seq::<char>::empty());
        r
    }

    pub fn select_prev(&mut self)
        ensures
            final(self)@ == (ProcessTableStateView {
                state: sel_prev(old(self)@.state),
                ..old(self)@
            }),
    {
        self.state.select_prev();
    }

    pub fn select_next(&mut self)
        ensures
            final(self)@ == (ProcessTableStateView {
                state: sel_next(old(self)@.state),
                ..old(self)@
            }),
    {
        self.state.select_next();
    }

    pub fn selected(&self) -> (r: Option<usize>)
        ensures
            r == self@.state,
    {
        self.state.selected()
    }
}

} // verus!
