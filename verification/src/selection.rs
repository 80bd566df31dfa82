use vstd::prelude::*;

verus! {

/// Cursor into a list that is rebuilt every tick. The stored index may go
/// stale when the list shrinks; `clamp_to` restores the invariant that a
/// selection always points into the current list (or is `None` when the
/// list is empty).
pub struct TableSelection {
    selected: Option<usize>,
}

/// Selection after moving one row down.
pub open spec fn sel_next(s: Option<usize>) -> Option<usize> {
    match s {
        Option::None => Option::Some(0usize),
        Option::Some(i) => if i < usize::MAX { Option::Some((i + 1) as usize) } else { Option::Some(i) },
    }
}

/// Selection after moving one row up.
pub open spec fn sel_prev(s: Option<usize>) -> Option<usize> {
    match s {
        Option::None => Option::Some(0usize),
        Option::Some(i) => if i > 0 { Option::Some((i - 1) as usize) } else { Option::Some(0usize) },
    }
}

/// Selection clamped to a list of `len` rows: `None` on an empty list,
/// otherwise an index in `[0, len-1]`.
pub open spec fn sel_clamped(s: Option<usize>, len: usize) -> Option<usize> {
    if len == 0 {
        Option::None
    } else {
        match s {
            Option::None => Option::None,
            Option::Some(i) => if i < len { Option::Some(i) } else { Option::Some((len - 1) as usize) },
        }
    }
}

impl View for TableSelection {
    type V = Option<usize>;

    closed spec fn view(&self) -> Option<usize> {
        self.selected
    }
}

impl TableSelection {
    /// A fresh selection starts on the first row.
    pub fn new() -> (r: Self)
        ensures
            r@ == Option::Some(0usize),
    {
        TableSelection { selected: Some(0) }
    }

    pub fn select_prev(&mut self)
        ensures
            final(self)@ == sel_prev(old(self)@),
    {
        self.selected = match self.selected {
            None => Some(0),
            Some(i) => if i > 0 { Some(i - 1) } else { Some(0) },
        };
    }

    pub fn select_next(&mut self)
        ensures
            final(self)@ == sel_next(old(self)@),
    {
        self.selected = match self.selected {
            None => Some(0),
            Some(i) => if i < usize::MAX { Some(i + 1) } else { Some(i) },
        };
    }

    pub fn selected(&self) -> (r: Option<usize>)
        ensures
            r == self@,
    {
        self.selected
    }

    /// Re-establish the selection invariant against the current list length.
    pub fn clamp_to(&mut self, len: usize)
        ensures
            final(self)@ == sel_clamped(old(self)@, len),
    {
        self.selected = match self.selected {
            None => None,
            Some(i) => if len == 0 { None } else if i < len { Some(i) } else { Some(len - 1) },
        };
    }
}

/// On an empty list a clamped selection is always "no selection".
pub proof fn lemma_empty_list_no_selection(s: Option<usize>)
    ensures
        sel_clamped(s, 0) == Option::<usize>::None,
{
}

/// On a single-row list, moving the selection either way and clamping
/// always lands on row 0.
pub proof fn lemma_single_row_selection(s: Option<usize>)
    ensures
        sel_clamped(sel_next(s), 1) == Option::Some(0usize),
        sel_clamped(sel_prev(s), 1) == Option::Some(0usize),
{
}

} // verus!
