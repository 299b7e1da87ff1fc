//! Which row of a list is selected, and moving that selection.

use vstd::prelude::*;

verus! {

/// The selected row of a list, if any.
#[derive(Clone, Copy, Debug, PartialEq, Eq, Structural)]
pub struct Selection {
    pub selected: Option<usize>,
}

impl Selection {
    /// The selection names a row of a list of `len` rows.
    pub open spec fn wf(self, len: usize) -> bool {
        self.selected matches Some(s) ==> s < len
    }

    pub fn none() -> (r: Selection)
        ensures
            r.selected is None,
    {
        Selection { selected: None }
    }

    pub fn select(&mut self, index: Option<usize>)
        ensures
            final(self).selected == index,
    {
        self.selected = index;
    }

    pub fn selected(&self) -> (r: Option<usize>)
        ensures
            r == self.selected,
    {
        self.selected
    }

    /// Selects the first row, if there is one.
    pub fn try_enter(&mut self, len: usize) -> (r: bool)
        ensures
            r == (len != 0),
            r ==> final(self).selected == Some(0usize),
            !r ==> *final(self) == *old(self),
    {
        if len != 0 {
            self.select(Some(0));
            true
        } else {
            false
        }
    }

    pub fn leave(&mut self)
        ensures
            final(self).selected is None,
    {
        self.select(None);
    }

    /// Moves one row down. `None` when the list cannot be navigated or
    /// nothing is selected; `Some(false)` when already on the last row.
    pub fn navigate_down(&mut self, len: usize, selectable: bool) -> (r: Option<bool>)
        requires
            old(self).wf(len),
        ensures
            final(self).wf(len),
            !selectable || old(self).selected is None ==> r is None && *final(self) == *old(self),
            selectable ==> (old(self).selected matches Some(s) ==> if s + 1 >= len {
                r == Some(false) && final(self).selected == Some((len - 1) as usize)
            } else {
                r == Some(true) && final(self).selected == Some((s + 1) as usize)
            }),
    {
        if !selectable {
            return None;
        }
        match self.selected() {
            Some(selected) => {
                if selected >= len - 1 {
                    self.select(Some(len - 1));
                    Some(false)
                } else {
                    self.select(Some(selected + 1));
                    Some(true)
                }
            },
            None => None,
        }
    }

    /// Moves one row up. `None` when the list cannot be navigated or nothing
    /// is selected; `Some(false)` when already on the first row.
    pub fn navigate_up(&mut self, selectable: bool) -> (r: Option<bool>)
        ensures
            !selectable || old(self).selected is None ==> r is None && *final(self) == *old(self),
            selectable ==> (old(self).selected matches Some(s) ==> if s > 0 {
                r == Some(true) && final(self).selected == Some((s - 1) as usize)
            } else {
                r == Some(false) && final(self).selected == Some(0usize)
            }),
            forall|len: usize| old(self).wf(len) ==> final(self).wf(len),
    {
        if !selectable {
            return None;
        }
        match self.selected() {
            Some(selected) => {
                if selected > 0 {
                    self.select(Some(selected - 1));
                    Some(true)
                } else {
                    self.select(Some(0));
                    Some(false)
                }
            },
            None => None,
        }
    }
}

} // verus!
