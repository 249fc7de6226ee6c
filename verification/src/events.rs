//! State for the tab strip of the front end: the list of dependency groups
//! and which one is selected.

use vstd::prelude::*;

verus! {

/// One tab: the group key it stands for and the label shown for it.
#[derive(Clone)]
pub struct TabItem {
    pub value: String,
    pub label: String,
}

/// A non-empty list of tabs together with the index of the selected one.
pub struct TabsState {
    pub items: Vec<TabItem>,
    pub index: usize,
}

impl TabsState {
    /// A fresh tab strip starts on the first tab.
    pub fn new(items: Vec<TabItem>) -> (r: TabsState)
        ensures
            r.items@ == items@,
            r.index == 0,
    {
        TabsState { items, index: 0 }
    }

    /// Selects the next tab, wrapping around to the first after the last.
    pub fn next(&mut self)
        requires
            old(self).items@.len() > 0,
        ensures
            final(self).items@ == old(self).items@,
            final(self).index == if old(self).index + 1 < old(self).items@.len() {
                old(self).index + 1
            } else {
                0
            },
    {
        let n = self.items.len();
        if self.index >= n - 1 {
            self.index = 0;
        } else {
            self.index = self.index + 1;
        }
    }

    /// Selects the previous tab, wrapping around to the last before the first.
    pub fn previous(&mut self)
        requires
            old(self).items@.len() > 0,
        ensures
            final(self).items@ == old(self).items@,
            final(self).index == if old(self).index > 0 {
                (old(self).index - 1) as int
            } else {
                old(self).items@.len() - 1
            },
    {
        if self.index > 0 {
            self.index = self.index - 1;
        } else {
            self.index = self.items.len() - 1;
        }
    }
}

} // verus!
