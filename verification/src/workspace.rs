//! Saved workspace layouts: for now only the name of the current one.

use vstd::prelude::*;

verus! {

/// The current workspace layout.
#[derive(Debug)]
pub struct WorkspaceState {
    pub name: String,
}

impl Default for WorkspaceState {
    /// An unnamed workspace.
    fn default() -> (s: Self)
        ensures
            s.name@ == Seq::<char>::empty(),
    {
        WorkspaceState { name: String::new() }
    }
}

impl WorkspaceState {
    /// Records the current layout under `name`.
    pub fn save_current(&mut self, name: String)
        ensures
            final(self).name@ == name@,
    {
        self.name = name;
    }
}

} // verus!
