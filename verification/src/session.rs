use vstd::prelude::*;

verus! {

/// What a session file records of the editor: the number of windows.
#[derive(Debug)]
pub struct SessionData {
    pub window_count: usize,
}

} // verus!
