use vstd::prelude::*;
use std::collections::HashMap;
use crate::window::Cursor;

verus! {

/// What the shared-data file records: marks, registers and the last
/// search.
#[derive(Debug)]
pub struct ShaDaData {
    pub marks: HashMap<char, Cursor>,
    pub registers: HashMap<char, String>,
    pub last_search: Option<String>,
}

} // verus!
