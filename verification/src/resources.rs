//! The resource set of one game installation: the parsed catalog,
//! built from the raw bytes of its memlist file.

use vstd::prelude::*;

use crate::memlib::MemEntry;
use crate::memlib::load_memlist;
use crate::memlib::spec_memlist;

verus! {

/// Every catalog entry of one installation, in file order.
#[derive(Debug)]
pub struct Resources {
    pub entries: Vec<MemEntry>,
}

/// Builds the resource set from the bytes of the memlist file.
pub fn load_resources(memlist: &Vec<u8>) -> (r: Resources)
    ensures
        r.entries@ == spec_memlist(memlist@, 0),
{
    Resources { entries: load_memlist(memlist) }
}

} // verus!
