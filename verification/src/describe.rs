//! Options of the describe command; the name-resolution traversal
//! itself is the describe platform's.

use vstd::prelude::*;

verus! {

/// How a commit is described against the known references.
#[derive(Clone, Debug)]
pub struct Options {
    pub all_tags: bool,
    pub all_refs: bool,
    pub first_parent: bool,
    pub always: bool,
    pub statistics: bool,
    pub max_candidates: usize,
    pub long_format: bool,
    pub dirty_suffix: Option<Vec<u8>>,
}

impl Default for Options {
    /// Plain annotated-tag naming with up to ten candidates.
    fn default() -> (r: Options)
        ensures
            !r.all_tags,
            !r.all_refs,
            !r.first_parent,
            !r.always,
            !r.statistics,
            r.max_candidates == 10,
            !r.long_format,
            r.dirty_suffix is None,
    {
        Options {
            all_tags: false,
            all_refs: false,
            first_parent: false,
            always: false,
            statistics: false,
            max_candidates: 10,
            long_format: false,
            dirty_suffix: None,
        }
    }
}

} // verus!
