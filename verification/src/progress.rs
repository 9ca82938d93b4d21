//! Configuration-support records: how far each configuration value is
//! honoured, and the icon each state is shown with.

use vstd::prelude::*;

verus! {

/// How a configuration value is handled.
#[derive(Clone, Debug)]
pub enum Usage {
    /// Not reasonable to implement: the prerequisites do not apply.
    NotApplicable(Vec<u8>),
    /// No intention to implement, which demand can change.
    NotPlanned(Vec<u8>),
    /// Definitely to be implemented.
    Planned(Vec<u8>),
    /// Already used, possibly with the given deviation.
    InUse(Vec<u8>),
    /// Needs analysis.
    Puzzled,
}

impl Usage {
    /// The icon a usage state is shown with; an in-use value with a
    /// deviation gets the qualified mark.
    pub fn icon(&self) -> (r: &'static str)
        ensures
            self matches Usage::Puzzled ==> r@ == "\u{2753}"@,
            self matches Usage::NotApplicable(_) ==> r@ == "\u{274c}"@,
            self matches Usage::Planned(_) ==> r@ == "\u{1f552}"@,
            self matches Usage::NotPlanned(_) ==> r@ == "\u{1f914}"@,
            (self matches Usage::InUse(d) && d@.len() == 0) ==> r@ == "\u{2705}"@,
            (self matches Usage::InUse(d) && d@.len() != 0) ==> r@ == "\u{1f44c}\u{fe0f}"@,
    {
        match self {
            Usage::Puzzled => "\u{2753}",
            Usage::NotApplicable(_) => "\u{274c}",
            Usage::Planned(_) => "\u{1f552}",
            Usage::NotPlanned(_) => "\u{1f914}",
            Usage::InUse(deviation) => {
                if deviation.len() == 0 {
                    "\u{2705}"
                } else {
                    "\u{1f44c}\u{fe0f}"
                }
            },
        }
    }
}

/// One configuration value and its usage state.
#[derive(Clone, Debug)]
pub struct Record {
    pub config: Vec<u8>,
    pub usage: Usage,
}

} // verus!
