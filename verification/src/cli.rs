use vstd::prelude::*;

use crate::task::Priority;

verus! {

/// A priority as the command surface names it.
#[derive(Clone, Copy, PartialEq, Eq, Structural, Debug)]
pub enum PriorityArg {
    Low,
    Medium,
    High,
    Critical,
}

impl PriorityArg {
    pub open spec fn spec_priority(self) -> Priority {
        match self {
            PriorityArg::Low => Priority::Low,
            PriorityArg::Medium => Priority::Medium,
            PriorityArg::High => Priority::High,
            PriorityArg::Critical => Priority::Critical,
        }
    }
}

impl From<PriorityArg> for Priority {
    fn from(value: PriorityArg) -> (r: Priority) {
        match value {
            PriorityArg::Low => Priority::Low,
            PriorityArg::Medium => Priority::Medium,
            PriorityArg::High => Priority::High,
            PriorityArg::Critical => Priority::Critical,
        }
    }
}

impl vstd::std_specs::convert::FromSpecImpl<PriorityArg> for Priority {
    open spec fn obeys_from_spec() -> bool {
        true
    }

    open spec fn from_spec(v: PriorityArg) -> Priority {
        v.spec_priority()
    }
}

/// The completion-state filter of the listing command.
#[derive(Clone, Copy, PartialEq, Eq, Structural, Debug)]
pub enum StatusFilter {
    Pending,
    Completed,
    All,
}

} // verus!
