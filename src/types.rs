use vstd::prelude::*;

verus! {

/// Lifecycle stage of a block on which subscriptions trigger.
#[derive(PartialEq, Eq, Structural, Clone, Copy, Debug)]
pub enum ActionType {
    Commit,
    Verify,
}

/// A block reaching a lifecycle stage.
#[derive(PartialEq, Eq, Structural, Clone, Copy, Debug)]
pub struct Operation {
    pub block: u64,
    pub action: ActionType,
}

} // verus!
