use vstd::prelude::*;

verus! {

/// The control signal a handler hands back to the dispatcher.
#[derive(Clone, Copy, Debug, PartialEq, Eq, Structural)]
pub enum Flow {
    /// Let the following handlers run.
    Continue,
    /// Stop processing this message.
    Break,
}

} // verus!
