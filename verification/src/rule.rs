//! Policy decisions.
use vstd::prelude::*;

verus! {

/// The decision of a rule or a policy.
#[derive(Debug, Clone, Copy, PartialEq, Eq, Structural)]
pub enum Effect {
    Allow,
    Deny,
}

} // verus!
