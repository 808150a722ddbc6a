//! The retention policy: a pure version threshold. A candidate is deleted
//! exactly when its canonical version strictly precedes the cutoff version;
//! nothing else about a component takes part in the decision.

use vstd::prelude::*;

verus! {

use crate::order::VersionOrder;
use crate::order::compare;
use crate::order::spec_compare;
use crate::version::CanonicalVersion;
use crate::version::SpecVersion;

/// Whether a component is kept or deleted.
#[derive(Debug, Clone, Copy, PartialEq, Eq, Structural)]
pub enum RetentionDecision {
    Delete,
    Keep,
}

/// The policy's rule: delete exactly when the candidate strictly precedes
/// the cutoff.
pub open spec fn spec_decide(candidate: SpecVersion, cutoff: SpecVersion) -> RetentionDecision {
    if spec_compare(candidate, cutoff) == VersionOrder::Less {
        RetentionDecision::Delete
    } else {
        RetentionDecision::Keep
    }
}

/// Decides retention for one candidate version against the cutoff:
/// `Delete` if and only if the candidate strictly precedes the cutoff.
pub fn decide(candidate: &CanonicalVersion, cutoff: &CanonicalVersion) -> (d: RetentionDecision)
    ensures
        d == spec_decide(candidate@, cutoff@),
        d == RetentionDecision::Delete <==> spec_compare(candidate@, cutoff@)
            == VersionOrder::Less,
{
    match compare(candidate, cutoff) {
        VersionOrder::Less => RetentionDecision::Delete,
        VersionOrder::Equal => RetentionDecision::Keep,
        VersionOrder::Greater => RetentionDecision::Keep,
    }
}

} // verus!
