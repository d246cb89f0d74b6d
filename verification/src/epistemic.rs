//! Whether the authored identity evidence of a correlated diff supports a
//! unique cross-frame attribution.
use vstd::prelude::*;

use crate::correlated::{CorrelatedDiffV, EguiCorrelatedDiff};

verus! {

/// Authored-identity continuity of a correlated diff.
#[derive(Debug, Clone, Copy, PartialEq, Eq, Structural)]
pub enum EguiAuthoredContinuityStatus {
    /// No duplicated authored object or binding identity is known.
    NoKnownAmbiguity,
    /// Some authored object or binding identity is duplicated.
    Ambiguous,
}

/// Summary of whether authored identity supports unique attribution.
#[derive(Debug, Clone, Copy, PartialEq, Eq, Structural)]
pub struct EguiAuthoredContinuityAssessment {
    pub status: EguiAuthoredContinuityStatus,
    pub object_ambiguity_count: usize,
    pub binding_ambiguity_count: usize,
}

/// The snake_case name of a continuity status.
pub open spec fn continuity_status_name(s: EguiAuthoredContinuityStatus) -> Seq<char> {
    match s {
        EguiAuthoredContinuityStatus::NoKnownAmbiguity => "no_known_ambiguity"@,
        EguiAuthoredContinuityStatus::Ambiguous => "ambiguous"@,
    }
}

impl EguiAuthoredContinuityStatus {
    pub fn name(self) -> (r: &'static str)
        ensures
            r@ == continuity_status_name(self),
    {
        match self {
            EguiAuthoredContinuityStatus::NoKnownAmbiguity => "no_known_ambiguity",
            EguiAuthoredContinuityStatus::Ambiguous => "ambiguous",
        }
    }
}

impl EguiAuthoredContinuityAssessment {
    /// True when duplicated authored identity prevents a unique attribution.
    pub fn unique_attribution_blocked(&self) -> (r: bool)
        ensures
            r == (self.status == EguiAuthoredContinuityStatus::Ambiguous),
    {
        self.status == EguiAuthoredContinuityStatus::Ambiguous
    }
}

/// The assessment of a correlated diff: counts of its object and binding
/// ambiguity records, ambiguous exactly when either is non-zero.
pub open spec fn continuity_assessment(d: CorrelatedDiffV) -> EguiAuthoredContinuityAssessment {
    let objects = d.authored.ambiguous_ids.len();
    let bindings = d.authored.binding_ambiguities.len();
    EguiAuthoredContinuityAssessment {
        status: if objects == 0 && bindings == 0 {
            EguiAuthoredContinuityStatus::NoKnownAmbiguity
        } else {
            EguiAuthoredContinuityStatus::Ambiguous
        },
        object_ambiguity_count: objects as usize,
        binding_ambiguity_count: bindings as usize,
    }
}

/// Assess only the authored-identity continuity evidence already in a diff.
pub fn assess_authored_continuity(diff: &EguiCorrelatedDiff) -> (r: EguiAuthoredContinuityAssessment)
    ensures
        r == continuity_assessment(diff@),
        r.object_ambiguity_count == diff.authored.ambiguous_ids.len(),
        r.binding_ambiguity_count == diff.authored.binding_ambiguities.len(),
{
    let object_ambiguity_count = diff.authored.ambiguous_ids.len();
    let binding_ambiguity_count = diff.authored.binding_ambiguities.len();
    let status = if object_ambiguity_count == 0 && binding_ambiguity_count == 0 {
        EguiAuthoredContinuityStatus::NoKnownAmbiguity
    } else {
        EguiAuthoredContinuityStatus::Ambiguous
    };
    EguiAuthoredContinuityAssessment { status, object_ambiguity_count, binding_ambiguity_count }
}

} // verus!
