//! Exact same-pass egui captures and their cross-frame comparison.
use vstd::prelude::*;

use crate::diff::{WitnessDiff, WitnessDiffV, diff_witnesses, witness_diff, witness_diff_empty};
use crate::egui_annotation::{EguiAuthoredPaintObject, ObjectV};
use crate::egui_diff::{
    AuthoredDiffV, EguiAuthoredDiff, authored_diff, authored_materially_empty,
    diff_authored_objects, objects_view,
};
use crate::egui_paint::{EguiPaintObservation, PaintObservationV};
use crate::model::{Rect, RectV, Witness, WitnessV};

verus! {

/// One exact egui capture: the canonical semantic witness plus the paint and
/// authored-object evidence of the same requested pass.
#[derive(Debug)]
pub struct EguiCorrelatedCapture {
    pub request_id: u64,
    pub viewport_id: u64,
    pub pass_nr: u64,
    pub viewport_rect: Rect,
    pub witness: Witness,
    pub paint: Vec<EguiPaintObservation>,
    pub authored_objects: Vec<EguiAuthoredPaintObject>,
}

pub ghost struct CorrelatedCaptureV {
    pub request_id: u64,
    pub viewport_id: u64,
    pub pass_nr: u64,
    pub viewport_rect: RectV,
    pub witness: WitnessV,
    pub paint: Seq<PaintObservationV>,
    pub authored_objects: Seq<ObjectV>,
}

impl View for EguiCorrelatedCapture {
    type V = CorrelatedCaptureV;

    open spec fn view(&self) -> CorrelatedCaptureV {
        CorrelatedCaptureV {
            request_id: self.request_id,
            viewport_id: self.viewport_id,
            pass_nr: self.pass_nr,
            viewport_rect: self.viewport_rect@,
            witness: self.witness@,
            paint: self.paint@.map_values(|p: EguiPaintObservation| p@),
            authored_objects: objects_view(self.authored_objects@),
        }
    }
}

/// Material transition between two exact captures: the canonical semantic
/// diff and the authored-object diff, kept apart.
#[derive(Debug)]
pub struct EguiCorrelatedDiff {
    pub before_request_id: u64,
    pub after_request_id: u64,
    pub before_pass_nr: u64,
    pub after_pass_nr: u64,
    pub semantic: WitnessDiff,
    pub authored: EguiAuthoredDiff,
}

pub ghost struct CorrelatedDiffV {
    pub before_request_id: u64,
    pub after_request_id: u64,
    pub before_pass_nr: u64,
    pub after_pass_nr: u64,
    pub semantic: WitnessDiffV,
    pub authored: AuthoredDiffV,
}

impl View for EguiCorrelatedDiff {
    type V = CorrelatedDiffV;

    open spec fn view(&self) -> CorrelatedDiffV {
        CorrelatedDiffV {
            before_request_id: self.before_request_id,
            after_request_id: self.after_request_id,
            before_pass_nr: self.before_pass_nr,
            after_pass_nr: self.after_pass_nr,
            semantic: self.semantic@,
            authored: self.authored@,
        }
    }
}

/// The correlated diff of two captures.
pub open spec fn correlated_diff(b: CorrelatedCaptureV, a: CorrelatedCaptureV) -> CorrelatedDiffV {
    CorrelatedDiffV {
        before_request_id: b.request_id,
        after_request_id: a.request_id,
        before_pass_nr: b.pass_nr,
        after_pass_nr: a.pass_nr,
        semantic: witness_diff(b.witness, a.witness),
        authored: authored_diff(b.authored_objects, a.authored_objects),
    }
}

/// No material semantic or authored change and no authored ambiguity.
pub open spec fn correlated_materially_empty(d: CorrelatedDiffV) -> bool {
    witness_diff_empty(d.semantic) && authored_materially_empty(d.authored)
}

impl EguiCorrelatedDiff {
    /// True only when no material semantic or authored change is known and no
    /// authored-ID ambiguity stands in the way; slot churn alone keeps it true.
    pub fn is_materially_empty(&self) -> (r: bool)
        ensures
            r == correlated_materially_empty(self@),
    {
        self.semantic.is_empty() && self.authored.is_materially_empty()
    }
}

/// Compare two exact captures without treating renderer slots as identity.
pub fn diff_correlated_captures(
    before: &EguiCorrelatedCapture,
    after: &EguiCorrelatedCapture,
) -> (d: EguiCorrelatedDiff)
    ensures
        d@ == correlated_diff(before@, after@),
{
    EguiCorrelatedDiff {
        before_request_id: before.request_id,
        after_request_id: after.request_id,
        before_pass_nr: before.pass_nr,
        after_pass_nr: after.pass_nr,
        semantic: diff_witnesses(&before.witness, &after.witness),
        authored: diff_authored_objects(&before.authored_objects, &after.authored_objects),
    }
}

} // verus!
