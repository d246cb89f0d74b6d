//! Exact same-pass capture: turning the evidence copied from one requested
//! egui pass into a correlated capture, and the request bookkeeping of the
//! worker that waits for it.
use vstd::prelude::*;

use crate::correlated::{CorrelatedCaptureV, EguiCorrelatedCapture};
use crate::diff::{rect_json, rect_to_json};
use crate::egui_annotation::EguiAuthoredPaintObject;
use crate::egui_diff::objects_view;
use crate::egui_paint::EguiPaintObservation;
use crate::ieee::{f32_is_finite, f32_le_zero, f32_lt_zero, is_finite32, le_zero32, lt_zero32};
use crate::json::{JsonEntry, JsonNumber, JsonV, JsonValue, NumberV, entry_views, json_wf, map_wf};
use crate::model::{
    CaptureV, Measure, MeasureV, Rect, RectV, Viewport, ViewportV, WitnessV, witness_wf,
};
use crate::semantic::{
    EguiCaptureContext, SemanticTree, SemanticTreeV, lemma_map_insert_wf, lemma_tree_witness_wf,
    law_map_insert_sets_one_key, map_insert, map_set, tree_metadata, tree_values_wf, tree_witness,
    witness_from_egui_tree_update,
};
use crate::text::owned;
use crate::tree_validity::{law_converted_tree_is_valid, tree_convertible};
use crate::validation::{header_issues, witness_issues};

verus! {

broadcast use vstd::string::group_string_axioms;

/// Raw evidence copied from one exact egui pass in response to a capture
/// request; `accesskit` is the pass's accessibility tree, when one was
/// produced.
#[derive(Debug)]
pub struct EguiFrameEvidence {
    pub request_id: u64,
    pub viewport_id: u64,
    pub pass_nr: u64,
    pub pixels_per_point: Measure,
    pub viewport_rect: Rect,
    pub accesskit: Option<SemanticTree>,
    pub paint: Vec<EguiPaintObservation>,
    pub authored_objects: Vec<EguiAuthoredPaintObject>,
}

/// Why same-pass evidence cannot become a correlated capture.
#[derive(Debug, Clone, Copy, PartialEq, Eq, Structural)]
pub enum CaptureError {
    /// The requested pass produced no accessibility tree.
    MissingSemanticTree,
    /// The observed viewport geometry is not usable; it is not guessed.
    InvalidViewport,
}

impl CaptureError {
    /// The error's message.
    pub fn message(&self) -> (r: &'static str)
        ensures
            r@ == capture_error_message(*self),
    {
        match self {
            CaptureError::MissingSemanticTree => "same-pass egui capture produced no AccessKit tree",
            CaptureError::InvalidViewport => "same-pass egui viewport evidence is invalid; refusing to guess viewport geometry",
        }
    }
}

pub open spec fn capture_error_message(e: CaptureError) -> Seq<char> {
    match e {
        CaptureError::MissingSemanticTree => "same-pass egui capture produced no AccessKit tree"@,
        CaptureError::InvalidViewport => "same-pass egui viewport evidence is invalid; refusing to guess viewport geometry"@,
    }
}

/// Observed viewport geometry is usable: a finite positive scale and a
/// finite rectangle of non-negative size.
pub open spec fn viewport_usable(rect: RectV, pixels_per_point: MeasureV) -> bool {
    &&& f32_is_finite(pixels_per_point.bits)
    &&& !f32_le_zero(pixels_per_point.bits)
    &&& f32_is_finite(rect.x.bits)
    &&& f32_is_finite(rect.y.bits)
    &&& f32_is_finite(rect.width.bits)
    &&& f32_is_finite(rect.height.bits)
    &&& !f32_lt_zero(rect.width.bits)
    &&& !f32_lt_zero(rect.height.bits)
}

/// The viewport of observed geometry, or `None` when it is not usable.
pub fn viewport_from_observed_rect(rect: &Rect, pixels_per_point: &Measure) -> (r: Option<Viewport>)
    ensures
        r is Some <==> viewport_usable(rect@, pixels_per_point@),
        r matches Some(v) ==> v@ == (ViewportV {
            width: rect@.width,
            height: rect@.height,
            scale_factor: pixels_per_point@,
        }),
{
    if !is_finite32(pixels_per_point.bits) || le_zero32(pixels_per_point.bits) || !is_finite32(rect.x.bits)
        || !is_finite32(rect.y.bits) || !is_finite32(rect.width.bits) || !is_finite32(rect.height.bits)
        || lt_zero32(rect.width.bits) || lt_zero32(rect.height.bits) {
        return None;
    }
    Some(
        Viewport {
            width: rect.width.copy(),
            height: rect.height.copy(),
            scale_factor: pixels_per_point.copy(),
        },
    )
}

pub ghost struct FrameEvidenceV {
    pub request_id: u64,
    pub viewport_id: u64,
    pub pass_nr: u64,
    pub pixels_per_point: MeasureV,
    pub viewport_rect: RectV,
    pub accesskit: Option<SemanticTreeV>,
    pub paint: Seq<crate::egui_paint::PaintObservationV>,
    pub authored_objects: Seq<crate::egui_annotation::ObjectV>,
}

impl View for EguiFrameEvidence {
    type V = FrameEvidenceV;

    open spec fn view(&self) -> FrameEvidenceV {
        FrameEvidenceV {
            request_id: self.request_id,
            viewport_id: self.viewport_id,
            pass_nr: self.pass_nr,
            pixels_per_point: self.pixels_per_point@,
            viewport_rect: self.viewport_rect@,
            accesskit: match self.accesskit {
                Some(t) => Some(t@),
                None => None,
            },
            paint: self.paint@.map_values(|p: EguiPaintObservation| p@),
            authored_objects: objects_view(self.authored_objects@),
        }
    }
}

/// The provenance entries a same-pass capture adds to its witness metadata.
pub open spec fn probe_metadata(m: Seq<(Seq<char>, JsonV)>, e: FrameEvidenceV) -> Seq<(Seq<char>, JsonV)> {
    let m1 = map_insert(m, "transport"@, JsonV::Str("viewwitness_egui_frame_probe"@));
    let m2 = map_insert(m1, "frame_clock"@, JsonV::Str("egui_cumulative_pass_nr"@));
    let m3 = map_insert(m2, "semantic_paint_correlation"@, JsonV::Str("same_full_output"@));
    let m4 = map_insert(m3, "viewport_evidence_source"@, JsonV::Str("egui_input_state_viewport_rect"@));
    let m5 = map_insert(m4, "frame_probe_request_id"@, JsonV::Number(NumberV::PosInt(e.request_id)));
    let m6 = map_insert(m5, "egui_viewport_id"@, JsonV::Number(NumberV::PosInt(e.viewport_id)));
    let m7 = map_insert(m6, "egui_pass_nr"@, JsonV::Number(NumberV::PosInt(e.pass_nr)));
    let m8 = map_insert(m7, "egui_viewport_rect"@, rect_json(e.viewport_rect));
    if e.authored_objects.len() > 0 {
        map_insert(
            m8,
            "authored_paint_evidence"@,
            JsonV::Str("application_semantics_plus_verified_egui_paint_handles"@),
        )
    } else {
        m8
    }
}

/// The correlated capture of usable same-pass evidence with a tree.
pub open spec fn capture_of(e: FrameEvidenceV, t: SemanticTreeV) -> CorrelatedCaptureV {
    let viewport = ViewportV {
        width: e.viewport_rect.width,
        height: e.viewport_rect.height,
        scale_factor: e.pixels_per_point,
    };
    let w = tree_witness(t, Some(e.pass_nr), viewport);
    CorrelatedCaptureV {
        request_id: e.request_id,
        viewport_id: e.viewport_id,
        pass_nr: e.pass_nr,
        viewport_rect: e.viewport_rect,
        witness: WitnessV {
            capture: CaptureV { metadata: probe_metadata(w.capture.metadata, e), ..w.capture },
            ..w
        },
        paint: e.paint,
        authored_objects: e.authored_objects,
    }
}

impl EguiFrameEvidence {
    /// Convert same-pass evidence into a correlated capture: its tree becomes
    /// the canonical witness (frame = pass number, viewport from the observed
    /// viewport rectangle) with provenance metadata; paint and authored
    /// objects are carried over. Missing tree or unusable viewport geometry
    /// is an error.
    pub fn into_correlated_capture(self) -> (r: Result<EguiCorrelatedCapture, CaptureError>)
        ensures
            match r {
                Ok(c) => self@.accesskit matches Some(t) && viewport_usable(
                    self@.viewport_rect,
                    self@.pixels_per_point,
                ) && c@ == capture_of(self@, t),
                Err(CaptureError::MissingSemanticTree) => self@.accesskit is None,
                Err(CaptureError::InvalidViewport) => self@.accesskit is Some && !viewport_usable(
                    self@.viewport_rect,
                    self@.pixels_per_point,
                ),
            },
            r matches Ok(c) ==> c@.authored_objects == self@.authored_objects && c@.paint == self@.paint
                && c@.request_id == self@.request_id && c@.viewport_id == self@.viewport_id && c@.pass_nr
                == self@.pass_nr && c@.viewport_rect == self@.viewport_rect,
            r is Ok && (self@.accesskit matches Some(t) && tree_values_wf(t)) ==> witness_wf(
                r->Ok_0@.witness,
            ),
            r is Ok && (self@.accesskit matches Some(t) && tree_convertible(t)) ==> witness_issues(
                r->Ok_0@.witness,
            ) == Seq::<Seq<char>>::empty(),
    {
        let ghost e = self@;
        proof {
            if let Some(t) = e.accesskit {
                if tree_convertible(t) && viewport_usable(e.viewport_rect, e.pixels_per_point) {
                    let v = ViewportV {
                        width: e.viewport_rect.width,
                        height: e.viewport_rect.height,
                        scale_factor: e.pixels_per_point,
                    };
                    law_converted_tree_is_valid(t, Some(e.pass_nr), v);
                    let tw = tree_witness(t, Some(e.pass_nr), v);
                    let cw = capture_of(e, t).witness;
                    assert(header_issues(cw) == header_issues(tw));
                    assert(witness_issues(cw) == witness_issues(tw));
                }
                if tree_values_wf(t) {
                    law_capture_metadata(e, t);
                    let v = ViewportV {
                        width: e.viewport_rect.width,
                        height: e.viewport_rect.height,
                        scale_factor: e.pixels_per_point,
                    };
                    lemma_tree_witness_wf(t, Some(e.pass_nr), v);
                }
            }
        }
        let update = match self.accesskit {
            Some(t) => t,
            None => return Err(CaptureError::MissingSemanticTree),
        };
        let viewport = match viewport_from_observed_rect(&self.viewport_rect, &self.pixels_per_point) {
            Some(v) => v,
            None => return Err(CaptureError::InvalidViewport),
        };
        let context = EguiCaptureContext::new(viewport).with_frame(self.pass_nr);
        let mut witness = witness_from_egui_tree_update(&update, context);
        let m = &mut witness.capture.metadata;
        map_set(m, owned("transport"), JsonValue::String(owned("viewwitness_egui_frame_probe")));
        map_set(m, owned("frame_clock"), JsonValue::String(owned("egui_cumulative_pass_nr")));
        map_set(m, owned("semantic_paint_correlation"), JsonValue::String(owned("same_full_output")));
        map_set(
            m,
            owned("viewport_evidence_source"),
            JsonValue::String(owned("egui_input_state_viewport_rect")),
        );
        map_set(m, owned("frame_probe_request_id"), JsonValue::Number(JsonNumber::PosInt(self.request_id)));
        map_set(m, owned("egui_viewport_id"), JsonValue::Number(JsonNumber::PosInt(self.viewport_id)));
        map_set(m, owned("egui_pass_nr"), JsonValue::Number(JsonNumber::PosInt(self.pass_nr)));
        map_set(m, owned("egui_viewport_rect"), rect_to_json(&self.viewport_rect));
        if self.authored_objects.len() > 0 {
            map_set(
                m,
                owned("authored_paint_evidence"),
                JsonValue::String(owned("application_semantics_plus_verified_egui_paint_handles")),
            );
        }
        let c = EguiCorrelatedCapture {
            request_id: self.request_id,
            viewport_id: self.viewport_id,
            pass_nr: self.pass_nr,
            viewport_rect: self.viewport_rect,
            witness,
            paint: self.paint,
            authored_objects: self.authored_objects,
        };
        assert(c@.witness.capture =~= capture_of(e, update@).witness.capture);
        assert(c@.witness =~= capture_of(e, update@).witness);
        Ok(c)
    }
}

// ---------------------------------------------------------------------------
// Request bookkeeping of the worker side.
// ---------------------------------------------------------------------------

/// The worker-side request state: the last request ID issued and the request
/// still awaiting its evidence, if any. Only one request may be pending.
#[derive(Debug)]
pub struct ProbeRequests {
    pub next_request_id: u64,
    pub pending_request_id: Option<u64>,
}

/// Why a capture request could not be issued.
#[derive(Debug, Clone, Copy, PartialEq, Eq, Structural)]
pub enum RequestError {
    /// A request is already pending.
    AlreadyPending,
    /// Request IDs are exhausted.
    Exhausted,
}

/// What arrived while waiting for the pending request.
#[derive(Debug, Clone, Copy, PartialEq, Eq, Structural)]
pub enum ProbeResponse {
    /// Evidence answering the request with this ID.
    Evidence(u64),
    /// Nothing arrived within the wait slice.
    Timeout,
    /// The GUI side is gone.
    Disconnected,
}

/// Why waiting for the pending request ended without evidence.
#[derive(Debug, Clone, Copy, PartialEq, Eq, Structural)]
pub enum WaitFailure {
    /// No request is pending.
    NotPending,
    /// The GUI side dropped the response for this request (full queue).
    Dropped(u64),
    /// The deadline passed while waiting for this request.
    TimedOut(u64),
    /// Evidence for a later request (first) arrived while waiting for this one (second).
    Future(u64, u64),
    /// The GUI side disconnected.
    Disconnected,
}

/// What to do with a response.
#[derive(Debug, Clone, Copy, PartialEq, Eq, Structural)]
pub enum ResponseAction {
    /// It answers the pending request: hand it out.
    Deliver,
    /// It answers an earlier request that timed out: drop it and keep waiting.
    DiscardStale,
    /// Keep waiting.
    KeepWaiting,
    /// Stop waiting with this failure.
    Fail(WaitFailure),
}

impl ProbeRequests {
    /// The pending request, if any, is the last one issued.
    pub open spec fn well_formed(self) -> bool {
        match self.pending_request_id {
            Some(id) => id == self.next_request_id && id > 0,
            None => true,
        }
    }

    pub fn new() -> (r: Self)
        ensures
            r.next_request_id == 0,
            r.pending_request_id is None,
            r.well_formed(),
    {
        ProbeRequests { next_request_id: 0, pending_request_id: None }
    }

    /// Issue the next request ID, unless one is pending or IDs are exhausted.
    pub fn request(&mut self) -> (r: Result<u64, RequestError>)
        ensures
            old(self).well_formed() ==> final(self).well_formed(),
            match r {
                Ok(id) => old(self).pending_request_id is None && old(self).next_request_id < u64::MAX
                    && id == old(self).next_request_id + 1 && final(self).next_request_id == id
                    && final(self).pending_request_id == Some(id),
                Err(RequestError::AlreadyPending) => old(self).pending_request_id is Some
                    && final(self).next_request_id == old(self).next_request_id
                    && final(self).pending_request_id == old(self).pending_request_id,
                Err(RequestError::Exhausted) => old(self).pending_request_id is None
                    && old(self).next_request_id == u64::MAX && final(self).next_request_id
                    == old(self).next_request_id && final(self).pending_request_id is None,
            },
    {
        if self.pending_request_id.is_some() {
            return Err(RequestError::AlreadyPending);
        }
        let next = match self.next_request_id.checked_add(1) {
            Some(n) => n,
            None => return Err(RequestError::Exhausted),
        };
        self.next_request_id = next;
        self.pending_request_id = Some(next);
        Ok(next)
    }

    /// Checks made before each wait slice: the dropped-response marker set by
    /// the GUI side, then the deadline. A failure ends the pending request.
    pub fn before_wait(&mut self, dropped_marker: u64, deadline_passed: bool) -> (r: Option<WaitFailure>)
        ensures
            old(self).well_formed() ==> final(self).well_formed(),
            final(self).next_request_id == old(self).next_request_id,
            match old(self).pending_request_id {
                None => r == Some(WaitFailure::NotPending) && final(self).pending_request_id is None,
                Some(id) => if dropped_marker == id {
                    r == Some(WaitFailure::Dropped(id)) && final(self).pending_request_id is None
                } else if deadline_passed {
                    r == Some(WaitFailure::TimedOut(id)) && final(self).pending_request_id is None
                } else {
                    r is None && final(self).pending_request_id == old(self).pending_request_id
                },
            },
    {
        let id = match self.pending_request_id {
            Some(id) => id,
            None => return Some(WaitFailure::NotPending),
        };
        if dropped_marker == id {
            self.pending_request_id = None;
            return Some(WaitFailure::Dropped(id));
        }
        if deadline_passed {
            self.pending_request_id = None;
            return Some(WaitFailure::TimedOut(id));
        }
        None
    }

    /// Decide on a response to the pending request. Evidence for it is
    /// delivered; evidence for an earlier (timed-out) request is stale and
    /// dropped; evidence for a later request or a disconnect is a failure.
    /// Delivery and failure end the pending request.
    pub fn on_response(&mut self, response: ProbeResponse) -> (r: ResponseAction)
        ensures
            old(self).well_formed() ==> final(self).well_formed(),
            final(self).next_request_id == old(self).next_request_id,
            match old(self).pending_request_id {
                None => r == ResponseAction::Fail(WaitFailure::NotPending) && final(self).pending_request_id is None,
                Some(id) => match response {
                    ProbeResponse::Evidence(got) => if got == id {
                        r == ResponseAction::Deliver && final(self).pending_request_id is None
                    } else if got < id {
                        r == ResponseAction::DiscardStale && final(self).pending_request_id == Some(id)
                    } else {
                        r == ResponseAction::Fail(WaitFailure::Future(got, id))
                            && final(self).pending_request_id is None
                    },
                    ProbeResponse::Timeout => r == ResponseAction::KeepWaiting
                        && final(self).pending_request_id == Some(id),
                    ProbeResponse::Disconnected => r == ResponseAction::Fail(WaitFailure::Disconnected)
                        && final(self).pending_request_id is None,
                },
            },
    {
        let id = match self.pending_request_id {
            Some(id) => id,
            None => return ResponseAction::Fail(WaitFailure::NotPending),
        };
        match response {
            ProbeResponse::Evidence(got) => {
                if got == id {
                    self.pending_request_id = None;
                    ResponseAction::Deliver
                } else if got < id {
                    ResponseAction::DiscardStale
                } else {
                    self.pending_request_id = None;
                    ResponseAction::Fail(WaitFailure::Future(got, id))
                }
            },
            ProbeResponse::Timeout => ResponseAction::KeepWaiting,
            ProbeResponse::Disconnected => {
                self.pending_request_id = None;
                ResponseAction::Fail(WaitFailure::Disconnected)
            },
        }
    }
}


// ---------------------------------------------------------------------------
// What a same-pass capture's metadata holds.
// ---------------------------------------------------------------------------

/// The provenance entries of a same-pass capture: transport, clocks,
/// correlation, viewport source, request, viewport and pass identity, the
/// observed viewport rectangle, and the authored-paint marker when authored
/// objects were captured.
pub open spec fn provenance_entries(e: FrameEvidenceV) -> Seq<(Seq<char>, JsonV)> {
    seq![
        ("transport"@, JsonV::Str("viewwitness_egui_frame_probe"@)),
        ("frame_clock"@, JsonV::Str("egui_cumulative_pass_nr"@)),
        ("semantic_paint_correlation"@, JsonV::Str("same_full_output"@)),
        ("viewport_evidence_source"@, JsonV::Str("egui_input_state_viewport_rect"@)),
        ("frame_probe_request_id"@, JsonV::Number(NumberV::PosInt(e.request_id))),
        ("egui_viewport_id"@, JsonV::Number(NumberV::PosInt(e.viewport_id))),
        ("egui_pass_nr"@, JsonV::Number(NumberV::PosInt(e.pass_nr))),
        ("egui_viewport_rect"@, rect_json(e.viewport_rect)),
    ] + if e.authored_objects.len() > 0 {
        seq![("authored_paint_evidence"@, JsonV::Str("application_semantics_plus_verified_egui_paint_handles"@))]
    } else {
        Seq::empty()
    }
}

pub open spec fn keys_within(m: Seq<(Seq<char>, JsonV)>, s: Set<Seq<char>>) -> bool {
    forall|i: int| 0 <= i < m.len() ==> s.contains(#[trigger] m[i].0)
}

proof fn lemma_insert_step(
    m: Seq<(Seq<char>, JsonV)>,
    k: Seq<char>,
    v: JsonV,
    keep: Seq<(Seq<char>, JsonV)>,
    s: Set<Seq<char>>,
)
    requires
        map_wf(m),
        json_wf(v),
        forall|i: int| 0 <= i < keep.len() ==> m.contains(#[trigger] keep[i]) && keep[i].0 != k,
        keys_within(m, s),
    ensures
        map_wf(map_insert(m, k, v)),
        map_insert(m, k, v).contains((k, v)),
        forall|i: int| 0 <= i < keep.len() ==> map_insert(m, k, v).contains(#[trigger] keep[i]),
        keys_within(map_insert(m, k, v), s.insert(k)),
{
    law_map_insert_sets_one_key(m, k, v);
    lemma_map_insert_wf(m, k, v);
    let r = map_insert(m, k, v);
    assert forall|i: int| 0 <= i < keep.len() implies r.contains(#[trigger] keep[i]) by {
        assert(m.contains(keep[i]));
        let w = choose|w: int| 0 <= w < m.len() && m[w] == keep[i];
        assert(m[w].0 != k);
    }
    assert forall|i: int| 0 <= i < r.len() implies s.insert(k).contains(#[trigger] r[i].0) by {
        if r[i].0 != k {
            let w = choose|w: int| 0 <= w < m.len() && m[w] == r[i];
            assert(s.contains(m[w].0));
        }
    }
}

proof fn lemma_rect_json_wf(r: RectV)
    ensures
        json_wf(rect_json(r)),
{
    reveal_strlit("height");
    reveal_strlit("width");
    reveal_strlit("x");
    reveal_strlit("y");
    if f32_is_finite(r.x.bits) {
        crate::ieee::lemma_widened_not_nan(r.x.bits);
    }
    if f32_is_finite(r.y.bits) {
        crate::ieee::lemma_widened_not_nan(r.y.bits);
    }
    if f32_is_finite(r.width.bits) {
        crate::ieee::lemma_widened_not_nan(r.width.bits);
    }
    if f32_is_finite(r.height.bits) {
        crate::ieee::lemma_widened_not_nan(r.height.bits);
    }
    let xs = seq![
        ("height"@, crate::diff::measure_json(r.height)),
        ("width"@, crate::diff::measure_json(r.width)),
        ("x"@, crate::diff::measure_json(r.x)),
        ("y"@, crate::diff::measure_json(r.y)),
    ];
    assert(rect_json(r) == JsonV::Object(xs));
    assert(json_wf(xs[0].1) && json_wf(xs[1].1) && json_wf(xs[2].1) && json_wf(xs[3].1));
    assert(crate::json::members_wf(xs));
    assert(crate::json::keys_ascending(xs)) by {
        assert("height"@[0] == 'h' && "width"@[0] == 'w' && "x"@[0] == 'x' && "y"@[0] == 'y');
        assert forall|i: int, j: int| 0 <= i < j < xs.len() implies crate::text::chars_lt(
            #[trigger] xs[i].0,
            #[trigger] xs[j].0,
        ) by {
            assert(xs[i].0[0] != xs[j].0[0]);
        }
    }
}

proof fn lemma_tree_metadata_keys(t: SemanticTreeV)
    ensures
        keys_within(
            tree_metadata(t),
            set![
                "semantic_source"@,
                "accesskit_tree_id"@,
                "accesskit_focus_id"@,
                "accesskit_root_id"@,
                "toolkit_name"@,
                "toolkit_version"@,
            ],
        ),
{
    let e = Seq::<(Seq<char>, JsonV)>::empty();
    let none = Seq::<(Seq<char>, JsonV)>::empty();
    let s0 = Set::<Seq<char>>::empty();
    lemma_insert_step(e, "semantic_source"@, JsonV::Str("accesskit"@), none, s0);
    let m1 = map_insert(e, "semantic_source"@, JsonV::Str("accesskit"@));
    let s1 = s0.insert("semantic_source"@);
    lemma_insert_step(m1, "accesskit_tree_id"@, JsonV::Str(t.tree_id), none, s1);
    let m2 = map_insert(m1, "accesskit_tree_id"@, JsonV::Str(t.tree_id));
    let s2 = s1.insert("accesskit_tree_id"@);
    lemma_insert_step(m2, "accesskit_focus_id"@, JsonV::Str(crate::semantic::node_id_text(t.focus)), none, s2);
    let m3 = map_insert(m2, "accesskit_focus_id"@, JsonV::Str(crate::semantic::node_id_text(t.focus)));
    let s3 = s2.insert("accesskit_focus_id"@);
    let all = set![
        "semantic_source"@,
        "accesskit_tree_id"@,
        "accesskit_focus_id"@,
        "accesskit_root_id"@,
        "toolkit_name"@,
        "toolkit_version"@,
    ];
    if let Some(info) = t.tree {
        let rv = JsonV::Str(crate::semantic::node_id_text(info.root));
        lemma_insert_step(m3, "accesskit_root_id"@, rv, none, s3);
        let m4 = map_insert(m3, "accesskit_root_id"@, rv);
        let s4 = s3.insert("accesskit_root_id"@);
        let m5 = crate::semantic::insert_str_opt(m4, "toolkit_name"@, info.toolkit_name);
        let s5 = s4.insert("toolkit_name"@);
        if let Some(n) = info.toolkit_name {
            lemma_insert_step(m4, "toolkit_name"@, JsonV::Str(n), none, s4);
        }
        assert(keys_within(m5, s5));
        crate::semantic::lemma_tree_metadata_wf(t);
        crate::semantic::lemma_map_insert_wf(m4, "toolkit_name"@, JsonV::Str(""@));
        if let Some(n) = info.toolkit_version {
            assert(map_wf(m5)) by {
                if let Some(n2) = info.toolkit_name {
                    lemma_map_insert_wf(m4, "toolkit_name"@, JsonV::Str(n2));
                }
            }
            lemma_insert_step(m5, "toolkit_version"@, JsonV::Str(n), none, s5);
        }
        let m6 = crate::semantic::insert_str_opt(m5, "toolkit_version"@, info.toolkit_version);
        assert(keys_within(m6, s5.insert("toolkit_version"@)));
        assert(s5.insert("toolkit_version"@) =~= all);
    } else {
        assert forall|i: int| 0 <= i < m3.len() implies all.contains(#[trigger] m3[i].0) by {
            assert(s3.contains(m3[i].0));
        }
    }
}

/// The map after inserting each entry of `es` in turn.
pub open spec fn insert_all(m: Seq<(Seq<char>, JsonV)>, es: Seq<(Seq<char>, JsonV)>) -> Seq<
    (Seq<char>, JsonV),
>
    decreases es.len(),
{
    if es.len() == 0 {
        m
    } else {
        map_insert(insert_all(m, es.drop_last()), es.last().0, es.last().1)
    }
}

/// Some entry of `es` has key `k`.
pub open spec fn has_key(es: Seq<(Seq<char>, JsonV)>, k: Seq<char>) -> bool {
    exists|i: int| 0 <= i < es.len() && #[trigger] es[i].0 == k
}

proof fn lemma_insert_all_step(m: Seq<(Seq<char>, JsonV)>, es: Seq<(Seq<char>, JsonV)>, k: int)
    requires
        0 < k <= es.len(),
    ensures
        insert_all(m, es.take(k)) == map_insert(insert_all(m, es.take(k - 1)), es[k - 1].0, es[k - 1].1),
{
    assert(es.take(k).drop_last() =~= es.take(k - 1));
}

proof fn lemma_insert_all(m: Seq<(Seq<char>, JsonV)>, es: Seq<(Seq<char>, JsonV)>)
    requires
        map_wf(m),
        forall|i: int| 0 <= i < es.len() ==> json_wf(#[trigger] es[i].1),
        forall|i: int, j: int| 0 <= i < j < es.len() ==> #[trigger] es[i].0 != #[trigger] es[j].0,
    ensures
        map_wf(insert_all(m, es)),
        forall|i: int| 0 <= i < es.len() ==> insert_all(m, es).contains(#[trigger] es[i]),
        forall|i: int|
            0 <= i < m.len() && !has_key(es, m[i].0) ==> insert_all(m, es).contains(#[trigger] m[i]),
        forall|j: int|
            0 <= j < insert_all(m, es).len() ==> has_key(m, (#[trigger] insert_all(m, es)[j]).0) || has_key(
                es,
                insert_all(m, es)[j].0,
            ),
    decreases es.len(),
{
    if es.len() > 0 {
        let d = es.drop_last();
        let n = es.len() - 1;
        let (k, v) = es.last();
        assert forall|i: int| 0 <= i < d.len() implies json_wf(#[trigger] d[i].1) by {
            assert(d[i] == es[i]);
        }
        assert forall|i: int, j: int| 0 <= i < j < d.len() implies #[trigger] d[i].0 != #[trigger] d[j].0 by {
            assert(d[i] == es[i] && d[j] == es[j]);
        }
        lemma_insert_all(m, d);
        let r0 = insert_all(m, d);
        let r = insert_all(m, es);
        assert(r == map_insert(r0, k, v));
        assert(json_wf(es[n].1));
        lemma_map_insert_wf(r0, k, v);
        law_map_insert_sets_one_key(r0, k, v);
        assert forall|i: int| 0 <= i < es.len() implies r.contains(#[trigger] es[i]) by {
            if i < n {
                assert(d[i] == es[i]);
                assert(r0.contains(d[i]));
                let w = choose|w: int| 0 <= w < r0.len() && r0[w] == d[i];
                assert(es[i].0 != es[n].0);
                assert(r.contains(r0[w]));
            }
        }
        assert forall|i: int| 0 <= i < m.len() && !has_key(es, m[i].0) implies r.contains(#[trigger] m[i]) by {
            if has_key(d, m[i].0) {
                let w = choose|w: int| 0 <= w < d.len() && #[trigger] d[w].0 == m[i].0;
                assert(d[w] == es[w]);
                assert(has_key(es, m[i].0));
            }
            assert(r0.contains(m[i]));
            let w = choose|w: int| 0 <= w < r0.len() && r0[w] == m[i];
            assert(es[n].0 != m[i].0);
            assert(r.contains(r0[w]));
        }
        assert forall|j: int| 0 <= j < r.len() implies has_key(m, (#[trigger] r[j]).0) || has_key(es, r[j].0) by {
            if r[j].0 == k {
                assert(es[n].0 == r[j].0);
            } else {
                assert(r0.contains(r[j]));
                let w = choose|w: int| 0 <= w < r0.len() && r0[w] == r[j];
                if has_key(d, r0[w].0) {
                    let x = choose|x: int| 0 <= x < d.len() && #[trigger] d[x].0 == r0[w].0;
                    assert(d[x] == es[x]);
                }
            }
        }
    }
}

/// The provenance entries are inserted in order.
proof fn lemma_probe_metadata_inserts_provenance(m: Seq<(Seq<char>, JsonV)>, e: FrameEvidenceV)
    ensures
        probe_metadata(m, e) == insert_all(m, provenance_entries(e)),
{
    let p = provenance_entries(e);
    assert(insert_all(m, p.take(0)) == m);
    lemma_insert_all_step(m, p, 1);
    lemma_insert_all_step(m, p, 2);
    lemma_insert_all_step(m, p, 3);
    lemma_insert_all_step(m, p, 4);
    lemma_insert_all_step(m, p, 5);
    lemma_insert_all_step(m, p, 6);
    lemma_insert_all_step(m, p, 7);
    lemma_insert_all_step(m, p, 8);
    if e.authored_objects.len() > 0 {
        lemma_insert_all_step(m, p, 9);
        assert(p.take(9) =~= p);
    } else {
        assert(p.take(8) =~= p);
    }
}

/// A same-pass capture's witness is the tree's witness whose metadata also
/// holds the provenance entries: the metadata stays an ordered map, keeps
/// every entry of the tree's metadata, holds every provenance entry, and has
/// an authored-paint marker exactly when authored objects were captured.
pub proof fn law_capture_metadata(e: FrameEvidenceV, t: SemanticTreeV)
    ensures
        map_wf(capture_of(e, t).witness.capture.metadata),
        forall|i: int|
            0 <= i < provenance_entries(e).len() ==> capture_of(e, t).witness.capture.metadata.contains(
                #[trigger] provenance_entries(e)[i],
            ),
        forall|i: int|
            0 <= i < tree_metadata(t).len() ==> capture_of(e, t).witness.capture.metadata.contains(
                #[trigger] tree_metadata(t)[i],
            ),
        (exists|j: int|
            0 <= j < capture_of(e, t).witness.capture.metadata.len()
                && #[trigger] capture_of(e, t).witness.capture.metadata[j].0 == "authored_paint_evidence"@)
            <==> e.authored_objects.len() > 0,
{
    reveal_strlit("semantic_source");
    reveal_strlit("accesskit_tree_id");
    reveal_strlit("accesskit_focus_id");
    reveal_strlit("accesskit_root_id");
    reveal_strlit("toolkit_name");
    reveal_strlit("toolkit_version");
    reveal_strlit("transport");
    reveal_strlit("frame_clock");
    reveal_strlit("semantic_paint_correlation");
    reveal_strlit("viewport_evidence_source");
    reveal_strlit("frame_probe_request_id");
    reveal_strlit("egui_viewport_id");
    reveal_strlit("egui_pass_nr");
    reveal_strlit("egui_viewport_rect");
    reveal_strlit("authored_paint_evidence");
    assert("egui_pass_nr"@[0] != "toolkit_name"@[0]);
    assert("egui_viewport_rect"@[0] != "accesskit_focus_id"@[0]);
    let m0 = tree_metadata(t);
    let p = provenance_entries(e);
    let r = capture_of(e, t).witness.capture.metadata;
    crate::semantic::lemma_tree_metadata_wf(t);
    lemma_tree_metadata_keys(t);
    lemma_probe_metadata_inserts_provenance(m0, e);
    assert(r == insert_all(m0, p));
    lemma_rect_json_wf(e.viewport_rect);
    assert forall|i: int| 0 <= i < p.len() implies json_wf(#[trigger] p[i].1) by {}
    assert forall|i: int, j: int| 0 <= i < j < p.len() implies #[trigger] p[i].0 != #[trigger] p[j].0 by {
        assert(p[i].0.len() != p[j].0.len());
    }
    lemma_insert_all(m0, p);
    assert forall|i: int| 0 <= i < m0.len() implies r.contains(#[trigger] m0[i]) by {
        if has_key(p, m0[i].0) {
            let w = choose|w: int| 0 <= w < p.len() && #[trigger] p[w].0 == m0[i].0;
            assert(p[w].0 != m0[i].0);
        }
    }
    if e.authored_objects.len() > 0 {
        assert(r.contains(p[8]));
        let j = choose|j: int| 0 <= j < r.len() && r[j] == p[8];
        assert(r[j].0 == "authored_paint_evidence"@);
    } else {
        assert forall|j: int| 0 <= j < r.len() implies #[trigger] r[j].0 != "authored_paint_evidence"@ by {
            if has_key(m0, r[j].0) {
                let w = choose|w: int| 0 <= w < m0.len() && #[trigger] m0[w].0 == r[j].0;
                assert(r[j].0.len() != "authored_paint_evidence"@.len());
            } else {
                let w = choose|w: int| 0 <= w < p.len() && #[trigger] p[w].0 == r[j].0;
                assert(r[j].0.len() != "authored_paint_evidence"@.len());
            }
        }
    }
}

/// A same-pass capture carries its evidence unchanged: the request, viewport
/// and pass identity, the observed viewport rectangle, every paint
/// observation and every authored object; its witness is the tree's, framed
/// by the pass number, with the nodes and relations of the tree.
pub proof fn law_capture_carries_its_evidence(e: FrameEvidenceV, t: SemanticTreeV)
    ensures
        capture_of(e, t).authored_objects == e.authored_objects,
        capture_of(e, t).paint == e.paint,
        capture_of(e, t).request_id == e.request_id,
        capture_of(e, t).viewport_id == e.viewport_id,
        capture_of(e, t).pass_nr == e.pass_nr,
        capture_of(e, t).viewport_rect == e.viewport_rect,
        capture_of(e, t).witness.capture.frame == Some(e.pass_nr),
        capture_of(e, t).witness.nodes.len() == t.nodes.len(),
{
    let v = ViewportV {
        width: e.viewport_rect.width,
        height: e.viewport_rect.height,
        scale_factor: e.pixels_per_point,
    };
    crate::tree_validity::law_converted_nodes_carry_their_source(t, Some(e.pass_nr), v);
}

} // verus!
