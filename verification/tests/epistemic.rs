use viewwitness::text::LineText;
use viewwitness::correlated::{diff_correlated_captures, EguiCorrelatedCapture, EguiCorrelatedDiff};
use viewwitness::diff::WitnessDiff;
use viewwitness::egui_annotation::{EguiAuthoredPaintBinding, EguiAuthoredPaintObject, EguiLayerOrder};
use viewwitness::egui_diff::{EguiAuthoredBindingIdAmbiguity, EguiAuthoredDiff, EguiAuthoredIdAmbiguity};
use viewwitness::egui_diff_agent_text::correlated_diff_to_agent_text;
use viewwitness::egui_paint::EguiPaintKind;
use viewwitness::epistemic::{assess_authored_continuity, EguiAuthoredContinuityStatus};
use viewwitness::model::{Capture, Measure, Rect, Viewport, Witness};

fn line(s: String) -> LineText {
    LineText::new(s).expect("a number text holds no line break")
}

fn m(v: f32) -> Measure {
    Measure {
        bits: v.to_bits(),
        display: line(format!("{}", v)),
        json: line(serde_json::to_string(&serde_json::Value::from(v)).unwrap()),
    }
}

fn rect(x: f32, y: f32, w: f32, h: f32) -> Rect {
    Rect { x: m(x), y: m(y), width: m(w), height: m(h) }
}

fn empty_authored_diff() -> EguiAuthoredDiff {
    EguiAuthoredDiff {
        objects_added: Vec::new(),
        objects_removed: Vec::new(),
        objects_changed: Vec::new(),
        bindings_added: Vec::new(),
        bindings_removed: Vec::new(),
        bindings_changed: Vec::new(),
        ambiguous_ids: Vec::new(),
        binding_ambiguities: Vec::new(),
        execution_handle_churn: Vec::new(),
    }
}

fn empty_witness_diff(before_frame: u64, after_frame: u64) -> WitnessDiff {
    WitnessDiff {
        before_frame: Some(before_frame),
        after_frame: Some(after_frame),
        version_change: None,
        viewport_change: None,
        nodes_added: Vec::new(),
        nodes_removed: Vec::new(),
        nodes_changed: Vec::new(),
        relations_added: Vec::new(),
        relations_removed: Vec::new(),
    }
}

fn diff_with_ambiguity() -> EguiCorrelatedDiff {
    let mut authored = empty_authored_diff();
    authored.ambiguous_ids =
        vec![EguiAuthoredIdAmbiguity { id: "canvas:duplicate".to_string(), before_count: 2, after_count: 1 }];
    authored.binding_ambiguities = vec![EguiAuthoredBindingIdAmbiguity {
        object_id: "canvas:stable".to_string(),
        binding_id: "outline".to_string(),
        before_count: 2,
        after_count: 1,
    }];
    EguiCorrelatedDiff {
        before_request_id: 7,
        after_request_id: 8,
        before_pass_nr: 9,
        after_pass_nr: 10,
        semantic: empty_witness_diff(9, 10),
        authored,
    }
}

#[test]
fn duplicate_authored_identity_blocks_unique_attribution_without_guessing() {
    let diff = diff_with_ambiguity();
    let assessment = assess_authored_continuity(&diff);
    assert_eq!(assessment.status, EguiAuthoredContinuityStatus::Ambiguous);
    assert_eq!(assessment.object_ambiguity_count, 1);
    assert_eq!(assessment.binding_ambiguity_count, 1);
    assert!(assessment.unique_attribution_blocked());
    assert!(diff.authored.objects_changed.is_empty());
    assert!(diff.authored.bindings_changed.is_empty());
}

#[test]
fn no_known_ambiguity_does_not_overclaim_evidence_completeness() {
    let diff = EguiCorrelatedDiff {
        before_request_id: 1,
        after_request_id: 2,
        before_pass_nr: 10,
        after_pass_nr: 11,
        semantic: empty_witness_diff(10, 11),
        authored: empty_authored_diff(),
    };
    let assessment = assess_authored_continuity(&diff);
    assert_eq!(assessment.status, EguiAuthoredContinuityStatus::NoKnownAmbiguity);
    assert_eq!(assessment.object_ambiguity_count, 0);
    assert_eq!(assessment.binding_ambiguity_count, 0);
    assert!(!assessment.unique_attribution_blocked());
}

fn object(id: &str, role: &str, kind: EguiPaintKind) -> EguiAuthoredPaintObject {
    EguiAuthoredPaintObject {
        id: id.to_string(),
        role: role.to_string(),
        name: None,
        semantic_evidence: "intended".to_string(),
        bindings: vec![EguiAuthoredPaintBinding {
            authored_binding_id: Some("part".to_string()),
            binding_evidence: "observed".to_string(),
            layer_order: EguiLayerOrder::Background,
            layer_id: 42,
            shape_index: 3,
            verified_at_end_pass: true,
            kind: Some(kind),
            bounds: Some(rect(10.0, 10.0, 20.0, 20.0)),
            clip_rect: None,
        }],
    }
}

fn capture(pass_nr: u64, authored_objects: Vec<EguiAuthoredPaintObject>) -> EguiCorrelatedCapture {
    EguiCorrelatedCapture {
        request_id: pass_nr,
        viewport_id: 1,
        pass_nr,
        viewport_rect: rect(0.0, 0.0, 100.0, 50.0),
        witness: Witness {
            viewwitness_version: "0.1".to_string(),
            capture: Capture {
                source: "egui".to_string(),
                frame: Some(pass_nr),
                viewport: Viewport { width: m(100.0), height: m(50.0), scale_factor: m(1.0) },
                metadata: Vec::new(),
            },
            nodes: Vec::new(),
            relations: Vec::new(),
        },
        paint: Vec::new(),
        authored_objects,
    }
}

#[test]
fn diff_header_preserves_material_change_and_blocks_ambiguous_attribution() {
    let before = capture(
        1,
        vec![
            object("ambiguous", "first", EguiPaintKind::Rect),
            object("ambiguous", "second", EguiPaintKind::Circle),
            object("stable", "stable", EguiPaintKind::Rect),
        ],
    );
    let after = capture(
        2,
        vec![object("ambiguous", "remaining", EguiPaintKind::Rect), object("stable", "stable", EguiPaintKind::Circle)],
    );
    let diff = diff_correlated_captures(&before, &after);
    assert!(!diff.is_materially_empty());
    assert_eq!(diff.authored.ambiguous_ids.len(), 1);
    assert_eq!(diff.authored.bindings_changed.len(), 1);

    let text = correlated_diff_to_agent_text(&diff);
    let header = text.lines().next().expect("diff header");
    assert!(header.contains("materially_empty=false"));
    assert!(header.contains("authored_continuity=\"ambiguous\""));
    assert!(header.contains("unique_attribution_blocked=true"));
    assert!(header.contains("object_ambiguity_count=1"));
    assert!(header.contains("binding_ambiguity_count=0"));
    assert!(text.contains(
        "authored-binding-change object_id=\"stable\" authored_binding_id=\"part\" field=\"kind\" before=\"rect\" after=\"circle\""
    ));
    assert!(text.contains("authored-ambiguity id=\"ambiguous\" before_count=2 after_count=1 matching=refused"));
}

#[test]
fn diff_header_does_not_promote_no_known_ambiguity_to_completeness() {
    let before = capture(1, vec![object("stable", "stable", EguiPaintKind::Rect)]);
    let after = capture(2, vec![object("stable", "stable", EguiPaintKind::Circle)]);
    let diff = diff_correlated_captures(&before, &after);
    let text = correlated_diff_to_agent_text(&diff);
    let header = text.lines().next().expect("diff header");
    assert!(header.contains("authored_continuity=\"no_known_ambiguity\""));
    assert!(header.contains("unique_attribution_blocked=false"));
    assert!(header.contains("object_ambiguity_count=0"));
    assert!(header.contains("binding_ambiguity_count=0"));
    assert!(!header.contains("complete=true"));
    assert!(!header.contains("confidence="));
}
