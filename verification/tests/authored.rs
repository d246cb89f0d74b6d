use viewwitness::text::LineText;
use viewwitness::correlated::{diff_correlated_captures, EguiCorrelatedCapture, EguiCorrelatedDiff};
use viewwitness::diff::{FieldChange, WitnessDiff};
use viewwitness::egui_agent_text::ClipSurvival;
use viewwitness::egui_annotation::{
    EguiAuthoredPaintBinding, EguiAuthoredPaintObject, EguiLayerOrder, EguiPaintObjectDescriptor,
};
use viewwitness::egui_diff::{
    binding_id_ambiguities, diff_authored_objects, diff_object_bindings, EguiAuthoredBindingChange,
    EguiAuthoredBindingIdAmbiguity, EguiAuthoredDiff, EguiAuthoredExecutionHandleChange,
    EguiAuthoredIdAmbiguity,
};
use viewwitness::egui_diff_agent_text::correlated_diff_to_agent_text;
use viewwitness::egui_paint::EguiPaintKind;
use viewwitness::epistemic::{assess_authored_continuity, EguiAuthoredContinuityStatus};
use viewwitness::json::{json_string, JsonValue};
use viewwitness::model::{Capture, Measure, Rect, Viewport, Witness};

fn line(s: String) -> LineText {
    LineText::new(s).expect("a number text holds no line break")
}

fn m(v: f32) -> Measure {
    Measure {
        bits: v.to_bits(),
        display: line(format!("{}", v)),
        json: line(serde_json::to_string(&serde_json::Value::from(v)).unwrap()),
    }
}

fn rect(x: f32, y: f32, w: f32, h: f32) -> Rect {
    Rect { x: m(x), y: m(y), width: m(w), height: m(h) }
}

fn empty_witness(frame: u64) -> Witness {
    Witness {
        viewwitness_version: "0.1".to_string(),
        capture: Capture {
            source: "egui".to_string(),
            frame: Some(frame),
            viewport: Viewport { width: m(100.0), height: m(50.0), scale_factor: m(1.0) },
            metadata: Vec::new(),
        },
        nodes: Vec::new(),
        relations: Vec::new(),
    }
}

fn capture(pass_nr: u64, authored_objects: Vec<EguiAuthoredPaintObject>) -> EguiCorrelatedCapture {
    EguiCorrelatedCapture {
        request_id: pass_nr,
        viewport_id: 1,
        pass_nr,
        viewport_rect: rect(0.0, 0.0, 100.0, 50.0),
        witness: empty_witness(pass_nr),
        paint: Vec::new(),
        authored_objects,
    }
}

fn unkeyed(kind: EguiPaintKind, shape_index: usize, x: f32) -> EguiAuthoredPaintBinding {
    EguiAuthoredPaintBinding {
        authored_binding_id: None,
        binding_evidence: "observed".to_string(),
        layer_order: EguiLayerOrder::Background,
        layer_id: 42,
        shape_index,
        verified_at_end_pass: true,
        kind: Some(kind),
        bounds: Some(rect(x, 10.0, 20.0, 20.0)),
        clip_rect: None,
    }
}

fn keyed(id: &str, kind: EguiPaintKind, shape_index: usize, x: f32) -> EguiAuthoredPaintBinding {
    let mut b = unkeyed(kind, shape_index, x);
    b.authored_binding_id = Some(id.to_string());
    b
}

fn object(id: &str, bindings: Vec<EguiAuthoredPaintBinding>) -> EguiAuthoredPaintObject {
    let d = EguiPaintObjectDescriptor::new(id, "diagram_node").with_name("Keyed node");
    EguiAuthoredPaintObject {
        id: d.id,
        role: d.role,
        name: d.name,
        semantic_evidence: "intended".to_string(),
        bindings,
    }
}

fn fields(change: &EguiAuthoredBindingChange) -> Vec<&str> {
    change.fields.iter().map(|(k, _)| k.as_str()).collect()
}

fn empty_authored() -> EguiAuthoredDiff {
    EguiAuthoredDiff {
        objects_added: Vec::new(),
        objects_removed: Vec::new(),
        objects_changed: Vec::new(),
        bindings_added: Vec::new(),
        bindings_removed: Vec::new(),
        bindings_changed: Vec::new(),
        ambiguous_ids: Vec::new(),
        binding_ambiguities: Vec::new(),
        execution_handle_churn: Vec::new(),
    }
}

fn empty_semantic(before: u64, after: u64) -> WitnessDiff {
    WitnessDiff {
        before_frame: Some(before),
        after_frame: Some(after),
        version_change: None,
        viewport_change: None,
        nodes_added: Vec::new(),
        nodes_removed: Vec::new(),
        nodes_changed: Vec::new(),
        relations_added: Vec::new(),
        relations_removed: Vec::new(),
    }
}

fn correlated(authored: EguiAuthoredDiff) -> EguiCorrelatedDiff {
    EguiCorrelatedDiff {
        before_request_id: 7,
        after_request_id: 8,
        before_pass_nr: 9,
        after_pass_nr: 10,
        semantic: empty_semantic(9, 10),
        authored,
    }
}

#[test]
fn descriptor_keeps_identity_role_and_name() {
    let d = EguiPaintObjectDescriptor::new("canvas:node", "diagram_node");
    assert_eq!(d.id, "canvas:node");
    assert_eq!(d.role, "diagram_node");
    assert_eq!(d.name, None);
    let d = d.with_name("Node");
    assert_eq!(d.name.as_deref(), Some("Node"));
    assert_eq!(d.id, "canvas:node");
}

#[test]
fn keyed_binding_reorder_is_non_material_and_reports_handle_churn_by_id() {
    let before = capture(
        1,
        vec![object(
            "canvas:keyed",
            vec![keyed("outline", EguiPaintKind::Rect, 3, 10.0), keyed("handle", EguiPaintKind::Circle, 4, 30.0)],
        )],
    );
    let after = capture(
        2,
        vec![object(
            "canvas:keyed",
            vec![keyed("handle", EguiPaintKind::Circle, 3, 30.0), keyed("outline", EguiPaintKind::Rect, 4, 10.0)],
        )],
    );
    let diff = diff_correlated_captures(&before, &after);
    assert!(diff.authored.objects_changed.is_empty());
    assert!(diff.authored.binding_ambiguities.is_empty());
    assert!(diff.authored.bindings_changed.is_empty());
    assert_eq!(diff.authored.execution_handle_churn.len(), 2);
    assert!(diff.is_materially_empty());
    let ids: Vec<_> =
        diff.authored.execution_handle_churn.iter().map(|c| c.authored_binding_id.as_deref()).collect();
    assert_eq!(ids, vec![Some("handle"), Some("outline")]);
    let handle = &diff.authored.execution_handle_churn[0];
    assert_eq!(handle.binding_ordinal, 1);
    assert_eq!(handle.before_shape_index, 4);
    assert_eq!(handle.after_shape_index, 3);
}

#[test]
fn keyed_binding_material_change_remains_material() {
    let before = capture(1, vec![object("canvas:keyed", vec![keyed("outline", EguiPaintKind::Rect, 3, 10.0)])]);
    let after = capture(2, vec![object("canvas:keyed", vec![keyed("outline", EguiPaintKind::Circle, 9, 10.0)])]);
    let diff = diff_correlated_captures(&before, &after);
    assert!(diff.authored.objects_changed.is_empty());
    assert_eq!(diff.authored.bindings_changed.len(), 1);
    let change = &diff.authored.bindings_changed[0];
    assert_eq!(change.object_id, "canvas:keyed");
    assert_eq!(change.authored_binding_id.as_deref(), Some("outline"));
    assert_eq!(change.unkeyed_ordinal, None);
    assert_eq!(fields(change), vec!["kind"]);
    assert_eq!(json_string(&change.fields[0].1.before), "\"rect\"");
    assert_eq!(json_string(&change.fields[0].1.after), "\"circle\"");
    assert!(diff.authored.execution_handle_churn.is_empty());
    assert!(!diff.is_materially_empty());
}

#[test]
fn duplicate_binding_ids_are_explicit_ambiguity() {
    let before = capture(
        1,
        vec![object(
            "canvas:keyed",
            vec![keyed("outline", EguiPaintKind::Rect, 3, 10.0), keyed("outline", EguiPaintKind::Circle, 4, 30.0)],
        )],
    );
    let after = capture(2, vec![object("canvas:keyed", vec![keyed("outline", EguiPaintKind::Rect, 8, 10.0)])]);
    let diff = diff_correlated_captures(&before, &after);
    assert_eq!(diff.authored.binding_ambiguities.len(), 1);
    let a = &diff.authored.binding_ambiguities[0];
    assert_eq!(a.object_id, "canvas:keyed");
    assert_eq!(a.binding_id, "outline");
    assert_eq!(a.before_count, 2);
    assert_eq!(a.after_count, 1);
    assert!(diff.authored.objects_changed.is_empty());
    assert!(diff.authored.bindings_changed.is_empty());
    assert!(diff.authored.execution_handle_churn.is_empty());
    assert!(!diff.is_materially_empty());
    let assessment = assess_authored_continuity(&diff);
    assert_eq!(assessment.status, EguiAuthoredContinuityStatus::Ambiguous);
    assert!(assessment.unique_attribution_blocked());
    assert_eq!(assessment.object_ambiguity_count, 0);
    assert_eq!(assessment.binding_ambiguity_count, 1);
}

#[test]
fn keyed_and_unkeyed_bindings_can_coexist_without_losing_legacy_order_semantics() {
    let before = capture(
        1,
        vec![object(
            "canvas:keyed",
            vec![keyed("outline", EguiPaintKind::Rect, 3, 10.0), unkeyed(EguiPaintKind::Circle, 4, 30.0)],
        )],
    );
    let after = capture(
        2,
        vec![object(
            "canvas:keyed",
            vec![unkeyed(EguiPaintKind::Circle, 8, 30.0), keyed("outline", EguiPaintKind::Rect, 9, 10.0)],
        )],
    );
    let diff = diff_correlated_captures(&before, &after);
    assert!(diff.authored.objects_changed.is_empty());
    assert_eq!(diff.authored.execution_handle_churn.len(), 2);
    // Unkeyed records come first, then keyed ones.
    assert_eq!(diff.authored.execution_handle_churn[0].authored_binding_id, None);
    assert_eq!(diff.authored.execution_handle_churn[1].authored_binding_id.as_deref(), Some("outline"));
    assert!(diff.is_materially_empty());
}

#[test]
fn duplicate_authored_ids_are_ambiguity_not_implicit_matching() {
    let before = capture(
        1,
        vec![
            object("duplicate", vec![unkeyed(EguiPaintKind::Rect, 0, 10.0)]),
            object("duplicate", vec![unkeyed(EguiPaintKind::Circle, 1, 10.0)]),
        ],
    );
    let after = capture(2, vec![object("duplicate", vec![unkeyed(EguiPaintKind::Rect, 3, 10.0)])]);
    let diff = diff_correlated_captures(&before, &after);
    assert_eq!(diff.authored.ambiguous_ids.len(), 1);
    let a = &diff.authored.ambiguous_ids[0];
    assert_eq!(a.id, "duplicate");
    assert_eq!(a.before_count, 2);
    assert_eq!(a.after_count, 1);
    assert!(diff.authored.objects_added.is_empty());
    assert!(diff.authored.objects_removed.is_empty());
    assert!(diff.authored.objects_changed.is_empty());
    assert!(diff.authored.execution_handle_churn.is_empty());
    assert!(!diff.is_materially_empty());
}

#[test]
fn material_binding_change_is_reported_without_using_shape_index_as_identity() {
    let before = capture(1, vec![object("canvas:node", vec![unkeyed(EguiPaintKind::Rect, 4, 10.0)])]);
    let after = capture(2, vec![object("canvas:node", vec![unkeyed(EguiPaintKind::Circle, 17, 12.0)])]);
    let diff = diff_correlated_captures(&before, &after);
    assert!(diff.authored.objects_changed.is_empty());
    assert_eq!(diff.authored.bindings_changed.len(), 1);
    let change = &diff.authored.bindings_changed[0];
    assert_eq!(change.unkeyed_ordinal, Some(0));
    assert_eq!(fields(change), vec!["bounds", "kind"]);
    assert!(diff.authored.execution_handle_churn.is_empty());
    assert!(!diff.is_materially_empty());
}

#[test]
fn handle_fix_is_isolated_from_unrelated_slot_churn() {
    let broken = capture(
        1,
        vec![object(
            "showcase:painted-rectangle",
            vec![keyed("body", EguiPaintKind::Rect, 0, 10.0), keyed("handle", EguiPaintKind::Circle, 1, 120.0)],
        )],
    );
    let fixed = capture(
        2,
        vec![object(
            "showcase:painted-rectangle",
            vec![keyed("body", EguiPaintKind::Rect, 1, 10.0), keyed("handle", EguiPaintKind::Circle, 1, 30.0)],
        )],
    );
    let diff = diff_correlated_captures(&broken, &fixed);
    assert!(diff.authored.objects_changed.is_empty());
    assert_eq!(diff.authored.bindings_changed.len(), 1);
    let change = &diff.authored.bindings_changed[0];
    assert_eq!(change.authored_binding_id.as_deref(), Some("handle"));
    assert_eq!(fields(change), vec!["bounds"]);
    assert_eq!(diff.authored.execution_handle_churn.len(), 1);
    assert_eq!(diff.authored.execution_handle_churn[0].authored_binding_id.as_deref(), Some("body"));
    assert!(!diff.is_materially_empty());
    let text = correlated_diff_to_agent_text(&diff);
    assert!(text.contains(
        "authored-binding-change object_id=\"showcase:painted-rectangle\" authored_binding_id=\"handle\" field=\"bounds\""
    ));
    assert!(!text.contains("field=\"bindings\""));
    assert!(text.contains("authored-handle-churn id=\"showcase:painted-rectangle\" authored_binding_id=\"body\""));
}

#[test]
fn binding_additions_and_removals_are_first_class() {
    let before = object("canvas:node", vec![keyed("ring", EguiPaintKind::Circle, 2, 10.0)]);
    let after = object("canvas:node", vec![keyed("center", EguiPaintKind::Circle, 5, 10.0)]);
    let mut added = Vec::new();
    let mut removed = Vec::new();
    let mut changed = Vec::new();
    let mut churn = Vec::new();
    diff_object_bindings(&before, &after, &mut added, &mut removed, &mut changed, &mut churn);
    assert_eq!(added.len(), 1);
    assert_eq!(added[0].binding.authored_binding_id.as_deref(), Some("center"));
    assert_eq!(added[0].binding_ordinal, 0);
    assert_eq!(removed.len(), 1);
    assert_eq!(removed[0].binding.authored_binding_id.as_deref(), Some("ring"));
    assert!(changed.is_empty());
    assert!(churn.is_empty());
}

#[test]
fn extra_unkeyed_bindings_are_added_records() {
    let before = object("canvas:node", vec![unkeyed(EguiPaintKind::Rect, 0, 10.0)]);
    let after = object(
        "canvas:node",
        vec![unkeyed(EguiPaintKind::Rect, 0, 10.0), unkeyed(EguiPaintKind::Text, 1, 50.0)],
    );
    let d = diff_authored_objects(&vec![before], &vec![after]);
    assert_eq!(d.bindings_added.len(), 1);
    assert_eq!(d.bindings_added[0].binding_ordinal, 1);
    assert!(d.bindings_removed.is_empty());
    assert!(d.bindings_changed.is_empty());
    assert!(!d.is_materially_empty());
}

#[test]
fn binding_ambiguities_are_listed_in_key_order() {
    let before = object(
        "o",
        vec![
            keyed("z", EguiPaintKind::Rect, 0, 1.0),
            keyed("z", EguiPaintKind::Rect, 1, 1.0),
            keyed("a", EguiPaintKind::Rect, 2, 1.0),
        ],
    );
    let after = object(
        "o",
        vec![keyed("a", EguiPaintKind::Rect, 0, 1.0), keyed("a", EguiPaintKind::Rect, 1, 1.0)],
    );
    let r = binding_id_ambiguities(&before, &after);
    let keys: Vec<(&str, usize, usize)> =
        r.iter().map(|a| (a.binding_id.as_str(), a.before_count, a.after_count)).collect();
    assert_eq!(keys, vec![("a", 1, 2), ("z", 2, 0)]);
}

#[test]
fn objects_added_removed_and_changed_in_id_order() {
    let mut renamed = object("b", vec![unkeyed(EguiPaintKind::Rect, 0, 1.0)]);
    renamed.role = "handle".to_string();
    let before = vec![
        object("c", vec![]),
        object("b", vec![unkeyed(EguiPaintKind::Rect, 0, 1.0)]),
    ];
    let after = vec![renamed, object("a", vec![])];
    let d = diff_authored_objects(&before, &after);
    assert_eq!(d.objects_added.len(), 1);
    assert_eq!(d.objects_added[0].id, "a");
    assert_eq!(d.objects_removed.len(), 1);
    assert_eq!(d.objects_removed[0].id, "c");
    assert_eq!(d.objects_changed.len(), 1);
    assert_eq!(d.objects_changed[0].id, "b");
    let f: Vec<&str> = d.objects_changed[0].fields.iter().map(|(k, _)| k.as_str()).collect();
    assert_eq!(f, vec!["role"]);
    assert_eq!(json_string(&d.objects_changed[0].fields[0].1.after), "\"handle\"");
}

#[test]
fn slot_churn_alone_keeps_the_diff_materially_empty() {
    let before = capture(1, vec![object("canvas:persistent", vec![unkeyed(EguiPaintKind::Rect, 0, 40.0)])]);
    let after = capture(2, vec![object("canvas:persistent", vec![unkeyed(EguiPaintKind::Rect, 1, 40.0)])]);
    let diff = diff_correlated_captures(&before, &after);
    assert!(diff.semantic.is_empty());
    assert_eq!(diff.authored.execution_handle_churn.len(), 1);
    let churn = &diff.authored.execution_handle_churn[0];
    assert_eq!(churn.id, "canvas:persistent");
    assert_eq!(churn.binding_ordinal, 0);
    assert_ne!(churn.before_shape_index, churn.after_shape_index);
    assert!(diff.is_materially_empty());
    let assessment = assess_authored_continuity(&diff);
    assert_eq!(assessment.status, EguiAuthoredContinuityStatus::NoKnownAmbiguity);
    assert!(!assessment.unique_attribution_blocked());
    assert_eq!(assessment.status.name(), "no_known_ambiguity");
}

#[test]
fn correlated_diff_text_separates_ambiguity_and_non_material_handle_churn() {
    let mut authored = empty_authored();
    authored.ambiguous_ids =
        vec![EguiAuthoredIdAmbiguity { id: "duplicate".to_string(), before_count: 2, after_count: 1 }];
    authored.binding_ambiguities = vec![EguiAuthoredBindingIdAmbiguity {
        object_id: "canvas:stable".to_string(),
        binding_id: "outline".to_string(),
        before_count: 2,
        after_count: 1,
    }];
    authored.execution_handle_churn = vec![EguiAuthoredExecutionHandleChange {
        id: "canvas:stable".to_string(),
        authored_binding_id: Some("handle".to_string()),
        binding_ordinal: 0,
        before_shape_index: 3,
        after_shape_index: 4,
    }];
    let text = correlated_diff_to_agent_text(&correlated(authored));
    assert_eq!(
        text,
        [
            "egui-diff before_request=7 after_request=8 before_pass=9 after_pass=10 materially_empty=false",
            " authored_continuity=\"ambiguous\" unique_attribution_blocked=true object_ambiguity_count=1 binding_ambiguity_count=1\n",
            "diff before_frame=9 after_frame=10\n",
            "authored-ambiguity id=\"duplicate\" before_count=2 after_count=1 matching=refused\n",
            "authored-binding-ambiguity object_id=\"canvas:stable\" authored_binding_id=\"outline\" before_count=2 after_count=1 matching=refused\n",
            "authored-handle-churn id=\"canvas:stable\" authored_binding_id=\"handle\" binding_ordinal=0 before_shape_index=3 after_shape_index=4 material=false continuity=frame_local_structure_sensitive\n",
        ].concat()
    );
}

#[test]
fn unkeyed_handle_churn_keeps_legacy_projection_and_is_materially_empty() {
    let mut authored = empty_authored();
    authored.execution_handle_churn = vec![EguiAuthoredExecutionHandleChange {
        id: "canvas:stable".to_string(),
        authored_binding_id: None,
        binding_ordinal: 0,
        before_shape_index: 8,
        after_shape_index: 9,
    }];
    let text = correlated_diff_to_agent_text(&correlated(authored));
    let header = text.lines().next().unwrap();
    assert!(header.contains("materially_empty=true"));
    assert!(header.ends_with(
        "authored_continuity=\"no_known_ambiguity\" unique_attribution_blocked=false object_ambiguity_count=0 binding_ambiguity_count=0"
    ));
    assert!(text.contains(
        "authored-handle-churn id=\"canvas:stable\" binding_ordinal=0 before_shape_index=8 after_shape_index=9 material=false"
    ));
    assert!(!text.contains("authored_binding_id="));
}

#[test]
fn keyed_binding_change_projects_the_named_subpart_and_field() {
    let mut authored = empty_authored();
    let before = viewwitness::diff::rect_to_json(&rect(120.0, 30.0, 10.0, 10.0));
    let after = viewwitness::diff::rect_to_json(&rect(90.0, 30.0, 10.0, 10.0));
    authored.bindings_changed = vec![EguiAuthoredBindingChange {
        object_id: "canvas:node".to_string(),
        authored_binding_id: Some("handle".to_string()),
        unkeyed_ordinal: None,
        fields: vec![("bounds".to_string(), FieldChange { before, after })],
    }];
    let text = correlated_diff_to_agent_text(&correlated(authored));
    assert!(text.contains(
        "authored-binding-change object_id=\"canvas:node\" authored_binding_id=\"handle\" field=\"bounds\" before={\"height\":10.0,\"width\":10.0,\"x\":120.0,\"y\":30.0} after={\"height\":10.0,\"width\":10.0,\"x\":90.0,\"y\":30.0}\n"
    ));
}

#[test]
fn unknown_clip_survival_values_pass_through_capture_text() {
    let mut c = capture(3, vec![object("canvas:node", vec![keyed("ring", EguiPaintKind::Circle, 2, 10.0)])]);
    c.authored_objects[0].bindings[0].clip_rect = Some(rect(0.0, 0.0, 15.0, 50.0));
    let clips = vec![vec![ClipSurvival { fraction: line("0.25".to_string()), visible_bounds: Some(rect(10.0, 10.0, 5.0, 20.0)) }]];
    let text = viewwitness::egui_agent_text::correlated_capture_to_agent_text(&c, &Vec::new(), &clips);
    assert!(text.starts_with(
        "egui-correlated request=3 viewport_id=1 pass=3 viewport_rect=[0,0,100,50] paint_count=0 authored_count=1 authored_binding_count=1 correlation=same_full_output\n"
    ));
    assert!(text.contains(
        "authored-binding object_index=0 binding_index=0 object_id=\"canvas:node\" authored_binding_id=\"ring\" binding_evidence=\"observed\" layer_order=\"background\" layer_id=42 shape_index=2 verified=true kind=\"circle\" bounds=[10,10,20,20] clip=[0,0,15,50] visible_fraction=0.25 visible_fraction_evidence=derived_bbox_clip visible_bounds=[10,10,5,20]\n"
    ));
}

fn sample_capture() -> EguiCorrelatedCapture {
    let mut c = capture(9, Vec::new());
    c.request_id = 7;
    c.viewport_id = 2;
    c.witness.viewwitness_version = "0".to_string();
    c.witness.nodes = vec![viewwitness::model::Node {
        id: "ak:1".to_string(),
        role: "button".to_string(),
        parent: None,
        identity: None,
        name: Some("Apply".to_string()),
        bounds: Some(rect(10.0, 10.0, 20.0, 10.0)),
        visible: None,
        enabled: None,
        focused: None,
        selected: None,
        text: None,
        value: None,
        actions: Vec::new(),
        properties: Vec::new(),
    }];
    c.paint = vec![
        viewwitness::egui_paint::EguiPaintObservation {
            order: 2,
            kind: EguiPaintKind::Rect,
            bounds: rect(0.0, 0.0, 10.0, 10.0),
            clip_rect: None,
        },
        viewwitness::egui_paint::EguiPaintObservation {
            order: 1,
            kind: EguiPaintKind::Circle,
            bounds: rect(0.0, 0.0, 10.0, 10.0),
            clip_rect: Some(rect(0.0, 0.0, 5.0, 10.0)),
        },
    ];
    let mut node = object("canvas:node", vec![unkeyed(EguiPaintKind::Rect, 3, 20.0)]);
    node.name = Some("Node".to_string());
    node.bindings[0].bounds = Some(rect(20.0, 20.0, 30.0, 20.0));
    c.authored_objects = vec![node];
    c
}

fn whole(r: &Rect) -> ClipSurvival {
    ClipSurvival {
        fraction: line("1".to_string()),
        visible_bounds: Some(rect(
            f32::from_bits(r.x.bits),
            f32::from_bits(r.y.bits),
            f32::from_bits(r.width.bits),
            f32::from_bits(r.height.bits),
        )),
    }
}

#[test]
fn correlated_agent_text_keeps_semantics_authored_objects_and_paint_distinct() {
    let c = sample_capture();
    let paint_clips = vec![
        whole(&c.paint[0].bounds),
        ClipSurvival { fraction: line("0.5".to_string()), visible_bounds: Some(rect(0.0, 0.0, 5.0, 10.0)) },
    ];
    let binding_clips = vec![vec![whole(c.authored_objects[0].bindings[0].bounds.as_ref().unwrap())]];
    let text = viewwitness::egui_agent_text::correlated_capture_to_agent_text(&c, &paint_clips, &binding_clips);
    assert_eq!(
        text,
        [
            "egui-correlated request=7 viewport_id=2 pass=9 viewport_rect=[0,0,100,50] paint_count=2 authored_count=1 authored_binding_count=1 correlation=same_full_output\n",
            "view version=\"0\" source=\"egui\" viewport=[100,50,1] frame=9\n",
            "node id=\"ak:1\" role=\"button\" name=\"Apply\" bounds=[10,10,20,10]\n",
            "authored-object index=0 id=\"canvas:node\" role=\"diagram_node\" name=\"Node\" semantic_evidence=\"intended\" binding_count=1\n",
            "authored-binding object_index=0 binding_index=0 object_id=\"canvas:node\" binding_evidence=\"observed\" layer_order=\"background\" layer_id=42 shape_index=3 verified=true kind=\"rect\" bounds=[20,20,30,20] clip=unbounded visible_fraction=1 visible_fraction_evidence=derived_bbox_clip visible_bounds=[20,20,30,20]\n",
            "paint order=1 kind=\"circle\" bounds=[0,0,10,10] clip=[0,0,5,10] visible_fraction=0.5 visible_fraction_evidence=derived_bbox_clip visible_bounds=[0,0,5,10]\n",
            "paint order=2 kind=\"rect\" bounds=[0,0,10,10] clip=unbounded visible_fraction=1 visible_fraction_evidence=derived_bbox_clip visible_bounds=[0,0,10,10]\n",
        ]
        .concat()
    );
    assert!(!text.contains("node_paint") && !text.contains("paint_node"));
}

fn focus_capture() -> EguiCorrelatedCapture {
    let mut c = sample_capture();
    c.authored_objects[0].bindings = vec![
        keyed("outline", EguiPaintKind::Rect, 3, 20.0),
        keyed("handle", EguiPaintKind::Circle, 4, 45.0),
    ];
    c
}

fn clips_for(c: &EguiCorrelatedCapture) -> Vec<Vec<ClipSurvival>> {
    c.authored_objects
        .iter()
        .map(|o| o.bindings.iter().map(|b| whole(b.bounds.as_ref().unwrap())).collect())
        .collect()
}

#[test]
fn authored_focus_selects_one_binding_and_labels_omissions() {
    let c = focus_capture();
    let text = viewwitness::egui_agent_text::correlated_capture_authored_focus_to_agent_text(
        &c,
        &clips_for(&c),
        "canvas:node",
        Some("handle"),
    );
    assert!(text.starts_with(
        "egui-correlated-focus request=7 viewport_id=2 pass=9 viewport_rect=[0,0,100,50] object_id=\"canvas:node\" binding_id=\"handle\" object_match_count=1 binding_match_count=1 correlation=same_full_output projection=authored_focus omitted=canonical_semantics,generic_paint\n"
    ));
    assert!(text.contains("authored-object index=0 id=\"canvas:node\" role=\"diagram_node\" name=\"Node\""));
    assert!(text.contains(
        "authored-binding object_index=0 binding_index=1 object_id=\"canvas:node\" authored_binding_id=\"handle\""
    ));
    assert!(!text.contains("authored_binding_id=\"outline\""));
    assert!(!text.contains("node id=\"ak:1\""));
    assert!(!text.contains("paint order="));
}

#[test]
fn authored_focus_preserves_duplicate_object_matches() {
    let mut c = focus_capture();
    let mut first = object("duplicate", vec![unkeyed(EguiPaintKind::Rect, 0, 1.0)]);
    first.role = "first".to_string();
    let mut second = object("duplicate", vec![unkeyed(EguiPaintKind::Circle, 1, 1.0)]);
    second.role = "second".to_string();
    c.authored_objects = vec![second, first];
    let text = viewwitness::egui_agent_text::correlated_capture_authored_focus_to_agent_text(
        &c,
        &clips_for(&c),
        "duplicate",
        None,
    );
    assert!(text.contains("object_match_count=2 binding_match_count=2"));
    assert_eq!(text.matches("authored-object index=").count(), 2);
    assert_eq!(text.matches("authored-binding object_index=").count(), 2);
    assert!(text.contains("authored-object index=0 id=\"duplicate\" role=\"first\""));
    assert!(text.contains("authored-object index=1 id=\"duplicate\" role=\"second\""));
}

#[test]
fn authored_focus_preserves_duplicate_binding_matches() {
    let mut c = focus_capture();
    c.authored_objects[0].bindings.push(keyed("handle", EguiPaintKind::Circle, 5, 50.0));
    let text = viewwitness::egui_agent_text::correlated_capture_authored_focus_to_agent_text(
        &c,
        &clips_for(&c),
        "canvas:node",
        Some("handle"),
    );
    assert!(text.contains("object_match_count=1 binding_match_count=2"));
    assert_eq!(text.matches("authored_binding_id=\"handle\"").count(), 2);
}

#[test]
fn authored_focus_zero_match_is_explicit_not_an_error() {
    let c = focus_capture();
    let text = viewwitness::egui_agent_text::correlated_capture_authored_focus_to_agent_text(
        &c,
        &clips_for(&c),
        "missing",
        None,
    );
    assert!(text.contains("object_id=\"missing\" object_match_count=0 binding_match_count=0"));
    assert!(!text.contains("authored-object index="));
    assert!(!text.contains("authored-binding object_index="));
}

#[test]
fn keyed_change_is_the_same_whatever_the_after_order() {
    let before = object(
        "o",
        vec![keyed("outline", EguiPaintKind::Rect, 0, 1.0), keyed("handle", EguiPaintKind::Circle, 1, 5.0)],
    );
    let after1 = object(
        "o",
        vec![keyed("outline", EguiPaintKind::Rect, 0, 1.0), keyed("handle", EguiPaintKind::Circle, 1, 9.0)],
    );
    let after2 = object(
        "o",
        vec![keyed("handle", EguiPaintKind::Circle, 1, 9.0), keyed("outline", EguiPaintKind::Rect, 0, 1.0)],
    );
    let d1 = diff_authored_objects(&vec![before.copy()], &vec![after1]);
    let d2 = diff_authored_objects(&vec![before], &vec![after2]);
    let show = |d: &EguiAuthoredDiff| -> Vec<String> {
        d.bindings_changed
            .iter()
            .flat_map(|c| {
                c.fields.iter().map(move |(k, f)| {
                    format!(
                        "{:?} {} {} {}",
                        c.authored_binding_id,
                        k,
                        json_string(&f.before),
                        json_string(&f.after)
                    )
                })
            })
            .collect()
    };
    assert_eq!(show(&d1), show(&d2));
    assert_eq!(show(&d1).len(), 1);
    assert!(d1.execution_handle_churn.is_empty() && d2.execution_handle_churn.is_empty());
}

#[test]
fn authored_focus_has_one_line_per_match() {
    let mut c = focus_capture();
    c.authored_objects[0].bindings.push(keyed("handle", EguiPaintKind::Circle, 5, 50.0));
    let clips = clips_for(&c);
    let text = viewwitness::egui_agent_text::correlated_capture_authored_focus_to_agent_text(
        &c,
        &clips,
        "canvas:node",
        Some("handle"),
    );
    assert!(text.ends_with('\n'));
    assert_eq!(text.lines().count(), 1 + 1 + 2);
    let text = viewwitness::egui_agent_text::correlated_capture_authored_focus_to_agent_text(
        &c,
        &clips,
        "canvas:node",
        None,
    );
    assert_eq!(text.lines().count(), 1 + 1 + 3);
    let text = viewwitness::egui_agent_text::correlated_capture_authored_focus_to_agent_text(
        &c,
        &clips,
        "missing",
        None,
    );
    assert_eq!(text.lines().count(), 1);
}

#[test]
fn authored_focus_lines_are_lines_of_the_full_capture_text() {
    let mut c = focus_capture();
    c.authored_objects[0].bindings.push(keyed("handle", EguiPaintKind::Circle, 5, 50.0));
    let paint_clips: Vec<ClipSurvival> = c.paint.iter().map(|p| whole(&p.bounds)).collect();
    let clips = clips_for(&c);
    let full = viewwitness::egui_agent_text::correlated_capture_to_agent_text(&c, &paint_clips, &clips);
    let focus = viewwitness::egui_agent_text::correlated_capture_authored_focus_to_agent_text(
        &c,
        &clips,
        "canvas:node",
        Some("handle"),
    );
    let full_lines: Vec<&str> = full.lines().collect();
    for line in focus.lines().skip(1) {
        assert!(full_lines.contains(&line), "{line}");
    }
    assert_eq!(focus.lines().count(), 4);
}
