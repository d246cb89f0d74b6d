use viewwitness::text::LineText;
use viewwitness::agent_text::to_agent_text;
use viewwitness::frame_probe::{
    viewport_from_observed_rect, CaptureError, EguiFrameEvidence, ProbeRequests, ProbeResponse,
    RequestError, ResponseAction, WaitFailure,
};
use viewwitness::json::{json_string, JsonNumber, JsonValue};
use viewwitness::model::{Measure, Rect, Viewport};
use viewwitness::semantic::{
    node_id_string, pascal_to_snake, role_name, witness_from_egui_tree_update, EguiCaptureContext,
    NodeAction, SemanticNode, SemanticTree, Toggled, TreeInfo,
};

fn line(s: String) -> LineText {
    LineText::new(s).expect("a number text holds no line break")
}

fn m(v: f32) -> Measure {
    Measure {
        bits: v.to_bits(),
        display: line(format!("{}", v)),
        json: line(serde_json::to_string(&serde_json::Value::from(v)).unwrap()),
    }
}

fn rect(x: f32, y: f32, w: f32, h: f32) -> Rect {
    Rect { x: m(x), y: m(y), width: m(w), height: m(h) }
}

fn sem(id: u64, role: &str) -> SemanticNode {
    SemanticNode {
        id,
        role: role.to_string(),
        children: Vec::new(),
        labelled_by: Vec::new(),
        described_by: Vec::new(),
        controls: Vec::new(),
        label: None,
        value: None,
        numeric_value: None,
        author_id: None,
        description: None,
        placeholder: None,
        keyboard_shortcut: None,
        busy: false,
        read_only: false,
        required: false,
        modal: false,
        clips_children: false,
        hidden: false,
        disabled: false,
        selected: None,
        expanded: None,
        toggled: None,
        transform_present: false,
        actions: Vec::new(),
        bounds: None,
    }
}

fn tree() -> SemanticTree {
    let mut root = sem(1, "Window");
    root.children = vec![2, 10, 99];
    let mut button = sem(2, "Button");
    button.label = Some("Apply".to_string());
    button.actions = vec![NodeAction::Focus, NodeAction::Click];
    button.bounds = Some(rect(10.0, 10.0, 20.0, 10.0));
    button.controls = vec![10, 42];
    let mut label = sem(10, "Label");
    label.value = Some("Ready".to_string());
    label.labelled_by = vec![2];
    label.toggled = Some(Toggled::Mixed);
    label.busy = true;
    SemanticTree {
        nodes: vec![root, button, label],
        focus: 2,
        tree_id: "TreeId(0)".to_string(),
        tree: Some(TreeInfo {
            root: 1,
            toolkit_name: Some("egui".to_string()),
            toolkit_version: None,
        }),
    }
}

fn context() -> EguiCaptureContext {
    EguiCaptureContext::new(Viewport { width: m(100.0), height: m(50.0), scale_factor: m(1.0) })
        .with_frame(9)
}

#[test]
fn pascal_case_names_become_snake_case() {
    assert_eq!(pascal_to_snake("GenericContainer"), "generic_container");
    assert_eq!(pascal_to_snake("HTMLElement"), "html_element");
    assert_eq!(pascal_to_snake("TextInput"), "text_input");
    assert_eq!(pascal_to_snake("already_snake"), "already_snake");
    assert_eq!(pascal_to_snake(""), "");
}

#[test]
fn accessibility_roles_use_common_web_terms() {
    assert_eq!(role_name("GenericContainer"), "container");
    assert_eq!(role_name("Pane"), "panel");
    assert_eq!(role_name("TextInput"), "textbox");
    assert_eq!(role_name("CheckBox"), "checkbox");
    assert_eq!(role_name("RadioButton"), "radio");
    assert_eq!(role_name("RadioGroup"), "radiogroup");
    assert_eq!(role_name("ProgressIndicator"), "progress");
    assert_eq!(role_name("ScrollBar"), "scrollbar");
    assert_eq!(role_name("SpinButton"), "spinbutton");
    assert_eq!(role_name("Button"), "button");
}

#[test]
fn node_ids_carry_the_accesskit_prefix() {
    assert_eq!(node_id_string(0), "ak:0");
    assert_eq!(node_id_string(18446744073709551615), "ak:18446744073709551615");
}

#[test]
fn action_and_toggle_names_are_snake_case() {
    assert_eq!(NodeAction::SetSequentialFocusNavigationStartingPoint.name(), "set_sequential_focus_navigation_starting_point");
    assert_eq!(NodeAction::Click.name(), "click");
    assert_eq!(Toggled::Mixed.name(), "mixed");
}

#[test]
fn tree_update_becomes_a_sorted_canonical_witness() {
    let w = witness_from_egui_tree_update(&tree(), context());
    assert_eq!(w.viewwitness_version, "0.1");
    assert_eq!(w.capture.source, "egui");
    assert_eq!(w.capture.frame, Some(9));
    let ids: Vec<&str> = w.nodes.iter().map(|n| n.id.as_str()).collect();
    assert_eq!(ids, vec!["ak:1", "ak:10", "ak:2"]);

    let button = &w.nodes[2];
    assert_eq!(button.role, "button");
    assert_eq!(button.parent.as_deref(), Some("ak:1"));
    assert_eq!(button.name.as_deref(), Some("Apply"));
    assert_eq!(button.focused, Some(true));
    assert_eq!(button.enabled, Some(true));
    assert_eq!(button.visible, Some(true));
    assert_eq!(button.actions, vec!["click".to_string(), "focus".to_string()]);

    let label = &w.nodes[1];
    assert_eq!(label.role, "label");
    assert_eq!(label.name.as_deref(), Some("Ready"));
    assert_eq!(label.text.as_deref(), Some("Ready"));
    assert!(label.value.is_none());
    assert_eq!(label.focused, None);
    assert_eq!(label.enabled, None);
    let props: Vec<&str> = label.properties.iter().map(|e| e.key.as_str()).collect();
    assert_eq!(props, vec!["busy", "toggled"]);

    let root = &w.nodes[0];
    assert_eq!(root.parent, None);

    let rels: Vec<(&str, &str, &str)> =
        w.relations.iter().map(|r| (r.kind.as_str(), r.from.as_str(), r.to.as_str())).collect();
    assert_eq!(rels, vec![("controls", "ak:2", "ak:10"), ("labels", "ak:2", "ak:10")]);

    let keys: Vec<&str> = w.capture.metadata.iter().map(|e| e.key.as_str()).collect();
    assert_eq!(
        keys,
        vec!["accesskit_focus_id", "accesskit_root_id", "accesskit_tree_id", "semantic_source", "toolkit_name"]
    );
    assert!(w.validation_issues().is_empty());
}

#[test]
fn numeric_values_and_disabled_nodes_are_kept() {
    let mut slider = sem(5, "Slider");
    slider.numeric_value = Some(JsonValue::Number(JsonNumber::PosInt(3)));
    slider.value = Some("3".to_string());
    slider.disabled = true;
    slider.hidden = true;
    let t = SemanticTree { nodes: vec![slider], focus: 0, tree_id: "TreeId(0)".to_string(), tree: None };
    let w = witness_from_egui_tree_update(&t, context());
    let n = &w.nodes[0];
    assert_eq!(n.enabled, Some(false));
    assert_eq!(n.visible, Some(false));
    assert_eq!(json_string(n.value.as_ref().unwrap()), "3");
    assert!(to_agent_text(&w).contains("node id=\"ak:5\" role=\"slider\""));
}

#[test]
fn observed_viewport_is_used_only_when_usable() {
    let ok = viewport_from_observed_rect(&rect(0.0, 0.0, 100.0, 50.0), &m(2.0)).expect("usable");
    assert_eq!(ok.width.bits, 100.0f32.to_bits());
    assert_eq!(ok.scale_factor.bits, 2.0f32.to_bits());
    assert!(viewport_from_observed_rect(&rect(0.0, 0.0, 100.0, 50.0), &m(0.0)).is_none());
    assert!(viewport_from_observed_rect(&rect(0.0, 0.0, -1.0, 50.0), &m(1.0)).is_none());
    assert!(viewport_from_observed_rect(&rect(f32::NAN, 0.0, 1.0, 50.0), &m(1.0)).is_none());
}

fn evidence(accesskit: Option<SemanticTree>, width: f32) -> EguiFrameEvidence {
    EguiFrameEvidence {
        request_id: 7,
        viewport_id: 2,
        pass_nr: 9,
        pixels_per_point: m(1.0),
        viewport_rect: rect(0.0, 0.0, width, 50.0),
        accesskit,
        paint: Vec::new(),
        authored_objects: Vec::new(),
    }
}

#[test]
fn frame_evidence_becomes_a_correlated_capture() {
    let c = evidence(Some(tree()), 100.0).into_correlated_capture().expect("capture");
    assert_eq!(c.request_id, 7);
    assert_eq!(c.viewport_id, 2);
    assert_eq!(c.pass_nr, 9);
    assert_eq!(c.witness.capture.frame, Some(9));
    assert_eq!(c.witness.nodes.len(), 3);
}

#[test]
fn frame_evidence_without_tree_or_viewport_is_refused() {
    let e = evidence(None, 100.0).into_correlated_capture().unwrap_err();
    assert_eq!(e, CaptureError::MissingSemanticTree);
    assert_eq!(e.message(), "same-pass egui capture produced no AccessKit tree");
    let e = evidence(Some(tree()), f32::INFINITY).into_correlated_capture().unwrap_err();
    assert_eq!(e, CaptureError::InvalidViewport);
}

#[test]
fn one_request_at_a_time_with_increasing_ids() {
    let mut p = ProbeRequests::new();
    assert_eq!(p.request(), Ok(1));
    assert_eq!(p.request(), Err(RequestError::AlreadyPending));
    assert_eq!(p.on_response(ProbeResponse::Evidence(1)), ResponseAction::Deliver);
    assert_eq!(p.pending_request_id, None);
    assert_eq!(p.request(), Ok(2));
    let mut full = ProbeRequests { next_request_id: u64::MAX, pending_request_id: None };
    assert_eq!(full.request(), Err(RequestError::Exhausted));
}

#[test]
fn stale_evidence_is_discarded_and_future_evidence_fails() {
    let mut p = ProbeRequests::new();
    p.request().unwrap();
    assert_eq!(p.before_wait(0, true), Some(WaitFailure::TimedOut(1)));
    p.request().unwrap();
    assert_eq!(p.before_wait(0, false), None);
    assert_eq!(p.on_response(ProbeResponse::Timeout), ResponseAction::KeepWaiting);
    assert_eq!(p.on_response(ProbeResponse::Evidence(1)), ResponseAction::DiscardStale);
    assert_eq!(p.pending_request_id, Some(2));
    assert_eq!(
        p.on_response(ProbeResponse::Evidence(3)),
        ResponseAction::Fail(WaitFailure::Future(3, 2))
    );
    assert_eq!(p.on_response(ProbeResponse::Timeout), ResponseAction::Fail(WaitFailure::NotPending));
}

#[test]
fn dropped_marker_and_disconnect_end_the_request() {
    let mut p = ProbeRequests::new();
    p.request().unwrap();
    assert_eq!(p.before_wait(1, false), Some(WaitFailure::Dropped(1)));
    assert_eq!(p.before_wait(1, false), Some(WaitFailure::NotPending));
    p.request().unwrap();
    assert_eq!(p.on_response(ProbeResponse::Disconnected), ResponseAction::Fail(WaitFailure::Disconnected));
    assert_eq!(p.pending_request_id, None);
}

#[test]
fn accesskit_translation_preserves_structure_semantics_and_actions() {
    let mut root = sem(1, "Window");
    root.label = Some("Inspector".to_string());
    root.children = vec![2, 3, 4];
    let mut label = sem(2, "Label");
    label.value = Some("Name".to_string());
    label.bounds = Some(rect(12.0, 12.0, 60.0, 20.0));
    let mut field = sem(3, "TextInput");
    field.value = Some("Cube".to_string());
    field.labelled_by = vec![2];
    field.actions = vec![NodeAction::Focus, NodeAction::SetValue];
    field.bounds = Some(rect(80.0, 8.0, 160.0, 28.0));
    let mut button = sem(4, "Button");
    button.label = Some("Apply".to_string());
    button.disabled = true;
    button.actions = vec![NodeAction::Click];
    button.bounds = Some(rect(160.0, 48.0, 80.0, 30.0));
    let update = SemanticTree {
        nodes: vec![root, field, button, label],
        focus: 3,
        tree_id: format!("{:?}", egui::accesskit::TreeId::ROOT),
        tree: Some(TreeInfo { root: 1, toolkit_name: None, toolkit_version: None }),
    };
    let witness = witness_from_egui_tree_update(
        &update,
        EguiCaptureContext::new(Viewport { width: m(320.0), height: m(200.0), scale_factor: m(1.0) })
            .with_frame(7),
    );

    assert!(witness.validation_issues().is_empty());
    assert_eq!(witness.capture.source, "egui");
    assert_eq!(witness.capture.frame, Some(7));
    assert_eq!(witness.nodes.len(), 4);

    let label = witness.nodes.iter().find(|n| n.id == "ak:2").expect("label converted");
    assert_eq!(label.role, "label");
    assert_eq!(label.name.as_deref(), Some("Name"));
    assert_eq!(label.text.as_deref(), Some("Name"));
    assert_eq!(label.parent.as_deref(), Some("ak:1"));

    let field = witness.nodes.iter().find(|n| n.id == "ak:3").expect("field converted");
    assert_eq!(field.role, "textbox");
    assert_eq!(json_string(field.value.as_ref().unwrap()), "\"Cube\"");
    assert_eq!(field.focused, Some(true));
    assert!(field.actions.iter().any(|a| a == "set_value"));

    let button = witness.nodes.iter().find(|n| n.id == "ak:4").expect("button converted");
    assert_eq!(button.role, "button");
    assert_eq!(button.name.as_deref(), Some("Apply"));
    assert_eq!(button.enabled, Some(false));
    assert!(button.actions.iter().any(|a| a == "click"));
    let identity = button.identity.as_ref().expect("identity evidence attached");
    assert_eq!(identity.provenance, "accesskit_node_id");
    assert_eq!(identity.stability, "structure_sensitive");

    assert!(witness.relations.iter().any(|r| {
        r.kind == "labels" && r.from == "ak:2" && r.to == "ak:3" && r.evidence == "observed"
    }));
}

#[test]
fn author_ids_become_identity_evidence() {
    let mut apply = sem(7, "Button");
    apply.label = Some("Apply".to_string());
    apply.author_id = Some("apply".to_string());
    let t = SemanticTree { nodes: vec![apply], focus: 0, tree_id: "TreeId(0)".to_string(), tree: None };
    let w = witness_from_egui_tree_update(&t, context());
    let identity = w.nodes[0].identity.as_ref().expect("identity");
    assert_eq!(identity.author_id.as_deref(), Some("apply"));
    let keys: Vec<&str> = w.nodes[0].properties.iter().map(|e| e.key.as_str()).collect();
    assert_eq!(keys, vec!["author_id"]);
}

#[test]
fn frame_evidence_metadata_holds_provenance_in_key_order() {
    let c = evidence(Some(tree()), 100.0).into_correlated_capture().expect("capture");
    let meta = &c.witness.capture.metadata;
    let keys: Vec<&str> = meta.iter().map(|e| e.key.as_str()).collect();
    let mut sorted = keys.clone();
    sorted.sort();
    sorted.dedup();
    assert_eq!(keys, sorted);
    let get = |k: &str| meta.iter().find(|e| e.key == k).map(|e| json_string(&e.value));
    assert_eq!(get("semantic_paint_correlation").as_deref(), Some("\"same_full_output\""));
    assert_eq!(get("frame_probe_request_id").as_deref(), Some("7"));
    assert_eq!(get("egui_pass_nr").as_deref(), Some("9"));
    assert_eq!(get("semantic_source").as_deref(), Some("\"accesskit\""));
    assert_eq!(get("authored_paint_evidence"), None);
    assert!(c.witness.validation_issues().is_empty());
}
