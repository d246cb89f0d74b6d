use viewwitness::text::LineText;
use viewwitness::agent_text::{diff_to_agent_text, to_agent_text};
use viewwitness::diff::{diff_witnesses, FieldChange, NodeChange, WitnessDiff};
use viewwitness::json::{json_string, JsonEntry, JsonNumber, JsonValue};
use viewwitness::semantic::map_set;
use viewwitness::model::{Capture, Measure, Node, NodeIdentity, Rect, Relation, Viewport, Witness};

fn line(s: String) -> LineText {
    LineText::new(s).expect("a number text holds no line break")
}

fn m(v: f32) -> Measure {
    Measure {
        bits: v.to_bits(),
        display: line(format!("{}", v)),
        json: line(serde_json::to_string(&serde_json::Value::from(v)).unwrap()),
    }
}

fn rect(x: f32, y: f32, w: f32, h: f32) -> Rect {
    Rect { x: m(x), y: m(y), width: m(w), height: m(h) }
}

fn viewport(w: f32, h: f32, s: f32) -> Viewport {
    Viewport { width: m(w), height: m(h), scale_factor: m(s) }
}

fn node(id: &str, role: &str) -> Node {
    Node {
        id: id.to_string(),
        role: role.to_string(),
        parent: None,
        identity: None,
        name: None,
        bounds: None,
        visible: None,
        enabled: None,
        focused: None,
        selected: None,
        text: None,
        value: None,
        actions: Vec::new(),
        properties: Vec::new(),
    }
}

fn relation(kind: &str, from: &str, to: &str) -> Relation {
    Relation {
        kind: kind.to_string(),
        from: from.to_string(),
        to: to.to_string(),
        evidence: "observed".to_string(),
        properties: Vec::new(),
    }
}

fn witness(frame: Option<u64>, nodes: Vec<Node>, relations: Vec<Relation>) -> Witness {
    Witness {
        viewwitness_version: "0.1".to_string(),
        capture: Capture {
            source: "synthetic".to_string(),
            frame,
            viewport: viewport(200.0, 100.0, 1.0),
            metadata: Vec::new(),
        },
        nodes,
        relations,
    }
}

fn entry(key: &str, value: JsonValue) -> JsonEntry {
    JsonEntry { key: key.to_string(), value }
}

fn field<'a>(change: &'a NodeChange, name: &str) -> Option<&'a FieldChange> {
    change.fields.iter().find(|(k, _)| k == name).map(|(_, v)| v)
}

fn changed<'a>(diff: &'a WitnessDiff, id: &str) -> &'a NodeChange {
    diff.nodes_changed.iter().find(|c| c.id == id).expect("node change")
}

fn fixture() -> Witness {
    let mut root = node("a-root", "window");
    root.name = Some("Main".to_string());
    root.bounds = Some(rect(0.0, 0.0, 200.0, 100.0));
    root.visible = Some(true);
    let mut save = node("b-save", "button");
    save.parent = Some("a-root".to_string());
    save.identity = Some(NodeIdentity {
        provenance: "test".to_string(),
        stability: "authored".to_string(),
        author_id: Some("save".to_string()),
    });
    save.name = Some("Save now".to_string());
    save.bounds = Some(rect(10.0, 10.0, 80.0, 24.0));
    save.visible = Some(true);
    save.enabled = Some(false);
    save.focused = Some(false);
    save.actions = vec!["click".to_string()];
    save.properties = vec![entry("busy", JsonValue::Bool(true))];
    let mut w = witness(Some(7), vec![save, root], vec![relation("controls", "a-root", "b-save")]);
    let mut metadata = Vec::new();
    map_set(&mut metadata, "z".to_string(), JsonValue::Number(JsonNumber::PosInt(2)));
    map_set(&mut metadata, "a".to_string(), JsonValue::String("x".to_string()));
    w.capture.metadata = metadata;
    w
}

#[test]
fn witness_agent_text_is_compact_deterministic_and_complete() {
    assert_eq!(
        to_agent_text(&fixture()),
        [
            "view version=\"0.1\" source=\"synthetic\" viewport=[200,100,1] frame=7\n",
            "meta {\"a\":\"x\",\"z\":2}\n",
            "node id=\"a-root\" role=\"window\" name=\"Main\" bounds=[0,0,200,100] visible=true\n",
            "node id=\"b-save\" role=\"button\" parent=\"a-root\" identity={\"provenance\":\"test\",\"stability\":\"authored\",\"author_id\":\"save\"} name=\"Save now\" bounds=[10,10,80,24] visible=true enabled=false focused=false actions=[\"click\"] props={\"busy\":true}\n",
            "relation kind=\"controls\" from=\"a-root\" to=\"b-save\" evidence=\"observed\"\n",
        ].concat()
    );
}

#[test]
fn agent_text_does_not_depend_on_node_vector_order() {
    let a = fixture();
    let mut b = fixture();
    b.nodes.reverse();
    assert_eq!(to_agent_text(&a), to_agent_text(&b));
}

#[test]
fn agent_text_without_frame_or_metadata_has_header_only() {
    let w = witness(None, Vec::new(), Vec::new());
    assert_eq!(to_agent_text(&w), "view version=\"0.1\" source=\"synthetic\" viewport=[200,100,1]\n");
}

#[test]
fn agent_text_quotes_strings_as_json() {
    let mut n = node("q", "label");
    n.name = Some("say \"hi\"\n".to_string());
    let w = witness(None, vec![n], Vec::new());
    assert!(to_agent_text(&w).contains("name=\"say \\\"hi\\\"\\n\""));
}

#[test]
fn diff_agent_text_reports_only_material_transition_lines() {
    let root = node("root", "window");
    let mut export = node("export", "button");
    export.parent = Some("root".to_string());
    export.name = Some("Export".to_string());
    export.enabled = Some(true);
    export.actions = vec!["click".to_string()];
    let before = witness(Some(1), vec![root, export], Vec::new());

    let root = node("root", "window");
    let mut export = node("export", "button");
    export.parent = Some("root".to_string());
    export.name = Some("Export".to_string());
    export.enabled = Some(false);
    let mut status = node("status", "status");
    status.parent = Some("root".to_string());
    status.name = Some("Exporting".to_string());
    let after = witness(
        Some(2),
        vec![root, export, status],
        vec![relation("describes", "status", "export")],
    );

    let diff = diff_witnesses(&before, &after);
    assert_eq!(
        diff_to_agent_text(&diff),
        [
            "diff before_frame=1 after_frame=2\n",
            "+node id=\"status\" role=\"status\" parent=\"root\" name=\"Exporting\"\n",
            "change node=\"export\" field=\"actions\" before=[\"click\"] after=[]\n",
            "change node=\"export\" field=\"enabled\" before=true after=false\n",
            "+relation kind=\"describes\" from=\"status\" to=\"export\" evidence=\"observed\"\n",
        ].concat()
    );
}

#[test]
fn inspector_resize_is_field_change_not_identity_churn() {
    let mut preview = node("preview", "image");
    preview.bounds = Some(rect(0.0, 0.0, 120.0, 80.0));
    let mut inspector = node("inspector", "panel");
    inspector.bounds = Some(rect(120.0, 0.0, 80.0, 80.0));
    let before = witness(Some(500), vec![preview, inspector], Vec::new());

    let mut preview = node("preview", "image");
    preview.bounds = Some(rect(0.0, 0.0, 100.0, 80.0));
    let mut inspector = node("inspector", "panel");
    inspector.bounds = Some(rect(100.0, 0.0, 100.0, 80.0));
    let after = witness(Some(501), vec![inspector, preview], Vec::new());

    let diff = diff_witnesses(&before, &after);
    assert_eq!(diff.before_frame, Some(500));
    assert_eq!(diff.after_frame, Some(501));
    assert!(diff.nodes_added.is_empty());
    assert!(diff.nodes_removed.is_empty());
    assert!(diff.relations_added.is_empty());
    assert!(diff.relations_removed.is_empty());
    let ids: Vec<&str> = diff.nodes_changed.iter().map(|c| c.id.as_str()).collect();
    assert_eq!(ids, vec!["inspector", "preview"]);
    let p = changed(&diff, "preview");
    assert_eq!(p.fields.len(), 1);
    let bounds = field(p, "bounds").expect("bounds change");
    assert_eq!(json_string(&bounds.before), "{\"height\":80.0,\"width\":120.0,\"x\":0.0,\"y\":0.0}");
    assert_eq!(json_string(&bounds.after), "{\"height\":80.0,\"width\":100.0,\"x\":0.0,\"y\":0.0}");
    assert_eq!(changed(&diff, "inspector").fields.len(), 1);
}

#[test]
fn opening_context_menu_reports_only_new_transient_structure() {
    let target = node("object-7", "button");
    let before = witness(Some(1), vec![node("object-7", "button")], Vec::new());
    let after = witness(
        Some(2),
        vec![target, node("object-menu", "menu"), node("duplicate", "menu_item"), node("delete", "menu_item")],
        vec![relation("controls", "object-menu", "object-7")],
    );
    let diff = diff_witnesses(&before, &after);
    let added: Vec<&str> = diff.nodes_added.iter().map(|n| n.id.as_str()).collect();
    assert_eq!(added, vec!["delete", "duplicate", "object-menu"]);
    assert!(diff.nodes_removed.is_empty());
    assert!(diff.nodes_changed.is_empty());
    assert_eq!(diff.relations_added.len(), 1);
    assert_eq!(diff.relations_added[0].kind, "controls");
    assert_eq!(diff.relations_added[0].from, "object-menu");
    assert_eq!(diff.relations_added[0].to, "object-7");
    assert!(diff.relations_removed.is_empty());
    assert!(!diff.is_empty());
}

#[test]
fn removed_nodes_and_relations_are_reported() {
    let before = witness(
        Some(1),
        vec![node("a", "window"), node("b", "button")],
        vec![relation("controls", "a", "b")],
    );
    let after = witness(Some(1), vec![node("a", "window")], Vec::new());
    let diff = diff_witnesses(&before, &after);
    assert_eq!(diff.nodes_removed.len(), 1);
    assert_eq!(diff.nodes_removed[0].id, "b");
    assert_eq!(diff.relations_removed.len(), 1);
    let text = diff_to_agent_text(&diff);
    assert!(text.contains("-node id=\"b\" role=\"button\"\n"));
    assert!(text.contains("-relation kind=\"controls\" from=\"a\" to=\"b\" evidence=\"observed\"\n"));
}

#[test]
fn frame_number_alone_is_not_a_material_diff() {
    let before = fixture();
    let mut after = fixture();
    after.capture.frame = Some(8);
    let diff = diff_witnesses(&before, &after);
    assert!(diff.is_empty());
    assert_ne!(diff.before_frame, diff.after_frame);
    assert_eq!(diff_to_agent_text(&diff), "diff before_frame=7 after_frame=8\n");
}

#[test]
fn identical_witnesses_have_an_empty_diff() {
    let diff = diff_witnesses(&fixture(), &fixture());
    assert!(diff.is_empty());
}

#[test]
fn viewport_and_version_changes_are_material() {
    let before = fixture();
    let mut after = fixture();
    after.viewwitness_version = "0.2".to_string();
    after.capture.viewport = viewport(300.0, 100.0, 2.0);
    let diff = diff_witnesses(&before, &after);
    assert!(!diff.is_empty());
    let version = diff.version_change.as_ref().expect("version change");
    assert_eq!(json_string(&version.before), "\"0.1\"");
    assert_eq!(json_string(&version.after), "\"0.2\"");
    assert!(diff.viewport_change.is_some());
    let text = diff_to_agent_text(&diff);
    assert!(text.contains("viewport"));
}

#[test]
fn bounds_compare_by_their_json_form() {
    let mut a = node("n", "image");
    a.bounds = Some(rect(f32::NAN, 0.0, 1.0, 1.0));
    let before = witness(Some(1), vec![a], Vec::new());
    let mut b = node("n", "image");
    b.bounds = Some(rect(f32::INFINITY, 0.0, 1.0, 1.0));
    let after = witness(Some(1), vec![b], Vec::new());
    // Non-finite quantities both serialize as null.
    assert!(diff_witnesses(&before, &after).is_empty());
    let mut c = node("n", "image");
    c.bounds = Some(rect(2.0, 0.0, 1.0, 1.0));
    let changed_after = witness(Some(1), vec![c], Vec::new());
    let diff = diff_witnesses(&before, &changed_after);
    assert_eq!(diff.nodes_changed.len(), 1);
    let bounds = field(&diff.nodes_changed[0], "bounds").expect("bounds");
    assert_eq!(json_string(&bounds.before), "{\"height\":1.0,\"width\":1.0,\"x\":null,\"y\":0.0}");
    assert_eq!(json_string(&bounds.after), "{\"height\":1.0,\"width\":1.0,\"x\":2.0,\"y\":0.0}");
}

#[test]
fn validation_accepts_a_well_formed_witness() {
    assert!(fixture().validation_issues().is_empty());
}

#[test]
fn validation_reports_each_problem_in_order() {
    let mut dup = node("x", " ");
    dup.parent = Some("ghost".to_string());
    dup.bounds = Some(rect(0.0, 0.0, -1.0, f32::INFINITY));
    let mut w = witness(
        None,
        vec![node("x", "button"), dup, node("", "label")],
        vec![Relation {
            kind: "points".to_string(),
            from: "x".to_string(),
            to: "nowhere".to_string(),
            evidence: "guessed".to_string(),
            properties: Vec::new(),
        }],
    );
    w.viewwitness_version = "  ".to_string();
    w.capture.viewport = viewport(-1.0, 10.0, 0.0);
    assert_eq!(
        w.validation_issues(),
        vec![
            "viewwitness_version must not be empty".to_string(),
            "viewport dimensions must be non-negative".to_string(),
            "viewport scale_factor must be positive".to_string(),
            "duplicate node id: x".to_string(),
            "node x role must not be empty".to_string(),
            "node x has non-finite bounds".to_string(),
            "node x has negative bounds".to_string(),
            "node id must not be empty".to_string(),
            "node x references missing parent ghost".to_string(),
            "relation points references missing target nowhere".to_string(),
            "relation points has unknown evidence kind guessed".to_string(),
        ]
    );
}

#[test]
fn validation_reports_non_finite_viewport_and_empty_source() {
    let mut w = witness(None, Vec::new(), Vec::new());
    w.capture.source = String::new();
    w.capture.viewport = viewport(f32::NAN, 1.0, 1.0);
    assert_eq!(
        w.validation_issues(),
        vec![
            "capture source must not be empty".to_string(),
            "viewport geometry must be finite".to_string(),
        ]
    );
}

#[test]
fn validation_reports_blank_identity_fields() {
    let mut n = node("n", "button");
    n.identity = Some(NodeIdentity {
        provenance: " ".to_string(),
        stability: String::new(),
        author_id: Some("\t".to_string()),
    });
    let w = witness(None, vec![n], vec![relation("", "n", "n")]);
    assert_eq!(
        w.validation_issues(),
        vec![
            "node n identity provenance must not be empty".to_string(),
            "node n identity stability must not be empty".to_string(),
            "node n identity author_id must not be empty".to_string(),
            "relation kind must not be empty".to_string(),
        ]
    );
}

#[test]
fn agent_text_does_not_depend_on_relation_vector_order() {
    let mut a = fixture();
    a.relations.push(relation("describes", "b-save", "a-root"));
    let mut b = fixture();
    b.relations.insert(0, relation("describes", "b-save", "a-root"));
    assert_eq!(to_agent_text(&a), to_agent_text(&b));
    assert!(to_agent_text(&a).ends_with(
        "relation kind=\"controls\" from=\"a-root\" to=\"b-save\" evidence=\"observed\"\nrelation kind=\"describes\" from=\"b-save\" to=\"a-root\" evidence=\"observed\"\n"
    ));
}

#[test]
fn busy_transition_is_compact_and_preserves_button_identity() {
    let root = node("root", "window");
    let mut export = node("export", "button");
    export.parent = Some("root".to_string());
    export.enabled = Some(true);
    export.actions = vec!["click".to_string()];
    let before = witness(Some(1), vec![root, export], Vec::new());

    let root = node("root", "window");
    let mut export = node("export", "button");
    export.parent = Some("root".to_string());
    export.enabled = Some(false);
    let mut status = node("export-status", "status");
    status.parent = Some("root".to_string());
    let mut progress = node("export-progress", "progress");
    progress.parent = Some("root".to_string());
    let after = witness(
        Some(2),
        vec![root, export, status, progress],
        vec![relation("describes", "export-status", "export")],
    );

    let diff = diff_witnesses(&before, &after);
    let added: Vec<&str> = diff.nodes_added.iter().map(|n| n.id.as_str()).collect();
    assert_eq!(added, vec!["export-progress", "export-status"]);
    assert!(diff.nodes_removed.is_empty());
    let export = changed(&diff, "export");
    assert_eq!(export.fields.len(), 2);
    assert!(field(export, "enabled").is_some());
    assert!(field(export, "actions").is_some());
    assert_eq!(diff.relations_added.len(), 1);
    assert_eq!(diff.relations_added[0].kind, "describes");
    assert!(diff.relations_removed.is_empty());
}

#[test]
fn agent_text_has_one_line_per_item() {
    let w = fixture();
    let text = to_agent_text(&w);
    assert!(text.ends_with('\n'));
    assert_eq!(text.lines().count(), 1 + 1 + w.nodes.len() + w.relations.len());
    let bare = witness(None, vec![node("only", "label")], Vec::new());
    let text = to_agent_text(&bare);
    assert!(text.ends_with('\n'));
    assert_eq!(text.lines().count(), 2);
}
