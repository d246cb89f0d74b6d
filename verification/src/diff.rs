//! Field-level change records shared by the semantic and the authored-paint
//! diffs, and the JSON projections of observed quantities they carry.
use vstd::prelude::*;

use crate::ieee::{f32_eq, f32_is_finite, f32_widened, eq32, is_finite32, widen32};
use crate::json::{
    JsonEntry, JsonNumber, JsonV, JsonValue, NumberV, entry_views, json_eq, json_equal,
    json_string, json_text, json_view, json_views, lemma_entry_views, lemma_json_views,
};
use crate::model::{
    Measure, MeasureV, Node, NodeIdentity, NodeIdentityV, NodeV, Rect, RectV, Relation, RelationV,
    Viewport, ViewportV, Witness, WitnessV, copy_members, json_opt_view, rect_opt_view,
    str_opt_view, strings_view,
};
use crate::text::{
    chars_of, chars_views, copy_chars, find_last, is_sorted_listing, key_set, last_index_of,
    lemma_last_index_of, lemma_listing_member, owned, sorted_listing, sorted_unique,
};

verus! {

broadcast use vstd::string::group_string_axioms;

/// The JSON values of one field before and after a transition.
#[derive(Debug)]
pub struct FieldChange {
    pub before: JsonValue,
    pub after: JsonValue,
}

pub ghost struct FieldChangeV {
    pub before: JsonV,
    pub after: JsonV,
}

impl View for FieldChange {
    type V = FieldChangeV;

    open spec fn view(&self) -> FieldChangeV {
        FieldChangeV { before: self.before@, after: self.after@ }
    }
}

/// Changed fields by name, in ascending field-name order.
pub open spec fn fields_view(f: Seq<(String, FieldChange)>) -> Seq<(Seq<char>, FieldChangeV)> {
    f.map_values(|p: (String, FieldChange)| (p.0@, p.1@))
}

/// A one-entry change list when `differs`, else the empty list.
pub open spec fn change_if(differs: bool, field: Seq<char>, before: JsonV, after: JsonV) -> Seq<
    (Seq<char>, FieldChangeV),
> {
    if differs {
        seq![(field, FieldChangeV { before, after })]
    } else {
        Seq::empty()
    }
}

/// Append `(field, before → after)` when `differs`.
pub fn push_change_if(
    fields: &mut Vec<(String, FieldChange)>,
    differs: bool,
    field: &str,
    before: JsonValue,
    after: JsonValue,
)
    ensures
        fields_view(final(fields)@) == fields_view(old(fields)@) + change_if(
            differs,
            field@,
            before@,
            after@,
        ),
{
    if differs {
        fields.push((owned(field), FieldChange { before, after }));
    }
    assert(fields_view(fields@) =~= fields_view(old(fields)@) + change_if(
        differs,
        field@,
        before@,
        after@,
    ));
}

// ---------------------------------------------------------------------------
// JSON projections of observed quantities (as serde_json represents them).
// ---------------------------------------------------------------------------

/// A binary32 quantity as a JSON value: its exact binary64 widening, or
/// `null` when it is not finite.
pub open spec fn measure_json(m: MeasureV) -> JsonV {
    if f32_is_finite(m.bits) {
        JsonV::Number(NumberV::Float(f32_widened(m.bits), m.json))
    } else {
        JsonV::Null
    }
}

/// A rectangle as a JSON object (members in key order).
pub open spec fn rect_json(r: RectV) -> JsonV {
    JsonV::Object(
        seq![
            ("height"@, measure_json(r.height)),
            ("width"@, measure_json(r.width)),
            ("x"@, measure_json(r.x)),
            ("y"@, measure_json(r.y)),
        ],
    )
}

pub open spec fn rect_opt_json(r: Option<RectV>) -> JsonV {
    match r {
        Some(r) => rect_json(r),
        None => JsonV::Null,
    }
}

pub open spec fn str_opt_json(s: Option<Seq<char>>) -> JsonV {
    match s {
        Some(s) => JsonV::Str(s),
        None => JsonV::Null,
    }
}

/// `==` of two rectangles: coordinate-wise binary32 equality.
pub open spec fn rect_eq(a: RectV, b: RectV) -> bool {
    f32_eq(a.x.bits, b.x.bits) && f32_eq(a.y.bits, b.y.bits) && f32_eq(a.width.bits, b.width.bits)
        && f32_eq(a.height.bits, b.height.bits)
}

pub open spec fn rect_opt_eq(a: Option<RectV>, b: Option<RectV>) -> bool {
    match (a, b) {
        (Some(a), Some(b)) => rect_eq(a, b),
        (None, None) => true,
        _ => false,
    }
}

pub fn measure_to_json(m: &Measure) -> (r: JsonValue)
    ensures
        r@ == measure_json(m@),
{
    if is_finite32(m.bits) {
        JsonValue::Number(JsonNumber::Float { bits: widen32(m.bits), text: m.json.copy() })
    } else {
        JsonValue::Null
    }
}

pub fn rect_to_json(r: &Rect) -> (j: JsonValue)
    ensures
        j@ == rect_json(r@),
{
    broadcast use lemma_entry_views;

    let mut members: Vec<JsonEntry> = Vec::new();
    members.push(JsonEntry { key: owned("height"), value: measure_to_json(&r.height) });
    members.push(JsonEntry { key: owned("width"), value: measure_to_json(&r.width) });
    members.push(JsonEntry { key: owned("x"), value: measure_to_json(&r.x) });
    members.push(JsonEntry { key: owned("y"), value: measure_to_json(&r.y) });
    proof {
        lemma_entry_views(members@);
    }
    let j = JsonValue::Object(members);
    assert(entry_views(members@) =~= seq![
        ("height"@, measure_json(r.height@)),
        ("width"@, measure_json(r.width@)),
        ("x"@, measure_json(r.x@)),
        ("y"@, measure_json(r.y@)),
    ]);
    j
}

pub fn rect_opt_to_json(r: &Option<Rect>) -> (j: JsonValue)
    ensures
        j@ == rect_opt_json(crate::model::rect_opt_view(*r)),
{
    match r {
        Some(r) => rect_to_json(r),
        None => JsonValue::Null,
    }
}

pub fn str_opt_to_json(s: &Option<String>) -> (j: JsonValue)
    ensures
        j@ == str_opt_json(str_opt_view(*s)),
{
    match s {
        Some(s) => JsonValue::String(s.clone()),
        None => JsonValue::Null,
    }
}

pub fn rect_equal(a: &Rect, b: &Rect) -> (r: bool)
    ensures
        r == rect_eq(a@, b@),
{
    eq32(a.x.bits, b.x.bits) && eq32(a.y.bits, b.y.bits) && eq32(a.width.bits, b.width.bits)
        && eq32(a.height.bits, b.height.bits)
}

pub fn rect_opt_equal(a: &Option<Rect>, b: &Option<Rect>) -> (r: bool)
    ensures
        r == rect_opt_eq(crate::model::rect_opt_view(*a), crate::model::rect_opt_view(*b)),
{
    match (a, b) {
        (Some(a), Some(b)) => rect_equal(a, b),
        (None, None) => true,
        _ => false,
    }
}

pub fn str_opt_equal(a: &Option<String>, b: &Option<String>) -> (r: bool)
    ensures
        r == (str_opt_view(*a) == str_opt_view(*b)),
{
    match (a, b) {
        (Some(a), Some(b)) => *a == *b,
        (None, None) => true,
        _ => false,
    }
}

// ---------------------------------------------------------------------------
// Node fields as JSON (as serde_json represents a serialized node).
// ---------------------------------------------------------------------------

pub open spec fn bool_opt_json(b: Option<bool>) -> JsonV {
    match b {
        Some(b) => JsonV::Bool(b),
        None => JsonV::Null,
    }
}

pub open spec fn identity_json(i: Option<NodeIdentityV>) -> JsonV {
    match i {
        None => JsonV::Null,
        Some(i) => JsonV::Object(
            match i.author_id {
                Some(a) => seq![("author_id"@, JsonV::Str(a))],
                None => Seq::empty(),
            } + seq![("provenance"@, JsonV::Str(i.provenance)), ("stability"@, JsonV::Str(i.stability))],
        ),
    }
}

pub open spec fn strings_json(v: Seq<Seq<char>>) -> JsonV {
    JsonV::Array(v.map_values(|s: Seq<char>| JsonV::Str(s)))
}

pub open spec fn json_opt_json(v: Option<JsonV>) -> JsonV {
    match v {
        Some(v) => v,
        None => JsonV::Null,
    }
}

/// One named field change when the JSON values differ.
pub open spec fn change_unless_equal(field: Seq<char>, before: JsonV, after: JsonV) -> Seq<
    (Seq<char>, FieldChangeV),
> {
    change_if(!json_eq(before, after), field, before, after)
}

/// The fields of two nodes whose JSON values differ, in field-name order
/// (the node ID is not a field of the comparison).
pub open spec fn node_change_fields(b: NodeV, a: NodeV) -> Seq<(Seq<char>, FieldChangeV)> {
    change_unless_equal("actions"@, strings_json(b.actions), strings_json(a.actions))
        + change_unless_equal("bounds"@, rect_opt_json(b.bounds), rect_opt_json(a.bounds))
        + change_unless_equal("enabled"@, bool_opt_json(b.enabled), bool_opt_json(a.enabled))
        + change_unless_equal("focused"@, bool_opt_json(b.focused), bool_opt_json(a.focused))
        + change_unless_equal("identity"@, identity_json(b.identity), identity_json(a.identity))
        + change_unless_equal("name"@, str_opt_json(b.name), str_opt_json(a.name))
        + change_unless_equal("parent"@, str_opt_json(b.parent), str_opt_json(a.parent))
        + change_unless_equal("properties"@, JsonV::Object(b.properties), JsonV::Object(a.properties))
        + change_unless_equal("role"@, JsonV::Str(b.role), JsonV::Str(a.role))
        + change_unless_equal("selected"@, bool_opt_json(b.selected), bool_opt_json(a.selected))
        + change_unless_equal("text"@, str_opt_json(b.text), str_opt_json(a.text))
        + change_unless_equal("value"@, json_opt_json(b.value), json_opt_json(a.value))
        + change_unless_equal("visible"@, bool_opt_json(b.visible), bool_opt_json(a.visible))
}

fn bool_opt_to_json(b: Option<bool>) -> (j: JsonValue)
    ensures
        j@ == bool_opt_json(b),
{
    match b {
        Some(b) => JsonValue::Bool(b),
        None => JsonValue::Null,
    }
}

fn identity_to_json(i: &Option<NodeIdentity>) -> (j: JsonValue)
    ensures
        j@ == identity_json(crate::model::identity_opt_view(*i)),
{
    broadcast use lemma_entry_views;

    match i {
        None => JsonValue::Null,
        Some(i) => {
            let mut members: Vec<JsonEntry> = Vec::new();
            match &i.author_id {
                Some(a) => {
                    members.push(JsonEntry { key: owned("author_id"), value: JsonValue::String(a.clone()) });
                },
                None => {},
            }
            members.push(JsonEntry { key: owned("provenance"), value: JsonValue::String(i.provenance.clone()) });
            members.push(JsonEntry { key: owned("stability"), value: JsonValue::String(i.stability.clone()) });
            proof {
                lemma_entry_views(members@);
            }
            let j = JsonValue::Object(members);
            assert(entry_views(members@) =~= match i@.author_id {
                Some(a) => seq![("author_id"@, JsonV::Str(a))],
                None => Seq::<(Seq<char>, JsonV)>::empty(),
            } + seq![("provenance"@, JsonV::Str(i@.provenance)), ("stability"@, JsonV::Str(i@.stability))]);
            j
        },
    }
}

pub fn strings_to_json(v: &Vec<String>) -> (j: JsonValue)
    ensures
        j@ == strings_json(strings_view(v@)),
{
    broadcast use lemma_json_views;

    let mut items: Vec<JsonValue> = Vec::new();
    let mut i: usize = 0;
    while i < v.len()
        invariant
            i <= v.len(),
            items.len() == i,
            forall|k: int| 0 <= k < i ==> (#[trigger] items@[k])@ == JsonV::Str(v@[k]@),
        decreases v.len() - i,
    {
        items.push(JsonValue::String(v[i].clone()));
        i = i + 1;
    }
    proof {
        lemma_json_views(items@);
    }
    let j = JsonValue::Array(items);
    assert(json_views(items@) =~= strings_view(v@).map_values(|s: Seq<char>| JsonV::Str(s)));
    j
}

fn json_opt_to_json(v: &Option<JsonValue>) -> (j: JsonValue)
    ensures
        j@ == json_opt_json(json_opt_view(*v)),
{
    match v {
        Some(v) => v.copy(),
        None => JsonValue::Null,
    }
}

fn push_change_unless_equal(
    fields: &mut Vec<(String, FieldChange)>,
    field: &str,
    before: JsonValue,
    after: JsonValue,
)
    ensures
        fields_view(final(fields)@) == fields_view(old(fields)@) + change_unless_equal(
            field@,
            before@,
            after@,
        ),
{
    let same = json_equal(&before, &after);
    push_change_if(fields, !same, field, before, after);
}

/// The field-by-field JSON differences of two nodes.
pub fn node_change_list(before: &Node, after: &Node) -> (fields: Vec<(String, FieldChange)>)
    ensures
        fields_view(fields@) == node_change_fields(before@, after@),
{
    let mut f: Vec<(String, FieldChange)> = Vec::new();
    push_change_unless_equal(&mut f, "actions", strings_to_json(&before.actions), strings_to_json(&after.actions));
    push_change_unless_equal(&mut f, "bounds", rect_opt_to_json(&before.bounds), rect_opt_to_json(&after.bounds));
    push_change_unless_equal(&mut f, "enabled", bool_opt_to_json(before.enabled), bool_opt_to_json(after.enabled));
    push_change_unless_equal(&mut f, "focused", bool_opt_to_json(before.focused), bool_opt_to_json(after.focused));
    push_change_unless_equal(&mut f, "identity", identity_to_json(&before.identity), identity_to_json(&after.identity));
    push_change_unless_equal(&mut f, "name", str_opt_to_json(&before.name), str_opt_to_json(&after.name));
    push_change_unless_equal(&mut f, "parent", str_opt_to_json(&before.parent), str_opt_to_json(&after.parent));
    push_change_unless_equal(
        &mut f,
        "properties",
        JsonValue::Object(copy_members(&before.properties)),
        JsonValue::Object(copy_members(&after.properties)),
    );
    push_change_unless_equal(&mut f, "role", JsonValue::String(before.role.clone()), JsonValue::String(after.role.clone()));
    push_change_unless_equal(&mut f, "selected", bool_opt_to_json(before.selected), bool_opt_to_json(after.selected));
    push_change_unless_equal(&mut f, "text", str_opt_to_json(&before.text), str_opt_to_json(&after.text));
    push_change_unless_equal(&mut f, "value", json_opt_to_json(&before.value), json_opt_to_json(&after.value));
    push_change_unless_equal(&mut f, "visible", bool_opt_to_json(before.visible), bool_opt_to_json(after.visible));
    assert(fields_view(f@) =~= node_change_fields(before@, after@));
    f
}

// ---------------------------------------------------------------------------
// The semantic witness diff.
// ---------------------------------------------------------------------------

/// Field changes of one node present on both sides.
#[derive(Debug)]
pub struct NodeChange {
    pub id: String,
    pub fields: Vec<(String, FieldChange)>,
}

pub ghost struct NodeChangeV {
    pub id: Seq<char>,
    pub fields: Seq<(Seq<char>, FieldChangeV)>,
}

impl View for NodeChange {
    type V = NodeChangeV;

    open spec fn view(&self) -> NodeChangeV {
        NodeChangeV { id: self.id@, fields: fields_view(self.fields@) }
    }
}

/// A change of viewport geometry.
#[derive(Debug)]
pub struct ViewportChange {
    pub before: Viewport,
    pub after: Viewport,
}

/// Material state transition between two witnesses. Frame numbers are kept
/// as context and are not themselves changes.
#[derive(Debug)]
pub struct WitnessDiff {
    pub before_frame: Option<u64>,
    pub after_frame: Option<u64>,
    pub version_change: Option<FieldChange>,
    pub viewport_change: Option<ViewportChange>,
    pub nodes_added: Vec<Node>,
    pub nodes_removed: Vec<Node>,
    pub nodes_changed: Vec<NodeChange>,
    pub relations_added: Vec<Relation>,
    pub relations_removed: Vec<Relation>,
}

#[verifier::ext_equal]
pub ghost struct WitnessDiffV {
    pub before_frame: Option<u64>,
    pub after_frame: Option<u64>,
    pub version_change: Option<FieldChangeV>,
    pub viewport_change: Option<(ViewportV, ViewportV)>,
    pub nodes_added: Seq<NodeV>,
    pub nodes_removed: Seq<NodeV>,
    pub nodes_changed: Seq<NodeChangeV>,
    pub relations_added: Seq<RelationV>,
    pub relations_removed: Seq<RelationV>,
}

pub open spec fn nodes_view(v: Seq<Node>) -> Seq<NodeV> {
    v.map_values(|n: Node| n@)
}

pub open spec fn relations_view(v: Seq<Relation>) -> Seq<RelationV> {
    v.map_values(|r: Relation| r@)
}

pub open spec fn node_changes_view(v: Seq<NodeChange>) -> Seq<NodeChangeV> {
    v.map_values(|c: NodeChange| c@)
}

impl View for WitnessDiff {
    type V = WitnessDiffV;

    open spec fn view(&self) -> WitnessDiffV {
        WitnessDiffV {
            before_frame: self.before_frame,
            after_frame: self.after_frame,
            version_change: match self.version_change {
                Some(c) => Some(c@),
                None => None,
            },
            viewport_change: match self.viewport_change {
                Some(c) => Some((c.before@, c.after@)),
                None => None,
            },
            nodes_added: nodes_view(self.nodes_added@),
            nodes_removed: nodes_view(self.nodes_removed@),
            nodes_changed: node_changes_view(self.nodes_changed@),
            relations_added: relations_view(self.relations_added@),
            relations_removed: relations_view(self.relations_removed@),
        }
    }
}

/// No material difference (frame numbers aside).
pub open spec fn witness_diff_empty(d: WitnessDiffV) -> bool {
    &&& d.version_change is None
    &&& d.viewport_change is None
    &&& d.nodes_added.len() == 0
    &&& d.nodes_removed.len() == 0
    &&& d.nodes_changed.len() == 0
    &&& d.relations_added.len() == 0
    &&& d.relations_removed.len() == 0
}

impl WitnessDiff {
    /// True when the diff holds no material difference; frame numbers alone
    /// do not count.
    pub fn is_empty(&self) -> (r: bool)
        ensures
            r == witness_diff_empty(self@),
    {
        self.version_change.is_none() && self.viewport_change.is_none() && self.nodes_added.len()
            == 0 && self.nodes_removed.len() == 0 && self.nodes_changed.len() == 0
            && self.relations_added.len() == 0 && self.relations_removed.len() == 0
    }
}

pub open spec fn viewport_eq(a: ViewportV, b: ViewportV) -> bool {
    f32_eq(a.width.bits, b.width.bits) && f32_eq(a.height.bits, b.height.bits) && f32_eq(
        a.scale_factor.bits,
        b.scale_factor.bits,
    )
}

pub open spec fn node_ids(s: Seq<NodeV>) -> Seq<Seq<char>> {
    s.map_values(|n: NodeV| n.id)
}

/// The identity of a relation: its full JSON serialization.
pub open spec fn relation_key(r: RelationV) -> Seq<char> {
    json_text(
        JsonV::Object(
            seq![
                ("kind"@, JsonV::Str(r.kind)),
                ("from"@, JsonV::Str(r.from)),
                ("to"@, JsonV::Str(r.to)),
                ("evidence"@, JsonV::Str(r.evidence)),
                ("properties"@, JsonV::Object(r.properties)),
            ],
        ),
    )
}

pub open spec fn relation_keys(s: Seq<RelationV>) -> Seq<Seq<char>> {
    s.map_values(|r: RelationV| relation_key(r))
}

#[verifier::ext_equal]
pub ghost struct NodeDiffV {
    pub added: Seq<NodeV>,
    pub removed: Seq<NodeV>,
    pub changed: Seq<NodeChangeV>,
}

/// Records for one node ID: the last node carrying an ID on a side stands
/// for that side.
pub open spec fn node_step(b: Seq<NodeV>, a: Seq<NodeV>, id: Seq<char>) -> NodeDiffV {
    let ib = last_index_of(node_ids(b), id);
    let ia = last_index_of(node_ids(a), id);
    if ib < 0 {
        NodeDiffV { added: seq![a[ia]], removed: Seq::empty(), changed: Seq::empty() }
    } else if ia < 0 {
        NodeDiffV { added: Seq::empty(), removed: seq![b[ib]], changed: Seq::empty() }
    } else {
        let fields = node_change_fields(b[ib], a[ia]);
        NodeDiffV {
            added: Seq::empty(),
            removed: Seq::empty(),
            changed: if fields.len() > 0 {
                seq![NodeChangeV { id: b[ib].id, fields }]
            } else {
                Seq::empty()
            },
        }
    }
}

pub open spec fn nodes_over(b: Seq<NodeV>, a: Seq<NodeV>, ids: Seq<Seq<char>>) -> NodeDiffV
    decreases ids.len(),
{
    if ids.len() == 0 {
        NodeDiffV { added: Seq::empty(), removed: Seq::empty(), changed: Seq::empty() }
    } else {
        let x = nodes_over(b, a, ids.drop_last());
        let y = node_step(b, a, ids.last());
        NodeDiffV { added: x.added + y.added, removed: x.removed + y.removed, changed: x.changed + y.changed }
    }
}

pub open spec fn node_diff(b: Seq<NodeV>, a: Seq<NodeV>) -> NodeDiffV {
    nodes_over(b, a, sorted_listing(key_set(node_ids(b) + node_ids(a))))
}

#[verifier::ext_equal]
pub ghost struct RelationDiffV {
    pub added: Seq<RelationV>,
    pub removed: Seq<RelationV>,
}

pub open spec fn relation_step(b: Seq<RelationV>, a: Seq<RelationV>, k: Seq<char>) -> RelationDiffV {
    let ib = last_index_of(relation_keys(b), k);
    let ia = last_index_of(relation_keys(a), k);
    if ib < 0 {
        RelationDiffV { added: seq![a[ia]], removed: Seq::empty() }
    } else if ia < 0 {
        RelationDiffV { added: Seq::empty(), removed: seq![b[ib]] }
    } else {
        RelationDiffV { added: Seq::empty(), removed: Seq::empty() }
    }
}

pub open spec fn relations_over(b: Seq<RelationV>, a: Seq<RelationV>, ks: Seq<Seq<char>>) -> RelationDiffV
    decreases ks.len(),
{
    if ks.len() == 0 {
        RelationDiffV { added: Seq::empty(), removed: Seq::empty() }
    } else {
        let x = relations_over(b, a, ks.drop_last());
        let y = relation_step(b, a, ks.last());
        RelationDiffV { added: x.added + y.added, removed: x.removed + y.removed }
    }
}

/// Relations are identified by their full serialization and listed in
/// ascending order of it.
pub open spec fn relation_diff(b: Seq<RelationV>, a: Seq<RelationV>) -> RelationDiffV {
    relations_over(b, a, sorted_listing(key_set(relation_keys(b) + relation_keys(a))))
}

/// The diff of two witnesses.
pub open spec fn witness_diff(b: WitnessV, a: WitnessV) -> WitnessDiffV {
    let nodes = node_diff(b.nodes, a.nodes);
    let relations = relation_diff(b.relations, a.relations);
    WitnessDiffV {
        before_frame: b.capture.frame,
        after_frame: a.capture.frame,
        version_change: if b.version != a.version {
            Some(FieldChangeV { before: JsonV::Str(b.version), after: JsonV::Str(a.version) })
        } else {
            None
        },
        viewport_change: if !viewport_eq(b.capture.viewport, a.capture.viewport) {
            Some((b.capture.viewport, a.capture.viewport))
        } else {
            None
        },
        nodes_added: nodes.added,
        nodes_removed: nodes.removed,
        nodes_changed: nodes.changed,
        relations_added: relations.added,
        relations_removed: relations.removed,
    }
}

fn node_id_keys(nodes: &Vec<Node>) -> (r: Vec<Vec<char>>)
    ensures
        chars_views(r@) == node_ids(nodes_view(nodes@)),
{
    let mut out: Vec<Vec<char>> = Vec::new();
    let mut i: usize = 0;
    while i < nodes.len()
        invariant
            i <= nodes.len(),
            out.len() == i,
            forall|k: int| 0 <= k < i ==> (#[trigger] out@[k])@ == nodes@[k].id@,
        decreases nodes.len() - i,
    {
        out.push(chars_of(nodes[i].id.as_str()));
        i = i + 1;
    }
    assert(chars_views(out@) =~= node_ids(nodes_view(nodes@)));
    out
}

/// The serialization that identifies a relation.
pub fn relation_key_text(r: &Relation) -> (k: String)
    ensures
        k@ == relation_key(r@),
{
    broadcast use lemma_entry_views;

    let mut members: Vec<JsonEntry> = Vec::new();
    members.push(JsonEntry { key: owned("kind"), value: JsonValue::String(r.kind.clone()) });
    members.push(JsonEntry { key: owned("from"), value: JsonValue::String(r.from.clone()) });
    members.push(JsonEntry { key: owned("to"), value: JsonValue::String(r.to.clone()) });
    members.push(JsonEntry { key: owned("evidence"), value: JsonValue::String(r.evidence.clone()) });
    members.push(
        JsonEntry { key: owned("properties"), value: JsonValue::Object(copy_members(&r.properties)) },
    );
    proof {
        lemma_entry_views(members@);
    }
    let v = JsonValue::Object(members);
    assert(entry_views(members@) =~= seq![
        ("kind"@, JsonV::Str(r@.kind)),
        ("from"@, JsonV::Str(r@.from)),
        ("to"@, JsonV::Str(r@.to)),
        ("evidence"@, JsonV::Str(r@.evidence)),
        ("properties"@, JsonV::Object(r@.properties)),
    ]);
    json_string(&v)
}

fn relation_key_list(relations: &Vec<Relation>) -> (r: Vec<Vec<char>>)
    ensures
        chars_views(r@) == relation_keys(relations_view(relations@)),
{
    let mut out: Vec<Vec<char>> = Vec::new();
    let mut i: usize = 0;
    while i < relations.len()
        invariant
            i <= relations.len(),
            out.len() == i,
            forall|k: int| 0 <= k < i ==> (#[trigger] out@[k])@ == relation_key(relations@[k]@),
        decreases relations.len() - i,
    {
        let text = relation_key_text(&relations[i]);
        out.push(chars_of(text.as_str()));
        i = i + 1;
    }
    assert(chars_views(out@) =~= relation_keys(relations_view(relations@)));
    out
}

fn concat_keys(x: &Vec<Vec<char>>, y: &Vec<Vec<char>>) -> (r: Vec<Vec<char>>)
    ensures
        chars_views(r@) == chars_views(x@) + chars_views(y@),
{
    let mut out: Vec<Vec<char>> = Vec::new();
    let mut i: usize = 0;
    while i < x.len()
        invariant
            i <= x.len(),
            out.len() == i,
            forall|k: int| 0 <= k < i ==> (#[trigger] out@[k])@ == x@[k]@,
        decreases x.len() - i,
    {
        out.push(copy_chars(&x[i]));
        i = i + 1;
    }
    let mut j: usize = 0;
    while j < y.len()
        invariant
            j <= y.len(),
            out.len() == x.len() + j,
            forall|k: int| 0 <= k < x.len() ==> (#[trigger] out@[k])@ == x@[k]@,
            forall|k: int| 0 <= k < j ==> (#[trigger] out@[x.len() + k])@ == y@[k]@,
        decreases y.len() - j,
    {
        out.push(copy_chars(&y[j]));
        j = j + 1;
    }
    assert forall|k: int| 0 <= k < out.len() implies (#[trigger] chars_views(out@)[k]) == (
    chars_views(x@) + chars_views(y@))[k] by {
        if k >= x.len() {
            assert(out@[x.len() + (k - x.len())]@ == y@[k - x.len()]@);
        }
    }
    assert(chars_views(out@) =~= chars_views(x@) + chars_views(y@));
    out
}

fn push_node_step(
    before: &Vec<Node>,
    after: &Vec<Node>,
    before_ids: &Vec<Vec<char>>,
    after_ids: &Vec<Vec<char>>,
    id: &Vec<char>,
    added: &mut Vec<Node>,
    removed: &mut Vec<Node>,
    changed: &mut Vec<NodeChange>,
)
    requires
        chars_views(before_ids@) == node_ids(nodes_view(before@)),
        chars_views(after_ids@) == node_ids(nodes_view(after@)),
        chars_views(before_ids@).contains(id@) || chars_views(after_ids@).contains(id@),
    ensures
        nodes_view(final(added)@) == nodes_view(old(added)@) + node_step(
            nodes_view(before@),
            nodes_view(after@),
            id@,
        ).added,
        nodes_view(final(removed)@) == nodes_view(old(removed)@) + node_step(
            nodes_view(before@),
            nodes_view(after@),
            id@,
        ).removed,
        node_changes_view(final(changed)@) == node_changes_view(old(changed)@) + node_step(
            nodes_view(before@),
            nodes_view(after@),
            id@,
        ).changed,
{
    let ghost b = nodes_view(before@);
    let ghost a = nodes_view(after@);
    proof {
        lemma_last_index_of(node_ids(b), id@);
        lemma_last_index_of(node_ids(a), id@);
    }
    let ib = find_last(before_ids, id);
    let ia = find_last(after_ids, id);
    let ghost step = node_step(b, a, id@);
    match (ib, ia) {
        (None, Some(ia)) => {
            added.push(after[ia].copy());
            assert(nodes_view(added@) =~= nodes_view(old(added)@) + step.added);
        },
        (Some(ib), None) => {
            removed.push(before[ib].copy());
            assert(nodes_view(removed@) =~= nodes_view(old(removed)@) + step.removed);
        },
        (Some(ib), Some(ia)) => {
            let fields = node_change_list(&before[ib], &after[ia]);
            if fields.len() > 0 {
                changed.push(NodeChange { id: before[ib].id.clone(), fields });
            }
            assert(node_changes_view(changed@) =~= node_changes_view(old(changed)@) + step.changed);
        },
        (None, None) => {
            assert(false);
        },
    }
    assert(nodes_view(added@) =~= nodes_view(old(added)@) + step.added);
    assert(nodes_view(removed@) =~= nodes_view(old(removed)@) + step.removed);
    assert(node_changes_view(changed@) =~= node_changes_view(old(changed)@) + step.changed);
}

fn push_relation_step(
    before: &Vec<Relation>,
    after: &Vec<Relation>,
    before_keys: &Vec<Vec<char>>,
    after_keys: &Vec<Vec<char>>,
    key: &Vec<char>,
    added: &mut Vec<Relation>,
    removed: &mut Vec<Relation>,
)
    requires
        chars_views(before_keys@) == relation_keys(relations_view(before@)),
        chars_views(after_keys@) == relation_keys(relations_view(after@)),
        chars_views(before_keys@).contains(key@) || chars_views(after_keys@).contains(key@),
    ensures
        relations_view(final(added)@) == relations_view(old(added)@) + relation_step(
            relations_view(before@),
            relations_view(after@),
            key@,
        ).added,
        relations_view(final(removed)@) == relations_view(old(removed)@) + relation_step(
            relations_view(before@),
            relations_view(after@),
            key@,
        ).removed,
{
    let ghost b = relations_view(before@);
    let ghost a = relations_view(after@);
    proof {
        lemma_last_index_of(relation_keys(b), key@);
        lemma_last_index_of(relation_keys(a), key@);
    }
    let ib = find_last(before_keys, key);
    let ia = find_last(after_keys, key);
    let ghost step = relation_step(b, a, key@);
    match (ib, ia) {
        (None, Some(ia)) => {
            added.push(after[ia].copy());
        },
        (Some(_), None) => {
            let ib = ib.unwrap();
            removed.push(before[ib].copy());
        },
        (Some(_), Some(_)) => {},
        (None, None) => {
            assert(false);
        },
    }
    assert(relations_view(added@) =~= relations_view(old(added)@) + step.added);
    assert(relations_view(removed@) =~= relations_view(old(removed)@) + step.removed);
}

/// Compare two witnesses: nodes by ID (field by field), relations by their
/// full serialization, both in ascending key order.
pub fn diff_witnesses(before: &Witness, after: &Witness) -> (d: WitnessDiff)
    ensures
        d@ == witness_diff(before@, after@),
{
    let ghost bw = before@;
    let ghost aw = after@;
    assert(bw.nodes == nodes_view(before.nodes@));
    assert(aw.nodes == nodes_view(after.nodes@));
    assert(bw.relations == relations_view(before.relations@));
    assert(aw.relations == relations_view(after.relations@));
    // Nodes.
    let before_ids = node_id_keys(&before.nodes);
    let after_ids = node_id_keys(&after.nodes);
    let all_ids = concat_keys(&before_ids, &after_ids);
    let listing = sorted_unique(&all_ids);
    let ghost ks = chars_views(listing@);
    let mut nodes_added: Vec<Node> = Vec::new();
    let mut nodes_removed: Vec<Node> = Vec::new();
    let mut nodes_changed: Vec<NodeChange> = Vec::new();
    let mut q: usize = 0;
    while q < listing.len()
        invariant
            ks == chars_views(listing@),
            chars_views(before_ids@) == node_ids(nodes_view(before.nodes@)),
            chars_views(after_ids@) == node_ids(nodes_view(after.nodes@)),
            is_sorted_listing(ks, key_set(chars_views(before_ids@) + chars_views(after_ids@))),
            q <= listing.len(),
            nodes_view(nodes_added@) == nodes_over(nodes_view(before.nodes@), nodes_view(after.nodes@), ks.take(q as int)).added,
            nodes_view(nodes_removed@) == nodes_over(nodes_view(before.nodes@), nodes_view(after.nodes@), ks.take(q as int)).removed,
            node_changes_view(nodes_changed@) == nodes_over(nodes_view(before.nodes@), nodes_view(after.nodes@), ks.take(q as int)).changed,
        decreases listing.len() - q,
    {
        proof {
            assert(ks[q as int] == listing@[q as int]@);
            lemma_listing_member(ks, chars_views(before_ids@), chars_views(after_ids@), ks[q as int]);
            assert(ks.take(q + 1).drop_last() =~= ks.take(q as int));
        }
        push_node_step(
            &before.nodes,
            &after.nodes,
            &before_ids,
            &after_ids,
            &listing[q],
            &mut nodes_added,
            &mut nodes_removed,
            &mut nodes_changed,
        );
        q = q + 1;
    }
    assert(ks.take(listing.len() as int) =~= ks);
    // Relations.
    let before_keys = relation_key_list(&before.relations);
    let after_keys = relation_key_list(&after.relations);
    let all_keys = concat_keys(&before_keys, &after_keys);
    let rlisting = sorted_unique(&all_keys);
    let ghost rks = chars_views(rlisting@);
    let mut relations_added: Vec<Relation> = Vec::new();
    let mut relations_removed: Vec<Relation> = Vec::new();
    let mut q: usize = 0;
    while q < rlisting.len()
        invariant
            rks == chars_views(rlisting@),
            chars_views(before_keys@) == relation_keys(relations_view(before.relations@)),
            chars_views(after_keys@) == relation_keys(relations_view(after.relations@)),
            is_sorted_listing(rks, key_set(chars_views(before_keys@) + chars_views(after_keys@))),
            q <= rlisting.len(),
            relations_view(relations_added@) == relations_over(relations_view(before.relations@), relations_view(after.relations@), rks.take(q as int)).added,
            relations_view(relations_removed@) == relations_over(relations_view(before.relations@), relations_view(after.relations@), rks.take(q as int)).removed,
        decreases rlisting.len() - q,
    {
        proof {
            assert(rks[q as int] == rlisting@[q as int]@);
            lemma_listing_member(rks, chars_views(before_keys@), chars_views(after_keys@), rks[q as int]);
            assert(rks.take(q + 1).drop_last() =~= rks.take(q as int));
        }
        push_relation_step(
            &before.relations,
            &after.relations,
            &before_keys,
            &after_keys,
            &rlisting[q],
            &mut relations_added,
            &mut relations_removed,
        );
        q = q + 1;
    }
    assert(rks.take(rlisting.len() as int) =~= rks);
    // Version and viewport.
    let version_change = if before.viewwitness_version != after.viewwitness_version {
        Some(
            FieldChange {
                before: JsonValue::String(before.viewwitness_version.clone()),
                after: JsonValue::String(after.viewwitness_version.clone()),
            },
        )
    } else {
        None
    };
    let bv = &before.capture.viewport;
    let av = &after.capture.viewport;
    let same_viewport = eq32(bv.width.bits, av.width.bits) && eq32(bv.height.bits, av.height.bits)
        && eq32(bv.scale_factor.bits, av.scale_factor.bits);
    let viewport_change = if !same_viewport {
        Some(ViewportChange { before: bv.copy(), after: av.copy() })
    } else {
        None
    };
    let d = WitnessDiff {
        before_frame: before.capture.frame,
        after_frame: after.capture.frame,
        version_change,
        viewport_change,
        nodes_added,
        nodes_removed,
        nodes_changed,
        relations_added,
        relations_removed,
    };
    assert(d@ =~= witness_diff(bw, aw));
    d
}

} // verus!
