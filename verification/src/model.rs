//! The canonical witness model: one observed GUI state with its capture
//! context, semantic nodes and relations between them.
use vstd::prelude::*;

use crate::json::{
    JsonEntry, JsonV, JsonValue, entry_views, json_view, json_wf, lemma_entry_views, map_wf,
};
use crate::text::LineText;

verus! {

broadcast use vstd::string::group_string_axioms;

/// One observed binary32 quantity: its encoding, its `Display` rendering and
/// the JSON rendering of its exact binary64 widening (`null` when it is not
/// finite), as they were observed together.
#[derive(Debug)]
pub struct Measure {
    pub bits: u32,
    pub display: LineText,
    pub json: LineText,
}

pub ghost struct MeasureV {
    pub bits: u32,
    pub display: Seq<char>,
    pub json: Seq<char>,
}

impl View for Measure {
    type V = MeasureV;

    open spec fn view(&self) -> MeasureV {
        MeasureV { bits: self.bits, display: self.display@, json: self.json@ }
    }
}

impl Measure {
    pub fn copy(&self) -> (r: Measure)
        ensures
            r@ == self@,
    {
        Measure { bits: self.bits, display: self.display.copy(), json: self.json.copy() }
    }
}

/// Axis-aligned rectangle in logical points.
#[derive(Debug)]
pub struct Rect {
    pub x: Measure,
    pub y: Measure,
    pub width: Measure,
    pub height: Measure,
}

pub ghost struct RectV {
    pub x: MeasureV,
    pub y: MeasureV,
    pub width: MeasureV,
    pub height: MeasureV,
}

impl View for Rect {
    type V = RectV;

    open spec fn view(&self) -> RectV {
        RectV { x: self.x@, y: self.y@, width: self.width@, height: self.height@ }
    }
}

impl Rect {
    pub fn copy(&self) -> (r: Rect)
        ensures
            r@ == self@,
    {
        Rect { x: self.x.copy(), y: self.y.copy(), width: self.width.copy(), height: self.height.copy() }
    }
}

pub fn copy_rect_opt(r: &Option<Rect>) -> (c: Option<Rect>)
    ensures
        rect_opt_view(c) == rect_opt_view(*r),
{
    match r {
        Some(r) => Some(r.copy()),
        None => None,
    }
}

pub open spec fn rect_opt_view(r: Option<Rect>) -> Option<RectV> {
    match r {
        Some(r) => Some(r@),
        None => None,
    }
}

/// Logical viewport size and scale.
#[derive(Debug)]
pub struct Viewport {
    pub width: Measure,
    pub height: Measure,
    pub scale_factor: Measure,
}

pub ghost struct ViewportV {
    pub width: MeasureV,
    pub height: MeasureV,
    pub scale_factor: MeasureV,
}

impl View for Viewport {
    type V = ViewportV;

    open spec fn view(&self) -> ViewportV {
        ViewportV { width: self.width@, height: self.height@, scale_factor: self.scale_factor@ }
    }
}

impl Viewport {
    pub fn copy(&self) -> (r: Viewport)
        ensures
            r@ == self@,
    {
        Viewport {
            width: self.width.copy(),
            height: self.height.copy(),
            scale_factor: self.scale_factor.copy(),
        }
    }
}

pub open spec fn str_opt_view(s: Option<String>) -> Option<Seq<char>> {
    match s {
        Some(s) => Some(s@),
        None => None,
    }
}

pub fn copy_str_opt(s: &Option<String>) -> (c: Option<String>)
    ensures
        str_opt_view(c) == str_opt_view(*s),
{
    match s {
        Some(s) => Some(s.clone()),
        None => None,
    }
}

pub open spec fn strings_view(v: Seq<String>) -> Seq<Seq<char>> {
    v.map_values(|s: String| s@)
}

pub fn copy_strings(v: &Vec<String>) -> (c: Vec<String>)
    ensures
        strings_view(c@) == strings_view(v@),
{
    let mut out: Vec<String> = Vec::new();
    let mut i: usize = 0;
    while i < v.len()
        invariant
            i <= v.len(),
            out@ == v@.take(i as int),
        decreases v.len() - i,
    {
        out.push(v[i].clone());
        i = i + 1;
        assert(out@ =~= v@.take(i as int));
    }
    assert(v@.take(v.len() as int) =~= v@);
    out
}

/// Members of a JSON object, in ascending key order.
pub fn copy_members(v: &Vec<JsonEntry>) -> (c: Vec<JsonEntry>)
    ensures
        entry_views(c@) == entry_views(v@),
{
    broadcast use lemma_entry_views;

    let mut out: Vec<JsonEntry> = Vec::new();
    let mut i: usize = 0;
    while i < v.len()
        invariant
            i <= v.len(),
            out.len() == i,
            forall|k: int|
                0 <= k < i ==> (#[trigger] out@[k]).key@ == v@[k].key@ && out@[k].value@
                    == v@[k].value@,
        decreases v.len() - i,
    {
        let value = v[i].value.copy();
        out.push(JsonEntry { key: v[i].key.clone(), value });
        i = i + 1;
    }
    proof {
        lemma_entry_views(out@);
        lemma_entry_views(v@);
    }
    assert(entry_views(out@) =~= entry_views(v@));
    out
}

pub open spec fn json_opt_view(v: Option<JsonValue>) -> Option<JsonV> {
    match v {
        Some(v) => Some(json_view(v)),
        None => None,
    }
}

pub fn copy_json_opt(v: &Option<JsonValue>) -> (c: Option<JsonValue>)
    ensures
        json_opt_view(c) == json_opt_view(*v),
{
    match v {
        Some(v) => Some(v.copy()),
        None => None,
    }
}

/// Where a node's identity came from and how stable it is across witnesses.
#[derive(Debug)]
pub struct NodeIdentity {
    pub provenance: String,
    pub stability: String,
    pub author_id: Option<String>,
}

pub ghost struct NodeIdentityV {
    pub provenance: Seq<char>,
    pub stability: Seq<char>,
    pub author_id: Option<Seq<char>>,
}

impl View for NodeIdentity {
    type V = NodeIdentityV;

    open spec fn view(&self) -> NodeIdentityV {
        NodeIdentityV {
            provenance: self.provenance@,
            stability: self.stability@,
            author_id: str_opt_view(self.author_id),
        }
    }
}

impl NodeIdentity {
    pub fn copy(&self) -> (r: NodeIdentity)
        ensures
            r@ == self@,
    {
        NodeIdentity {
            provenance: self.provenance.clone(),
            stability: self.stability.clone(),
            author_id: copy_str_opt(&self.author_id),
        }
    }
}

pub open spec fn identity_opt_view(i: Option<NodeIdentity>) -> Option<NodeIdentityV> {
    match i {
        Some(i) => Some(i@),
        None => None,
    }
}

/// One semantic node of a witness.
#[derive(Debug)]
pub struct Node {
    pub id: String,
    pub role: String,
    pub parent: Option<String>,
    pub identity: Option<NodeIdentity>,
    pub name: Option<String>,
    pub bounds: Option<Rect>,
    pub visible: Option<bool>,
    pub enabled: Option<bool>,
    pub focused: Option<bool>,
    pub selected: Option<bool>,
    pub text: Option<String>,
    pub value: Option<JsonValue>,
    pub actions: Vec<String>,
    pub properties: Vec<JsonEntry>,
}

pub ghost struct NodeV {
    pub id: Seq<char>,
    pub role: Seq<char>,
    pub parent: Option<Seq<char>>,
    pub identity: Option<NodeIdentityV>,
    pub name: Option<Seq<char>>,
    pub bounds: Option<RectV>,
    pub visible: Option<bool>,
    pub enabled: Option<bool>,
    pub focused: Option<bool>,
    pub selected: Option<bool>,
    pub text: Option<Seq<char>>,
    pub value: Option<JsonV>,
    pub actions: Seq<Seq<char>>,
    pub properties: Seq<(Seq<char>, JsonV)>,
}

impl View for Node {
    type V = NodeV;

    open spec fn view(&self) -> NodeV {
        NodeV {
            id: self.id@,
            role: self.role@,
            parent: str_opt_view(self.parent),
            identity: identity_opt_view(self.identity),
            name: str_opt_view(self.name),
            bounds: rect_opt_view(self.bounds),
            visible: self.visible,
            enabled: self.enabled,
            focused: self.focused,
            selected: self.selected,
            text: str_opt_view(self.text),
            value: json_opt_view(self.value),
            actions: strings_view(self.actions@),
            properties: entry_views(self.properties@),
        }
    }
}

impl Node {
    pub fn copy(&self) -> (r: Node)
        ensures
            r@ == self@,
    {
        Node {
            id: self.id.clone(),
            role: self.role.clone(),
            parent: copy_str_opt(&self.parent),
            identity: match &self.identity {
                Some(i) => Some(i.copy()),
                None => None,
            },
            name: copy_str_opt(&self.name),
            bounds: copy_rect_opt(&self.bounds),
            visible: self.visible,
            enabled: self.enabled,
            focused: self.focused,
            selected: self.selected,
            text: copy_str_opt(&self.text),
            value: copy_json_opt(&self.value),
            actions: copy_strings(&self.actions),
            properties: copy_members(&self.properties),
        }
    }
}

/// A fact relating two nodes.
#[derive(Debug)]
pub struct Relation {
    pub kind: String,
    pub from: String,
    pub to: String,
    /// `observed` for facts supplied by capture, `derived` for facts computed
    /// from other evidence such as geometry.
    pub evidence: String,
    pub properties: Vec<JsonEntry>,
}

pub ghost struct RelationV {
    pub kind: Seq<char>,
    pub from: Seq<char>,
    pub to: Seq<char>,
    pub evidence: Seq<char>,
    pub properties: Seq<(Seq<char>, JsonV)>,
}

impl View for Relation {
    type V = RelationV;

    open spec fn view(&self) -> RelationV {
        RelationV {
            kind: self.kind@,
            from: self.from@,
            to: self.to@,
            evidence: self.evidence@,
            properties: entry_views(self.properties@),
        }
    }
}

impl Relation {
    pub fn copy(&self) -> (r: Relation)
        ensures
            r@ == self@,
    {
        Relation {
            kind: self.kind.clone(),
            from: self.from.clone(),
            to: self.to.clone(),
            evidence: self.evidence.clone(),
            properties: copy_members(&self.properties),
        }
    }
}

/// Where and how a witness was captured.
#[derive(Debug)]
pub struct Capture {
    pub source: String,
    pub frame: Option<u64>,
    pub viewport: Viewport,
    pub metadata: Vec<JsonEntry>,
}

pub ghost struct CaptureV {
    pub source: Seq<char>,
    pub frame: Option<u64>,
    pub viewport: ViewportV,
    pub metadata: Seq<(Seq<char>, JsonV)>,
}

impl View for Capture {
    type V = CaptureV;

    open spec fn view(&self) -> CaptureV {
        CaptureV {
            source: self.source@,
            frame: self.frame,
            viewport: self.viewport@,
            metadata: entry_views(self.metadata@),
        }
    }
}

/// One observed GUI state.
#[derive(Debug)]
pub struct Witness {
    pub viewwitness_version: String,
    pub capture: Capture,
    pub nodes: Vec<Node>,
    pub relations: Vec<Relation>,
}

pub ghost struct WitnessV {
    pub version: Seq<char>,
    pub capture: CaptureV,
    pub nodes: Seq<NodeV>,
    pub relations: Seq<RelationV>,
}

impl View for Witness {
    type V = WitnessV;

    open spec fn view(&self) -> WitnessV {
        WitnessV {
            version: self.viewwitness_version@,
            capture: self.capture@,
            nodes: self.nodes@.map_values(|n: Node| n@),
            relations: self.relations@.map_values(|r: Relation| r@),
        }
    }
}


/// A node whose values are well formed: its properties an ordered map, its
/// value a well-formed JSON value.
pub open spec fn node_wf(n: NodeV) -> bool {
    &&& map_wf(n.properties)
    &&& match n.value {
        Some(v) => json_wf(v),
        None => true,
    }
}

/// The states a witness can be in: metadata and every property map ordered
/// by key, every JSON value well formed.
pub open spec fn witness_wf(w: WitnessV) -> bool {
    &&& map_wf(w.capture.metadata)
    &&& forall|i: int| 0 <= i < w.nodes.len() ==> node_wf(#[trigger] w.nodes[i])
    &&& forall|i: int| 0 <= i < w.relations.len() ==> map_wf(#[trigger] w.relations[i].properties)
}

} // verus!
