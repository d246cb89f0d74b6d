//! Compact deterministic text projections of witnesses and witness diffs,
//! for repeated consumption by software agents. Strings and JSON values are
//! rendered as compact JSON; observed quantities by their `Display` text.
use vstd::prelude::*;

use crate::diff::{
    FieldChange, NodeChangeV, WitnessDiff, WitnessDiffV, fields_view, node_changes_view, nodes_view,
    relations_view, strings_json, strings_to_json,
};
use crate::json::{
    JsonEntry, JsonV, JsonValue, entry_views, json_text, lemma_entry_views, write_json,
};
use crate::model::{
    Measure, MeasureV, Node, NodeIdentityV, NodeV, Rect, RectV, Relation, RelationV, ViewportV,
    Witness, WitnessV, copy_members, str_opt_view,
};
use crate::order::{stable_order, stable_sort, tuple_views};
use crate::text::{
    chars_of, chars_views, decimal, json_quote, owned, push_char, push_decimal, push_json_str,
    push_str,
};

use crate::lines::{law_agent_text_one_line_per_item, lemma_witness_texts, line_breaks};

verus! {

broadcast use vstd::string::group_string_axioms;

pub open spec fn bool_text(b: bool) -> Seq<char> {
    if b {
        "true"@
    } else {
        "false"@
    }
}

/// `[x,y,width,height]` with each quantity by its `Display` text.
pub open spec fn rect_text(r: RectV) -> Seq<char> {
    "["@ + r.x.display + ","@ + r.y.display + ","@ + r.width.display + ","@ + r.height.display
        + "]"@
}

pub open spec fn str_part(label: Seq<char>, v: Option<Seq<char>>) -> Seq<char> {
    match v {
        Some(s) => label + json_quote(s),
        None => Seq::empty(),
    }
}

pub open spec fn bool_part(label: Seq<char>, v: Option<bool>) -> Seq<char> {
    match v {
        Some(b) => label + bool_text(b),
        None => Seq::empty(),
    }
}

/// A node identity as serialized on its own (fields in declaration order,
/// an absent author ID omitted).
pub open spec fn identity_value(i: NodeIdentityV) -> JsonV {
    JsonV::Object(
        seq![("provenance"@, JsonV::Str(i.provenance)), ("stability"@, JsonV::Str(i.stability))]
            + match i.author_id {
            Some(a) => seq![("author_id"@, JsonV::Str(a))],
            None => Seq::empty(),
        },
    )
}

pub open spec fn node_key(prefix: Seq<char>, n: NodeV) -> Seq<char> {
    prefix + " id="@ + json_quote(n.id) + " role="@ + json_quote(n.role) + str_part(
        " parent="@,
        n.parent,
    )
}

pub open spec fn node_shape(n: NodeV) -> Seq<char> {
    (match n.identity {
        Some(i) => " identity="@ + json_text(identity_value(i)),
        None => Seq::empty(),
    }) + str_part(" name="@, n.name) + match n.bounds {
        Some(b) => " bounds="@ + rect_text(b),
        None => Seq::empty(),
    }
}

pub open spec fn node_head(prefix: Seq<char>, n: NodeV) -> Seq<char> {
    node_key(prefix, n) + node_shape(n)
}

pub open spec fn node_flags(n: NodeV) -> Seq<char> {
    bool_part(" visible="@, n.visible) + bool_part(" enabled="@, n.enabled) + bool_part(
        " focused="@,
        n.focused,
    ) + bool_part(" selected="@, n.selected)
}

pub open spec fn node_tail(n: NodeV) -> Seq<char> {
    str_part(" text="@, n.text) + match n.value {
        Some(v) => " value="@ + json_text(v),
        None => Seq::empty(),
    } + if n.actions.len() > 0 {
        " actions="@ + json_text(strings_json(n.actions))
    } else {
        Seq::empty()
    } + if n.properties.len() > 0 {
        " props="@ + json_text(JsonV::Object(n.properties))
    } else {
        Seq::empty()
    } + "\n"@
}

/// One node line: identity and role, then whichever optional fields are
/// present, in a fixed order.
pub open spec fn node_line(prefix: Seq<char>, n: NodeV) -> Seq<char> {
    node_head(prefix, n) + node_flags(n) + node_tail(n)
}

/// One relation line.
pub open spec fn relation_line(prefix: Seq<char>, r: RelationV) -> Seq<char> {
    prefix + " kind="@ + json_quote(r.kind) + " from="@ + json_quote(r.from) + " to="@ + json_quote(
        r.to,
    ) + " evidence="@ + json_quote(r.evidence) + if r.properties.len() > 0 {
        " props="@ + json_text(JsonV::Object(r.properties))
    } else {
        Seq::empty()
    } + "\n"@
}

pub fn push_rect(out: &mut String, r: &Rect)
    ensures
        final(out)@ == old(out)@ + rect_text(r@),
{
    push_str(out, "[");
    push_str(out, r.x.display.as_str());
    push_str(out, ",");
    push_str(out, r.y.display.as_str());
    push_str(out, ",");
    push_str(out, r.width.display.as_str());
    push_str(out, ",");
    push_str(out, r.height.display.as_str());
    push_str(out, "]");
    assert(out@ =~= old(out)@ + rect_text(r@));
}

pub fn push_bool(out: &mut String, b: bool)
    ensures
        final(out)@ == old(out)@ + bool_text(b),
{
    if b {
        push_str(out, "true");
    } else {
        push_str(out, "false");
    }
}

fn push_str_part(out: &mut String, label: &str, v: &Option<String>)
    ensures
        final(out)@ == old(out)@ + str_part(label@, str_opt_view(*v)),
{
    match v {
        Some(s) => {
            push_str(out, label);
            push_json_str(out, s.as_str());
        },
        None => {},
    }
    assert(out@ =~= old(out)@ + str_part(label@, str_opt_view(*v)));
}

fn push_bool_part(out: &mut String, label: &str, v: Option<bool>)
    ensures
        final(out)@ == old(out)@ + bool_part(label@, v),
{
    match v {
        Some(b) => {
            push_str(out, label);
            push_bool(out, b);
        },
        None => {},
    }
    assert(out@ =~= old(out)@ + bool_part(label@, v));
}

fn push_identity(out: &mut String, i: &crate::model::NodeIdentity)
    ensures
        final(out)@ == old(out)@ + json_text(identity_value(i@)),
{
    broadcast use lemma_entry_views;

    let mut members: Vec<JsonEntry> = Vec::new();
    members.push(JsonEntry { key: owned("provenance"), value: JsonValue::String(i.provenance.clone()) });
    members.push(JsonEntry { key: owned("stability"), value: JsonValue::String(i.stability.clone()) });
    match &i.author_id {
        Some(a) => {
            members.push(JsonEntry { key: owned("author_id"), value: JsonValue::String(a.clone()) });
        },
        None => {},
    }
    proof {
        lemma_entry_views(members@);
    }
    let v = JsonValue::Object(members);
    assert(v@ == identity_value(i@)) by {
        assert(entry_views(members@) =~= seq![
            ("provenance"@, JsonV::Str(i@.provenance)),
            ("stability"@, JsonV::Str(i@.stability)),
        ] + match i@.author_id {
            Some(a) => seq![("author_id"@, JsonV::Str(a))],
            None => Seq::<(Seq<char>, JsonV)>::empty(),
        });
    }
    write_json(out, &v);
}

fn push_node_tail(out: &mut String, node: &Node)
    ensures
        final(out)@ == old(out)@ + node_tail(node@),
{
    let ghost o0 = out@;
    push_str_part(out, " text=", &node.text);
    let ghost o1 = out@;
    match &node.value {
        Some(v) => {
            push_str(out, " value=");
            write_json(out, v);
        },
        None => {},
    }
    let ghost o2 = out@;
    assert(o2 =~= o1 + match node@.value {
        Some(v) => " value="@ + json_text(v),
        None => Seq::<char>::empty(),
    });
    if node.actions.len() > 0 {
        push_str(out, " actions=");
        let a = strings_to_json(&node.actions);
        write_json(out, &a);
    }
    let ghost o3 = out@;
    assert(o3 =~= o2 + if node@.actions.len() > 0 {
        " actions="@ + json_text(strings_json(node@.actions))
    } else {
        Seq::<char>::empty()
    });
    if node.properties.len() > 0 {
        push_str(out, " props=");
        let p = JsonValue::Object(copy_members(&node.properties));
        write_json(out, &p);
    }
    let ghost o4 = out@;
    assert(o4 =~= o3 + if node@.properties.len() > 0 {
        " props="@ + json_text(JsonV::Object(node@.properties))
    } else {
        Seq::<char>::empty()
    });
    push_str(out, "\n");
    assert(out@ =~= old(out)@ + node_tail(node@));
}

fn push_node_key(out: &mut String, prefix: &str, node: &Node)
    ensures
        final(out)@ == old(out)@ + node_key(prefix@, node@),
{
    push_str(out, prefix);
    push_str(out, " id=");
    push_json_str(out, node.id.as_str());
    push_str(out, " role=");
    push_json_str(out, node.role.as_str());
    push_str_part(out, " parent=", &node.parent);
    assert(out@ =~= old(out)@ + node_key(prefix@, node@));
}

fn push_node_shape(out: &mut String, node: &Node)
    ensures
        final(out)@ == old(out)@ + node_shape(node@),
{
    let ghost o1 = out@;
    match &node.identity {
        Some(i) => {
            push_str(out, " identity=");
            push_identity(out, i);
        },
        None => {},
    }
    let ghost o2 = out@;
    assert(o2 =~= o1 + match node@.identity {
        Some(i) => " identity="@ + json_text(identity_value(i)),
        None => Seq::<char>::empty(),
    });
    push_str_part(out, " name=", &node.name);
    let ghost o3 = out@;
    match &node.bounds {
        Some(b) => {
            push_str(out, " bounds=");
            push_rect(out, b);
        },
        None => {},
    }
    let ghost o4 = out@;
    assert(o4 =~= o3 + match node@.bounds {
        Some(b) => " bounds="@ + rect_text(b),
        None => Seq::<char>::empty(),
    });
    assert(out@ =~= old(out)@ + node_shape(node@));
}

fn push_node_flags(out: &mut String, node: &Node)
    ensures
        final(out)@ == old(out)@ + node_flags(node@),
{
    push_bool_part(out, " visible=", node.visible);
    push_bool_part(out, " enabled=", node.enabled);
    push_bool_part(out, " focused=", node.focused);
    push_bool_part(out, " selected=", node.selected);
    assert(out@ =~= old(out)@ + node_flags(node@));
}

/// Append one node line.
pub fn append_node(out: &mut String, prefix: &str, node: &Node)
    ensures
        final(out)@ == old(out)@ + node_line(prefix@, node@),
{
    push_node_key(out, prefix, node);
    push_node_shape(out, node);
    push_node_flags(out, node);
    push_node_tail(out, node);
    assert(out@ =~= old(out)@ + node_line(prefix@, node@));
}

/// Append one relation line.
pub fn append_relation(out: &mut String, prefix: &str, relation: &Relation)
    ensures
        final(out)@ == old(out)@ + relation_line(prefix@, relation@),
{
    push_str(out, prefix);
    push_str(out, " kind=");
    push_json_str(out, relation.kind.as_str());
    push_str(out, " from=");
    push_json_str(out, relation.from.as_str());
    push_str(out, " to=");
    push_json_str(out, relation.to.as_str());
    push_str(out, " evidence=");
    push_json_str(out, relation.evidence.as_str());
    let ghost o1 = out@;
    if relation.properties.len() > 0 {
        push_str(out, " props=");
        let p = JsonValue::Object(copy_members(&relation.properties));
        write_json(out, &p);
    }
    assert(out@ =~= o1 + if relation@.properties.len() > 0 {
        " props="@ + json_text(JsonV::Object(relation@.properties))
    } else {
        Seq::<char>::empty()
    });
    push_str(out, "\n");
    assert(out@ =~= old(out)@ + relation_line(prefix@, relation@));
}

/// The concatenation of `f` applied to each item, in order.
pub open spec fn concat_lines<A>(items: Seq<A>, f: spec_fn(A) -> Seq<char>) -> Seq<char>
    decreases items.len(),
{
    if items.len() == 0 {
        Seq::empty()
    } else {
        concat_lines(items.drop_last(), f) + f(items.last())
    }
}

pub proof fn lemma_concat_lines_step<A>(items: Seq<A>, f: spec_fn(A) -> Seq<char>, j: int)
    requires
        0 <= j < items.len(),
    ensures
        concat_lines(items.take(j + 1), f) == concat_lines(items.take(j), f) + f(items[j]),
{
    assert(items.take(j + 1).drop_last() =~= items.take(j));
}

pub open spec fn frame_part(label: Seq<char>, frame: Option<u64>) -> Seq<char> {
    match frame {
        Some(f) => label + decimal(f as nat),
        None => Seq::empty(),
    }
}

/// `[width,height,scale_factor]`.
pub open spec fn viewport_text(v: ViewportV) -> Seq<char> {
    "["@ + v.width.display + ","@ + v.height.display + ","@ + v.scale_factor.display + "]"@
}

pub open spec fn view_header(w: WitnessV) -> Seq<char> {
    "view version="@ + json_quote(w.version) + " source="@ + json_quote(w.capture.source)
        + " viewport="@ + viewport_text(w.capture.viewport) + frame_part(" frame="@, w.capture.frame)
        + "\n"@
}

pub open spec fn meta_line(w: WitnessV) -> Seq<char> {
    if w.capture.metadata.len() > 0 {
        "meta "@ + json_text(JsonV::Object(w.capture.metadata)) + "\n"@
    } else {
        Seq::empty()
    }
}

/// Nodes are listed by ID.
pub open spec fn node_sort_keys(nodes: Seq<NodeV>) -> Seq<Seq<Seq<char>>> {
    nodes.map_values(|n: NodeV| seq![n.id])
}

/// Relations are listed by kind, source, target and evidence.
pub open spec fn relation_sort_keys(rels: Seq<RelationV>) -> Seq<Seq<Seq<char>>> {
    rels.map_values(|r: RelationV| seq![r.kind, r.from, r.to, r.evidence])
}

pub open spec fn witness_nodes_text(w: WitnessV) -> Seq<char> {
    concat_lines(
        stable_order(node_sort_keys(w.nodes), w.nodes.len() as int),
        |i: int| node_line("node"@, w.nodes[i]),
    )
}

pub open spec fn witness_relations_text(w: WitnessV) -> Seq<char> {
    concat_lines(
        stable_order(relation_sort_keys(w.relations), w.relations.len() as int),
        |i: int| relation_line("relation"@, w.relations[i]),
    )
}

/// The agent text of a witness: header, metadata, nodes in stable ID order,
/// relations in stable (kind, from, to, evidence) order.
pub open spec fn witness_text(w: WitnessV) -> Seq<char> {
    view_header(w) + meta_line(w) + witness_nodes_text(w) + witness_relations_text(w)
}

pub fn push_viewport(out: &mut String, v: &crate::model::Viewport)
    ensures
        final(out)@ == old(out)@ + viewport_text(v@),
{
    push_str(out, "[");
    push_str(out, v.width.display.as_str());
    push_str(out, ",");
    push_str(out, v.height.display.as_str());
    push_str(out, ",");
    push_str(out, v.scale_factor.display.as_str());
    push_str(out, "]");
    assert(out@ =~= old(out)@ + viewport_text(v@));
}

fn push_frame_part(out: &mut String, label: &str, frame: Option<u64>)
    ensures
        final(out)@ == old(out)@ + frame_part(label@, frame),
{
    match frame {
        Some(f) => {
            push_str(out, label);
            push_decimal(out, f);
        },
        None => {},
    }
    assert(out@ =~= old(out)@ + frame_part(label@, frame));
}

fn push_view_header(out: &mut String, w: &Witness)
    ensures
        final(out)@ == old(out)@ + view_header(w@) + meta_line(w@),
{
    push_str(out, "view version=");
    push_json_str(out, w.viewwitness_version.as_str());
    push_str(out, " source=");
    push_json_str(out, w.capture.source.as_str());
    push_str(out, " viewport=");
    push_viewport(out, &w.capture.viewport);
    push_frame_part(out, " frame=", w.capture.frame);
    push_str(out, "\n");
    let ghost o1 = out@;
    if w.capture.metadata.len() > 0 {
        push_str(out, "meta ");
        let m = JsonValue::Object(copy_members(&w.capture.metadata));
        write_json(out, &m);
        push_str(out, "\n");
    }
    assert(out@ =~= o1 + meta_line(w@));
    assert(out@ =~= old(out)@ + view_header(w@) + meta_line(w@));
}

fn node_keys(nodes: &Vec<Node>) -> (keys: Vec<Vec<Vec<char>>>)
    ensures
        tuple_views(keys@) == node_sort_keys(nodes_view(nodes@)),
        keys@.len() == nodes@.len(),
{
    let mut keys: Vec<Vec<Vec<char>>> = Vec::new();
    let mut i: usize = 0;
    while i < nodes.len()
        invariant
            i <= nodes.len(),
            keys.len() == i,
            forall|k: int| 0 <= k < i ==> chars_views((#[trigger] keys@[k])@) == seq![nodes@[k].id@],
        decreases nodes.len() - i,
    {
        let mut key: Vec<Vec<char>> = Vec::new();
        key.push(chars_of(nodes[i].id.as_str()));
        assert(chars_views(key@) =~= seq![nodes@[i as int].id@]);
        keys.push(key);
        i = i + 1;
    }
    assert(tuple_views(keys@) =~= node_sort_keys(nodes_view(nodes@)));
    keys
}

fn relation_keys_for_order(rels: &Vec<Relation>) -> (keys: Vec<Vec<Vec<char>>>)
    ensures
        tuple_views(keys@) == relation_sort_keys(relations_view(rels@)),
        keys@.len() == rels@.len(),
{
    let mut keys: Vec<Vec<Vec<char>>> = Vec::new();
    let mut i: usize = 0;
    while i < rels.len()
        invariant
            i <= rels.len(),
            keys.len() == i,
            forall|k: int|
                0 <= k < i ==> chars_views((#[trigger] keys@[k])@) == seq![
                    rels@[k].kind@,
                    rels@[k].from@,
                    rels@[k].to@,
                    rels@[k].evidence@,
                ],
        decreases rels.len() - i,
    {
        let r = &rels[i];
        let mut key: Vec<Vec<char>> = Vec::new();
        key.push(chars_of(r.kind.as_str()));
        key.push(chars_of(r.from.as_str()));
        key.push(chars_of(r.to.as_str()));
        key.push(chars_of(r.evidence.as_str()));
        assert(chars_views(key@) =~= seq![r.kind@, r.from@, r.to@, r.evidence@]);
        keys.push(key);
        i = i + 1;
    }
    assert(tuple_views(keys@) =~= relation_sort_keys(relations_view(rels@)));
    keys
}

/// Project a witness into compact deterministic agent text.
pub fn to_agent_text(witness: &Witness) -> (text: String)
    ensures
        text@ == witness_text(witness@),
        text@.len() > 0 && text@.last() == '\n',
        line_breaks(text@) == 1 + (if witness.capture.metadata.len() > 0 {
            1nat
        } else {
            0nat
        }) + witness.nodes.len() + witness.relations.len(),
{
    let ghost w = witness@;
    let mut out = String::new();
    push_view_header(&mut out, witness);
    let keys = node_keys(&witness.nodes);
    let order = stable_sort(&keys);
    let ghost ord = stable_order(node_sort_keys(w.nodes), w.nodes.len() as int);
    let ghost f = |i: int| node_line("node"@, w.nodes[i]);
    let ghost base = out@;
    let mut j: usize = 0;
    while j < order.len()
        invariant
            w == witness@,
            w.nodes == nodes_view(witness.nodes@),
            ord == stable_order(node_sort_keys(w.nodes), w.nodes.len() as int),
            tuple_views(keys@) == node_sort_keys(w.nodes),
            keys@.len() == witness.nodes@.len(),
            order@.len() == keys@.len(),
            forall|q: int| 0 <= q < order@.len() ==> order@[q] < keys@.len(),
            forall|q: int| 0 <= q < order@.len() ==> order@[q] as int == ord[q],
            f == (|i: int| node_line("node"@, w.nodes[i])),
            j <= order.len(),
            out@ == base + concat_lines(ord.take(j as int), f),
        decreases order.len() - j,
    {
        let i = order[j];
        proof {
            crate::order::lemma_stable_order_len_pub(node_sort_keys(w.nodes), w.nodes.len() as int);
            lemma_concat_lines_step(ord, f, j as int);
            assert(w.nodes[i as int] == witness.nodes@[i as int]@);
        }
        append_node(&mut out, "node", &witness.nodes[i]);
        j = j + 1;
    }
    proof {
        crate::order::lemma_stable_order_len_pub(node_sort_keys(w.nodes), w.nodes.len() as int);
        assert(ord.take(order.len() as int) =~= ord);
    }
    let rkeys = relation_keys_for_order(&witness.relations);
    let rorder = stable_sort(&rkeys);
    let ghost rord = stable_order(relation_sort_keys(w.relations), w.relations.len() as int);
    let ghost g = |i: int| relation_line("relation"@, w.relations[i]);
    let ghost base2 = out@;
    let mut j: usize = 0;
    while j < rorder.len()
        invariant
            w == witness@,
            w.relations == relations_view(witness.relations@),
            rord == stable_order(relation_sort_keys(w.relations), w.relations.len() as int),
            tuple_views(rkeys@) == relation_sort_keys(w.relations),
            rkeys@.len() == witness.relations@.len(),
            rorder@.len() == rkeys@.len(),
            forall|q: int| 0 <= q < rorder@.len() ==> rorder@[q] < rkeys@.len(),
            forall|q: int| 0 <= q < rorder@.len() ==> rorder@[q] as int == rord[q],
            g == (|i: int| relation_line("relation"@, w.relations[i])),
            j <= rorder.len(),
            out@ == base2 + concat_lines(rord.take(j as int), g),
        decreases rorder.len() - j,
    {
        let i = rorder[j];
        proof {
            crate::order::lemma_stable_order_len_pub(relation_sort_keys(w.relations), w.relations.len() as int);
            lemma_concat_lines_step(rord, g, j as int);
            assert(w.relations[i as int] == witness.relations@[i as int]@);
        }
        append_relation(&mut out, "relation", &witness.relations[i]);
        j = j + 1;
    }
    proof {
        crate::order::lemma_stable_order_len_pub(relation_sort_keys(w.relations), w.relations.len() as int);
        assert(rord.take(rorder.len() as int) =~= rord);
    }
    assert(out@ =~= witness_text(w));
    proof {
        lemma_witness_texts(*witness);
        law_agent_text_one_line_per_item(w);
        crate::json::lemma_entry_views(witness.capture.metadata@);
    }
    out
}

pub open spec fn diff_header(d: WitnessDiffV) -> Seq<char> {
    "diff"@ + frame_part(" before_frame="@, d.before_frame) + frame_part(" after_frame="@, d.after_frame)
        + "\n"@
}

pub open spec fn version_part(d: WitnessDiffV) -> Seq<char> {
    match d.version_change {
        Some(c) => "change scope=view field=version before="@ + json_text(c.before) + " after="@
            + json_text(c.after) + "\n"@,
        None => Seq::empty(),
    }
}

pub open spec fn viewport_part(d: WitnessDiffV) -> Seq<char> {
    match d.viewport_change {
        Some((b, a)) => "change scope=view field=viewport before="@ + viewport_text(b) + " after="@
            + viewport_text(a) + "\n"@,
        None => Seq::empty(),
    }
}

/// One line per changed field of a node.
pub open spec fn node_change_lines(c: NodeChangeV) -> Seq<char> {
    concat_lines(
        c.fields,
        |f: (Seq<char>, crate::diff::FieldChangeV)|
            "change node="@ + json_quote(c.id) + " field="@ + json_quote(f.0) + " before="@
                + json_text(f.1.before) + " after="@ + json_text(f.1.after) + "\n"@,
    )
}

/// The agent text of a witness diff: header, view-level changes, added and
/// removed nodes, one line per changed node field, added and removed
/// relations.
pub open spec fn diff_text(d: WitnessDiffV) -> Seq<char> {
    diff_header(d) + version_part(d) + viewport_part(d) + concat_lines(
        d.nodes_added,
        |n: NodeV| node_line("+node"@, n),
    ) + concat_lines(d.nodes_removed, |n: NodeV| node_line("-node"@, n)) + concat_lines(
        d.nodes_changed,
        |c: NodeChangeV| node_change_lines(c),
    ) + concat_lines(d.relations_added, |r: RelationV| relation_line("+relation"@, r))
        + concat_lines(d.relations_removed, |r: RelationV| relation_line("-relation"@, r))
}

#[verifier::spinoff_prover]
#[verifier::rlimit(50)]
fn push_diff_head(out: &mut String, diff: &WitnessDiff)
    ensures
        final(out)@ == old(out)@ + diff_header(diff@) + version_part(diff@) + viewport_part(diff@),
{
    push_str(out, "diff");
    push_frame_part(out, " before_frame=", diff.before_frame);
    push_frame_part(out, " after_frame=", diff.after_frame);
    push_str(out, "\n");
    let ghost o1 = out@;
    match &diff.version_change {
        Some(c) => {
            push_str(out, "change scope=view field=version before=");
            write_json(out, &c.before);
            push_str(out, " after=");
            write_json(out, &c.after);
            push_str(out, "\n");
        },
        None => {},
    }
    assert(out@ =~= o1 + version_part(diff@));
    let ghost o2 = out@;
    match &diff.viewport_change {
        Some(c) => {
            push_str(out, "change scope=view field=viewport before=");
            push_viewport(out, &c.before);
            push_str(out, " after=");
            push_viewport(out, &c.after);
            push_str(out, "\n");
        },
        None => {},
    }
    assert(out@ =~= o2 + viewport_part(diff@));
    assert(out@ =~= old(out)@ + diff_header(diff@) + version_part(diff@) + viewport_part(diff@));
}

fn push_node_lines(out: &mut String, prefix: &str, nodes: &Vec<Node>)
    ensures
        final(out)@ == old(out)@ + concat_lines(nodes_view(nodes@), |n: NodeV| node_line(prefix@, n)),
{
    let ghost v = nodes_view(nodes@);
    let ghost f = |n: NodeV| node_line(prefix@, n);
    let mut j: usize = 0;
    while j < nodes.len()
        invariant
            v == nodes_view(nodes@),
            f == (|n: NodeV| node_line(prefix@, n)),
            j <= nodes.len(),
            out@ == old(out)@ + concat_lines(v.take(j as int), f),
        decreases nodes.len() - j,
    {
        proof {
            lemma_concat_lines_step(v, f, j as int);
        }
        append_node(out, prefix, &nodes[j]);
        j = j + 1;
    }
    assert(v.take(nodes.len() as int) =~= v);
}

fn push_relation_lines(out: &mut String, prefix: &str, rels: &Vec<Relation>)
    ensures
        final(out)@ == old(out)@ + concat_lines(
            relations_view(rels@),
            |r: RelationV| relation_line(prefix@, r),
        ),
{
    let ghost v = relations_view(rels@);
    let ghost f = |r: RelationV| relation_line(prefix@, r);
    let mut j: usize = 0;
    while j < rels.len()
        invariant
            v == relations_view(rels@),
            f == (|r: RelationV| relation_line(prefix@, r)),
            j <= rels.len(),
            out@ == old(out)@ + concat_lines(v.take(j as int), f),
        decreases rels.len() - j,
    {
        proof {
            lemma_concat_lines_step(v, f, j as int);
        }
        append_relation(out, prefix, &rels[j]);
        j = j + 1;
    }
    assert(v.take(rels.len() as int) =~= v);
}

fn push_node_change_lines(out: &mut String, change: &crate::diff::NodeChange)
    ensures
        final(out)@ == old(out)@ + node_change_lines(change@),
{
    let ghost c = change@;
    let ghost v = fields_view(change.fields@);
    let ghost f = |f: (Seq<char>, crate::diff::FieldChangeV)|
        "change node="@ + json_quote(c.id) + " field="@ + json_quote(f.0) + " before="@ + json_text(
            f.1.before,
        ) + " after="@ + json_text(f.1.after) + "\n"@;
    let mut j: usize = 0;
    while j < change.fields.len()
        invariant
            c == change@,
            v == fields_view(change.fields@),
            v == c.fields,
            f == (|f: (Seq<char>, crate::diff::FieldChangeV)|
                "change node="@ + json_quote(c.id) + " field="@ + json_quote(f.0) + " before="@
                    + json_text(f.1.before) + " after="@ + json_text(f.1.after) + "\n"@),
            j <= change.fields.len(),
            out@ == old(out)@ + concat_lines(v.take(j as int), f),
        decreases change.fields.len() - j,
    {
        proof {
            lemma_concat_lines_step(v, f, j as int);
        }
        let ghost o = out@;
        let (field, value) = &change.fields[j];
        push_str(out, "change node=");
        push_json_str(out, change.id.as_str());
        push_str(out, " field=");
        push_json_str(out, field.as_str());
        push_str(out, " before=");
        write_json(out, &value.before);
        push_str(out, " after=");
        write_json(out, &value.after);
        push_str(out, "\n");
        assert(out@ =~= o + f(v[j as int]));
        j = j + 1;
    }
    assert(v.take(change.fields.len() as int) =~= v);
}

/// Project a witness diff into compact deterministic agent text.
pub fn diff_to_agent_text(diff: &WitnessDiff) -> (text: String)
    ensures
        text@ == diff_text(diff@),
{
    let ghost d = diff@;
    let mut out = String::new();
    push_diff_head(&mut out, diff);
    push_node_lines(&mut out, "+node", &diff.nodes_added);
    push_node_lines(&mut out, "-node", &diff.nodes_removed);
    let ghost v = node_changes_view(diff.nodes_changed@);
    let ghost f = |c: NodeChangeV| node_change_lines(c);
    let ghost base = out@;
    let mut j: usize = 0;
    while j < diff.nodes_changed.len()
        invariant
            v == node_changes_view(diff.nodes_changed@),
            f == (|c: NodeChangeV| node_change_lines(c)),
            j <= diff.nodes_changed.len(),
            out@ == base + concat_lines(v.take(j as int), f),
        decreases diff.nodes_changed.len() - j,
    {
        proof {
            lemma_concat_lines_step(v, f, j as int);
        }
        push_node_change_lines(&mut out, &diff.nodes_changed[j]);
        j = j + 1;
    }
    assert(v.take(diff.nodes_changed.len() as int) =~= v);
    push_relation_lines(&mut out, "+relation", &diff.relations_added);
    push_relation_lines(&mut out, "-relation", &diff.relations_removed);
    assert(out@ =~= diff_text(d));
    out
}

} // verus!
