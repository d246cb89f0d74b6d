//! What a field-by-field comparison reports: exactly the compared fields
//! whose two sides differ, each with its two values.
use vstd::prelude::*;

use crate::diff::{
    relation_diff, relation_key, relation_keys, relation_step, relations_over, NodeChangeV, node_diff, node_ids, node_step, nodes_over, witness_diff, FieldChangeV, bool_opt_json, change_if, identity_json, json_opt_json, node_change_fields,
    rect_opt_eq, rect_opt_json, str_opt_json, strings_json,
};
use crate::egui_annotation::{BindingV, layer_order_name};
use crate::egui_diff::{ChurnV, matched_binding_diff, BindingChangeV, keyed_step, kind_opt_json, last_with_key, material_binding_fields};
use crate::egui_annotation::ObjectV;
use crate::json::{JsonV, NumberV, json_eq};
use crate::model::{NodeV, RelationV, WitnessV};
use crate::text::{key_set, last_index_of, lemma_last_index_of, lemma_sorted_listing_exists, sorted_listing};

verus! {

/// One compared field: its name, whether its two sides differ, and the
/// values of the two sides.
pub ghost struct Compared {
    pub name: Seq<char>,
    pub differs: bool,
    pub before: JsonV,
    pub after: JsonV,
}

/// The change entries of the compared fields that differ, in order.
pub open spec fn reported(cs: Seq<Compared>) -> Seq<(Seq<char>, FieldChangeV)>
    decreases cs.len(),
{
    if cs.len() == 0 {
        Seq::empty()
    } else {
        let c = cs.last();
        reported(cs.drop_last()) + change_if(c.differs, c.name, c.before, c.after)
    }
}

/// The change entry of a compared field.
pub open spec fn entry_of(c: Compared) -> (Seq<char>, FieldChangeV) {
    (c.name, FieldChangeV { before: c.before, after: c.after })
}

proof fn lemma_reported_step(cs: Seq<Compared>, k: int)
    requires
        0 <= k < cs.len(),
    ensures
        reported(cs.take(k + 1)) == reported(cs.take(k)) + change_if(
            cs[k].differs,
            cs[k].name,
            cs[k].before,
            cs[k].after,
        ),
{
    assert(cs.take(k + 1).drop_last() =~= cs.take(k));
}

pub open spec fn piece(c: Compared) -> Seq<(Seq<char>, FieldChangeV)> {
    change_if(c.differs, c.name, c.before, c.after)
}

proof fn lemma_reported_13(cs: Seq<Compared>)
    requires
        cs.len() == 13,
    ensures
        reported(cs) == piece(cs[0]) + piece(cs[1]) + piece(cs[2]) + piece(cs[3]) + piece(cs[4]) + piece(cs[5])
            + piece(cs[6]) + piece(cs[7]) + piece(cs[8]) + piece(cs[9]) + piece(cs[10]) + piece(cs[11])
            + piece(cs[12]),
{
    assert(reported(cs.take(0)) =~= Seq::<(Seq<char>, FieldChangeV)>::empty());
    lemma_reported_step(cs, 0);
    lemma_reported_step(cs, 1);
    lemma_reported_step(cs, 2);
    lemma_reported_step(cs, 3);
    lemma_reported_step(cs, 4);
    lemma_reported_step(cs, 5);
    lemma_reported_step(cs, 6);
    lemma_reported_step(cs, 7);
    lemma_reported_step(cs, 8);
    lemma_reported_step(cs, 9);
    lemma_reported_step(cs, 10);
    lemma_reported_step(cs, 11);
    lemma_reported_step(cs, 12);
    assert(cs.take(13) =~= cs);
    assert(reported(cs.take(1)) =~= piece(cs[0]));
}

proof fn lemma_reported_7(cs: Seq<Compared>)
    requires
        cs.len() == 7,
    ensures
        reported(cs) == piece(cs[0]) + piece(cs[1]) + piece(cs[2]) + piece(cs[3]) + piece(cs[4]) + piece(cs[5])
            + piece(cs[6]),
{
    assert(reported(cs.take(0)) =~= Seq::<(Seq<char>, FieldChangeV)>::empty());
    lemma_reported_step(cs, 0);
    lemma_reported_step(cs, 1);
    lemma_reported_step(cs, 2);
    lemma_reported_step(cs, 3);
    lemma_reported_step(cs, 4);
    lemma_reported_step(cs, 5);
    lemma_reported_step(cs, 6);
    assert(cs.take(7) =~= cs);
    assert(reported(cs.take(1)) =~= piece(cs[0]));
}

proof fn lemma_reported(cs: Seq<Compared>)
    ensures
        forall|k: int| 0 <= k < cs.len() && cs[k].differs ==> reported(cs).contains(#[trigger] entry_of(cs[k])),
        forall|j: int|
            0 <= j < reported(cs).len() ==> exists|k: int|
                0 <= k < cs.len() && cs[k].differs && #[trigger] reported(cs)[j] == entry_of(cs[k]),
        reported(cs).len() == 0 <==> forall|k: int| 0 <= k < cs.len() ==> !(#[trigger] cs[k]).differs,
    decreases cs.len(),
{
    if cs.len() > 0 {
        let d = cs.drop_last();
        let n = cs.len() - 1;
        lemma_reported(d);
        let r0 = reported(d);
        let t = change_if(cs[n].differs, cs[n].name, cs[n].before, cs[n].after);
        let r = reported(cs);
        assert(r == r0 + t);
        assert forall|k: int| 0 <= k < cs.len() && cs[k].differs implies r.contains(#[trigger] entry_of(cs[k])) by {
            if k < n {
                assert(d[k] == cs[k]);
                assert(r0.contains(entry_of(d[k])));
                let w = choose|w: int| 0 <= w < r0.len() && r0[w] == entry_of(d[k]);
                assert(r[w] == r0[w]);
            } else {
                assert(r[r0.len() as int] == entry_of(cs[k]));
            }
        }
        assert forall|j: int| 0 <= j < r.len() implies exists|k: int|
            0 <= k < cs.len() && cs[k].differs && #[trigger] r[j] == entry_of(cs[k]) by {
            if j < r0.len() {
                assert(r[j] == r0[j]);
                let k = choose|k: int| 0 <= k < d.len() && d[k].differs && #[trigger] r0[j] == entry_of(d[k]);
                assert(d[k] == cs[k]);
            } else {
                assert(r[j] == entry_of(cs[n]));
            }
        }
        if r.len() == 0 {
            assert forall|k: int| 0 <= k < cs.len() implies !(#[trigger] cs[k]).differs by {
                if k < n {
                    assert(d[k] == cs[k]);
                }
            }
        } else if forall|k: int| 0 <= k < cs.len() ==> !(#[trigger] cs[k]).differs {
            assert forall|k: int| 0 <= k < d.len() implies !(#[trigger] d[k]).differs by {
                assert(d[k] == cs[k]);
            }
            assert(!cs[n].differs);
        }
    }
}

// ---------------------------------------------------------------------------
// Node changes.
// ---------------------------------------------------------------------------

/// The serialized fields of a node other than its ID, by name, as JSON.
pub open spec fn node_serialized_fields(n: NodeV) -> Seq<(Seq<char>, JsonV)> {
    seq![
        ("actions"@, strings_json(n.actions)),
        ("bounds"@, rect_opt_json(n.bounds)),
        ("enabled"@, bool_opt_json(n.enabled)),
        ("focused"@, bool_opt_json(n.focused)),
        ("identity"@, identity_json(n.identity)),
        ("name"@, str_opt_json(n.name)),
        ("parent"@, str_opt_json(n.parent)),
        ("properties"@, JsonV::Object(n.properties)),
        ("role"@, JsonV::Str(n.role)),
        ("selected"@, bool_opt_json(n.selected)),
        ("text"@, str_opt_json(n.text)),
        ("value"@, json_opt_json(n.value)),
        ("visible"@, bool_opt_json(n.visible)),
    ]
}

/// Each serialized field of two nodes compared by JSON equality.
pub open spec fn compare_serialized(fb: Seq<(Seq<char>, JsonV)>, fa: Seq<(Seq<char>, JsonV)>) -> Seq<Compared> {
    Seq::new(
        fb.len(),
        |k: int| Compared { name: fb[k].0, differs: !json_eq(fb[k].1, fa[k].1), before: fb[k].1, after: fa[k].1 },
    )
}

#[verifier::spinoff_prover]
proof fn lemma_node_change_fields_reported(b: NodeV, a: NodeV)
    ensures
        node_change_fields(b, a) == reported(compare_serialized(node_serialized_fields(b), node_serialized_fields(a))),
{
    let cs = compare_serialized(node_serialized_fields(b), node_serialized_fields(a));
    lemma_reported_13(cs);
}

/// The change list of two nodes reports exactly the serialized fields (every
/// field but the ID) whose JSON values differ, each with its value before and
/// after; it is empty exactly when every serialized field is equal.
pub proof fn law_node_changes_are_the_differing_fields(b: NodeV, a: NodeV)
    ensures
        ({
            let fb = node_serialized_fields(b);
            let fa = node_serialized_fields(a);
            let ch = node_change_fields(b, a);
            &&& forall|k: int|
                0 <= k < fb.len() && !json_eq(fb[k].1, fa[k].1) ==> ch.contains(
                    (fb[k].0, FieldChangeV { before: fb[k].1, after: fa[k].1 }),
                )
            &&& forall|j: int|
                0 <= j < ch.len() ==> exists|k: int|
                    0 <= k < fb.len() && !json_eq(fb[k].1, fa[k].1) && #[trigger] ch[j] == (
                        fb[k].0,
                        FieldChangeV { before: fb[k].1, after: fa[k].1 },
                    )
            &&& ch.len() == 0 <==> forall|k: int| 0 <= k < fb.len() ==> json_eq(#[trigger] fb[k].1, fa[k].1)
        }),
{
    let fb = node_serialized_fields(b);
    let fa = node_serialized_fields(a);
    let cs = compare_serialized(fb, fa);
    lemma_node_change_fields_reported(b, a);
    lemma_reported(cs);
    let ch = node_change_fields(b, a);
    assert forall|k: int| 0 <= k < fb.len() && !json_eq(fb[k].1, fa[k].1) implies ch.contains(
        (fb[k].0, FieldChangeV { before: fb[k].1, after: fa[k].1 }),
    ) by {
        assert(cs[k].differs);
        assert(reported(cs).contains(entry_of(cs[k])));
    }
    assert forall|j: int| 0 <= j < ch.len() implies exists|k: int|
        0 <= k < fb.len() && !json_eq(fb[k].1, fa[k].1) && #[trigger] ch[j] == (
            fb[k].0,
            FieldChangeV { before: fb[k].1, after: fa[k].1 },
        ) by {
        let k = choose|k: int| 0 <= k < cs.len() && cs[k].differs && #[trigger] reported(cs)[j] == entry_of(cs[k]);
        assert(ch[j] == (fb[k].0, FieldChangeV { before: fb[k].1, after: fa[k].1 }));
    }
    if ch.len() == 0 {
        assert forall|k: int| 0 <= k < fb.len() implies json_eq(#[trigger] fb[k].1, fa[k].1) by {
            assert(!cs[k].differs);
        }
    } else {
        let k = choose|k: int| 0 <= k < cs.len() && (#[trigger] cs[k]).differs;
        assert(!json_eq(fb[k].1, fa[k].1));
    }
}

// ---------------------------------------------------------------------------
// Binding changes.
// ---------------------------------------------------------------------------

/// The material fields of two bindings: evidence, bounds and clip rectangle
/// (coordinate-wise), kind, layer and its order, and the verification flag.
pub open spec fn binding_comparison(b: BindingV, a: BindingV) -> Seq<Compared> {
    seq![
        Compared {
            name: "binding_evidence"@,
            differs: b.binding_evidence != a.binding_evidence,
            before: JsonV::Str(b.binding_evidence),
            after: JsonV::Str(a.binding_evidence),
        },
        Compared {
            name: "bounds"@,
            differs: !rect_opt_eq(b.bounds, a.bounds),
            before: rect_opt_json(b.bounds),
            after: rect_opt_json(a.bounds),
        },
        Compared {
            name: "clip_rect"@,
            differs: !rect_opt_eq(b.clip_rect, a.clip_rect),
            before: rect_opt_json(b.clip_rect),
            after: rect_opt_json(a.clip_rect),
        },
        Compared { name: "kind"@, differs: b.kind != a.kind, before: kind_opt_json(b.kind), after: kind_opt_json(a.kind) },
        Compared {
            name: "layer_id"@,
            differs: b.layer_id != a.layer_id,
            before: JsonV::Number(NumberV::PosInt(b.layer_id)),
            after: JsonV::Number(NumberV::PosInt(a.layer_id)),
        },
        Compared {
            name: "layer_order"@,
            differs: b.layer_order != a.layer_order,
            before: JsonV::Str(layer_order_name(b.layer_order)),
            after: JsonV::Str(layer_order_name(a.layer_order)),
        },
        Compared {
            name: "verified_at_end_pass"@,
            differs: b.verified_at_end_pass != a.verified_at_end_pass,
            before: JsonV::Bool(b.verified_at_end_pass),
            after: JsonV::Bool(a.verified_at_end_pass),
        },
    ]
}

/// The material changes of two bindings are exactly the material fields
/// whose sides differ, each with its value before and after: in particular
/// a clip rectangle that is not coordinate-wise equal is reported as
/// `clip_rect`, and there is no change only when evidence, bounds, clip
/// rectangle, kind, layer, layer order and verification flag all agree.
#[verifier::spinoff_prover]
pub proof fn law_binding_changes_are_the_differing_fields(b: BindingV, a: BindingV)
    ensures
        ({
            let cs = binding_comparison(b, a);
            let ch = material_binding_fields(b, a);
            &&& forall|k: int| 0 <= k < cs.len() && cs[k].differs ==> ch.contains(#[trigger] entry_of(cs[k]))
            &&& forall|j: int|
                0 <= j < ch.len() ==> exists|k: int| 0 <= k < cs.len() && cs[k].differs && #[trigger] ch[j] == entry_of(cs[k])
            &&& ch.len() == 0 <==> forall|k: int| 0 <= k < cs.len() ==> !(#[trigger] cs[k]).differs
        }),
        !rect_opt_eq(b.clip_rect, a.clip_rect) ==> material_binding_fields(b, a).contains(
            ("clip_rect"@, FieldChangeV { before: rect_opt_json(b.clip_rect), after: rect_opt_json(a.clip_rect) }),
        ),
        material_binding_fields(b, a).len() == 0 <==> (b.binding_evidence == a.binding_evidence && rect_opt_eq(
            b.bounds,
            a.bounds,
        ) && rect_opt_eq(b.clip_rect, a.clip_rect) && b.kind == a.kind && b.layer_id == a.layer_id
            && b.layer_order == a.layer_order && b.verified_at_end_pass == a.verified_at_end_pass),
{
    let cs = binding_comparison(b, a);
    lemma_reported_7(cs);
    assert(material_binding_fields(b, a) == reported(cs));
    lemma_reported(cs);
    assert(entry_of(cs[2]) == ("clip_rect"@, FieldChangeV { before: rect_opt_json(b.clip_rect), after: rect_opt_json(a.clip_rect) }));
    if material_binding_fields(b, a).len() == 0 {
        assert(!cs[0].differs && !cs[1].differs && !cs[2].differs && !cs[3].differs && !cs[4].differs
            && !cs[5].differs && !cs[6].differs);
    }
}

proof fn lemma_concat_keeps<A>(x: Seq<A>, y: Seq<A>)
    ensures
        forall|e: A| x.contains(e) ==> (x + y).contains(e),
        forall|e: A| y.contains(e) ==> (x + y).contains(e),
{
    assert forall|e: A| x.contains(e) implies (x + y).contains(e) by {
        let w = choose|w: int| 0 <= w < x.len() && x[w] == e;
        assert((x + y)[w] == e);
    }
    assert forall|e: A| y.contains(e) implies (x + y).contains(e) by {
        let w = choose|w: int| 0 <= w < y.len() && y[w] == e;
        assert((x + y)[x.len() + w] == e);
    }
}

#[verifier::spinoff_prover]
#[verifier::rlimit(60)]
proof fn lemma_nodes_over_lists(b: Seq<NodeV>, a: Seq<NodeV>, ks: Seq<Seq<char>>, k: int)
    requires
        0 <= k < ks.len(),
    ensures
        forall|x: NodeChangeV| node_step(b, a, ks[k]).changed.contains(x) ==> nodes_over(b, a, ks).changed.contains(x),
    decreases ks.len(),
{
    let d = ks.drop_last();
    let prev = nodes_over(b, a, d).changed;
    let last = node_step(b, a, ks.last()).changed;
    assert(nodes_over(b, a, ks).changed == prev + last);
    lemma_concat_keeps(prev, last);
    assert forall|x: NodeChangeV| node_step(b, a, ks[k]).changed.contains(x) implies nodes_over(b, a, ks).changed.contains(x) by {
        if k < ks.len() - 1 {
            lemma_nodes_over_lists(b, a, d, k);
            assert(d[k] == ks[k]);
            assert(prev.contains(x));
        } else {
            assert(ks[k] == ks.last());
            assert(last.contains(x));
        }
    }
}

#[verifier::spinoff_prover]
#[verifier::rlimit(60)]
proof fn lemma_nodes_over_lists_added(b: Seq<NodeV>, a: Seq<NodeV>, ks: Seq<Seq<char>>, k: int)
    requires
        0 <= k < ks.len(),
    ensures
        forall|x: NodeV| node_step(b, a, ks[k]).added.contains(x) ==> nodes_over(b, a, ks).added.contains(x),
    decreases ks.len(),
{
    let d = ks.drop_last();
    let prev = nodes_over(b, a, d).added;
    let last = node_step(b, a, ks.last()).added;
    assert(nodes_over(b, a, ks).added == prev + last);
    lemma_concat_keeps(prev, last);
    assert forall|x: NodeV| node_step(b, a, ks[k]).added.contains(x) implies nodes_over(b, a, ks).added.contains(x) by {
        if k < ks.len() - 1 {
            lemma_nodes_over_lists_added(b, a, d, k);
            assert(d[k] == ks[k]);
            assert(prev.contains(x));
        } else {
            assert(ks[k] == ks.last());
            assert(last.contains(x));
        }
    }
}

#[verifier::spinoff_prover]
#[verifier::rlimit(60)]
proof fn lemma_nodes_over_lists_removed(b: Seq<NodeV>, a: Seq<NodeV>, ks: Seq<Seq<char>>, k: int)
    requires
        0 <= k < ks.len(),
    ensures
        forall|x: NodeV| node_step(b, a, ks[k]).removed.contains(x) ==> nodes_over(b, a, ks).removed.contains(x),
    decreases ks.len(),
{
    let d = ks.drop_last();
    let prev = nodes_over(b, a, d).removed;
    let last = node_step(b, a, ks.last()).removed;
    assert(nodes_over(b, a, ks).removed == prev + last);
    lemma_concat_keeps(prev, last);
    assert forall|x: NodeV| node_step(b, a, ks[k]).removed.contains(x) implies nodes_over(b, a, ks).removed.contains(x) by {
        if k < ks.len() - 1 {
            lemma_nodes_over_lists_removed(b, a, d, k);
            assert(d[k] == ks[k]);
            assert(prev.contains(x));
        } else {
            assert(ks[k] == ks.last());
            assert(last.contains(x));
        }
    }
}

proof fn lemma_unique_last(ns: Seq<NodeV>, i: int)
    requires
        0 <= i < ns.len(),
        forall|p: int, q: int| 0 <= p < q < ns.len() ==> #[trigger] ns[p].id != #[trigger] ns[q].id,
    ensures
        last_index_of(node_ids(ns), ns[i].id) == i,
{
    let ids = node_ids(ns);
    lemma_last_index_of(ids, ns[i].id);
    assert(ids[i] == ns[i].id);
    let l = last_index_of(ids, ns[i].id);
    assert(ids[l] == ns[l].id);
    if l != i {
        if l < i {
            assert(ns[l].id != ns[i].id);
        } else {
            assert(ns[i].id != ns[l].id);
        }
    }
}

/// In the diff of two witnesses whose node IDs are unique, a node present
/// on both sides with some serialized field changed is listed among the
/// changed nodes under its ID with exactly its changed fields (so a changed
/// value is reported, and the diff is not empty).
pub proof fn law_changed_node_is_listed(b: WitnessV, a: WitnessV, i: int, j: int)
    requires
        0 <= i < b.nodes.len(),
        0 <= j < a.nodes.len(),
        b.nodes[i].id == a.nodes[j].id,
        forall|p: int, q: int| 0 <= p < q < b.nodes.len() ==> #[trigger] b.nodes[p].id != #[trigger] b.nodes[q].id,
        forall|p: int, q: int| 0 <= p < q < a.nodes.len() ==> #[trigger] a.nodes[p].id != #[trigger] a.nodes[q].id,
        node_change_fields(b.nodes[i], a.nodes[j]).len() > 0,
    ensures
        witness_diff(b, a).nodes_changed.contains(
            NodeChangeV { id: b.nodes[i].id, fields: node_change_fields(b.nodes[i], a.nodes[j]) },
        ),
        witness_diff(b, a).nodes_changed.len() > 0,
{
    let id = b.nodes[i].id;
    let all = node_ids(b.nodes) + node_ids(a.nodes);
    lemma_sorted_listing_exists(all);
    let ks = sorted_listing(key_set(all));
    assert(all[i] == id);
    assert(key_set(all).contains(id));
    assert(ks.contains(id));
    let k = choose|k: int| 0 <= k < ks.len() && ks[k] == id;
    lemma_unique_last(b.nodes, i);
    lemma_unique_last(a.nodes, j);
    let c = NodeChangeV { id, fields: node_change_fields(b.nodes[i], a.nodes[j]) };
    assert(node_step(b.nodes, a.nodes, id).changed == seq![c]);
    assert(node_step(b.nodes, a.nodes, id).changed[0] == c);
    lemma_nodes_over_lists(b.nodes, a.nodes, ks, k);
    assert(node_diff(b.nodes, a.nodes) == nodes_over(b.nodes, a.nodes, ks));
}

/// In the diff of two witnesses whose node IDs are unique, a node present on
/// both sides whose value changed is listed among the changed nodes with a
/// `value` field change from the old value to the new one.
pub proof fn law_value_change_is_reported(b: WitnessV, a: WitnessV, i: int, j: int)
    requires
        0 <= i < b.nodes.len(),
        0 <= j < a.nodes.len(),
        b.nodes[i].id == a.nodes[j].id,
        forall|p: int, q: int| 0 <= p < q < b.nodes.len() ==> #[trigger] b.nodes[p].id != #[trigger] b.nodes[q].id,
        forall|p: int, q: int| 0 <= p < q < a.nodes.len() ==> #[trigger] a.nodes[p].id != #[trigger] a.nodes[q].id,
        !json_eq(json_opt_json(b.nodes[i].value), json_opt_json(a.nodes[j].value)),
    ensures
        exists|c: NodeChangeV|
            #[trigger] witness_diff(b, a).nodes_changed.contains(c) && c.id == b.nodes[i].id && c.fields.contains(
                (
                    "value"@,
                    FieldChangeV {
                        before: json_opt_json(b.nodes[i].value),
                        after: json_opt_json(a.nodes[j].value),
                    },
                ),
            ),
{
    let bn = b.nodes[i];
    let an = a.nodes[j];
    law_node_changes_are_the_differing_fields(bn, an);
    let fb = node_serialized_fields(bn);
    let fa = node_serialized_fields(an);
    assert(fb[11] == ("value"@, json_opt_json(bn.value)));
    assert(fa[11] == ("value"@, json_opt_json(an.value)));
    assert(node_change_fields(bn, an).contains((fb[11].0, FieldChangeV { before: fb[11].1, after: fa[11].1 })));
    let w = choose|w: int| 0 <= w < node_change_fields(bn, an).len() && node_change_fields(bn, an)[w] == (
        fb[11].0,
        FieldChangeV { before: fb[11].1, after: fa[11].1 },
    );
    law_changed_node_is_listed(b, a, i, j);
    let c = NodeChangeV { id: bn.id, fields: node_change_fields(bn, an) };
    assert(witness_diff(b, a).nodes_changed.contains(c));
}

proof fn lemma_last_with_key(bs: Seq<BindingV>, k: Seq<char>, i: int)
    requires
        0 <= i < bs.len(),
        bs[i].authored_binding_id == Some(k),
        forall|j: int| i < j < bs.len() ==> (#[trigger] bs[j]).authored_binding_id != Some(k),
    ensures
        last_with_key(bs, k) == i,
    decreases bs.len(),
{
    if i < bs.len() - 1 {
        let d = bs.drop_last();
        assert forall|j: int| i < j < d.len() implies (#[trigger] d[j]).authored_binding_id != Some(k) by {
            assert(d[j] == bs[j]);
        }
        assert(d[i] == bs[i]);
        lemma_last_with_key(d, k, i);
    }
}

/// Two bindings matched by their authored key (the last binding carrying the
/// key on each side) give a change record exactly when some material field
/// differs, and the record lists exactly those fields under the object and
/// the key.
pub proof fn law_keyed_binding_change_is_reported(b: ObjectV, a: ObjectV, k: Seq<char>, ib: int, ia: int)
    requires
        0 <= ib < b.bindings.len(),
        0 <= ia < a.bindings.len(),
        b.bindings[ib].authored_binding_id == Some(k),
        a.bindings[ia].authored_binding_id == Some(k),
        forall|j: int| ib < j < b.bindings.len() ==> (#[trigger] b.bindings[j]).authored_binding_id != Some(k),
        forall|j: int| ia < j < a.bindings.len() ==> (#[trigger] a.bindings[j]).authored_binding_id != Some(k),
    ensures
        keyed_step(b, a, k).changed.len() > 0 <==> material_binding_fields(b.bindings[ib], a.bindings[ia]).len() > 0,
        material_binding_fields(b.bindings[ib], a.bindings[ia]).len() > 0 ==> keyed_step(b, a, k).changed == seq![
            BindingChangeV {
                object_id: b.id,
                authored_binding_id: Some(k),
                unkeyed_ordinal: None,
                fields: material_binding_fields(b.bindings[ib], a.bindings[ia]),
            },
        ],
{
    lemma_last_with_key(b.bindings, k, ib);
    lemma_last_with_key(a.bindings, k, ia);
}

/// The listing of all node IDs of two witnesses holds every ID of either.
proof fn lemma_id_listed(b: WitnessV, a: WitnessV, id: Seq<char>)
    requires
        node_ids(b.nodes).contains(id) || node_ids(a.nodes).contains(id),
    ensures
        sorted_listing(key_set(node_ids(b.nodes) + node_ids(a.nodes))).contains(id),
{
    let all = node_ids(b.nodes) + node_ids(a.nodes);
    lemma_sorted_listing_exists(all);
    lemma_concat_keeps(node_ids(b.nodes), node_ids(a.nodes));
    assert(key_set(all).contains(id));
}

/// In the diff of two witnesses, a node of the after witness whose ID no
/// node of the before witness carries is listed as added, and a node of the
/// before witness whose ID no after node carries is listed as removed (node
/// IDs unique on the side it comes from).
pub proof fn law_added_and_removed_nodes_are_listed(b: WitnessV, a: WitnessV, i: int, j: int)
    requires
        forall|p: int, q: int| 0 <= p < q < b.nodes.len() ==> #[trigger] b.nodes[p].id != #[trigger] b.nodes[q].id,
        forall|p: int, q: int| 0 <= p < q < a.nodes.len() ==> #[trigger] a.nodes[p].id != #[trigger] a.nodes[q].id,
    ensures
        0 <= j < a.nodes.len() && (forall|p: int| 0 <= p < b.nodes.len() ==> (#[trigger] b.nodes[p]).id != a.nodes[j].id)
            ==> witness_diff(b, a).nodes_added.contains(a.nodes[j]),
        0 <= i < b.nodes.len() && (forall|q: int| 0 <= q < a.nodes.len() ==> (#[trigger] a.nodes[q]).id != b.nodes[i].id)
            ==> witness_diff(b, a).nodes_removed.contains(b.nodes[i]),
{
    let ks = sorted_listing(key_set(node_ids(b.nodes) + node_ids(a.nodes)));
    assert(node_diff(b.nodes, a.nodes) == nodes_over(b.nodes, a.nodes, ks));
    if 0 <= j < a.nodes.len() && (forall|p: int| 0 <= p < b.nodes.len() ==> (#[trigger] b.nodes[p]).id != a.nodes[j].id) {
        let id = a.nodes[j].id;
        assert(node_ids(a.nodes)[j] == id);
        lemma_id_listed(b, a, id);
        let k = choose|k: int| 0 <= k < ks.len() && ks[k] == id;
        lemma_last_index_of(node_ids(b.nodes), id);
        if node_ids(b.nodes).contains(id) {
            let w = choose|w: int| 0 <= w < node_ids(b.nodes).len() && node_ids(b.nodes)[w] == id;
            assert(b.nodes[w].id == id);
        }
        lemma_unique_last(a.nodes, j);
        assert(node_step(b.nodes, a.nodes, id).added == seq![a.nodes[j]]);
        assert(node_step(b.nodes, a.nodes, id).added[0] == a.nodes[j]);
        lemma_nodes_over_lists_added(b.nodes, a.nodes, ks, k);
    }
    if 0 <= i < b.nodes.len() && (forall|q: int| 0 <= q < a.nodes.len() ==> (#[trigger] a.nodes[q]).id != b.nodes[i].id) {
        let id = b.nodes[i].id;
        assert(node_ids(b.nodes)[i] == id);
        lemma_id_listed(b, a, id);
        let k = choose|k: int| 0 <= k < ks.len() && ks[k] == id;
        lemma_last_index_of(node_ids(a.nodes), id);
        if node_ids(a.nodes).contains(id) {
            let w = choose|w: int| 0 <= w < node_ids(a.nodes).len() && node_ids(a.nodes)[w] == id;
            assert(a.nodes[w].id == id);
        }
        lemma_unique_last(b.nodes, i);
        assert(node_step(b.nodes, a.nodes, id).removed == seq![b.nodes[i]]);
        assert(node_step(b.nodes, a.nodes, id).removed[0] == b.nodes[i]);
        lemma_nodes_over_lists_removed(b.nodes, a.nodes, ks, k);
    }
}

#[verifier::spinoff_prover]
proof fn lemma_relations_over_added(b: Seq<RelationV>, a: Seq<RelationV>, ks: Seq<Seq<char>>, k: int)
    requires
        0 <= k < ks.len(),
    ensures
        forall|x: RelationV| relation_step(b, a, ks[k]).added.contains(x) ==> relations_over(b, a, ks).added.contains(x),
    decreases ks.len(),
{
    let d = ks.drop_last();
    let prev = relations_over(b, a, d).added;
    let last = relation_step(b, a, ks.last()).added;
    assert(relations_over(b, a, ks).added == prev + last);
    lemma_concat_keeps(prev, last);
    assert forall|x: RelationV| relation_step(b, a, ks[k]).added.contains(x) implies relations_over(b, a, ks).added.contains(x) by {
        if k < ks.len() - 1 {
            lemma_relations_over_added(b, a, d, k);
            assert(d[k] == ks[k]);
            assert(prev.contains(x));
        } else {
            assert(ks[k] == ks.last());
            assert(last.contains(x));
        }
    }
}

#[verifier::spinoff_prover]
proof fn lemma_relations_over_removed(b: Seq<RelationV>, a: Seq<RelationV>, ks: Seq<Seq<char>>, k: int)
    requires
        0 <= k < ks.len(),
    ensures
        forall|x: RelationV| relation_step(b, a, ks[k]).removed.contains(x) ==> relations_over(b, a, ks).removed.contains(x),
    decreases ks.len(),
{
    let d = ks.drop_last();
    let prev = relations_over(b, a, d).removed;
    let last = relation_step(b, a, ks.last()).removed;
    assert(relations_over(b, a, ks).removed == prev + last);
    lemma_concat_keeps(prev, last);
    assert forall|x: RelationV| relation_step(b, a, ks[k]).removed.contains(x) implies relations_over(b, a, ks).removed.contains(x) by {
        if k < ks.len() - 1 {
            lemma_relations_over_removed(b, a, d, k);
            assert(d[k] == ks[k]);
            assert(prev.contains(x));
        } else {
            assert(ks[k] == ks.last());
            assert(last.contains(x));
        }
    }
}

proof fn lemma_unique_last_key(rs: Seq<RelationV>, i: int)
    requires
        0 <= i < rs.len(),
        forall|p: int, q: int| 0 <= p < q < rs.len() ==> relation_key(#[trigger] rs[p]) != relation_key(#[trigger] rs[q]),
    ensures
        last_index_of(relation_keys(rs), relation_key(rs[i])) == i,
{
    let ks = relation_keys(rs);
    lemma_last_index_of(ks, relation_key(rs[i]));
    assert(ks[i] == relation_key(rs[i]));
    let l = last_index_of(ks, relation_key(rs[i]));
    assert(ks[l] == relation_key(rs[l]));
    if l != i {
        if l < i {
            assert(relation_key(rs[l]) != relation_key(rs[i]));
        } else {
            assert(relation_key(rs[i]) != relation_key(rs[l]));
        }
    }
}

#[verifier::spinoff_prover]
#[verifier::rlimit(60)]
proof fn lemma_relation_added(b: WitnessV, a: WitnessV, j: int)
    requires
        forall|p: int, q: int|
            0 <= p < q < b.relations.len() ==> relation_key(#[trigger] b.relations[p]) != relation_key(#[trigger] b.relations[q]),
        forall|p: int, q: int|
            0 <= p < q < a.relations.len() ==> relation_key(#[trigger] a.relations[p]) != relation_key(#[trigger] a.relations[q]),
        0 <= j < a.relations.len(),
        forall|p: int| 0 <= p < b.relations.len() ==> relation_key(#[trigger] b.relations[p]) != relation_key(a.relations[j]),
    ensures
        witness_diff(b, a).relations_added.contains(a.relations[j]),
{
    let kb = relation_keys(b.relations);
    let ka = relation_keys(a.relations);
    let all = kb + ka;
    lemma_sorted_listing_exists(all);
    lemma_concat_keeps(kb, ka);
    let ks = sorted_listing(key_set(all));
    assert(relation_diff(b.relations, a.relations) == relations_over(b.relations, a.relations, ks));
    let key = relation_key(a.relations[j]);
    assert(ka[j] == key);
    assert(ka.contains(key));
    assert(all.contains(key));
    assert(key_set(all).contains(key));
    let k = choose|k: int| 0 <= k < ks.len() && ks[k] == key;
    lemma_last_index_of(kb, key);
    if kb.contains(key) {
        let w = choose|w: int| 0 <= w < kb.len() && kb[w] == key;
        assert(relation_key(b.relations[w]) == key);
    }
    lemma_unique_last_key(a.relations, j);
    assert(relation_step(b.relations, a.relations, key).added == seq![a.relations[j]]);
    assert(relation_step(b.relations, a.relations, key).added[0] == a.relations[j]);
    lemma_relations_over_added(b.relations, a.relations, ks, k);
}

#[verifier::spinoff_prover]
#[verifier::rlimit(60)]
proof fn lemma_relation_removed(b: WitnessV, a: WitnessV, i: int)
    requires
        forall|p: int, q: int|
            0 <= p < q < b.relations.len() ==> relation_key(#[trigger] b.relations[p]) != relation_key(#[trigger] b.relations[q]),
        forall|p: int, q: int|
            0 <= p < q < a.relations.len() ==> relation_key(#[trigger] a.relations[p]) != relation_key(#[trigger] a.relations[q]),
        0 <= i < b.relations.len(),
        forall|q: int| 0 <= q < a.relations.len() ==> relation_key(#[trigger] a.relations[q]) != relation_key(b.relations[i]),
    ensures
        witness_diff(b, a).relations_removed.contains(b.relations[i]),
{
    let kb = relation_keys(b.relations);
    let ka = relation_keys(a.relations);
    let all = kb + ka;
    lemma_sorted_listing_exists(all);
    lemma_concat_keeps(kb, ka);
    let ks = sorted_listing(key_set(all));
    assert(relation_diff(b.relations, a.relations) == relations_over(b.relations, a.relations, ks));
    let key = relation_key(b.relations[i]);
    assert(kb[i] == key);
    assert(kb.contains(key));
    assert(all.contains(key));
    assert(key_set(all).contains(key));
    let k = choose|k: int| 0 <= k < ks.len() && ks[k] == key;
    lemma_last_index_of(ka, key);
    if ka.contains(key) {
        let w = choose|w: int| 0 <= w < ka.len() && ka[w] == key;
        assert(relation_key(a.relations[w]) == key);
    }
    lemma_unique_last_key(b.relations, i);
    assert(relation_step(b.relations, a.relations, key).removed == seq![b.relations[i]]);
    assert(relation_step(b.relations, a.relations, key).removed[0] == b.relations[i]);
    lemma_relations_over_removed(b.relations, a.relations, ks, k);
}

/// In the diff of two witnesses, a relation of the after witness whose full
/// serialization no relation of the before witness has is listed as added,
/// and a relation of the before witness that no after relation matches is
/// listed as removed (serializations unique on the side it comes from).
pub proof fn law_added_and_removed_relations_are_listed(b: WitnessV, a: WitnessV, i: int, j: int)
    requires
        forall|p: int, q: int|
            0 <= p < q < b.relations.len() ==> relation_key(#[trigger] b.relations[p]) != relation_key(#[trigger] b.relations[q]),
        forall|p: int, q: int|
            0 <= p < q < a.relations.len() ==> relation_key(#[trigger] a.relations[p]) != relation_key(#[trigger] a.relations[q]),
    ensures
        0 <= j < a.relations.len() && (forall|p: int|
            0 <= p < b.relations.len() ==> relation_key(#[trigger] b.relations[p]) != relation_key(a.relations[j]))
            ==> witness_diff(b, a).relations_added.contains(a.relations[j]),
        0 <= i < b.relations.len() && (forall|q: int|
            0 <= q < a.relations.len() ==> relation_key(#[trigger] a.relations[q]) != relation_key(b.relations[i]))
            ==> witness_diff(b, a).relations_removed.contains(b.relations[i]),
{
    if 0 <= j < a.relations.len() && (forall|p: int|
        0 <= p < b.relations.len() ==> relation_key(#[trigger] b.relations[p]) != relation_key(a.relations[j])) {
        lemma_relation_added(b, a, j);
    }
    if 0 <= i < b.relations.len() && (forall|q: int|
        0 <= q < a.relations.len() ==> relation_key(#[trigger] a.relations[q]) != relation_key(b.relations[i])) {
        lemma_relation_removed(b, a, i);
    }
}
/// Two matched bindings give a change record when a material field differs
/// (listing exactly those fields), otherwise slot churn when only their
/// layer-local slot moved, otherwise nothing; no binding is added or removed.
pub proof fn law_matched_bindings_give_one_record(
    object_id: Seq<char>,
    key: Option<Seq<char>>,
    unkeyed_ordinal: Option<nat>,
    before_ordinal: nat,
    bb: BindingV,
    ab: BindingV,
)
    ensures
        ({
            let d = matched_binding_diff(object_id, key, unkeyed_ordinal, before_ordinal, bb, ab);
            let fields = material_binding_fields(bb, ab);
            &&& d.added.len() == 0 && d.removed.len() == 0
            &&& fields.len() > 0 ==> d.changed == seq![
                BindingChangeV { object_id, authored_binding_id: key, unkeyed_ordinal, fields },
            ] && d.churn.len() == 0
            &&& fields.len() == 0 && bb.shape_index != ab.shape_index ==> d.changed.len() == 0 && d.churn == seq![
                ChurnV {
                    id: object_id,
                    authored_binding_id: key,
                    binding_ordinal: before_ordinal,
                    before_shape_index: bb.shape_index as nat,
                    after_shape_index: ab.shape_index as nat,
                },
            ]
            &&& fields.len() == 0 && bb.shape_index == ab.shape_index ==> d.changed.len() == 0 && d.churn.len() == 0
        }),
{
}

} // verus!
