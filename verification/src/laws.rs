//! Properties that hold across the diff functions: what is not a material
//! change, stated over the same specifications the functions' contracts use.
use vstd::prelude::*;

use crate::diff::{
    FieldChangeV, NodeDiffV, RelationDiffV, bool_opt_json, change_if, change_unless_equal,
    identity_json, json_opt_json, measure_json, node_change_fields, node_diff, node_ids,
    node_step, nodes_over, rect_eq, rect_json, rect_opt_eq, rect_opt_json, relation_diff,
    relation_keys, relation_step, relations_over, str_opt_json, strings_json, viewport_eq,
    witness_diff, witness_diff_empty,
};
use crate::ieee::{f32_eq, f32_is_finite, f32_is_nan, lemma_widened_not_nan};
use crate::json::{
    JsonV, NumberV, json_eq, json_finite, lemma_items_eq, lemma_json_eq_refl, lemma_members_eq,
    lemma_members_eq_refl, members_at, members_finite,
};
use crate::model::{MeasureV, NodeV, RectV, ViewportV, WitnessV};
use crate::text::{is_sorted_listing, key_set, last_index_of, lemma_last_index_of, sorted_listing};
use crate::egui_annotation::{BindingV, ObjectV};
use crate::correlated::{CorrelatedCaptureV, correlated_diff};
use crate::agent_text::{concat_lines, node_sort_keys, relation_sort_keys, witness_text};
use crate::model::RelationV;
use crate::order::{lemma_sorted_listings_agree, stable_order};
use crate::egui_diff::{
    BindingIdAmbiguityV, DeltaV, IdAmbiguityV, join_authored_diffs, join_binding_diffs,
    no_authored_diff,
};
use crate::egui_diff::{
    AuthoredDiffV, BindingDiffV, authored_diff, authored_materially_empty, binding_ambiguities,
    binding_ambiguities_over, binding_diff, binding_keys, count_id, count_key, key_listing,
    keyed_over, keyed_step, last_with_id, last_with_key, matched_binding_diff,
    matched_object_diff, material_binding_fields, object_ids, object_listing, object_step,
    objects_over, unkeyed_common, unkeyed_extra, unkeyed_indices, unkeyed_pairs, unkeyed_step,
    authored_object_fields,
};

verus! {

// ---------------------------------------------------------------------------
// Values equal to themselves.
// ---------------------------------------------------------------------------

/// The observed quantities of a rectangle are numbers (no NaN).
pub open spec fn rect_numbers(r: RectV) -> bool {
    !f32_is_nan(r.x.bits) && !f32_is_nan(r.y.bits) && !f32_is_nan(r.width.bits) && !f32_is_nan(
        r.height.bits,
    )
}

pub open spec fn rect_opt_numbers(r: Option<RectV>) -> bool {
    match r {
        Some(r) => rect_numbers(r),
        None => true,
    }
}

proof fn lemma_measure_json_refl(m: MeasureV)
    ensures
        json_eq(measure_json(m), measure_json(m)),
{
    if f32_is_finite(m.bits) {
        lemma_widened_not_nan(m.bits);
    }
}

proof fn lemma_rect_opt_json_refl(r: Option<RectV>)
    ensures
        json_eq(rect_opt_json(r), rect_opt_json(r)),
{
    match r {
        Some(r) => {
            let xs = seq![
                ("height"@, measure_json(r.height)),
                ("width"@, measure_json(r.width)),
                ("x"@, measure_json(r.x)),
                ("y"@, measure_json(r.y)),
            ];
            lemma_measure_json_refl(r.height);
            lemma_measure_json_refl(r.width);
            lemma_measure_json_refl(r.x);
            lemma_measure_json_refl(r.y);
            lemma_members_eq(xs, xs);
            assert forall|i: int| 0 <= i < xs.len() implies #[trigger] members_at(xs, xs, i) by {
                if i == 0 {
                } else if i == 1 {
                } else if i == 2 {
                } else {
                }
            }
        },
        None => {},
    }
}

proof fn lemma_strings_json_refl(v: Seq<Seq<char>>)
    ensures
        json_eq(strings_json(v), strings_json(v)),
{
    let xs = v.map_values(|s: Seq<char>| JsonV::Str(s));
    lemma_items_eq(xs, xs);
}

proof fn lemma_identity_json_refl(i: Option<crate::model::NodeIdentityV>)
    ensures
        json_eq(identity_json(i), identity_json(i)),
{
    match i {
        Some(idn) => {
            let xs = match idn.author_id {
                Some(a) => seq![("author_id"@, JsonV::Str(a))],
                None => Seq::<(Seq<char>, JsonV)>::empty(),
            } + seq![("provenance"@, JsonV::Str(idn.provenance)), ("stability"@, JsonV::Str(idn.stability))];
            lemma_members_eq(xs, xs);
            assert forall|k: int| 0 <= k < xs.len() implies #[trigger] members_at(xs, xs, k) by {}
        },
        None => {},
    }
}

/// The JSON carried by a node has no NaN.
pub open spec fn node_numbers(n: NodeV) -> bool {
    &&& members_finite(n.properties)
    &&& match n.value {
        Some(v) => json_finite(v),
        None => true,
    }
}

/// A node compared with itself has no changed field.
proof fn lemma_node_change_fields_refl(n: NodeV)
    requires
        node_numbers(n),
    ensures
        node_change_fields(n, n).len() == 0,
{
    lemma_strings_json_refl(n.actions);
    lemma_rect_opt_json_refl(n.bounds);
    lemma_identity_json_refl(n.identity);
    lemma_members_eq_refl(n.properties);
    match n.value {
        Some(v) => lemma_json_eq_refl(v),
        None => {},
    }
    assert(json_eq(bool_opt_json(n.enabled), bool_opt_json(n.enabled)));
    assert(json_eq(str_opt_json(n.name), str_opt_json(n.name)));
    assert(json_eq(JsonV::Object(n.properties), JsonV::Object(n.properties)));
}

proof fn lemma_nodes_over_refl(ns: Seq<NodeV>, ks: Seq<Seq<char>>)
    requires
        forall|i: int| 0 <= i < ns.len() ==> node_numbers(#[trigger] ns[i]),
        forall|j: int| 0 <= j < ks.len() ==> node_ids(ns).contains(#[trigger] ks[j]),
    ensures
        nodes_over(ns, ns, ks).added.len() == 0,
        nodes_over(ns, ns, ks).removed.len() == 0,
        nodes_over(ns, ns, ks).changed.len() == 0,
    decreases ks.len(),
{
    if ks.len() > 0 {
        lemma_nodes_over_refl(ns, ks.drop_last());
        let k = ks.last();
        assert(node_ids(ns).contains(ks[ks.len() - 1]));
        lemma_last_index_of(node_ids(ns), k);
        let i = last_index_of(node_ids(ns), k);
        lemma_node_change_fields_refl(ns[i]);
    }
}

proof fn lemma_relations_over_refl(rs: Seq<crate::model::RelationV>, ks: Seq<Seq<char>>)
    requires
        forall|j: int| 0 <= j < ks.len() ==> relation_keys(rs).contains(#[trigger] ks[j]),
    ensures
        relations_over(rs, rs, ks).added.len() == 0,
        relations_over(rs, rs, ks).removed.len() == 0,
    decreases ks.len(),
{
    if ks.len() > 0 {
        lemma_relations_over_refl(rs, ks.drop_last());
        let k = ks.last();
        assert(relation_keys(rs).contains(ks[ks.len() - 1]));
        lemma_last_index_of(relation_keys(rs), k);
    }
}

proof fn lemma_listing_members(ks: Seq<Seq<char>>, s: Seq<Seq<char>>)
    requires
        is_sorted_listing(ks, key_set(s + s)),
    ensures
        forall|j: int| 0 <= j < ks.len() ==> s.contains(#[trigger] ks[j]),
{
    assert forall|j: int| 0 <= j < ks.len() implies s.contains(#[trigger] ks[j]) by {
        crate::text::lemma_listing_member(ks, s, s, ks[j]);
    }
}

/// The numbers a witness diff compares are numbers: viewport quantities are
/// not NaN and node JSON has no NaN.
pub open spec fn witness_numbers(w: WitnessV) -> bool {
    &&& !f32_is_nan(w.capture.viewport.width.bits)
    &&& !f32_is_nan(w.capture.viewport.height.bits)
    &&& !f32_is_nan(w.capture.viewport.scale_factor.bits)
    &&& forall|i: int| 0 <= i < w.nodes.len() ==> node_numbers(#[trigger] w.nodes[i])
}

/// A frame number is context, not state: two witnesses that differ at most in
/// their capture frame number have an empty diff (when the quantities they
/// compare are numbers).
pub proof fn law_frame_number_alone_is_not_a_change(before: WitnessV, after: WitnessV)
    requires
        witness_numbers(before),
        after.version == before.version,
        after.capture.source == before.capture.source,
        after.capture.viewport == before.capture.viewport,
        after.capture.metadata == before.capture.metadata,
        after.nodes == before.nodes,
        after.relations == before.relations,
    ensures
        witness_diff_empty(witness_diff(before, after)),
{
    let ns = before.nodes;
    let nks = sorted_listing(key_set(node_ids(ns) + node_ids(ns)));
    crate::text::lemma_sorted_listing_exists(node_ids(ns) + node_ids(ns));
    lemma_listing_members(nks, node_ids(ns));
    lemma_nodes_over_refl(ns, nks);
    let rs = before.relations;
    let rks = sorted_listing(key_set(relation_keys(rs) + relation_keys(rs)));
    crate::text::lemma_sorted_listing_exists(relation_keys(rs) + relation_keys(rs));
    lemma_listing_members(rks, relation_keys(rs));
    lemma_relations_over_refl(rs, rks);
}

// ---------------------------------------------------------------------------
// Renderer slot churn is not a material change.
// ---------------------------------------------------------------------------

/// Two bindings that agree in everything but the layer-local slot index.
pub open spec fn same_but_slot(b: BindingV, a: BindingV) -> bool {
    a == BindingV { shape_index: a.shape_index, ..b }
}

/// Two objects that agree in everything but their bindings' slot indices.
pub open spec fn same_but_slots(b: ObjectV, a: ObjectV) -> bool {
    &&& a.id == b.id
    &&& a.role == b.role
    &&& a.name == b.name
    &&& a.semantic_evidence == b.semantic_evidence
    &&& a.bindings.len() == b.bindings.len()
    &&& forall|j: int| 0 <= j < b.bindings.len() ==> same_but_slot(#[trigger] b.bindings[j], a.bindings[j])
}

pub open spec fn objects_same_but_slots(b: Seq<ObjectV>, a: Seq<ObjectV>) -> bool {
    &&& a.len() == b.len()
    &&& forall|i: int| 0 <= i < b.len() ==> same_but_slots(#[trigger] b[i], a[i])
}

/// Object IDs occur at most once.
pub open spec fn object_ids_unique(s: Seq<ObjectV>) -> bool {
    forall|i: int, j: int| 0 <= i < j < s.len() ==> s[i].id != s[j].id
}

/// Authored binding keys occur at most once within the object.
pub open spec fn binding_keys_unique(o: ObjectV) -> bool {
    forall|i: int, j: int|
        0 <= i < j < o.bindings.len() && o.bindings[i].authored_binding_id is Some
            ==> o.bindings[i].authored_binding_id != o.bindings[j].authored_binding_id
}

/// The rectangles of the object's bindings hold numbers (no NaN).
pub open spec fn binding_rects_numbers(o: ObjectV) -> bool {
    forall|j: int|
        0 <= j < o.bindings.len() ==> rect_opt_numbers((#[trigger] o.bindings[j]).bounds)
            && rect_opt_numbers(o.bindings[j].clip_rect)
}

proof fn lemma_ids_agree(b: Seq<ObjectV>, a: Seq<ObjectV>, id: Seq<char>)
    requires
        b.len() == a.len(),
        forall|i: int| 0 <= i < b.len() ==> (#[trigger] b[i]).id == a[i].id,
    ensures
        count_id(b, id) == count_id(a, id),
        last_with_id(b, id) == last_with_id(a, id),
        object_ids(b) == object_ids(a),
    decreases b.len(),
{
    if b.len() > 0 {
        lemma_ids_agree(b.drop_last(), a.drop_last(), id);
    }
    assert(object_ids(b) =~= object_ids(a));
}

proof fn lemma_unique_count(s: Seq<ObjectV>, id: Seq<char>)
    requires
        object_ids_unique(s),
    ensures
        count_id(s, id) <= 1,
    decreases s.len(),
{
    if s.len() > 0 {
        let p = s.drop_last();
        lemma_unique_count(p, id);
        if s.last().id == id {
            crate::egui_diff::lemma_last_with_id_pub(p, id);
            if count_id(p, id) > 0 {
                let i = last_with_id(p, id);
                assert(s[i].id == s[s.len() - 1].id);
            }
        }
    }
}

proof fn lemma_keys_agree(b: Seq<BindingV>, a: Seq<BindingV>, k: Seq<char>)
    requires
        b.len() == a.len(),
        forall|i: int|
            0 <= i < b.len() ==> (#[trigger] b[i]).authored_binding_id == a[i].authored_binding_id,
    ensures
        count_key(b, k) == count_key(a, k),
        last_with_key(b, k) == last_with_key(a, k),
        binding_keys(b) == binding_keys(a),
        unkeyed_indices(b) == unkeyed_indices(a),
    decreases b.len(),
{
    if b.len() > 0 {
        lemma_keys_agree(b.drop_last(), a.drop_last(), k);
    }
}

proof fn lemma_unique_key_count(o: ObjectV, n: int, k: Seq<char>)
    requires
        binding_keys_unique(o),
        0 <= n <= o.bindings.len(),
    ensures
        count_key(o.bindings.take(n), k) <= 1,
    decreases n,
{
    if n > 0 {
        let t = o.bindings.take(n);
        assert(t.drop_last() =~= o.bindings.take(n - 1));
        lemma_unique_key_count(o, n - 1, k);
        if t.last().authored_binding_id == Some(k) {
            crate::egui_diff::lemma_last_with_key_pub(t.drop_last(), k);
            if count_key(t.drop_last(), k) > 0 {
                let i = last_with_key(t.drop_last(), k);
                assert(o.bindings[i].authored_binding_id == Some(k));
                assert(o.bindings[n - 1].authored_binding_id == Some(k));
            }
        }
    }
}

proof fn lemma_rect_opt_eq_refl(r: Option<RectV>)
    requires
        rect_opt_numbers(r),
    ensures
        rect_opt_eq(r, r),
{
}

proof fn lemma_material_fields_empty(bb: BindingV, ab: BindingV)
    requires
        same_but_slot(bb, ab),
        rect_opt_numbers(bb.bounds),
        rect_opt_numbers(bb.clip_rect),
    ensures
        material_binding_fields(bb, ab).len() == 0,
{
    lemma_rect_opt_eq_refl(bb.bounds);
    lemma_rect_opt_eq_refl(bb.clip_rect);
}

/// No added, removed or changed binding records.
pub open spec fn bindings_unchanged(d: BindingDiffV) -> bool {
    d.added.len() == 0 && d.removed.len() == 0 && d.changed.len() == 0
}

proof fn lemma_keyed_over_unchanged(b: ObjectV, a: ObjectV, ks: Seq<Seq<char>>)
    requires
        same_but_slots(b, a),
        binding_rects_numbers(b),
        forall|j: int| 0 <= j < ks.len() ==> binding_keys(b.bindings).contains(#[trigger] ks[j]),
    ensures
        bindings_unchanged(keyed_over(b, a, ks)),
    decreases ks.len(),
{
    if ks.len() > 0 {
        lemma_keyed_over_unchanged(b, a, ks.drop_last());
        let k = ks.last();
        assert(binding_keys(b.bindings).contains(ks[ks.len() - 1]));
        assert forall|i: int| 0 <= i < b.bindings.len() implies (#[trigger] b.bindings[i]).authored_binding_id
            == a.bindings[i].authored_binding_id by {
            assert(same_but_slot(b.bindings[i], a.bindings[i]));
        }
        lemma_keys_agree(b.bindings, a.bindings, k);
        crate::egui_diff::lemma_last_with_key_pub(b.bindings, k);
        let ib = last_with_key(b.bindings, k);
        assert(same_but_slot(b.bindings[ib], a.bindings[ib]));
        lemma_material_fields_empty(b.bindings[ib], a.bindings[ib]);
    }
}

proof fn lemma_unkeyed_pairs_unchanged(b: ObjectV, a: ObjectV, n: int)
    requires
        same_but_slots(b, a),
        binding_rects_numbers(b),
        unkeyed_indices(b.bindings) == unkeyed_indices(a.bindings),
        0 <= n <= unkeyed_indices(b.bindings).len(),
    ensures
        unkeyed_pairs(b, a, n).changed.len() == 0,
        unkeyed_pairs(b, a, n).added.len() == 0,
        unkeyed_pairs(b, a, n).removed.len() == 0,
    decreases n,
{
    if n > 0 {
        lemma_unkeyed_pairs_unchanged(b, a, n - 1);
        crate::egui_diff::lemma_unkeyed_indices_pub(b.bindings);
        let i = unkeyed_indices(b.bindings)[n - 1];
        assert(same_but_slot(b.bindings[i], a.bindings[i]));
        lemma_material_fields_empty(b.bindings[i], a.bindings[i]);
    }
}

proof fn lemma_matched_object_unchanged(b: ObjectV, a: ObjectV)
    requires
        same_but_slots(b, a),
        binding_keys_unique(b),
        binding_rects_numbers(b),
    ensures
        matched_object_diff(b, a).objects_changed.len() == 0,
        matched_object_diff(b, a).binding_ambiguities.len() == 0,
        matched_object_diff(b, a).bindings_added.len() == 0,
        matched_object_diff(b, a).bindings_removed.len() == 0,
        matched_object_diff(b, a).bindings_changed.len() == 0,
        matched_object_diff(b, a).objects_added.len() == 0,
        matched_object_diff(b, a).objects_removed.len() == 0,
        matched_object_diff(b, a).ambiguous_ids.len() == 0,
{
    assert forall|i: int| 0 <= i < b.bindings.len() implies (#[trigger] b.bindings[i]).authored_binding_id
        == a.bindings[i].authored_binding_id by {
        assert(same_but_slot(b.bindings[i], a.bindings[i]));
    }
    let keys = binding_keys(b.bindings);
    lemma_keys_agree(b.bindings, a.bindings, Seq::empty());
    crate::text::lemma_sorted_listing_exists(keys + keys);
    let ks = key_listing(b, a);
    assert(ks == sorted_listing(key_set(keys + keys)));
    lemma_listing_members(ks, keys);
    // No key is duplicated, so no ambiguity record.
    assert forall|m: int| 0 <= m <= ks.len() implies binding_ambiguities_over(b, a, #[trigger] ks.take(m)).len() == 0 by {
        lemma_no_binding_ambiguity(b, a, ks, m);
    }
    assert(ks.take(ks.len() as int) =~= ks);
    // Keyed and unkeyed bindings are matched to themselves.
    lemma_keyed_over_unchanged(b, a, ks);
    lemma_keys_agree(b.bindings, a.bindings, Seq::empty());
    lemma_unkeyed_pairs_unchanged(b, a, unkeyed_indices(b.bindings).len() as int);
    assert(unkeyed_extra(b, unkeyed_common(b, a)).len() == 0);
    assert(unkeyed_extra(a, unkeyed_common(b, a)).len() == 0);
}

proof fn lemma_no_binding_ambiguity(b: ObjectV, a: ObjectV, ks: Seq<Seq<char>>, m: int)
    requires
        same_but_slots(b, a),
        binding_keys_unique(b),
        0 <= m <= ks.len(),
        forall|i: int| 0 <= i < b.bindings.len() ==> (#[trigger] b.bindings[i]).authored_binding_id
            == a.bindings[i].authored_binding_id,
    ensures
        binding_ambiguities_over(b, a, ks.take(m)).len() == 0,
    decreases m,
{
    if m > 0 {
        assert(ks.take(m).drop_last() =~= ks.take(m - 1));
        lemma_no_binding_ambiguity(b, a, ks, m - 1);
        let k = ks.take(m).last();
        lemma_unique_key_count(b, b.bindings.len() as int, k);
        assert(b.bindings.take(b.bindings.len() as int) =~= b.bindings);
        lemma_keys_agree(b.bindings, a.bindings, k);
    }
}

proof fn lemma_objects_over_unchanged(before: Seq<ObjectV>, after: Seq<ObjectV>, ks: Seq<Seq<char>>)
    requires
        objects_same_but_slots(before, after),
        object_ids_unique(before),
        forall|i: int| 0 <= i < before.len() ==> binding_keys_unique(#[trigger] before[i]),
        forall|i: int| 0 <= i < before.len() ==> binding_rects_numbers(#[trigger] before[i]),
        forall|j: int| 0 <= j < ks.len() ==> object_ids(before).contains(#[trigger] ks[j]),
    ensures
        authored_materially_empty(objects_over(before, after, ks)),
    decreases ks.len(),
{
    if ks.len() > 0 {
        lemma_objects_over_unchanged(before, after, ks.drop_last());
        let id = ks.last();
        assert(object_ids(before).contains(ks[ks.len() - 1]));
        assert forall|i: int| 0 <= i < before.len() implies (#[trigger] before[i]).id == after[i].id by {
            assert(same_but_slots(before[i], after[i]));
        }
        lemma_ids_agree(before, after, id);
        lemma_unique_count(before, id);
        crate::egui_diff::lemma_last_with_id_pub(before, id);
        let i = last_with_id(before, id);
        assert(same_but_slots(before[i], after[i]));
        lemma_matched_object_unchanged(before[i], after[i]);
    }
}

/// Renderer slot churn is not a material change: when the authored objects
/// of two captures agree in everything but their bindings' layer-local slot
/// indices (object IDs unique, binding keys unique within each object, binding
/// rectangles holding numbers), the authored diff is materially empty.
pub proof fn law_slot_churn_is_not_material(before: Seq<ObjectV>, after: Seq<ObjectV>)
    requires
        objects_same_but_slots(before, after),
        object_ids_unique(before),
        forall|i: int| 0 <= i < before.len() ==> binding_keys_unique(#[trigger] before[i]),
        forall|i: int| 0 <= i < before.len() ==> binding_rects_numbers(#[trigger] before[i]),
    ensures
        authored_materially_empty(authored_diff(before, after)),
{
    assert forall|i: int| 0 <= i < before.len() implies (#[trigger] before[i]).id == after[i].id by {
        assert(same_but_slots(before[i], after[i]));
    }
    lemma_ids_agree(before, after, Seq::empty());
    let ids = object_ids(before);
    crate::text::lemma_sorted_listing_exists(ids + ids);
    let ks = object_listing(before, after);
    assert(ks == sorted_listing(key_set(ids + ids)));
    lemma_listing_members(ks, ids);
    lemma_objects_over_unchanged(before, after, ks);
}


// ---------------------------------------------------------------------------
// Keyed bindings are matched by key, not by position.
// ---------------------------------------------------------------------------

/// Every binding of the object carries an authored key.
pub open spec fn all_keyed(o: ObjectV) -> bool {
    forall|j: int| 0 <= j < o.bindings.len() ==> (#[trigger] o.bindings[j]).authored_binding_id is Some
}

proof fn lemma_all_keyed_no_unkeyed(bs: Seq<BindingV>)
    requires
        forall|j: int| 0 <= j < bs.len() ==> (#[trigger] bs[j]).authored_binding_id is Some,
    ensures
        unkeyed_indices(bs).len() == 0,
    decreases bs.len(),
{
    if bs.len() > 0 {
        let p = bs.drop_last();
        assert forall|j: int| 0 <= j < p.len() implies (#[trigger] p[j]).authored_binding_id is Some by {
            assert(p[j] == bs[j]);
        }
        lemma_all_keyed_no_unkeyed(p);
        assert(bs[bs.len() - 1].authored_binding_id is Some);
    }
}

proof fn lemma_no_ambiguity_over(b: ObjectV, a: ObjectV, ks: Seq<Seq<char>>)
    requires
        forall|k: Seq<char>| #[trigger] count_key(b.bindings, k) <= 1,
        forall|k: Seq<char>| #[trigger] count_key(a.bindings, k) <= 1,
    ensures
        binding_ambiguities_over(b, a, ks).len() == 0,
    decreases ks.len(),
{
    if ks.len() > 0 {
        lemma_no_ambiguity_over(b, a, ks.drop_last());
        let k = ks.last();
        assert(count_key(b.bindings, k) <= 1);
        assert(count_key(a.bindings, k) <= 1);
    }
}

proof fn lemma_keyed_over_by_key(b: ObjectV, a: ObjectV, ks: Seq<Seq<char>>)
    requires
        binding_rects_numbers(b),
        forall|k: Seq<char>| #[trigger] count_key(b.bindings, k) == count_key(a.bindings, k),
        forall|k: Seq<char>|
            #![trigger last_with_key(b.bindings, k)]
            count_key(b.bindings, k) > 0 ==> same_but_slot(
                b.bindings[last_with_key(b.bindings, k)],
                a.bindings[last_with_key(a.bindings, k)],
            ),
        forall|j: int|
            0 <= j < ks.len() ==> binding_keys(b.bindings).contains(#[trigger] ks[j])
                || binding_keys(a.bindings).contains(ks[j]),
    ensures
        bindings_unchanged(keyed_over(b, a, ks)),
    decreases ks.len(),
{
    if ks.len() > 0 {
        lemma_keyed_over_by_key(b, a, ks.drop_last());
        let k = ks.last();
        assert(binding_keys(b.bindings).contains(ks[ks.len() - 1]) || binding_keys(
            a.bindings,
        ).contains(ks[ks.len() - 1]));
        crate::egui_diff::lemma_last_with_key_pub(b.bindings, k);
        crate::egui_diff::lemma_last_with_key_pub(a.bindings, k);
        assert(count_key(b.bindings, k) == count_key(a.bindings, k));
        crate::egui_diff::lemma_last_with_key_pub(b.bindings, k);
        let ib = last_with_key(b.bindings, k);
        let ia = last_with_key(a.bindings, k);
        assert(ib >= 0 && ia >= 0);
        assert(same_but_slot(b.bindings[ib], a.bindings[ia]));
        lemma_material_fields_empty(b.bindings[ib], a.bindings[ia]);
    }
}

/// Keyed bindings are matched by their authored key whatever their position:
/// when every binding of two objects carries an authored key, keys are unique
/// within each object, each key occurs on both sides, and the binding under
/// each key differs at most in its slot index (its rectangles holding
/// numbers), while the object semantics are equal, the diff of the pair has no
/// object change, no ambiguity and no added, removed or changed binding.
pub proof fn law_keyed_bindings_match_in_any_order(b: ObjectV, a: ObjectV)
    requires
        a.id == b.id,
        a.role == b.role,
        a.name == b.name,
        a.semantic_evidence == b.semantic_evidence,
        all_keyed(b),
        all_keyed(a),
        binding_keys_unique(b),
        binding_rects_numbers(b),
        forall|k: Seq<char>| #[trigger] count_key(b.bindings, k) == count_key(a.bindings, k),
        forall|k: Seq<char>|
            #![trigger last_with_key(b.bindings, k)]
            count_key(b.bindings, k) > 0 ==> same_but_slot(
                b.bindings[last_with_key(b.bindings, k)],
                a.bindings[last_with_key(a.bindings, k)],
            ),
    ensures
        matched_object_diff(b, a).objects_changed.len() == 0,
        matched_object_diff(b, a).binding_ambiguities.len() == 0,
        matched_object_diff(b, a).bindings_added.len() == 0,
        matched_object_diff(b, a).bindings_removed.len() == 0,
        matched_object_diff(b, a).bindings_changed.len() == 0,
{
    lemma_all_keyed_no_unkeyed(b.bindings);
    lemma_all_keyed_no_unkeyed(a.bindings);
    assert forall|k: Seq<char>| #[trigger] count_key(b.bindings, k) <= 1 by {
        lemma_unique_key_count(b, b.bindings.len() as int, k);
        assert(b.bindings.take(b.bindings.len() as int) =~= b.bindings);
    }
    assert forall|k: Seq<char>| #[trigger] count_key(a.bindings, k) <= 1 by {
        assert(count_key(b.bindings, k) <= 1);
    }
    let ks = key_listing(b, a);
    lemma_no_ambiguity_over(b, a, ks);
    let all = binding_keys(b.bindings) + binding_keys(a.bindings);
    crate::text::lemma_sorted_listing_exists(all);
    assert forall|j: int| 0 <= j < ks.len() implies binding_keys(b.bindings).contains(#[trigger] ks[j])
        || binding_keys(a.bindings).contains(ks[j]) by {
        assert(ks.contains(ks[j]));
        crate::text::lemma_listing_member(ks, binding_keys(b.bindings), binding_keys(a.bindings), ks[j]);
    }
    lemma_keyed_over_by_key(b, a, ks);
    assert(unkeyed_extra(b, unkeyed_common(b, a)).len() == 0);
    assert(unkeyed_extra(a, unkeyed_common(b, a)).len() == 0);
}


// ---------------------------------------------------------------------------
// Agent text does not depend on listing order.
// ---------------------------------------------------------------------------

proof fn lemma_concat_agree<A, B>(
    o1: Seq<A>,
    f1: spec_fn(A) -> Seq<char>,
    o2: Seq<B>,
    f2: spec_fn(B) -> Seq<char>,
)
    requires
        o1.len() == o2.len(),
        forall|k: int| 0 <= k < o1.len() ==> f1(#[trigger] o1[k]) == f2(o2[k]),
    ensures
        concat_lines(o1, f1) == concat_lines(o2, f2),
    decreases o1.len(),
{
    if o1.len() > 0 {
        let p1 = o1.drop_last();
        let p2 = o2.drop_last();
        assert forall|k: int| 0 <= k < p1.len() implies f1(#[trigger] p1[k]) == f2(p2[k]) by {
            assert(p1[k] == o1[k] && p2[k] == o2[k]);
        }
        lemma_concat_agree(p1, f1, p2, f2);
        assert(f1(o1[o1.len() - 1]) == f2(o2[o2.len() - 1]));
    }
}

/// The same items in two listings (each listing every item of the other).
pub open spec fn same_items<A>(x: Seq<A>, y: Seq<A>) -> bool {
    &&& x.len() == y.len()
    &&& forall|i: int| 0 <= i < x.len() ==> y.contains(#[trigger] x[i])
    &&& forall|j: int| 0 <= j < y.len() ==> x.contains(#[trigger] y[j])
}

pub open spec fn node_ids_unique(nodes: Seq<NodeV>) -> bool {
    forall|i: int, j: int| 0 <= i < j < nodes.len() ==> (#[trigger] nodes[i]).id != (#[trigger] nodes[j]).id
}

/// No two relations share kind, source, target and evidence.
pub open spec fn relation_keys_unique(rels: Seq<RelationV>) -> bool {
    forall|i: int, j: int|
        0 <= i < j < rels.len() ==> seq![(#[trigger] rels[i]).kind, rels[i].from, rels[i].to, rels[i].evidence]
            != seq![(#[trigger] rels[j]).kind, rels[j].from, rels[j].to, rels[j].evidence]
}

/// The agent text of a witness is deterministic: two witnesses that differ
/// only in the order in which they list their nodes and relations (node IDs
/// unique, relations unique by kind, source, target and evidence) have the
/// same agent text.
pub proof fn law_agent_text_ignores_listing_order(w1: WitnessV, w2: WitnessV)
    requires
        w2.version == w1.version,
        w2.capture == w1.capture,
        same_items(w1.nodes, w2.nodes),
        same_items(w1.relations, w2.relations),
        node_ids_unique(w1.nodes),
        node_ids_unique(w2.nodes),
        relation_keys_unique(w1.relations),
        relation_keys_unique(w2.relations),
    ensures
        witness_text(w1) == witness_text(w2),
{
    let nkey = |n: NodeV| seq![n.id];
    assert(node_sort_keys(w1.nodes) =~= w1.nodes.map_values(nkey));
    assert(node_sort_keys(w2.nodes) =~= w2.nodes.map_values(nkey));
    assert forall|i: int, j: int| 0 <= i < j < w1.nodes.len() implies nkey(#[trigger] w1.nodes[i]) != nkey(
        #[trigger] w1.nodes[j],
    ) by {
        if nkey(w1.nodes[i]) == nkey(w1.nodes[j]) {
            assert(nkey(w1.nodes[i])[0] == nkey(w1.nodes[j])[0]);
        }
    }
    assert forall|i: int, j: int| 0 <= i < j < w2.nodes.len() implies nkey(#[trigger] w2.nodes[i]) != nkey(
        #[trigger] w2.nodes[j],
    ) by {
        if nkey(w2.nodes[i]) == nkey(w2.nodes[j]) {
            assert(nkey(w2.nodes[i])[0] == nkey(w2.nodes[j])[0]);
        }
    }
    lemma_sorted_listings_agree(w1.nodes, w2.nodes, nkey);
    let n = w1.nodes.len() as int;
    crate::order::lemma_stable_order_len_pub(node_sort_keys(w1.nodes), n);
    crate::order::lemma_stable_order_len_pub(node_sort_keys(w2.nodes), n);
    let s1 = stable_order(node_sort_keys(w1.nodes), n);
    let s2 = stable_order(node_sort_keys(w2.nodes), n);
    let f1 = |i: int| crate::agent_text::node_line("node"@, w1.nodes[i]);
    let f2 = |i: int| crate::agent_text::node_line("node"@, w2.nodes[i]);
    assert forall|k: int| 0 <= k < s1.len() implies f1(#[trigger] s1[k]) == f2(s2[k]) by {
        assert(w1.nodes[s1[k]] == w2.nodes[s2[k]]);
    }
    lemma_concat_agree(s1, f1, s2, f2);

    let rkey = |r: RelationV| seq![r.kind, r.from, r.to, r.evidence];
    assert(relation_sort_keys(w1.relations) =~= w1.relations.map_values(rkey));
    assert(relation_sort_keys(w2.relations) =~= w2.relations.map_values(rkey));
    lemma_sorted_listings_agree(w1.relations, w2.relations, rkey);
    let m = w1.relations.len() as int;
    crate::order::lemma_stable_order_len_pub(relation_sort_keys(w1.relations), m);
    crate::order::lemma_stable_order_len_pub(relation_sort_keys(w2.relations), m);
    let r1 = stable_order(relation_sort_keys(w1.relations), m);
    let r2 = stable_order(relation_sort_keys(w2.relations), m);
    let g1 = |i: int| crate::agent_text::relation_line("relation"@, w1.relations[i]);
    let g2 = |i: int| crate::agent_text::relation_line("relation"@, w2.relations[i]);
    assert forall|k: int| 0 <= k < r1.len() implies g1(#[trigger] r1[k]) == g2(r2[k]) by {
        assert(w1.relations[r1[k]] == w2.relations[r2[k]]);
    }
    lemma_concat_agree(r1, g1, r2, g2);
}


// ---------------------------------------------------------------------------
// A duplicated authored ID is refused, never matched.
// ---------------------------------------------------------------------------

/// Every object-level and binding-level record of `d` (ambiguity records
/// about object IDs aside) belongs to the object ID `id`.
pub open spec fn records_all_for(d: AuthoredDiffV, id: Seq<char>) -> bool {
    &&& forall|i: int| 0 <= i < d.objects_added.len() ==> (#[trigger] d.objects_added[i]).id == id
    &&& forall|i: int| 0 <= i < d.objects_removed.len() ==> (#[trigger] d.objects_removed[i]).id == id
    &&& forall|i: int| 0 <= i < d.objects_changed.len() ==> (#[trigger] d.objects_changed[i]).id == id
    &&& forall|i: int| 0 <= i < d.bindings_added.len() ==> (#[trigger] d.bindings_added[i]).object_id == id
    &&& forall|i: int|
        0 <= i < d.bindings_removed.len() ==> (#[trigger] d.bindings_removed[i]).object_id == id
    &&& forall|i: int|
        0 <= i < d.bindings_changed.len() ==> (#[trigger] d.bindings_changed[i]).object_id == id
    &&& forall|i: int|
        0 <= i < d.binding_ambiguities.len() ==> (#[trigger] d.binding_ambiguities[i]).object_id == id
    &&& forall|i: int|
        0 <= i < d.execution_handle_churn.len() ==> (#[trigger] d.execution_handle_churn[i]).id == id
}

/// No object-level or binding-level record of `d` belongs to the object ID
/// `id`.
pub open spec fn records_avoid(d: AuthoredDiffV, id: Seq<char>) -> bool {
    &&& forall|i: int| 0 <= i < d.objects_added.len() ==> (#[trigger] d.objects_added[i]).id != id
    &&& forall|i: int| 0 <= i < d.objects_removed.len() ==> (#[trigger] d.objects_removed[i]).id != id
    &&& forall|i: int| 0 <= i < d.objects_changed.len() ==> (#[trigger] d.objects_changed[i]).id != id
    &&& forall|i: int| 0 <= i < d.bindings_added.len() ==> (#[trigger] d.bindings_added[i]).object_id != id
    &&& forall|i: int|
        0 <= i < d.bindings_removed.len() ==> (#[trigger] d.bindings_removed[i]).object_id != id
    &&& forall|i: int|
        0 <= i < d.bindings_changed.len() ==> (#[trigger] d.bindings_changed[i]).object_id != id
    &&& forall|i: int|
        0 <= i < d.binding_ambiguities.len() ==> (#[trigger] d.binding_ambiguities[i]).object_id != id
    &&& forall|i: int|
        0 <= i < d.execution_handle_churn.len() ==> (#[trigger] d.execution_handle_churn[i]).id != id
}

pub open spec fn binding_records_all_for(d: BindingDiffV, id: Seq<char>) -> bool {
    &&& forall|i: int| 0 <= i < d.added.len() ==> (#[trigger] d.added[i]).object_id == id
    &&& forall|i: int| 0 <= i < d.removed.len() ==> (#[trigger] d.removed[i]).object_id == id
    &&& forall|i: int| 0 <= i < d.changed.len() ==> (#[trigger] d.changed[i]).object_id == id
    &&& forall|i: int| 0 <= i < d.churn.len() ==> (#[trigger] d.churn[i]).id == id
}

proof fn lemma_join_binding_all_for(x: BindingDiffV, y: BindingDiffV, id: Seq<char>)
    requires
        binding_records_all_for(x, id),
        binding_records_all_for(y, id),
    ensures
        binding_records_all_for(join_binding_diffs(x, y), id),
{
    let j = join_binding_diffs(x, y);
    assert forall|i: int| 0 <= i < j.added.len() implies (#[trigger] j.added[i]).object_id == id by {
        if i >= x.added.len() {
            assert(j.added[i] == y.added[i - x.added.len()]);
        }
    }
    assert forall|i: int| 0 <= i < j.removed.len() implies (#[trigger] j.removed[i]).object_id == id by {
        if i >= x.removed.len() {
            assert(j.removed[i] == y.removed[i - x.removed.len()]);
        }
    }
    assert forall|i: int| 0 <= i < j.changed.len() implies (#[trigger] j.changed[i]).object_id == id by {
        if i >= x.changed.len() {
            assert(j.changed[i] == y.changed[i - x.changed.len()]);
        }
    }
    assert forall|i: int| 0 <= i < j.churn.len() implies (#[trigger] j.churn[i]).id == id by {
        if i >= x.churn.len() {
            assert(j.churn[i] == y.churn[i - x.churn.len()]);
        }
    }
}

proof fn lemma_keyed_over_all_for(b: ObjectV, a: ObjectV, ks: Seq<Seq<char>>)
    requires
        a.id == b.id,
    ensures
        binding_records_all_for(keyed_over(b, a, ks), b.id),
    decreases ks.len(),
{
    if ks.len() > 0 {
        lemma_keyed_over_all_for(b, a, ks.drop_last());
        lemma_join_binding_all_for(keyed_over(b, a, ks.drop_last()), keyed_step(b, a, ks.last()), b.id);
    }
}

proof fn lemma_unkeyed_pairs_all_for(b: ObjectV, a: ObjectV, n: int)
    ensures
        binding_records_all_for(unkeyed_pairs(b, a, n), b.id),
    decreases n,
{
    if n > 0 {
        lemma_unkeyed_pairs_all_for(b, a, n - 1);
        lemma_join_binding_all_for(unkeyed_pairs(b, a, n - 1), unkeyed_step(b, a, n - 1), b.id);
    }
}

proof fn lemma_binding_ambiguities_all_for(b: ObjectV, a: ObjectV, ks: Seq<Seq<char>>)
    ensures
        forall|i: int|
            0 <= i < binding_ambiguities_over(b, a, ks).len() ==> (#[trigger] binding_ambiguities_over(
                b,
                a,
                ks,
            )[i]).object_id == b.id,
    decreases ks.len(),
{
    if ks.len() > 0 {
        lemma_binding_ambiguities_all_for(b, a, ks.drop_last());
        let p = binding_ambiguities_over(b, a, ks.drop_last());
        let r = binding_ambiguities_over(b, a, ks);
        assert forall|i: int| 0 <= i < r.len() implies (#[trigger] r[i]).object_id == b.id by {
            if i < p.len() {
                assert(r[i] == p[i]);
            }
        }
    }
}

proof fn lemma_matched_all_for(b: ObjectV, a: ObjectV)
    requires
        a.id == b.id,
    ensures
        records_all_for(matched_object_diff(b, a), b.id),
        matched_object_diff(b, a).objects_added.len() == 0,
        matched_object_diff(b, a).objects_removed.len() == 0,
{
    lemma_binding_ambiguities_all_for(b, a, key_listing(b, a));
    let common = unkeyed_common(b, a);
    lemma_unkeyed_pairs_all_for(b, a, common);
    lemma_keyed_over_all_for(b, a, key_listing(b, a));
    let pairs = unkeyed_pairs(b, a, common);
    let unkeyed = BindingDiffV {
        added: unkeyed_extra(a, common),
        removed: unkeyed_extra(b, common),
        changed: pairs.changed,
        churn: pairs.churn,
    };
    assert(binding_records_all_for(unkeyed, b.id));
    lemma_join_binding_all_for(unkeyed, keyed_over(b, a, key_listing(b, a)), b.id);
}

proof fn lemma_step_all_for(before: Seq<ObjectV>, after: Seq<ObjectV>, k: Seq<char>)
    requires
        count_id(before, k) > 0 || count_id(after, k) > 0,
    ensures
        records_all_for(object_step(before, after, k), k),
{
    crate::egui_diff::lemma_last_with_id_pub(before, k);
    crate::egui_diff::lemma_last_with_id_pub(after, k);
    let cb = count_id(before, k);
    let ca = count_id(after, k);
    if !(cb > 1 || ca > 1) && cb != 0 && ca != 0 {
        lemma_matched_all_for(before[last_with_id(before, k)], after[last_with_id(after, k)]);
    }
}

proof fn lemma_join_avoid(x: AuthoredDiffV, y: AuthoredDiffV, id: Seq<char>)
    requires
        records_avoid(x, id),
        records_avoid(y, id),
    ensures
        records_avoid(join_authored_diffs(x, y), id),
{
    let j = join_authored_diffs(x, y);
    assert forall|i: int| 0 <= i < j.objects_added.len() implies (#[trigger] j.objects_added[i]).id != id by {
        if i >= x.objects_added.len() {
            assert(j.objects_added[i] == y.objects_added[i - x.objects_added.len()]);
        }
    }
    assert forall|i: int| 0 <= i < j.objects_removed.len() implies (#[trigger] j.objects_removed[i]).id != id by {
        if i >= x.objects_removed.len() {
            assert(j.objects_removed[i] == y.objects_removed[i - x.objects_removed.len()]);
        }
    }
    assert forall|i: int| 0 <= i < j.objects_changed.len() implies (#[trigger] j.objects_changed[i]).id != id by {
        if i >= x.objects_changed.len() {
            assert(j.objects_changed[i] == y.objects_changed[i - x.objects_changed.len()]);
        }
    }
    assert forall|i: int| 0 <= i < j.bindings_added.len() implies (#[trigger] j.bindings_added[i]).object_id
        != id by {
        if i >= x.bindings_added.len() {
            assert(j.bindings_added[i] == y.bindings_added[i - x.bindings_added.len()]);
        }
    }
    assert forall|i: int| 0 <= i < j.bindings_removed.len() implies (#[trigger] j.bindings_removed[i]).object_id
        != id by {
        if i >= x.bindings_removed.len() {
            assert(j.bindings_removed[i] == y.bindings_removed[i - x.bindings_removed.len()]);
        }
    }
    assert forall|i: int| 0 <= i < j.bindings_changed.len() implies (#[trigger] j.bindings_changed[i]).object_id
        != id by {
        if i >= x.bindings_changed.len() {
            assert(j.bindings_changed[i] == y.bindings_changed[i - x.bindings_changed.len()]);
        }
    }
    assert forall|i: int|
        0 <= i < j.binding_ambiguities.len() implies (#[trigger] j.binding_ambiguities[i]).object_id != id by {
        if i >= x.binding_ambiguities.len() {
            assert(j.binding_ambiguities[i] == y.binding_ambiguities[i - x.binding_ambiguities.len()]);
        }
    }
    assert forall|i: int|
        0 <= i < j.execution_handle_churn.len() implies (#[trigger] j.execution_handle_churn[i]).id != id by {
        if i >= x.execution_handle_churn.len() {
            assert(j.execution_handle_churn[i] == y.execution_handle_churn[i - x.execution_handle_churn.len()]);
        }
    }
}

proof fn lemma_objects_over_refuse(before: Seq<ObjectV>, after: Seq<ObjectV>, ks: Seq<Seq<char>>, id: Seq<char>)
    requires
        count_id(before, id) > 1 || count_id(after, id) > 1,
        forall|j: int|
            0 <= j < ks.len() ==> count_id(before, #[trigger] ks[j]) > 0 || count_id(after, ks[j]) > 0,
    ensures
        records_avoid(objects_over(before, after, ks), id),
        ks.contains(id) ==> objects_over(before, after, ks).ambiguous_ids.contains(
            IdAmbiguityV { id, before_count: count_id(before, id), after_count: count_id(after, id) },
        ),
    decreases ks.len(),
{
    if ks.len() > 0 {
        let p = ks.drop_last();
        let k = ks.last();
        lemma_objects_over_refuse(before, after, p, id);
        let prev = objects_over(before, after, p);
        let step = object_step(before, after, k);
        assert(count_id(before, ks[ks.len() - 1]) > 0 || count_id(after, ks[ks.len() - 1]) > 0);
        lemma_step_all_for(before, after, k);
        if k != id {
            assert(records_avoid(step, id));
        } else {
            assert(records_avoid(step, id));
        }
        lemma_join_avoid(prev, step, id);
        let rec = IdAmbiguityV { id, before_count: count_id(before, id), after_count: count_id(after, id) };
        let all = objects_over(before, after, ks);
        if ks.contains(id) {
            if k == id {
                assert(all.ambiguous_ids[all.ambiguous_ids.len() - 1] == rec);
            } else {
                let w = choose|w: int| 0 <= w < ks.len() && ks[w] == id;
                assert(p[w] == id);
                assert(p.contains(id));
                let v = choose|v: int| 0 <= v < prev.ambiguous_ids.len() && prev.ambiguous_ids[v] == rec;
                assert(all.ambiguous_ids[v] == rec);
            }
        }
    }
}

/// A duplicated authored object ID is refused, never matched: when an ID
/// occurs more than once on either side, the authored diff holds an
/// ambiguity record with both counts, and no added, removed or changed
/// object, no binding record, no binding ambiguity and no slot churn belongs
/// to that ID.
pub proof fn law_duplicate_ids_refuse_matching(before: Seq<ObjectV>, after: Seq<ObjectV>, id: Seq<char>)
    requires
        count_id(before, id) > 1 || count_id(after, id) > 1,
    ensures
        authored_diff(before, after).ambiguous_ids.contains(
            IdAmbiguityV { id, before_count: count_id(before, id), after_count: count_id(after, id) },
        ),
        records_avoid(authored_diff(before, after), id),
{
    let ids = object_ids(before) + object_ids(after);
    crate::text::lemma_sorted_listing_exists(ids);
    crate::egui_diff::lemma_last_with_id_pub(before, id);
    crate::egui_diff::lemma_last_with_id_pub(after, id);
    if count_id(before, id) > 1 {
        let w = choose|w: int| 0 <= w < object_ids(before).len() && object_ids(before)[w] == id;
        assert(ids[w] == id);
    } else {
        let w = choose|w: int| 0 <= w < object_ids(after).len() && object_ids(after)[w] == id;
        assert(ids[object_ids(before).len() + w] == id);
    }
    assert(ids.contains(id));
    assert(key_set(ids).contains(id));
    let ks = object_listing(before, after);
    assert forall|j: int| 0 <= j < ks.len() implies count_id(before, #[trigger] ks[j]) > 0 || count_id(
        after,
        ks[j],
    ) > 0 by {
        assert(ks.contains(ks[j]));
        crate::text::lemma_listing_member(ks, object_ids(before), object_ids(after), ks[j]);
        crate::egui_diff::lemma_last_with_id_pub(before, ks[j]);
        crate::egui_diff::lemma_last_with_id_pub(after, ks[j]);
    }
    lemma_objects_over_refuse(before, after, ks, id);
}


proof fn lemma_binding_ambiguity_listed(b: ObjectV, a: ObjectV, ks: Seq<Seq<char>>, k: Seq<char>)
    requires
        count_key(b.bindings, k) > 1 || count_key(a.bindings, k) > 1,
        ks.contains(k),
    ensures
        binding_ambiguities_over(b, a, ks).contains(
            BindingIdAmbiguityV {
                object_id: b.id,
                binding_id: k,
                before_count: count_key(b.bindings, k),
                after_count: count_key(a.bindings, k),
            },
        ),
    decreases ks.len(),
{
    let rec = BindingIdAmbiguityV {
        object_id: b.id,
        binding_id: k,
        before_count: count_key(b.bindings, k),
        after_count: count_key(a.bindings, k),
    };
    let all = binding_ambiguities_over(b, a, ks);
    if ks.last() == k {
        assert(all[all.len() - 1] == rec);
    } else {
        let p = ks.drop_last();
        let w = choose|w: int| 0 <= w < ks.len() && ks[w] == k;
        assert(p[w] == k);
        lemma_binding_ambiguity_listed(b, a, p, k);
        let prev = binding_ambiguities_over(b, a, p);
        let v = choose|v: int| 0 <= v < prev.len() && prev[v] == rec;
        assert(all[v] == rec);
    }
}

/// A duplicated authored binding ID is refused, never matched: when a
/// binding key occurs more than once within a uniquely matched object on
/// either side, the object's diff holds an ambiguity record for the key with
/// both counts, and no added, removed or changed binding and no slot churn.
pub proof fn law_duplicate_binding_ids_refuse_matching(b: ObjectV, a: ObjectV, k: Seq<char>)
    requires
        count_key(b.bindings, k) > 1 || count_key(a.bindings, k) > 1,
    ensures
        matched_object_diff(b, a).binding_ambiguities.contains(
            BindingIdAmbiguityV {
                object_id: b.id,
                binding_id: k,
                before_count: count_key(b.bindings, k),
                after_count: count_key(a.bindings, k),
            },
        ),
        matched_object_diff(b, a).bindings_added.len() == 0,
        matched_object_diff(b, a).bindings_removed.len() == 0,
        matched_object_diff(b, a).bindings_changed.len() == 0,
        matched_object_diff(b, a).execution_handle_churn.len() == 0,
{
    let keys = binding_keys(b.bindings) + binding_keys(a.bindings);
    crate::text::lemma_sorted_listing_exists(keys);
    crate::egui_diff::lemma_last_with_key_pub(b.bindings, k);
    crate::egui_diff::lemma_last_with_key_pub(a.bindings, k);
    if count_key(b.bindings, k) > 1 {
        let w = choose|w: int| 0 <= w < binding_keys(b.bindings).len() && binding_keys(b.bindings)[w] == k;
        assert(keys[w] == k);
    } else {
        let w = choose|w: int| 0 <= w < binding_keys(a.bindings).len() && binding_keys(a.bindings)[w] == k;
        assert(keys[binding_keys(b.bindings).len() + w] == k);
    }
    assert(keys.contains(k));
    assert(key_set(keys).contains(k));
    lemma_binding_ambiguity_listed(b, a, key_listing(b, a), k);
}


/// Generic anonymous paint is not diffed: the correlated diff of two captures
/// does not change when their generic paint evidence does.
pub proof fn law_generic_paint_is_not_diffed(
    before: CorrelatedCaptureV,
    after: CorrelatedCaptureV,
    before2: CorrelatedCaptureV,
    after2: CorrelatedCaptureV,
)
    requires
        before2 == (CorrelatedCaptureV { paint: before2.paint, ..before }),
        after2 == (CorrelatedCaptureV { paint: after2.paint, ..after }),
    ensures
        correlated_diff(before2, after2) == correlated_diff(before, after),
{
}


// ---------------------------------------------------------------------------
// Keyed matching does not depend on the after side's binding order.
// ---------------------------------------------------------------------------

/// Added-binding records that agree but for their (diagnostic) ordinals.
pub open spec fn deltas_agree(x: Seq<DeltaV>, y: Seq<DeltaV>) -> bool {
    &&& x.len() == y.len()
    &&& forall|i: int|
        0 <= i < x.len() ==> (#[trigger] x[i]).object_id == y[i].object_id && x[i].binding == y[i].binding
}

/// Two binding-level record sets that agree but for added-binding ordinals.
pub open spec fn binding_diffs_agree(x: BindingDiffV, y: BindingDiffV) -> bool {
    &&& deltas_agree(x.added, y.added)
    &&& x.removed == y.removed
    &&& x.changed == y.changed
    &&& x.churn == y.churn
}

proof fn lemma_join_agree(x1: BindingDiffV, y1: BindingDiffV, x2: BindingDiffV, y2: BindingDiffV)
    requires
        binding_diffs_agree(x1, y1),
        binding_diffs_agree(x2, y2),
    ensures
        binding_diffs_agree(join_binding_diffs(x1, x2), join_binding_diffs(y1, y2)),
{
    let a = join_binding_diffs(x1, x2).added;
    let b = join_binding_diffs(y1, y2).added;
    assert forall|i: int| 0 <= i < a.len() implies (#[trigger] a[i]).object_id == b[i].object_id && a[i].binding
        == b[i].binding by {
        if i >= x1.added.len() {
            assert(a[i] == x2.added[i - x1.added.len()]);
            assert(b[i] == y2.added[i - y1.added.len()]);
        } else {
            assert(a[i] == x1.added[i]);
            assert(b[i] == y1.added[i]);
        }
    }
}

proof fn lemma_key_at_counts(bs: Seq<BindingV>, j: int, k: Seq<char>)
    requires
        0 <= j < bs.len(),
        bs[j].authored_binding_id == Some(k),
    ensures
        count_key(bs, k) > 0,
    decreases bs.len(),
{
    if j < bs.len() - 1 {
        lemma_key_at_counts(bs.drop_last(), j, k);
    }
}

/// With unique keys, the binding at any position carrying `k` is the last
/// one carrying `k`.
proof fn lemma_unique_key_position(o: ObjectV, j: int, k: Seq<char>)
    requires
        binding_keys_unique(o),
        0 <= j < o.bindings.len(),
        o.bindings[j].authored_binding_id == Some(k),
    ensures
        last_with_key(o.bindings, k) == j,
{
    crate::egui_diff::lemma_last_with_key_pub(o.bindings, k);
    lemma_key_at_counts(o.bindings, j, k);
    let l = last_with_key(o.bindings, k);
    if l >= 0 && l != j {
        if l < j {
            assert(o.bindings[l].authored_binding_id != o.bindings[j].authored_binding_id);
        } else {
            assert(o.bindings[j].authored_binding_id != o.bindings[l].authored_binding_id);
        }
    }
}

/// Two listings of the same uniquely keyed bindings carry each key equally
/// often, under the same binding.
proof fn lemma_same_keyed_items(a: ObjectV, a2: ObjectV, k: Seq<char>)
    requires
        binding_keys_unique(a),
        binding_keys_unique(a2),
        same_items(a.bindings, a2.bindings),
    ensures
        count_key(a.bindings, k) == count_key(a2.bindings, k),
        count_key(a.bindings, k) > 0 ==> a.bindings[last_with_key(a.bindings, k)]
            == a2.bindings[last_with_key(a2.bindings, k)],
        binding_keys(a.bindings).contains(k) == binding_keys(a2.bindings).contains(k),
{
    crate::egui_diff::lemma_last_with_key_pub(a.bindings, k);
    crate::egui_diff::lemma_last_with_key_pub(a2.bindings, k);
    lemma_unique_key_count(a, a.bindings.len() as int, k);
    lemma_unique_key_count(a2, a2.bindings.len() as int, k);
    assert(a.bindings.take(a.bindings.len() as int) =~= a.bindings);
    assert(a2.bindings.take(a2.bindings.len() as int) =~= a2.bindings);
    let i = last_with_key(a.bindings, k);
    let i2 = last_with_key(a2.bindings, k);
    if i >= 0 {
        assert(a2.bindings.contains(a.bindings[i]));
        let j = choose|j: int| 0 <= j < a2.bindings.len() && a2.bindings[j] == a.bindings[i];
        lemma_unique_key_position(a2, j, k);
    }
    if i2 >= 0 {
        assert(a.bindings.contains(a2.bindings[i2]));
        let j = choose|j: int| 0 <= j < a.bindings.len() && a.bindings[j] == a2.bindings[i2];
        lemma_unique_key_position(a, j, k);
    }
}

proof fn lemma_keyed_over_agree(b: ObjectV, a: ObjectV, a2: ObjectV, ks: Seq<Seq<char>>)
    requires
        a2.id == a.id,
        binding_keys_unique(a),
        binding_keys_unique(a2),
        same_items(a.bindings, a2.bindings),
        forall|j: int|
            0 <= j < ks.len() ==> binding_keys(b.bindings).contains(#[trigger] ks[j])
                || binding_keys(a.bindings).contains(ks[j]),
    ensures
        binding_diffs_agree(keyed_over(b, a, ks), keyed_over(b, a2, ks)),
    decreases ks.len(),
{
    if ks.len() > 0 {
        lemma_keyed_over_agree(b, a, a2, ks.drop_last());
        let k = ks.last();
        lemma_same_keyed_items(a, a2, k);
        crate::egui_diff::lemma_last_with_key_pub(a.bindings, k);
        crate::egui_diff::lemma_last_with_key_pub(a2.bindings, k);
        assert(binding_keys(b.bindings).contains(ks[ks.len() - 1]) || binding_keys(a.bindings).contains(
            ks[ks.len() - 1],
        ));
        let s1 = keyed_step(b, a, k);
        let s2 = keyed_step(b, a2, k);
        crate::egui_diff::lemma_last_with_key_pub(b.bindings, k);
        let ib = last_with_key(b.bindings, k);
        let ia = last_with_key(a.bindings, k);
        let ia2 = last_with_key(a2.bindings, k);
        assert(ia >= 0 <==> ia2 >= 0);
        if ib < 0 {
            assert(binding_keys(a.bindings).contains(k));
            assert(ia >= 0 && ia2 >= 0);
            assert(a.bindings[ia] == a2.bindings[ia2]);
            assert(s1.added == seq![DeltaV { object_id: a.id, binding_ordinal: ia as nat, binding: a.bindings[ia] }]);
            assert(s2.added == seq![DeltaV { object_id: a2.id, binding_ordinal: ia2 as nat, binding: a2.bindings[ia2] }]);
            assert(s1.added[0].binding == s2.added[0].binding);
        } else if ia >= 0 {
            assert(a.bindings[ia] == a2.bindings[ia2]);
        }
        assert(binding_diffs_agree(s1, s2));
        lemma_join_agree(keyed_over(b, a, ks.drop_last()), keyed_over(b, a2, ks.drop_last()), s1, s2);
    }
}

proof fn lemma_ambiguities_agree(b: ObjectV, a: ObjectV, a2: ObjectV, ks: Seq<Seq<char>>)
    requires
        binding_keys_unique(a),
        binding_keys_unique(a2),
        same_items(a.bindings, a2.bindings),
    ensures
        binding_ambiguities_over(b, a, ks) == binding_ambiguities_over(b, a2, ks),
    decreases ks.len(),
{
    if ks.len() > 0 {
        lemma_ambiguities_agree(b, a, a2, ks.drop_last());
        lemma_same_keyed_items(a, a2, ks.last());
    }
}

/// Keyed bindings are matched by key, not by position: reordering the
/// uniquely keyed bindings of the after side (every binding keyed) leaves the
/// object's diff unchanged, except for the after-side ordinals that
/// added-binding records carry for diagnosis.
pub proof fn law_keyed_matching_ignores_binding_order(b: ObjectV, a: ObjectV, a2: ObjectV)
    requires
        a2 == (ObjectV { bindings: a2.bindings, ..a }),
        all_keyed(a),
        all_keyed(a2),
        binding_keys_unique(a),
        binding_keys_unique(a2),
        same_items(a.bindings, a2.bindings),
    ensures
        matched_object_diff(b, a2).objects_changed == matched_object_diff(b, a).objects_changed,
        matched_object_diff(b, a2).binding_ambiguities == matched_object_diff(b, a).binding_ambiguities,
        matched_object_diff(b, a2).bindings_removed == matched_object_diff(b, a).bindings_removed,
        matched_object_diff(b, a2).bindings_changed == matched_object_diff(b, a).bindings_changed,
        matched_object_diff(b, a2).execution_handle_churn == matched_object_diff(
            b,
            a,
        ).execution_handle_churn,
        deltas_agree(matched_object_diff(b, a).bindings_added, matched_object_diff(b, a2).bindings_added),
{
    // Same keys on the after side, hence the same key listing.
    assert(key_set(binding_keys(b.bindings) + binding_keys(a.bindings)) =~= key_set(
        binding_keys(b.bindings) + binding_keys(a2.bindings),
    )) by {
        let s1 = binding_keys(b.bindings) + binding_keys(a.bindings);
        let s2 = binding_keys(b.bindings) + binding_keys(a2.bindings);
        let bk = binding_keys(b.bindings);
        assert forall|x: Seq<char>| s1.contains(x) <==> s2.contains(x) by {
            lemma_same_keyed_items(a, a2, x);
            if s1.contains(x) {
                let w = choose|w: int| 0 <= w < s1.len() && s1[w] == x;
                if w < bk.len() {
                    assert(s2[w] == x);
                } else {
                    assert(binding_keys(a.bindings)[w - bk.len()] == x);
                    assert(binding_keys(a2.bindings).contains(x));
                    let v = choose|v: int| 0 <= v < binding_keys(a2.bindings).len() && binding_keys(a2.bindings)[v] == x;
                    assert(s2[bk.len() + v] == x);
                }
            }
            if s2.contains(x) {
                let w = choose|w: int| 0 <= w < s2.len() && s2[w] == x;
                if w < bk.len() {
                    assert(s1[w] == x);
                } else {
                    assert(binding_keys(a2.bindings)[w - bk.len()] == x);
                    assert(binding_keys(a.bindings).contains(x));
                    let v = choose|v: int| 0 <= v < binding_keys(a.bindings).len() && binding_keys(a.bindings)[v] == x;
                    assert(s1[bk.len() + v] == x);
                }
            }
        }
    }
    assert(key_listing(b, a) == key_listing(b, a2));
    let ks = key_listing(b, a);
    crate::text::lemma_sorted_listing_exists(binding_keys(b.bindings) + binding_keys(a.bindings));
    assert forall|j: int| 0 <= j < ks.len() implies binding_keys(b.bindings).contains(#[trigger] ks[j])
        || binding_keys(a.bindings).contains(ks[j]) by {
        assert(ks.contains(ks[j]));
        crate::text::lemma_listing_member(ks, binding_keys(b.bindings), binding_keys(a.bindings), ks[j]);
    }
    lemma_ambiguities_agree(b, a, a2, ks);
    lemma_keyed_over_agree(b, a, a2, ks);
    lemma_all_keyed_no_unkeyed(a.bindings);
    lemma_all_keyed_no_unkeyed(a2.bindings);
    assert(unkeyed_common(b, a) == 0 && unkeyed_common(b, a2) == 0);
    let u1 = BindingDiffV {
        added: unkeyed_extra(a, 0),
        removed: unkeyed_extra(b, 0),
        changed: unkeyed_pairs(b, a, 0).changed,
        churn: unkeyed_pairs(b, a, 0).churn,
    };
    let u2 = BindingDiffV {
        added: unkeyed_extra(a2, 0),
        removed: unkeyed_extra(b, 0),
        changed: unkeyed_pairs(b, a2, 0).changed,
        churn: unkeyed_pairs(b, a2, 0).churn,
    };
    assert(u1.added.len() == 0 && u2.added.len() == 0);
    let k1 = keyed_over(b, a, ks);
    let k2 = keyed_over(b, a2, ks);
    lemma_join_agree(u1, u2, k1, k2);
    assert(binding_diff(b, a) == join_binding_diffs(u1, k1));
    assert(binding_diff(b, a2) == join_binding_diffs(u2, k2));
    assert(authored_object_fields(b, a) == authored_object_fields(b, a2));
}

} // verus!
