//! Cross-frame comparison of application-authored custom-paint objects.
//!
//! An authored object ID is a continuity key only when it occurs exactly once
//! on both sides; within such an object an authored binding ID is a key only
//! when it occurs at most once on each side. Duplicates become explicit
//! ambiguity records instead of heuristic matches. Unkeyed bindings are
//! matched by their relative order among the unkeyed bindings. Layer-local
//! slot indices never count as material change: when they are all that
//! differs they are reported as execution-handle churn.
use vstd::prelude::*;

use crate::diff::{
    FieldChange, FieldChangeV, change_if, fields_view, push_change_if, rect_opt_eq, rect_opt_equal,
    rect_opt_json, rect_opt_to_json, str_opt_equal, str_opt_json, str_opt_to_json,
};
use crate::egui_annotation::{
    BindingV, EguiAuthoredPaintBinding, EguiAuthoredPaintObject, ObjectV, bindings_view,
    layer_order_name,
};
use crate::egui_paint::{EguiPaintKind, paint_kind_name};
use crate::json::{JsonNumber, JsonV, JsonValue, NumberV};
use crate::model::str_opt_view;
use crate::text::{chars_of, chars_to_string, chars_views, is_sorted_listing, key_set, owned, sorted_listing, sorted_unique};

verus! {

broadcast use vstd::string::group_string_axioms;

// ---------------------------------------------------------------------------
// Records of the diff.
// ---------------------------------------------------------------------------

/// Material field changes of one uniquely matched authored object (its
/// bindings are compared separately).
#[derive(Debug)]
pub struct EguiAuthoredObjectChange {
    pub id: String,
    pub fields: Vec<(String, FieldChange)>,
}

pub ghost struct ObjectChangeV {
    pub id: Seq<char>,
    pub fields: Seq<(Seq<char>, FieldChangeV)>,
}

impl View for EguiAuthoredObjectChange {
    type V = ObjectChangeV;

    open spec fn view(&self) -> ObjectChangeV {
        ObjectChangeV { id: self.id@, fields: fields_view(self.fields@) }
    }
}

/// One authored binding present on one side only. `binding_ordinal` is its
/// position on that side (diagnostic only).
#[derive(Debug)]
pub struct EguiAuthoredBindingDelta {
    pub object_id: String,
    pub binding_ordinal: usize,
    pub binding: EguiAuthoredPaintBinding,
}

pub ghost struct DeltaV {
    pub object_id: Seq<char>,
    pub binding_ordinal: nat,
    pub binding: BindingV,
}

impl View for EguiAuthoredBindingDelta {
    type V = DeltaV;

    open spec fn view(&self) -> DeltaV {
        DeltaV {
            object_id: self.object_id@,
            binding_ordinal: self.binding_ordinal as nat,
            binding: self.binding@,
        }
    }
}

/// Material field changes of one matched binding: keyed bindings carry their
/// authored ID, unkeyed ones their relative unkeyed ordinal.
#[derive(Debug)]
pub struct EguiAuthoredBindingChange {
    pub object_id: String,
    pub authored_binding_id: Option<String>,
    pub unkeyed_ordinal: Option<usize>,
    pub fields: Vec<(String, FieldChange)>,
}

pub ghost struct BindingChangeV {
    pub object_id: Seq<char>,
    pub authored_binding_id: Option<Seq<char>>,
    pub unkeyed_ordinal: Option<nat>,
    pub fields: Seq<(Seq<char>, FieldChangeV)>,
}

pub open spec fn nat_opt(o: Option<usize>) -> Option<nat> {
    match o {
        Some(n) => Some(n as nat),
        None => None,
    }
}

impl View for EguiAuthoredBindingChange {
    type V = BindingChangeV;

    open spec fn view(&self) -> BindingChangeV {
        BindingChangeV {
            object_id: self.object_id@,
            authored_binding_id: str_opt_view(self.authored_binding_id),
            unkeyed_ordinal: nat_opt(self.unkeyed_ordinal),
            fields: fields_view(self.fields@),
        }
    }
}

/// An authored object ID duplicated on at least one side.
#[derive(Debug)]
pub struct EguiAuthoredIdAmbiguity {
    pub id: String,
    pub before_count: usize,
    pub after_count: usize,
}

pub ghost struct IdAmbiguityV {
    pub id: Seq<char>,
    pub before_count: nat,
    pub after_count: nat,
}

impl View for EguiAuthoredIdAmbiguity {
    type V = IdAmbiguityV;

    open spec fn view(&self) -> IdAmbiguityV {
        IdAmbiguityV {
            id: self.id@,
            before_count: self.before_count as nat,
            after_count: self.after_count as nat,
        }
    }
}

/// An authored binding ID duplicated within its object on at least one side.
#[derive(Debug)]
pub struct EguiAuthoredBindingIdAmbiguity {
    pub object_id: String,
    pub binding_id: String,
    pub before_count: usize,
    pub after_count: usize,
}

pub ghost struct BindingIdAmbiguityV {
    pub object_id: Seq<char>,
    pub binding_id: Seq<char>,
    pub before_count: nat,
    pub after_count: nat,
}

impl View for EguiAuthoredBindingIdAmbiguity {
    type V = BindingIdAmbiguityV;

    open spec fn view(&self) -> BindingIdAmbiguityV {
        BindingIdAmbiguityV {
            object_id: self.object_id@,
            binding_id: self.binding_id@,
            before_count: self.before_count as nat,
            after_count: self.after_count as nat,
        }
    }
}

/// A change of layer-local slot index of a binding that is otherwise
/// materially unchanged. `binding_ordinal` is the before-side position.
#[derive(Debug)]
pub struct EguiAuthoredExecutionHandleChange {
    pub id: String,
    pub authored_binding_id: Option<String>,
    pub binding_ordinal: usize,
    pub before_shape_index: usize,
    pub after_shape_index: usize,
}

pub ghost struct ChurnV {
    pub id: Seq<char>,
    pub authored_binding_id: Option<Seq<char>>,
    pub binding_ordinal: nat,
    pub before_shape_index: nat,
    pub after_shape_index: nat,
}

impl View for EguiAuthoredExecutionHandleChange {
    type V = ChurnV;

    open spec fn view(&self) -> ChurnV {
        ChurnV {
            id: self.id@,
            authored_binding_id: str_opt_view(self.authored_binding_id),
            binding_ordinal: self.binding_ordinal as nat,
            before_shape_index: self.before_shape_index as nat,
            after_shape_index: self.after_shape_index as nat,
        }
    }
}

// ---------------------------------------------------------------------------
// What the diff compares.
// ---------------------------------------------------------------------------

pub open spec fn kind_opt_json(k: Option<EguiPaintKind>) -> JsonV {
    match k {
        Some(k) => JsonV::Str(paint_kind_name(k)),
        None => JsonV::Null,
    }
}

/// Material differences of two bindings, field by field in field-name order.
/// The layer-local slot index is not material.
pub open spec fn material_binding_fields(b: BindingV, a: BindingV) -> Seq<(Seq<char>, FieldChangeV)> {
    change_if(
        b.binding_evidence != a.binding_evidence,
        "binding_evidence"@,
        JsonV::Str(b.binding_evidence),
        JsonV::Str(a.binding_evidence),
    ) + change_if(
        !rect_opt_eq(b.bounds, a.bounds),
        "bounds"@,
        rect_opt_json(b.bounds),
        rect_opt_json(a.bounds),
    ) + change_if(
        !rect_opt_eq(b.clip_rect, a.clip_rect),
        "clip_rect"@,
        rect_opt_json(b.clip_rect),
        rect_opt_json(a.clip_rect),
    ) + change_if(b.kind != a.kind, "kind"@, kind_opt_json(b.kind), kind_opt_json(a.kind))
        + change_if(
        b.layer_id != a.layer_id,
        "layer_id"@,
        JsonV::Number(NumberV::PosInt(b.layer_id)),
        JsonV::Number(NumberV::PosInt(a.layer_id)),
    ) + change_if(
        b.layer_order != a.layer_order,
        "layer_order"@,
        JsonV::Str(layer_order_name(b.layer_order)),
        JsonV::Str(layer_order_name(a.layer_order)),
    ) + change_if(
        b.verified_at_end_pass != a.verified_at_end_pass,
        "verified_at_end_pass"@,
        JsonV::Bool(b.verified_at_end_pass),
        JsonV::Bool(a.verified_at_end_pass),
    )
}

/// Material differences of the authored semantics of two objects.
pub open spec fn authored_object_fields(b: ObjectV, a: ObjectV) -> Seq<(Seq<char>, FieldChangeV)> {
    change_if(b.name != a.name, "name"@, str_opt_json(b.name), str_opt_json(a.name)) + change_if(
        b.role != a.role,
        "role"@,
        JsonV::Str(b.role),
        JsonV::Str(a.role),
    ) + change_if(
        b.semantic_evidence != a.semantic_evidence,
        "semantic_evidence"@,
        JsonV::Str(b.semantic_evidence),
        JsonV::Str(a.semantic_evidence),
    )
}

fn kind_opt_to_json(k: Option<EguiPaintKind>) -> (j: JsonValue)
    ensures
        j@ == kind_opt_json(k),
{
    match k {
        Some(k) => JsonValue::String(owned(k.name())),
        None => JsonValue::Null,
    }
}

fn kind_opt_equal(a: Option<EguiPaintKind>, b: Option<EguiPaintKind>) -> (r: bool)
    ensures
        r == (a == b),
{
    match (a, b) {
        (Some(x), Some(y)) => x == y,
        (None, None) => true,
        _ => false,
    }
}

/// The material differences of two bindings.
pub fn binding_material_fields(
    before: &EguiAuthoredPaintBinding,
    after: &EguiAuthoredPaintBinding,
) -> (fields: Vec<(String, FieldChange)>)
    ensures
        fields_view(fields@) == material_binding_fields(before@, after@),
{
    let mut fields: Vec<(String, FieldChange)> = Vec::new();
    push_change_if(
        &mut fields,
        before.binding_evidence != after.binding_evidence,
        "binding_evidence",
        JsonValue::String(before.binding_evidence.clone()),
        JsonValue::String(after.binding_evidence.clone()),
    );
    push_change_if(
        &mut fields,
        !rect_opt_equal(&before.bounds, &after.bounds),
        "bounds",
        rect_opt_to_json(&before.bounds),
        rect_opt_to_json(&after.bounds),
    );
    push_change_if(
        &mut fields,
        !rect_opt_equal(&before.clip_rect, &after.clip_rect),
        "clip_rect",
        rect_opt_to_json(&before.clip_rect),
        rect_opt_to_json(&after.clip_rect),
    );
    push_change_if(
        &mut fields,
        !kind_opt_equal(before.kind, after.kind),
        "kind",
        kind_opt_to_json(before.kind),
        kind_opt_to_json(after.kind),
    );
    push_change_if(
        &mut fields,
        before.layer_id != after.layer_id,
        "layer_id",
        JsonValue::Number(JsonNumber::PosInt(before.layer_id)),
        JsonValue::Number(JsonNumber::PosInt(after.layer_id)),
    );
    push_change_if(
        &mut fields,
        before.layer_order != after.layer_order,
        "layer_order",
        JsonValue::String(owned(before.layer_order.name())),
        JsonValue::String(owned(after.layer_order.name())),
    );
    push_change_if(
        &mut fields,
        before.verified_at_end_pass != after.verified_at_end_pass,
        "verified_at_end_pass",
        JsonValue::Bool(before.verified_at_end_pass),
        JsonValue::Bool(after.verified_at_end_pass),
    );
    assert(fields_view(fields@) =~= material_binding_fields(before@, after@));
    fields
}

/// The material differences of the authored semantics of two objects.
pub fn object_material_fields(
    before: &EguiAuthoredPaintObject,
    after: &EguiAuthoredPaintObject,
) -> (fields: Vec<(String, FieldChange)>)
    ensures
        fields_view(fields@) == authored_object_fields(before@, after@),
{
    let mut fields: Vec<(String, FieldChange)> = Vec::new();
    push_change_if(
        &mut fields,
        !str_opt_equal(&before.name, &after.name),
        "name",
        str_opt_to_json(&before.name),
        str_opt_to_json(&after.name),
    );
    push_change_if(
        &mut fields,
        before.role != after.role,
        "role",
        JsonValue::String(before.role.clone()),
        JsonValue::String(after.role.clone()),
    );
    push_change_if(
        &mut fields,
        before.semantic_evidence != after.semantic_evidence,
        "semantic_evidence",
        JsonValue::String(before.semantic_evidence.clone()),
        JsonValue::String(after.semantic_evidence.clone()),
    );
    assert(fields_view(fields@) =~= authored_object_fields(before@, after@));
    fields
}

// ---------------------------------------------------------------------------
// Binding continuity within one matched object.
// ---------------------------------------------------------------------------

/// How many bindings carry the authored key `k`.
pub open spec fn count_key(bs: Seq<BindingV>, k: Seq<char>) -> nat
    decreases bs.len(),
{
    if bs.len() == 0 {
        0
    } else {
        count_key(bs.drop_last(), k) + if bs.last().authored_binding_id == Some(k) {
            1nat
        } else {
            0nat
        }
    }
}

/// Position of the last binding carrying the authored key `k`, or -1.
pub open spec fn last_with_key(bs: Seq<BindingV>, k: Seq<char>) -> int
    decreases bs.len(),
{
    if bs.len() == 0 {
        -1
    } else if bs.last().authored_binding_id == Some(k) {
        bs.len() - 1
    } else {
        last_with_key(bs.drop_last(), k)
    }
}

/// The authored keys of the keyed bindings, in binding order.
pub open spec fn binding_keys(bs: Seq<BindingV>) -> Seq<Seq<char>>
    decreases bs.len(),
{
    if bs.len() == 0 {
        Seq::empty()
    } else {
        binding_keys(bs.drop_last()) + match bs.last().authored_binding_id {
            Some(k) => seq![k],
            None => Seq::empty(),
        }
    }
}

/// Positions of the unkeyed bindings, in binding order.
pub open spec fn unkeyed_indices(bs: Seq<BindingV>) -> Seq<int>
    decreases bs.len(),
{
    if bs.len() == 0 {
        Seq::empty()
    } else {
        unkeyed_indices(bs.drop_last()) + if bs.last().authored_binding_id is None {
            seq![bs.len() - 1]
        } else {
            Seq::empty()
        }
    }
}

/// The authored binding keys of either side, ascending and without repeats.
pub open spec fn key_listing(b: ObjectV, a: ObjectV) -> Seq<Seq<char>> {
    sorted_listing(key_set(binding_keys(b.bindings) + binding_keys(a.bindings)))
}

/// Ambiguity records for the keys of `ks` duplicated on either side.
pub open spec fn binding_ambiguities_over(b: ObjectV, a: ObjectV, ks: Seq<Seq<char>>) -> Seq<
    BindingIdAmbiguityV,
>
    decreases ks.len(),
{
    if ks.len() == 0 {
        Seq::empty()
    } else {
        let k = ks.last();
        let cb = count_key(b.bindings, k);
        let ca = count_key(a.bindings, k);
        binding_ambiguities_over(b, a, ks.drop_last()) + if cb > 1 || ca > 1 {
            seq![BindingIdAmbiguityV { object_id: b.id, binding_id: k, before_count: cb, after_count: ca }]
        } else {
            Seq::empty()
        }
    }
}

pub open spec fn binding_ambiguities(b: ObjectV, a: ObjectV) -> Seq<BindingIdAmbiguityV> {
    binding_ambiguities_over(b, a, key_listing(b, a))
}

/// The binding-level records of a diff.
#[verifier::ext_equal]
pub ghost struct BindingDiffV {
    pub added: Seq<DeltaV>,
    pub removed: Seq<DeltaV>,
    pub changed: Seq<BindingChangeV>,
    pub churn: Seq<ChurnV>,
}

pub open spec fn no_binding_diff() -> BindingDiffV {
    BindingDiffV {
        added: Seq::empty(),
        removed: Seq::empty(),
        changed: Seq::empty(),
        churn: Seq::empty(),
    }
}

pub open spec fn join_binding_diffs(x: BindingDiffV, y: BindingDiffV) -> BindingDiffV {
    BindingDiffV {
        added: x.added + y.added,
        removed: x.removed + y.removed,
        changed: x.changed + y.changed,
        churn: x.churn + y.churn,
    }
}

/// Comparison of two matched bindings: a material change, slot churn, or
/// nothing.
pub open spec fn matched_binding_diff(
    object_id: Seq<char>,
    key: Option<Seq<char>>,
    unkeyed_ordinal: Option<nat>,
    before_ordinal: nat,
    bb: BindingV,
    ab: BindingV,
) -> BindingDiffV {
    let fields = material_binding_fields(bb, ab);
    if fields.len() > 0 {
        BindingDiffV {
            changed: seq![
                BindingChangeV { object_id, authored_binding_id: key, unkeyed_ordinal, fields },
            ],
            ..no_binding_diff()
        }
    } else if bb.shape_index != ab.shape_index {
        BindingDiffV {
            churn: seq![
                ChurnV {
                    id: object_id,
                    authored_binding_id: key,
                    binding_ordinal: before_ordinal,
                    before_shape_index: bb.shape_index as nat,
                    after_shape_index: ab.shape_index as nat,
                },
            ],
            ..no_binding_diff()
        }
    } else {
        no_binding_diff()
    }
}

/// Records for one authored binding key.
pub open spec fn keyed_step(b: ObjectV, a: ObjectV, k: Seq<char>) -> BindingDiffV {
    let ib = last_with_key(b.bindings, k);
    let ia = last_with_key(a.bindings, k);
    if ib < 0 {
        BindingDiffV {
            added: seq![DeltaV { object_id: a.id, binding_ordinal: ia as nat, binding: a.bindings[ia] }],
            ..no_binding_diff()
        }
    } else if ia < 0 {
        BindingDiffV {
            removed: seq![DeltaV { object_id: b.id, binding_ordinal: ib as nat, binding: b.bindings[ib] }],
            ..no_binding_diff()
        }
    } else {
        matched_binding_diff(b.id, Some(k), None, ib as nat, b.bindings[ib], a.bindings[ia])
    }
}

pub open spec fn keyed_over(b: ObjectV, a: ObjectV, ks: Seq<Seq<char>>) -> BindingDiffV
    decreases ks.len(),
{
    if ks.len() == 0 {
        no_binding_diff()
    } else {
        join_binding_diffs(keyed_over(b, a, ks.drop_last()), keyed_step(b, a, ks.last()))
    }
}

/// Records for the `r`-th unkeyed binding present on both sides.
pub open spec fn unkeyed_step(b: ObjectV, a: ObjectV, r: int) -> BindingDiffV {
    let ib = unkeyed_indices(b.bindings)[r];
    let ia = unkeyed_indices(a.bindings)[r];
    matched_binding_diff(b.id, None, Some(r as nat), ib as nat, b.bindings[ib], a.bindings[ia])
}

pub open spec fn unkeyed_pairs(b: ObjectV, a: ObjectV, n: int) -> BindingDiffV
    decreases n,
{
    if n <= 0 {
        no_binding_diff()
    } else {
        join_binding_diffs(unkeyed_pairs(b, a, n - 1), unkeyed_step(b, a, n - 1))
    }
}

pub open spec fn unkeyed_common(b: ObjectV, a: ObjectV) -> int {
    let nb = unkeyed_indices(b.bindings).len();
    let na = unkeyed_indices(a.bindings).len();
    if nb < na { nb as int } else { na as int }
}

/// Unkeyed bindings beyond the common count, as one-sided records.
pub open spec fn unkeyed_extra(o: ObjectV, common: int) -> Seq<DeltaV> {
    let u = unkeyed_indices(o.bindings);
    Seq::new(
        (u.len() - common) as nat,
        |j: int|
            DeltaV {
                object_id: o.id,
                binding_ordinal: u[common + j] as nat,
                binding: o.bindings[u[common + j]],
            },
    )
}

/// All binding-level records of one matched object pair without duplicated
/// keys: unkeyed records first, then keyed records in key order.
pub open spec fn binding_diff(b: ObjectV, a: ObjectV) -> BindingDiffV {
    let common = unkeyed_common(b, a);
    let pairs = unkeyed_pairs(b, a, common);
    let unkeyed = BindingDiffV {
        added: unkeyed_extra(a, common),
        removed: unkeyed_extra(b, common),
        changed: pairs.changed,
        churn: pairs.churn,
    };
    join_binding_diffs(unkeyed, keyed_over(b, a, key_listing(b, a)))
}

pub open spec fn deltas_view(v: Seq<EguiAuthoredBindingDelta>) -> Seq<DeltaV> {
    v.map_values(|d: EguiAuthoredBindingDelta| d@)
}

pub open spec fn binding_changes_view(v: Seq<EguiAuthoredBindingChange>) -> Seq<BindingChangeV> {
    v.map_values(|c: EguiAuthoredBindingChange| c@)
}

pub open spec fn churns_view(v: Seq<EguiAuthoredExecutionHandleChange>) -> Seq<ChurnV> {
    v.map_values(|c: EguiAuthoredExecutionHandleChange| c@)
}

proof fn lemma_last_with_key(bs: Seq<BindingV>, k: Seq<char>)
    ensures
        -1 <= last_with_key(bs, k) < bs.len(),
        last_with_key(bs, k) >= 0 ==> bs[last_with_key(bs, k)].authored_binding_id == Some(k),
        last_with_key(bs, k) >= 0 <==> binding_keys(bs).contains(k),
        last_with_key(bs, k) >= 0 <==> count_key(bs, k) > 0,
    decreases bs.len(),
{
    if bs.len() > 0 {
        lemma_last_with_key(bs.drop_last(), k);
        let prefix = binding_keys(bs.drop_last());
        if bs.last().authored_binding_id == Some(k) {
            assert(binding_keys(bs).last() == k);
            assert(binding_keys(bs).contains(k));
        } else {
            match bs.last().authored_binding_id {
                Some(j) => {
                    assert(binding_keys(bs) == prefix.push(j));
                    if binding_keys(bs).contains(k) {
                        let w = choose|w: int| 0 <= w < binding_keys(bs).len() && binding_keys(bs)[w] == k;
                        assert(prefix[w] == k);
                    }
                    if prefix.contains(k) {
                        let w = choose|w: int| 0 <= w < prefix.len() && prefix[w] == k;
                        assert(binding_keys(bs)[w] == k);
                    }
                },
                None => {
                    assert(binding_keys(bs) =~= prefix);
                },
            }
        }
    }
}

proof fn lemma_unkeyed_indices(bs: Seq<BindingV>)
    ensures
        forall|j: int|
            0 <= j < unkeyed_indices(bs).len() ==> 0 <= #[trigger] unkeyed_indices(bs)[j] < bs.len()
                && bs[unkeyed_indices(bs)[j]].authored_binding_id is None,
    decreases bs.len(),
{
    if bs.len() > 0 {
        lemma_unkeyed_indices(bs.drop_last());
        let prefix = unkeyed_indices(bs.drop_last());
        assert forall|j: int| 0 <= j < unkeyed_indices(bs).len() implies 0 <= #[trigger] unkeyed_indices(bs)[j] < bs.len()
            && bs[unkeyed_indices(bs)[j]].authored_binding_id is None by {
            if j < prefix.len() {
                assert(unkeyed_indices(bs)[j] == prefix[j]);
                assert(bs.drop_last()[prefix[j]] == bs[prefix[j]]);
            }
        }
    }
}

/// Count of bindings carrying `key`, and the position of the last one.
fn find_key(bs: &Vec<EguiAuthoredPaintBinding>, key: &String) -> (r: (usize, Option<usize>))
    ensures
        r.0 == count_key(bindings_view(bs@), key@),
        r.1 matches Some(i) ==> i as int == last_with_key(bindings_view(bs@), key@),
        r.1 is None ==> last_with_key(bindings_view(bs@), key@) < 0,
{
    let ghost v = bindings_view(bs@);
    let mut count: usize = 0;
    let mut last: Option<usize> = None;
    let mut i: usize = 0;
    while i < bs.len()
        invariant
            v == bindings_view(bs@),
            i <= bs.len(),
            count <= i,
            count == count_key(v.take(i as int), key@),
            last matches Some(l) ==> l as int == last_with_key(v.take(i as int), key@),
            last is None ==> last_with_key(v.take(i as int), key@) < 0,
        decreases bs.len() - i,
    {
        proof {
            assert(v.take(i + 1).drop_last() =~= v.take(i as int));
            assert(v.take(i + 1).last() == bs@[i as int]@);
        }
        if str_opt_equal(&bs[i].authored_binding_id, &Some(key.clone())) {
            count = count + 1;
            last = Some(i);
        }
        i = i + 1;
    }
    assert(v.take(bs.len() as int) =~= v);
    (count, last)
}

/// The authored keys of the keyed bindings, appended in binding order.
fn push_binding_keys(bs: &Vec<EguiAuthoredPaintBinding>, out: &mut Vec<Vec<char>>)
    ensures
        chars_views(final(out)@) == chars_views(old(out)@) + binding_keys(bindings_view(bs@)),
{
    let ghost v = bindings_view(bs@);
    let mut i: usize = 0;
    while i < bs.len()
        invariant
            v == bindings_view(bs@),
            i <= bs.len(),
            chars_views(out@) == chars_views(old(out)@) + binding_keys(v.take(i as int)),
        decreases bs.len() - i,
    {
        proof {
            assert(v.take(i + 1).drop_last() =~= v.take(i as int));
            assert(v.take(i + 1).last() == bs@[i as int]@);
        }
        let ghost prev = out@;
        match &bs[i].authored_binding_id {
            Some(k) => {
                let cs = chars_of(k.as_str());
                out.push(cs);
                assert(chars_views(out@) =~= chars_views(prev).push(k@));
                assert(binding_keys(v.take(i + 1)) == binding_keys(v.take(i as int)) + seq![k@]);
            },
            None => {
                assert(binding_keys(v.take(i + 1)) =~= binding_keys(v.take(i as int)));
            },
        }
        i = i + 1;
        assert(chars_views(out@) =~= chars_views(old(out)@) + binding_keys(v.take(i as int)));
    }
    assert(v.take(bs.len() as int) =~= v);
}

/// Positions of the unkeyed bindings.
fn unkeyed_positions(bs: &Vec<EguiAuthoredPaintBinding>) -> (r: Vec<usize>)
    ensures
        r@.len() == unkeyed_indices(bindings_view(bs@)).len(),
        forall|j: int| 0 <= j < r@.len() ==> r@[j] as int == unkeyed_indices(bindings_view(bs@))[j],
{
    let ghost v = bindings_view(bs@);
    let mut out: Vec<usize> = Vec::new();
    let mut i: usize = 0;
    while i < bs.len()
        invariant
            v == bindings_view(bs@),
            i <= bs.len(),
            out@.len() == unkeyed_indices(v.take(i as int)).len(),
            forall|j: int| 0 <= j < out@.len() ==> out@[j] as int == unkeyed_indices(v.take(i as int))[j],
        decreases bs.len() - i,
    {
        proof {
            assert(v.take(i + 1).drop_last() =~= v.take(i as int));
            assert(v.take(i + 1).last() == bs@[i as int]@);
        }
        if bs[i].authored_binding_id.is_none() {
            out.push(i);
        }
        i = i + 1;
    }
    assert(v.take(bs.len() as int) =~= v);
    out
}

/// Record the comparison of two matched bindings.
fn push_matched(
    object_id: &String,
    key: &Option<String>,
    unkeyed_ordinal: Option<usize>,
    before_ordinal: usize,
    bb: &EguiAuthoredPaintBinding,
    ab: &EguiAuthoredPaintBinding,
    changed: &mut Vec<EguiAuthoredBindingChange>,
    churn: &mut Vec<EguiAuthoredExecutionHandleChange>,
)
    ensures
        binding_changes_view(final(changed)@) == binding_changes_view(old(changed)@)
            + matched_binding_diff(
            object_id@,
            str_opt_view(*key),
            nat_opt(unkeyed_ordinal),
            before_ordinal as nat,
            bb@,
            ab@,
        ).changed,
        churns_view(final(churn)@) == churns_view(old(churn)@) + matched_binding_diff(
            object_id@,
            str_opt_view(*key),
            nat_opt(unkeyed_ordinal),
            before_ordinal as nat,
            bb@,
            ab@,
        ).churn,
{
    let fields = binding_material_fields(bb, ab);
    if fields.len() > 0 {
        changed.push(
            EguiAuthoredBindingChange {
                object_id: object_id.clone(),
                authored_binding_id: crate::model::copy_str_opt(key),
                unkeyed_ordinal,
                fields,
            },
        );
    } else if bb.shape_index != ab.shape_index {
        churn.push(
            EguiAuthoredExecutionHandleChange {
                id: object_id.clone(),
                authored_binding_id: crate::model::copy_str_opt(key),
                binding_ordinal: before_ordinal,
                before_shape_index: bb.shape_index,
                after_shape_index: ab.shape_index,
            },
        );
    }
    assert(binding_changes_view(changed@) =~= binding_changes_view(old(changed)@)
        + matched_binding_diff(
        object_id@,
        str_opt_view(*key),
        nat_opt(unkeyed_ordinal),
        before_ordinal as nat,
        bb@,
        ab@,
    ).changed);
    assert(churns_view(churn@) =~= churns_view(old(churn)@) + matched_binding_diff(
        object_id@,
        str_opt_view(*key),
        nat_opt(unkeyed_ordinal),
        before_ordinal as nat,
        bb@,
        ab@,
    ).churn);
}

/// Record the comparison for one authored binding key present on either side.
fn push_keyed_step(
    before: &EguiAuthoredPaintObject,
    after: &EguiAuthoredPaintObject,
    key: String,
    bindings_added: &mut Vec<EguiAuthoredBindingDelta>,
    bindings_removed: &mut Vec<EguiAuthoredBindingDelta>,
    bindings_changed: &mut Vec<EguiAuthoredBindingChange>,
    execution_handle_churn: &mut Vec<EguiAuthoredExecutionHandleChange>,
)
    requires
        binding_keys(before@.bindings).contains(key@) || binding_keys(after@.bindings).contains(key@),
    ensures
        deltas_view(final(bindings_added)@) == deltas_view(old(bindings_added)@) + keyed_step(
            before@,
            after@,
            key@,
        ).added,
        deltas_view(final(bindings_removed)@) == deltas_view(old(bindings_removed)@) + keyed_step(
            before@,
            after@,
            key@,
        ).removed,
        binding_changes_view(final(bindings_changed)@) == binding_changes_view(
            old(bindings_changed)@,
        ) + keyed_step(before@, after@, key@).changed,
        churns_view(final(execution_handle_churn)@) == churns_view(old(execution_handle_churn)@)
            + keyed_step(before@, after@, key@).churn,
{
    let ghost b = before@;
    let ghost a = after@;
    let ghost k = key@;
        let (_, lb) = find_key(&before.bindings, &key);
        let (_, la) = find_key(&after.bindings, &key);
        proof {
            lemma_last_with_key(b.bindings, k);
            lemma_last_with_key(a.bindings, k);
        }
        match (lb, la) {
            (None, Some(ia)) => {
                assert(a.bindings[ia as int] == after.bindings@[ia as int]@);
                let ghost prev = bindings_added@;
                let d = EguiAuthoredBindingDelta {
                    object_id: after.id.clone(),
                    binding_ordinal: ia,
                    binding: after.bindings[ia].copy(),
                };
                bindings_added.push(d);
                assert(deltas_view(bindings_added@) =~= deltas_view(prev) + keyed_step(b, a, k).added);
            },
            (Some(ib), None) => {
                assert(b.bindings[ib as int] == before.bindings@[ib as int]@);
                let ghost prev = bindings_removed@;
                let d = EguiAuthoredBindingDelta {
                    object_id: before.id.clone(),
                    binding_ordinal: ib,
                    binding: before.bindings[ib].copy(),
                };
                bindings_removed.push(d);
                assert(deltas_view(bindings_removed@) =~= deltas_view(prev) + keyed_step(b, a, k).removed);
            },
            (Some(ib), Some(ia)) => {
                assert(b.bindings[ib as int] == before.bindings@[ib as int]@);
                assert(a.bindings[ia as int] == after.bindings@[ia as int]@);
                push_matched(
                    &before.id,
                    &Some(key),
                    None,
                    ib,
                    &before.bindings[ib],
                    &after.bindings[ia],
                    bindings_changed,
                    execution_handle_churn,
                );
            },
            (None, None) => {
                assert(false);
            },
        }
    assert(deltas_view(bindings_added@) =~= deltas_view(old(bindings_added)@) + keyed_step(b, a, k).added);
    assert(deltas_view(bindings_removed@) =~= deltas_view(old(bindings_removed)@) + keyed_step(b, a, k).removed);
    assert(binding_changes_view(bindings_changed@) =~= binding_changes_view(old(bindings_changed)@) + keyed_step(b, a, k).changed);
    assert(churns_view(execution_handle_churn@) =~= churns_view(old(execution_handle_churn)@) + keyed_step(b, a, k).churn);
}

/// Compare the bindings of one uniquely matched object pair, appending the
/// records of `binding_diff` to the four record lists.
#[verifier::spinoff_prover]
#[verifier::rlimit(50)]
pub fn diff_object_bindings(
    before: &EguiAuthoredPaintObject,
    after: &EguiAuthoredPaintObject,
    bindings_added: &mut Vec<EguiAuthoredBindingDelta>,
    bindings_removed: &mut Vec<EguiAuthoredBindingDelta>,
    bindings_changed: &mut Vec<EguiAuthoredBindingChange>,
    execution_handle_churn: &mut Vec<EguiAuthoredExecutionHandleChange>,
)
    ensures
        deltas_view(final(bindings_added)@) == deltas_view(old(bindings_added)@) + binding_diff(
            before@,
            after@,
        ).added,
        deltas_view(final(bindings_removed)@) == deltas_view(old(bindings_removed)@) + binding_diff(
            before@,
            after@,
        ).removed,
        binding_changes_view(final(bindings_changed)@) == binding_changes_view(
            old(bindings_changed)@,
        ) + binding_diff(before@, after@).changed,
        churns_view(final(execution_handle_churn)@) == churns_view(old(execution_handle_churn)@)
            + binding_diff(before@, after@).churn,
{
    let ghost b = before@;
    let ghost a = after@;
    proof {
        lemma_unkeyed_indices(b.bindings);
        lemma_unkeyed_indices(a.bindings);
    }
    // Unkeyed bindings: matched by relative order.
    let ub = unkeyed_positions(&before.bindings);
    let ua = unkeyed_positions(&after.bindings);
    let common = if ub.len() < ua.len() { ub.len() } else { ua.len() };
    assert(common as int == unkeyed_common(b, a));
    let mut r: usize = 0;
    while r < common
        invariant
            b == before@,
            a == after@,
            common as int == unkeyed_common(b, a),
            common <= ub.len(),
            common <= ua.len(),
            ub@.len() == unkeyed_indices(b.bindings).len(),
            ua@.len() == unkeyed_indices(a.bindings).len(),
            forall|j: int| 0 <= j < ub@.len() ==> ub@[j] as int == unkeyed_indices(b.bindings)[j],
            forall|j: int| 0 <= j < ua@.len() ==> ua@[j] as int == unkeyed_indices(a.bindings)[j],
            forall|j: int|
                0 <= j < unkeyed_indices(b.bindings).len() ==> 0 <= #[trigger] unkeyed_indices(
                    b.bindings,
                )[j] < b.bindings.len(),
            forall|j: int|
                0 <= j < unkeyed_indices(a.bindings).len() ==> 0 <= #[trigger] unkeyed_indices(
                    a.bindings,
                )[j] < a.bindings.len(),
            r <= common,
            binding_changes_view(bindings_changed@) == binding_changes_view(old(bindings_changed)@)
                + unkeyed_pairs(b, a, r as int).changed,
            churns_view(execution_handle_churn@) == churns_view(old(execution_handle_churn)@)
                + unkeyed_pairs(b, a, r as int).churn,
            bindings_added@ == old(bindings_added)@,
            bindings_removed@ == old(bindings_removed)@,
        decreases common - r,
    {
        let ib = ub[r];
        let ia = ua[r];
        assert(b.bindings[ib as int] == before.bindings@[ib as int]@);
        assert(a.bindings[ia as int] == after.bindings@[ia as int]@);
        push_matched(
            &before.id,
            &None,
            Some(r),
            ib,
            &before.bindings[ib],
            &after.bindings[ia],
            bindings_changed,
            execution_handle_churn,
        );
        r = r + 1;
        assert(binding_changes_view(bindings_changed@) =~= binding_changes_view(
            old(bindings_changed)@,
        ) + unkeyed_pairs(b, a, r as int).changed);
        assert(churns_view(execution_handle_churn@) =~= churns_view(old(execution_handle_churn)@)
            + unkeyed_pairs(b, a, r as int).churn);
    }
    // Unkeyed bindings beyond the common count.
    let mut j: usize = common;
    while j < ub.len()
        invariant
            b == before@,
            common as int == unkeyed_common(b, a),
            common <= j <= ub.len(),
            ub@.len() == unkeyed_indices(b.bindings).len(),
            forall|q: int| 0 <= q < ub@.len() ==> ub@[q] as int == unkeyed_indices(b.bindings)[q],
            forall|q: int|
                0 <= q < unkeyed_indices(b.bindings).len() ==> 0 <= #[trigger] unkeyed_indices(
                    b.bindings,
                )[q] < b.bindings.len(),
            deltas_view(bindings_removed@) == deltas_view(old(bindings_removed)@) + unkeyed_extra(
                b,
                common as int,
            ).take(j - common),
        decreases ub.len() - j,
    {
        let ib = ub[j];
        assert(b.bindings[ib as int] == before.bindings@[ib as int]@);
        assert(unkeyed_extra(b, common as int)[j - common] == DeltaV {
            object_id: before.id@,
            binding_ordinal: ib as nat,
            binding: before.bindings@[ib as int]@,
        });
        let ghost prev = bindings_removed@;
        let d = EguiAuthoredBindingDelta {
            object_id: before.id.clone(),
            binding_ordinal: ib,
            binding: before.bindings[ib].copy(),
        };
        bindings_removed.push(d);
        assert(deltas_view(bindings_removed@) =~= deltas_view(prev).push(
            unkeyed_extra(b, common as int)[j - common],
        ));
        assert(unkeyed_extra(b, common as int).take(j + 1 - common) =~= unkeyed_extra(
            b,
            common as int,
        ).take(j - common).push(unkeyed_extra(b, common as int)[j - common]));
        j = j + 1;
        assert(deltas_view(bindings_removed@) =~= deltas_view(old(bindings_removed)@)
            + unkeyed_extra(b, common as int).take(j - common));
    }
    assert(unkeyed_extra(b, common as int).take(ub.len() - common) =~= unkeyed_extra(b, common as int));
    let mut j: usize = common;
    while j < ua.len()
        invariant
            a == after@,
            common as int == unkeyed_common(b, a),
            common <= j <= ua.len(),
            ua@.len() == unkeyed_indices(a.bindings).len(),
            forall|q: int| 0 <= q < ua@.len() ==> ua@[q] as int == unkeyed_indices(a.bindings)[q],
            forall|q: int|
                0 <= q < unkeyed_indices(a.bindings).len() ==> 0 <= #[trigger] unkeyed_indices(
                    a.bindings,
                )[q] < a.bindings.len(),
            deltas_view(bindings_added@) == deltas_view(old(bindings_added)@) + unkeyed_extra(
                a,
                common as int,
            ).take(j - common),
        decreases ua.len() - j,
    {
        let ia = ua[j];
        assert(a.bindings[ia as int] == after.bindings@[ia as int]@);
        assert(unkeyed_extra(a, common as int)[j - common] == DeltaV {
            object_id: after.id@,
            binding_ordinal: ia as nat,
            binding: after.bindings@[ia as int]@,
        });
        let ghost prev = bindings_added@;
        let d = EguiAuthoredBindingDelta {
            object_id: after.id.clone(),
            binding_ordinal: ia,
            binding: after.bindings[ia].copy(),
        };
        bindings_added.push(d);
        assert(deltas_view(bindings_added@) =~= deltas_view(prev).push(
            unkeyed_extra(a, common as int)[j - common],
        ));
        assert(unkeyed_extra(a, common as int).take(j + 1 - common) =~= unkeyed_extra(
            a,
            common as int,
        ).take(j - common).push(unkeyed_extra(a, common as int)[j - common]));
        j = j + 1;
        assert(deltas_view(bindings_added@) =~= deltas_view(old(bindings_added)@) + unkeyed_extra(
            a,
            common as int,
        ).take(j - common));
    }
    assert(unkeyed_extra(a, common as int).take(ua.len() - common) =~= unkeyed_extra(a, common as int));
    // Keyed bindings: matched by authored key, in key order.
    let ghost base_added = deltas_view(bindings_added@);
    let ghost base_removed = deltas_view(bindings_removed@);
    let ghost base_changed = binding_changes_view(bindings_changed@);
    let ghost base_churn = churns_view(execution_handle_churn@);
    let mut keys: Vec<Vec<char>> = Vec::new();
    push_binding_keys(&before.bindings, &mut keys);
    push_binding_keys(&after.bindings, &mut keys);
    let listing = sorted_unique(&keys);
    let ghost ks = chars_views(listing@);
    assert(ks == key_listing(b, a));
    let mut q: usize = 0;
    while q < listing.len()
        invariant
            b == before@,
            a == after@,
            ks == chars_views(listing@),
            is_sorted_listing(ks, key_set(binding_keys(b.bindings) + binding_keys(a.bindings))),
            q <= listing.len(),
            deltas_view(bindings_added@) == base_added + keyed_over(b, a, ks.take(q as int)).added,
            deltas_view(bindings_removed@) == base_removed + keyed_over(b, a, ks.take(q as int)).removed,
            binding_changes_view(bindings_changed@) == base_changed + keyed_over(
                b,
                a,
                ks.take(q as int),
            ).changed,
            churns_view(execution_handle_churn@) == base_churn + keyed_over(b, a, ks.take(q as int)).churn,
        decreases listing.len() - q,
    {
        let key = chars_to_string(&listing[q]);
        let ghost k = key@;
        assert(k == ks[q as int]);
        proof {
            let all = binding_keys(b.bindings) + binding_keys(a.bindings);
            assert(ks.contains(k));
            assert(all.contains(k));
            let w = choose|w: int| 0 <= w < all.len() && all[w] == k;
            if w < binding_keys(b.bindings).len() {
                assert(binding_keys(b.bindings)[w] == k);
            } else {
                assert(binding_keys(a.bindings)[w - binding_keys(b.bindings).len()] == k);
            }
            assert(ks.take(q + 1).drop_last() =~= ks.take(q as int));
        }
        push_keyed_step(
            before,
            after,
            key,
            bindings_added,
            bindings_removed,
            bindings_changed,
            execution_handle_churn,
        );
        q = q + 1;
        assert(deltas_view(bindings_added@) =~= base_added + keyed_over(b, a, ks.take(q as int)).added);
        assert(deltas_view(bindings_removed@) =~= base_removed + keyed_over(b, a, ks.take(q as int)).removed);
        assert(binding_changes_view(bindings_changed@) =~= base_changed + keyed_over(b, a, ks.take(q as int)).changed);
        assert(churns_view(execution_handle_churn@) =~= base_churn + keyed_over(b, a, ks.take(q as int)).churn);
    }
    assert(ks.take(listing.len() as int) =~= ks);
    assert(deltas_view(bindings_added@) =~= deltas_view(old(bindings_added)@) + binding_diff(b, a).added);
    assert(deltas_view(bindings_removed@) =~= deltas_view(old(bindings_removed)@) + binding_diff(b, a).removed);
    assert(binding_changes_view(bindings_changed@) =~= binding_changes_view(old(bindings_changed)@) + binding_diff(b, a).changed);
    assert(churns_view(execution_handle_churn@) =~= churns_view(old(execution_handle_churn)@) + binding_diff(b, a).churn);
}

pub open spec fn binding_ambiguities_view(v: Seq<EguiAuthoredBindingIdAmbiguity>) -> Seq<
    BindingIdAmbiguityV,
> {
    v.map_values(|x: EguiAuthoredBindingIdAmbiguity| x@)
}

/// The authored binding keys of both objects, ascending and without repeats.
fn binding_key_listing(before: &EguiAuthoredPaintObject, after: &EguiAuthoredPaintObject) -> (r: Vec<
    Vec<char>,
>)
    ensures
        chars_views(r@) == key_listing(before@, after@),
        is_sorted_listing(
            chars_views(r@),
            key_set(binding_keys(before@.bindings) + binding_keys(after@.bindings)),
        ),
{
    let mut keys: Vec<Vec<char>> = Vec::new();
    push_binding_keys(&before.bindings, &mut keys);
    push_binding_keys(&after.bindings, &mut keys);
    sorted_unique(&keys)
}

/// Authored binding keys duplicated within either object, in key order.
pub fn binding_id_ambiguities(
    before: &EguiAuthoredPaintObject,
    after: &EguiAuthoredPaintObject,
) -> (r: Vec<EguiAuthoredBindingIdAmbiguity>)
    ensures
        binding_ambiguities_view(r@) == binding_ambiguities(before@, after@),
{
    let ghost b = before@;
    let ghost a = after@;
    let listing = binding_key_listing(before, after);
    let ghost ks = chars_views(listing@);
    let mut out: Vec<EguiAuthoredBindingIdAmbiguity> = Vec::new();
    let mut q: usize = 0;
    while q < listing.len()
        invariant
            b == before@,
            a == after@,
            ks == chars_views(listing@),
            q <= listing.len(),
            binding_ambiguities_view(out@) == binding_ambiguities_over(b, a, ks.take(q as int)),
        decreases listing.len() - q,
    {
        let key = chars_to_string(&listing[q]);
        let (cb, _) = find_key(&before.bindings, &key);
        let (ca, _) = find_key(&after.bindings, &key);
        let ghost prev = out@;
        proof {
            assert(ks.take(q + 1).drop_last() =~= ks.take(q as int));
            assert(ks.take(q + 1).last() == key@);
        }
        if cb > 1 || ca > 1 {
            out.push(
                EguiAuthoredBindingIdAmbiguity {
                    object_id: before.id.clone(),
                    binding_id: key,
                    before_count: cb,
                    after_count: ca,
                },
            );
        }
        q = q + 1;
        assert(binding_ambiguities_view(out@) =~= binding_ambiguities_over(b, a, ks.take(q as int)));
    }
    assert(ks.take(listing.len() as int) =~= ks);
    out
}

// ---------------------------------------------------------------------------
// Object continuity.
// ---------------------------------------------------------------------------

pub open spec fn object_ids(s: Seq<ObjectV>) -> Seq<Seq<char>> {
    s.map_values(|o: ObjectV| o.id)
}

/// How many objects carry the authored ID `id`.
pub open spec fn count_id(s: Seq<ObjectV>, id: Seq<char>) -> nat
    decreases s.len(),
{
    if s.len() == 0 {
        0
    } else {
        count_id(s.drop_last(), id) + if s.last().id == id {
            1nat
        } else {
            0nat
        }
    }
}

/// Position of the last object carrying `id`, or -1.
pub open spec fn last_with_id(s: Seq<ObjectV>, id: Seq<char>) -> int
    decreases s.len(),
{
    if s.len() == 0 {
        -1
    } else if s.last().id == id {
        s.len() - 1
    } else {
        last_with_id(s.drop_last(), id)
    }
}

/// The authored object IDs of either side, ascending and without repeats.
pub open spec fn object_listing(before: Seq<ObjectV>, after: Seq<ObjectV>) -> Seq<Seq<char>> {
    sorted_listing(key_set(object_ids(before) + object_ids(after)))
}

/// The records of an authored-object diff.
#[verifier::ext_equal]
pub ghost struct AuthoredDiffV {
    pub objects_added: Seq<ObjectV>,
    pub objects_removed: Seq<ObjectV>,
    pub objects_changed: Seq<ObjectChangeV>,
    pub bindings_added: Seq<DeltaV>,
    pub bindings_removed: Seq<DeltaV>,
    pub bindings_changed: Seq<BindingChangeV>,
    pub ambiguous_ids: Seq<IdAmbiguityV>,
    pub binding_ambiguities: Seq<BindingIdAmbiguityV>,
    pub execution_handle_churn: Seq<ChurnV>,
}

pub open spec fn no_authored_diff() -> AuthoredDiffV {
    AuthoredDiffV {
        objects_added: Seq::empty(),
        objects_removed: Seq::empty(),
        objects_changed: Seq::empty(),
        bindings_added: Seq::empty(),
        bindings_removed: Seq::empty(),
        bindings_changed: Seq::empty(),
        ambiguous_ids: Seq::empty(),
        binding_ambiguities: Seq::empty(),
        execution_handle_churn: Seq::empty(),
    }
}

pub open spec fn join_authored_diffs(x: AuthoredDiffV, y: AuthoredDiffV) -> AuthoredDiffV {
    AuthoredDiffV {
        objects_added: x.objects_added + y.objects_added,
        objects_removed: x.objects_removed + y.objects_removed,
        objects_changed: x.objects_changed + y.objects_changed,
        bindings_added: x.bindings_added + y.bindings_added,
        bindings_removed: x.bindings_removed + y.bindings_removed,
        bindings_changed: x.bindings_changed + y.bindings_changed,
        ambiguous_ids: x.ambiguous_ids + y.ambiguous_ids,
        binding_ambiguities: x.binding_ambiguities + y.binding_ambiguities,
        execution_handle_churn: x.execution_handle_churn + y.execution_handle_churn,
    }
}

/// Records for one uniquely matched object pair.
pub open spec fn matched_object_diff(b: ObjectV, a: ObjectV) -> AuthoredDiffV {
    let fields = authored_object_fields(b, a);
    let changed = if fields.len() > 0 {
        seq![ObjectChangeV { id: b.id, fields }]
    } else {
        Seq::empty()
    };
    let ambiguities = binding_ambiguities(b, a);
    if ambiguities.len() > 0 {
        AuthoredDiffV {
            objects_changed: changed,
            binding_ambiguities: ambiguities,
            ..no_authored_diff()
        }
    } else {
        let d = binding_diff(b, a);
        AuthoredDiffV {
            objects_changed: changed,
            bindings_added: d.added,
            bindings_removed: d.removed,
            bindings_changed: d.changed,
            execution_handle_churn: d.churn,
            ..no_authored_diff()
        }
    }
}

/// Records for one authored object ID.
pub open spec fn object_step(before: Seq<ObjectV>, after: Seq<ObjectV>, id: Seq<char>) -> AuthoredDiffV {
    let cb = count_id(before, id);
    let ca = count_id(after, id);
    if cb > 1 || ca > 1 {
        AuthoredDiffV {
            ambiguous_ids: seq![IdAmbiguityV { id, before_count: cb, after_count: ca }],
            ..no_authored_diff()
        }
    } else if cb == 0 {
        AuthoredDiffV { objects_added: seq![after[last_with_id(after, id)]], ..no_authored_diff() }
    } else if ca == 0 {
        AuthoredDiffV { objects_removed: seq![before[last_with_id(before, id)]], ..no_authored_diff() }
    } else {
        matched_object_diff(before[last_with_id(before, id)], after[last_with_id(after, id)])
    }
}

pub open spec fn objects_over(before: Seq<ObjectV>, after: Seq<ObjectV>, ids: Seq<Seq<char>>) -> AuthoredDiffV
    decreases ids.len(),
{
    if ids.len() == 0 {
        no_authored_diff()
    } else {
        join_authored_diffs(objects_over(before, after, ids.drop_last()), object_step(before, after, ids.last()))
    }
}

/// The authored-object diff of two captures' object lists, object ID by
/// object ID in ascending order.
pub open spec fn authored_diff(before: Seq<ObjectV>, after: Seq<ObjectV>) -> AuthoredDiffV {
    objects_over(before, after, object_listing(before, after))
}

/// Diff of application-authored custom-paint objects and their bindings.
#[derive(Debug)]
pub struct EguiAuthoredDiff {
    pub objects_added: Vec<EguiAuthoredPaintObject>,
    pub objects_removed: Vec<EguiAuthoredPaintObject>,
    /// Changes of object-level authored semantics only; binding changes are
    /// reported per binding below.
    pub objects_changed: Vec<EguiAuthoredObjectChange>,
    pub bindings_added: Vec<EguiAuthoredBindingDelta>,
    pub bindings_removed: Vec<EguiAuthoredBindingDelta>,
    pub bindings_changed: Vec<EguiAuthoredBindingChange>,
    pub ambiguous_ids: Vec<EguiAuthoredIdAmbiguity>,
    pub binding_ambiguities: Vec<EguiAuthoredBindingIdAmbiguity>,
    /// Non-material slot churn of bindings that are otherwise unchanged.
    pub execution_handle_churn: Vec<EguiAuthoredExecutionHandleChange>,
}

pub open spec fn objects_view(v: Seq<EguiAuthoredPaintObject>) -> Seq<ObjectV> {
    v.map_values(|o: EguiAuthoredPaintObject| o@)
}

impl View for EguiAuthoredDiff {
    type V = AuthoredDiffV;

    open spec fn view(&self) -> AuthoredDiffV {
        AuthoredDiffV {
            objects_added: objects_view(self.objects_added@),
            objects_removed: objects_view(self.objects_removed@),
            objects_changed: self.objects_changed@.map_values(|c: EguiAuthoredObjectChange| c@),
            bindings_added: deltas_view(self.bindings_added@),
            bindings_removed: deltas_view(self.bindings_removed@),
            bindings_changed: binding_changes_view(self.bindings_changed@),
            ambiguous_ids: self.ambiguous_ids@.map_values(|x: EguiAuthoredIdAmbiguity| x@),
            binding_ambiguities: binding_ambiguities_view(self.binding_ambiguities@),
            execution_handle_churn: churns_view(self.execution_handle_churn@),
        }
    }
}

/// No material authored change and no authored ambiguity.
pub open spec fn authored_materially_empty(d: AuthoredDiffV) -> bool {
    &&& d.objects_added.len() == 0
    &&& d.objects_removed.len() == 0
    &&& d.objects_changed.len() == 0
    &&& d.bindings_added.len() == 0
    &&& d.bindings_removed.len() == 0
    &&& d.bindings_changed.len() == 0
    &&& d.ambiguous_ids.len() == 0
    &&& d.binding_ambiguities.len() == 0
}

impl EguiAuthoredDiff {
    /// True when there is no material authored change and no authored-ID
    /// ambiguity. Execution-handle churn alone does not make it false.
    pub fn is_materially_empty(&self) -> (r: bool)
        ensures
            r == authored_materially_empty(self@),
    {
        self.objects_added.len() == 0 && self.objects_removed.len() == 0
            && self.objects_changed.len() == 0 && self.bindings_added.len() == 0
            && self.bindings_removed.len() == 0 && self.bindings_changed.len() == 0
            && self.ambiguous_ids.len() == 0 && self.binding_ambiguities.len() == 0
    }
}

proof fn lemma_last_with_id(s: Seq<ObjectV>, id: Seq<char>)
    ensures
        -1 <= last_with_id(s, id) < s.len(),
        last_with_id(s, id) >= 0 ==> s[last_with_id(s, id)].id == id,
        last_with_id(s, id) >= 0 <==> count_id(s, id) > 0,
        object_ids(s).contains(id) <==> count_id(s, id) > 0,
    decreases s.len(),
{
    if s.len() > 0 {
        lemma_last_with_id(s.drop_last(), id);
        let ids = object_ids(s);
        assert(object_ids(s.drop_last()) =~= ids.drop_last());
        if ids.contains(id) {
            let w = choose|w: int| 0 <= w < ids.len() && ids[w] == id;
            if w < s.len() - 1 {
                assert(object_ids(s.drop_last())[w] == id);
            }
        }
        if object_ids(s.drop_last()).contains(id) {
            let w = choose|w: int| 0 <= w < ids.len() - 1 && object_ids(s.drop_last())[w] == id;
            assert(ids[w] == id);
        }
        if s.last().id == id {
            assert(ids[s.len() - 1] == id);
        }
    }
}

/// Count of objects carrying `id`, and the position of the last one.
fn find_object(objects: &Vec<EguiAuthoredPaintObject>, id: &String) -> (r: (usize, Option<usize>))
    ensures
        r.0 == count_id(objects_view(objects@), id@),
        r.1 matches Some(i) ==> i as int == last_with_id(objects_view(objects@), id@),
        r.1 is None ==> last_with_id(objects_view(objects@), id@) < 0,
{
    let ghost v = objects_view(objects@);
    let mut count: usize = 0;
    let mut last: Option<usize> = None;
    let mut i: usize = 0;
    while i < objects.len()
        invariant
            v == objects_view(objects@),
            i <= objects.len(),
            count <= i,
            count == count_id(v.take(i as int), id@),
            last matches Some(l) ==> l as int == last_with_id(v.take(i as int), id@),
            last is None ==> last_with_id(v.take(i as int), id@) < 0,
        decreases objects.len() - i,
    {
        proof {
            assert(v.take(i + 1).drop_last() =~= v.take(i as int));
            assert(v.take(i + 1).last() == objects@[i as int]@);
        }
        if objects[i].id == *id {
            count = count + 1;
            last = Some(i);
        }
        i = i + 1;
    }
    assert(v.take(objects.len() as int) =~= v);
    (count, last)
}

fn push_object_ids(objects: &Vec<EguiAuthoredPaintObject>, out: &mut Vec<Vec<char>>)
    ensures
        chars_views(final(out)@) == chars_views(old(out)@) + object_ids(objects_view(objects@)),
{
    let mut i: usize = 0;
    while i < objects.len()
        invariant
            i <= objects.len(),
            chars_views(out@) == chars_views(old(out)@) + object_ids(objects_view(objects@)).take(
                i as int,
            ),
        decreases objects.len() - i,
    {
        let cs = chars_of(objects[i].id.as_str());
        let ghost prev = out@;
        out.push(cs);
        assert(chars_views(out@) =~= chars_views(prev).push(objects@[i as int].id@));
        assert(object_ids(objects_view(objects@))[i as int] == objects@[i as int].id@);
        assert(object_ids(objects_view(objects@)).take(i + 1) =~= object_ids(objects_view(objects@)).take(
            i as int,
        ).push(objects@[i as int].id@));
        i = i + 1;
        assert(chars_views(out@) =~= chars_views(old(out)@) + object_ids(objects_view(objects@)).take(
            i as int,
        ));
    }
    assert(object_ids(objects_view(objects@)).take(objects.len() as int) =~= object_ids(
        objects_view(objects@),
    ));
}

/// Record the comparison of one uniquely matched object pair.
fn push_matched_object(
    before: &EguiAuthoredPaintObject,
    after: &EguiAuthoredPaintObject,
    acc: &mut EguiAuthoredDiff,
)
    ensures
        final(acc)@ == join_authored_diffs(old(acc)@, matched_object_diff(before@, after@)),
{
    let ghost start = acc@;
    let fields = object_material_fields(before, after);
    if fields.len() > 0 {
        acc.objects_changed.push(EguiAuthoredObjectChange { id: before.id.clone(), fields });
    }
    let mut ambiguities = binding_id_ambiguities(before, after);
    if ambiguities.len() > 0 {
        acc.binding_ambiguities.append(&mut ambiguities);
    } else {
        diff_object_bindings(
            before,
            after,
            &mut acc.bindings_added,
            &mut acc.bindings_removed,
            &mut acc.bindings_changed,
            &mut acc.execution_handle_churn,
        );
    }
    assert(acc@ =~= join_authored_diffs(start, matched_object_diff(before@, after@)));
}

/// Record the comparison for one authored object ID present on either side.
fn push_object_step(
    before: &Vec<EguiAuthoredPaintObject>,
    after: &Vec<EguiAuthoredPaintObject>,
    id: String,
    acc: &mut EguiAuthoredDiff,
)
    requires
        object_ids(objects_view(before@)).contains(id@) || object_ids(objects_view(after@)).contains(
            id@,
        ),
    ensures
        final(acc)@ == join_authored_diffs(
            old(acc)@,
            object_step(objects_view(before@), objects_view(after@), id@),
        ),
{
    let ghost bv = objects_view(before@);
    let ghost av = objects_view(after@);
    let ghost start = acc@;
    proof {
        lemma_last_with_id(bv, id@);
        lemma_last_with_id(av, id@);
    }
    let (cb, lb) = find_object(before, &id);
    let (ca, la) = find_object(after, &id);
    if cb > 1 || ca > 1 {
        acc.ambiguous_ids.push(
            EguiAuthoredIdAmbiguity { id, before_count: cb, after_count: ca },
        );
    } else {
        match (lb, la) {
            (None, Some(ia)) => {
                acc.objects_added.push(after[ia].copy());
            },
            (Some(ib), None) => {
                acc.objects_removed.push(before[ib].copy());
            },
            (Some(ib), Some(ia)) => {
                push_matched_object(&before[ib], &after[ia], acc);
            },
            (None, None) => {
                assert(false);
            },
        }
    }
    assert(acc@ =~= join_authored_diffs(start, object_step(bv, av, id@)));
}

/// Compare the authored objects of two captures: object ID by object ID in
/// ascending order, as `authored_diff` states.
pub fn diff_authored_objects(
    before: &Vec<EguiAuthoredPaintObject>,
    after: &Vec<EguiAuthoredPaintObject>,
) -> (r: EguiAuthoredDiff)
    ensures
        r@ == authored_diff(objects_view(before@), objects_view(after@)),
{
    let ghost bv = objects_view(before@);
    let ghost av = objects_view(after@);
    let mut ids: Vec<Vec<char>> = Vec::new();
    push_object_ids(before, &mut ids);
    push_object_ids(after, &mut ids);
    let listing = sorted_unique(&ids);
    let ghost ks = chars_views(listing@);
    let mut acc = EguiAuthoredDiff {
        objects_added: Vec::new(),
        objects_removed: Vec::new(),
        objects_changed: Vec::new(),
        bindings_added: Vec::new(),
        bindings_removed: Vec::new(),
        bindings_changed: Vec::new(),
        ambiguous_ids: Vec::new(),
        binding_ambiguities: Vec::new(),
        execution_handle_churn: Vec::new(),
    };
    assert(acc@ =~= objects_over(bv, av, ks.take(0)));
    let mut q: usize = 0;
    while q < listing.len()
        invariant
            bv == objects_view(before@),
            av == objects_view(after@),
            ks == chars_views(listing@),
            is_sorted_listing(ks, key_set(object_ids(bv) + object_ids(av))),
            q <= listing.len(),
            acc@ == objects_over(bv, av, ks.take(q as int)),
        decreases listing.len() - q,
    {
        let id = chars_to_string(&listing[q]);
        proof {
            let all = object_ids(bv) + object_ids(av);
            assert(ks[q as int] == id@);
            assert(ks.contains(id@));
            assert(all.contains(id@));
            let w = choose|w: int| 0 <= w < all.len() && all[w] == id@;
            if w < object_ids(bv).len() {
                assert(object_ids(bv)[w] == id@);
            } else {
                assert(object_ids(av)[w - object_ids(bv).len()] == id@);
            }
            assert(ks.take(q + 1).drop_last() =~= ks.take(q as int));
        }
        push_object_step(before, after, id, &mut acc);
        q = q + 1;
    }
    assert(ks.take(listing.len() as int) =~= ks);
    acc
}

pub proof fn lemma_last_with_id_pub(s: Seq<ObjectV>, id: Seq<char>)
    ensures
        -1 <= last_with_id(s, id) < s.len(),
        last_with_id(s, id) >= 0 ==> s[last_with_id(s, id)].id == id,
        last_with_id(s, id) >= 0 <==> count_id(s, id) > 0,
        object_ids(s).contains(id) <==> count_id(s, id) > 0,
{
    lemma_last_with_id(s, id);
}

pub proof fn lemma_last_with_key_pub(bs: Seq<BindingV>, k: Seq<char>)
    ensures
        -1 <= last_with_key(bs, k) < bs.len(),
        last_with_key(bs, k) >= 0 ==> bs[last_with_key(bs, k)].authored_binding_id == Some(k),
        last_with_key(bs, k) >= 0 <==> binding_keys(bs).contains(k),
        last_with_key(bs, k) >= 0 <==> count_key(bs, k) > 0,
{
    lemma_last_with_key(bs, k);
}

pub proof fn lemma_unkeyed_indices_pub(bs: Seq<BindingV>)
    ensures
        forall|j: int|
            0 <= j < unkeyed_indices(bs).len() ==> 0 <= #[trigger] unkeyed_indices(bs)[j] < bs.len()
                && bs[unkeyed_indices(bs)[j]].authored_binding_id is None,
{
    lemma_unkeyed_indices(bs);
}

} // verus!
