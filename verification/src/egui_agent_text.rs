//! Deterministic agent projections of exact egui captures and of their
//! correlated diffs. Semantic nodes, authored objects and generic paint stay
//! on separate lines; no node-to-paint mapping is implied.
use vstd::prelude::*;

use crate::agent_text::{
    bool_text, concat_lines, diff_text, diff_to_agent_text, lemma_concat_lines_step, push_bool,
    push_rect, rect_text, str_part,
};
use crate::agent_text::{to_agent_text, witness_text};
use crate::correlated::{
    CorrelatedCaptureV, CorrelatedDiffV, EguiCorrelatedCapture, EguiCorrelatedDiff,
    correlated_materially_empty,
};
use crate::egui_paint::{EguiPaintObservation, PaintObservationV};
use crate::order::{
    nat_views, stable_order, stable_order_nat, stable_sort, stable_sort_numbers, tuple_views,
};
use crate::text::{LineText, chars_of};
use crate::diff::{FieldChangeV, fields_view};
use crate::egui_annotation::{BindingV, EguiAuthoredPaintBinding, EguiAuthoredPaintObject, ObjectV, layer_order_name};
use crate::egui_diff::{
    count_id, BindingChangeV, BindingIdAmbiguityV, ChurnV, DeltaV, EguiAuthoredBindingChange,
    EguiAuthoredBindingDelta, IdAmbiguityV, ObjectChangeV, binding_ambiguities_view,
    binding_changes_view, churns_view, deltas_view, objects_view,
};
use crate::egui_paint::paint_kind_name;
use crate::json::{json_text, write_json};
use crate::model::{Rect, RectV, rect_opt_view, str_opt_view};
use crate::text::{decimal, json_quote, push_decimal, push_json_str, push_str};

use crate::focus_lines::{
    binding_line_listed, law_capture_lists_focus_lines, law_focus_text_lines, lemma_capture_texts,
    object_line_listed,
};
use crate::lines::line_breaks;

verus! {

broadcast use vstd::string::group_string_axioms;

pub open spec fn clip_part(c: Option<RectV>) -> Seq<char> {
    match c {
        Some(r) => " clip="@ + rect_text(r),
        None => " clip=unbounded"@,
    }
}

pub open spec fn binding_ids_text(b: BindingV) -> Seq<char> {
    str_part(" authored_binding_id="@, b.authored_binding_id) + " binding_evidence="@ + json_quote(
        b.binding_evidence,
    ) + " layer_order="@ + json_quote(layer_order_name(b.layer_order)) + " layer_id="@ + decimal(
        b.layer_id as nat,
    ) + " shape_index="@ + decimal(b.shape_index as nat) + " verified="@ + bool_text(
        b.verified_at_end_pass,
    )
}

pub open spec fn binding_shape_text(b: BindingV) -> Seq<char> {
    (match b.kind {
        Some(k) => " kind="@ + json_quote(paint_kind_name(k)),
        None => Seq::empty(),
    }) + (match b.bounds {
        Some(r) => " bounds="@ + rect_text(r),
        None => Seq::empty(),
    }) + clip_part(b.clip_rect)
}

/// The observed fields of a binding, in projection order.
pub open spec fn binding_core(b: BindingV) -> Seq<char> {
    binding_ids_text(b) + binding_shape_text(b)
}

pub fn push_clip_part(out: &mut String, c: &Option<Rect>)
    ensures
        final(out)@ == old(out)@ + clip_part(rect_opt_view(*c)),
{
    match c {
        Some(r) => {
            push_str(out, " clip=");
            push_rect(out, r);
        },
        None => push_str(out, " clip=unbounded"),
    }
    assert(out@ =~= old(out)@ + clip_part(rect_opt_view(*c)));
}

#[verifier::rlimit(40)]
#[verifier::spinoff_prover]
fn push_binding_ids(out: &mut String, b: &EguiAuthoredPaintBinding)
    ensures
        final(out)@ == old(out)@ + binding_ids_text(b@),
{
    match &b.authored_binding_id {
        Some(id) => {
            push_str(out, " authored_binding_id=");
            push_json_str(out, id.as_str());
        },
        None => {},
    }
    let ghost o1 = out@;
    assert(o1 =~= old(out)@ + str_part(" authored_binding_id="@, b@.authored_binding_id));
    push_str(out, " binding_evidence=");
    push_json_str(out, b.binding_evidence.as_str());
    push_str(out, " layer_order=");
    push_json_str(out, b.layer_order.name());
    push_str(out, " layer_id=");
    push_decimal(out, b.layer_id);
    push_str(out, " shape_index=");
    push_decimal(out, b.shape_index as u64);
    push_str(out, " verified=");
    push_bool(out, b.verified_at_end_pass);
    assert(out@ =~= old(out)@ + binding_ids_text(b@));
}

/// Append the observed fields of a binding.
fn push_binding_shape(out: &mut String, b: &EguiAuthoredPaintBinding)
    ensures
        final(out)@ == old(out)@ + binding_shape_text(b@),
{
    let ghost o1 = out@;
    match b.kind {
        Some(k) => {
            push_str(out, " kind=");
            push_json_str(out, k.name());
        },
        None => {},
    }
    let ghost o2 = out@;
    assert(o2 =~= o1 + match b@.kind {
        Some(k) => " kind="@ + json_quote(paint_kind_name(k)),
        None => Seq::<char>::empty(),
    });
    match &b.bounds {
        Some(r) => {
            push_str(out, " bounds=");
            push_rect(out, r);
        },
        None => {},
    }
    let ghost o3 = out@;
    assert(o3 =~= o2 + match b@.bounds {
        Some(r) => " bounds="@ + rect_text(r),
        None => Seq::<char>::empty(),
    });
    push_clip_part(out, &b.clip_rect);
    assert(out@ =~= old(out)@ + binding_shape_text(b@));
}

/// Append the observed fields of a binding.
pub fn push_binding_core(out: &mut String, b: &EguiAuthoredPaintBinding)
    ensures
        final(out)@ == old(out)@ + binding_core(b@),
{
    push_binding_ids(out, b);
    push_binding_shape(out, b);
    assert(out@ =~= old(out)@ + binding_core(b@));
}

// ---------------------------------------------------------------------------
// Correlated diff.
// ---------------------------------------------------------------------------

pub open spec fn correlated_diff_header(d: CorrelatedDiffV) -> Seq<char> {
    "egui-diff before_request="@ + decimal(d.before_request_id as nat) + " after_request="@ + decimal(
        d.after_request_id as nat,
    ) + " before_pass="@ + decimal(d.before_pass_nr as nat) + " after_pass="@ + decimal(
        d.after_pass_nr as nat,
    ) + " materially_empty="@ + bool_text(correlated_materially_empty(d)) + "\n"@
}

pub open spec fn authored_object_delta_line(prefix: Seq<char>, o: ObjectV) -> Seq<char> {
    prefix + " id="@ + json_quote(o.id) + " role="@ + json_quote(o.role) + " semantic_evidence="@
        + json_quote(o.semantic_evidence) + " binding_count="@ + decimal(o.bindings.len()) + str_part(
        " name="@,
        o.name,
    ) + "\n"@
}

pub open spec fn field_change_tail(f: (Seq<char>, FieldChangeV)) -> Seq<char> {
    " field="@ + json_quote(f.0) + " before="@ + json_text(f.1.before) + " after="@ + json_text(
        f.1.after,
    ) + "\n"@
}

pub open spec fn object_change_lines(c: ObjectChangeV) -> Seq<char> {
    concat_lines(
        c.fields,
        |f: (Seq<char>, FieldChangeV)| "authored-change id="@ + json_quote(c.id) + field_change_tail(f),
    )
}

pub open spec fn binding_delta_line(prefix: Seq<char>, d: DeltaV) -> Seq<char> {
    prefix + " object_id="@ + json_quote(d.object_id) + " binding_ordinal="@ + decimal(
        d.binding_ordinal,
    ) + binding_core(d.binding) + "\n"@
}

pub open spec fn binding_change_head(c: BindingChangeV) -> Seq<char> {
    "authored-binding-change object_id="@ + json_quote(c.object_id) + str_part(
        " authored_binding_id="@,
        c.authored_binding_id,
    ) + match c.unkeyed_ordinal {
        Some(n) => " unkeyed_ordinal="@ + decimal(n),
        None => Seq::empty(),
    }
}

pub open spec fn binding_change_lines(c: BindingChangeV) -> Seq<char> {
    concat_lines(
        c.fields,
        |f: (Seq<char>, FieldChangeV)| binding_change_head(c) + field_change_tail(f),
    )
}

pub open spec fn id_ambiguity_line(a: IdAmbiguityV) -> Seq<char> {
    "authored-ambiguity id="@ + json_quote(a.id) + " before_count="@ + decimal(a.before_count)
        + " after_count="@ + decimal(a.after_count) + " matching=refused\n"@
}

pub open spec fn binding_ambiguity_line(a: BindingIdAmbiguityV) -> Seq<char> {
    "authored-binding-ambiguity object_id="@ + json_quote(a.object_id) + " authored_binding_id="@
        + json_quote(a.binding_id) + " before_count="@ + decimal(a.before_count) + " after_count="@
        + decimal(a.after_count) + " matching=refused\n"@
}

pub open spec fn churn_line(c: ChurnV) -> Seq<char> {
    "authored-handle-churn id="@ + json_quote(c.id) + str_part(
        " authored_binding_id="@,
        c.authored_binding_id,
    ) + " binding_ordinal="@ + decimal(c.binding_ordinal) + " before_shape_index="@ + decimal(
        c.before_shape_index,
    ) + " after_shape_index="@ + decimal(c.after_shape_index)
        + " material=false continuity=frame_local_structure_sensitive\n"@
}

pub open spec fn authored_objects_text(d: CorrelatedDiffV) -> Seq<char> {
    let a = d.authored;
    concat_lines(a.objects_added, |o: ObjectV| authored_object_delta_line("+authored-object"@, o))
        + concat_lines(a.objects_removed, |o: ObjectV| authored_object_delta_line("-authored-object"@, o))
        + concat_lines(a.objects_changed, |c: ObjectChangeV| object_change_lines(c))
}

pub open spec fn authored_bindings_text(d: CorrelatedDiffV) -> Seq<char> {
    let a = d.authored;
    concat_lines(a.bindings_added, |x: DeltaV| binding_delta_line("+authored-binding"@, x))
        + concat_lines(a.bindings_removed, |x: DeltaV| binding_delta_line("-authored-binding"@, x))
        + concat_lines(a.bindings_changed, |c: BindingChangeV| binding_change_lines(c))
        + concat_lines(a.ambiguous_ids, |x: IdAmbiguityV| id_ambiguity_line(x))
        + concat_lines(a.binding_ambiguities, |x: BindingIdAmbiguityV| binding_ambiguity_line(x))
        + concat_lines(a.execution_handle_churn, |c: ChurnV| churn_line(c))
}

/// The authored part of a correlated diff's agent text.
pub open spec fn authored_diff_text(d: CorrelatedDiffV) -> Seq<char> {
    authored_objects_text(d) + authored_bindings_text(d)
}

/// The agent text of a correlated diff: header, the semantic diff text,
/// then authored records.
pub open spec fn correlated_diff_text(d: CorrelatedDiffV) -> Seq<char> {
    correlated_diff_header(d) + diff_text(d.semantic) + authored_diff_text(d)
}

fn push_correlated_diff_header(out: &mut String, diff: &EguiCorrelatedDiff)
    ensures
        final(out)@ == old(out)@ + correlated_diff_header(diff@),
{
    push_str(out, "egui-diff before_request=");
    push_decimal(out, diff.before_request_id);
    push_str(out, " after_request=");
    push_decimal(out, diff.after_request_id);
    push_str(out, " before_pass=");
    push_decimal(out, diff.before_pass_nr);
    push_str(out, " after_pass=");
    push_decimal(out, diff.after_pass_nr);
    push_str(out, " materially_empty=");
    let empty = diff.is_materially_empty();
    push_bool(out, empty);
    push_str(out, "\n");
    assert(out@ =~= old(out)@ + correlated_diff_header(diff@));
}

#[verifier::rlimit(30)]
fn push_object_delta_line(out: &mut String, prefix: &str, o: &EguiAuthoredPaintObject)
    ensures
        final(out)@ == old(out)@ + authored_object_delta_line(prefix@, o@),
{
    push_str(out, prefix);
    push_str(out, " id=");
    push_json_str(out, o.id.as_str());
    push_str(out, " role=");
    push_json_str(out, o.role.as_str());
    push_str(out, " semantic_evidence=");
    push_json_str(out, o.semantic_evidence.as_str());
    push_str(out, " binding_count=");
    push_decimal(out, o.bindings.len() as u64);
    let ghost o1 = out@;
    match &o.name {
        Some(n) => {
            push_str(out, " name=");
            push_json_str(out, n.as_str());
        },
        None => {},
    }
    assert(out@ =~= o1 + str_part(" name="@, o@.name));
    push_str(out, "\n");
    assert(out@ =~= old(out)@ + authored_object_delta_line(prefix@, o@));
}

fn push_object_deltas(out: &mut String, prefix: &str, objects: &Vec<EguiAuthoredPaintObject>)
    ensures
        final(out)@ == old(out)@ + concat_lines(
            objects_view(objects@),
            |o: ObjectV| authored_object_delta_line(prefix@, o),
        ),
{
    let ghost v = objects_view(objects@);
    let ghost f = |o: ObjectV| authored_object_delta_line(prefix@, o);
    let mut j: usize = 0;
    while j < objects.len()
        invariant
            v == objects_view(objects@),
            f == (|o: ObjectV| authored_object_delta_line(prefix@, o)),
            j <= objects.len(),
            out@ == old(out)@ + concat_lines(v.take(j as int), f),
        decreases objects.len() - j,
    {
        proof {
            lemma_concat_lines_step(v, f, j as int);
        }
        push_object_delta_line(out, prefix, &objects[j]);
        j = j + 1;
    }
    assert(v.take(objects.len() as int) =~= v);
}

fn push_field_change_tail(out: &mut String, field: &String, value: &crate::diff::FieldChange)
    ensures
        final(out)@ == old(out)@ + field_change_tail((field@, value@)),
{
    push_str(out, " field=");
    push_json_str(out, field.as_str());
    push_str(out, " before=");
    write_json(out, &value.before);
    push_str(out, " after=");
    write_json(out, &value.after);
    push_str(out, "\n");
    assert(out@ =~= old(out)@ + field_change_tail((field@, value@)));
}

fn push_object_change_lines(out: &mut String, c: &crate::egui_diff::EguiAuthoredObjectChange)
    ensures
        final(out)@ == old(out)@ + object_change_lines(c@),
{
    let ghost cv = c@;
    let ghost v = fields_view(c.fields@);
    let ghost f = |f: (Seq<char>, FieldChangeV)| "authored-change id="@ + json_quote(cv.id) + field_change_tail(f);
    let mut j: usize = 0;
    while j < c.fields.len()
        invariant
            cv == c@,
            v == fields_view(c.fields@),
            v == cv.fields,
            f == (|f: (Seq<char>, FieldChangeV)| "authored-change id="@ + json_quote(cv.id) + field_change_tail(f)),
            j <= c.fields.len(),
            out@ == old(out)@ + concat_lines(v.take(j as int), f),
        decreases c.fields.len() - j,
    {
        proof {
            lemma_concat_lines_step(v, f, j as int);
        }
        let ghost o = out@;
        let (field, value) = &c.fields[j];
        push_str(out, "authored-change id=");
        push_json_str(out, c.id.as_str());
        push_field_change_tail(out, field, value);
        assert(out@ =~= o + f(v[j as int]));
        j = j + 1;
    }
    assert(v.take(c.fields.len() as int) =~= v);
}

fn push_object_changes(out: &mut String, changes: &Vec<crate::egui_diff::EguiAuthoredObjectChange>)
    ensures
        final(out)@ == old(out)@ + concat_lines(
            changes@.map_values(|c: crate::egui_diff::EguiAuthoredObjectChange| c@),
            |c: ObjectChangeV| object_change_lines(c),
        ),
{
    let ghost v = changes@.map_values(|c: crate::egui_diff::EguiAuthoredObjectChange| c@);
    let ghost f = |c: ObjectChangeV| object_change_lines(c);
    let mut j: usize = 0;
    while j < changes.len()
        invariant
            v == changes@.map_values(|c: crate::egui_diff::EguiAuthoredObjectChange| c@),
            f == (|c: ObjectChangeV| object_change_lines(c)),
            j <= changes.len(),
            out@ == old(out)@ + concat_lines(v.take(j as int), f),
        decreases changes.len() - j,
    {
        proof {
            lemma_concat_lines_step(v, f, j as int);
        }
        push_object_change_lines(out, &changes[j]);
        j = j + 1;
    }
    assert(v.take(changes.len() as int) =~= v);
}

fn push_binding_delta_line(out: &mut String, prefix: &str, d: &EguiAuthoredBindingDelta)
    ensures
        final(out)@ == old(out)@ + binding_delta_line(prefix@, d@),
{
    push_str(out, prefix);
    push_str(out, " object_id=");
    push_json_str(out, d.object_id.as_str());
    push_str(out, " binding_ordinal=");
    push_decimal(out, d.binding_ordinal as u64);
    push_binding_core(out, &d.binding);
    push_str(out, "\n");
    assert(out@ =~= old(out)@ + binding_delta_line(prefix@, d@));
}

fn push_binding_deltas(out: &mut String, prefix: &str, deltas: &Vec<EguiAuthoredBindingDelta>)
    ensures
        final(out)@ == old(out)@ + concat_lines(
            deltas_view(deltas@),
            |x: DeltaV| binding_delta_line(prefix@, x),
        ),
{
    let ghost v = deltas_view(deltas@);
    let ghost f = |x: DeltaV| binding_delta_line(prefix@, x);
    let mut j: usize = 0;
    while j < deltas.len()
        invariant
            v == deltas_view(deltas@),
            f == (|x: DeltaV| binding_delta_line(prefix@, x)),
            j <= deltas.len(),
            out@ == old(out)@ + concat_lines(v.take(j as int), f),
        decreases deltas.len() - j,
    {
        proof {
            lemma_concat_lines_step(v, f, j as int);
        }
        push_binding_delta_line(out, prefix, &deltas[j]);
        j = j + 1;
    }
    assert(v.take(deltas.len() as int) =~= v);
}

fn push_binding_change_head(out: &mut String, c: &EguiAuthoredBindingChange)
    ensures
        final(out)@ == old(out)@ + binding_change_head(c@),
{
    push_str(out, "authored-binding-change object_id=");
    push_json_str(out, c.object_id.as_str());
    let ghost o1 = out@;
    match &c.authored_binding_id {
        Some(id) => {
            push_str(out, " authored_binding_id=");
            push_json_str(out, id.as_str());
        },
        None => {},
    }
    assert(out@ =~= o1 + str_part(" authored_binding_id="@, c@.authored_binding_id));
    let ghost o2 = out@;
    match c.unkeyed_ordinal {
        Some(n) => {
            push_str(out, " unkeyed_ordinal=");
            push_decimal(out, n as u64);
        },
        None => {},
    }
    assert(out@ =~= o2 + match c@.unkeyed_ordinal {
        Some(n) => " unkeyed_ordinal="@ + decimal(n),
        None => Seq::<char>::empty(),
    });
    assert(out@ =~= old(out)@ + binding_change_head(c@));
}

fn push_binding_change_lines(out: &mut String, c: &EguiAuthoredBindingChange)
    ensures
        final(out)@ == old(out)@ + binding_change_lines(c@),
{
    let ghost cv = c@;
    let ghost v = fields_view(c.fields@);
    let ghost f = |f: (Seq<char>, FieldChangeV)| binding_change_head(cv) + field_change_tail(f);
    let mut j: usize = 0;
    while j < c.fields.len()
        invariant
            cv == c@,
            v == fields_view(c.fields@),
            v == cv.fields,
            f == (|f: (Seq<char>, FieldChangeV)| binding_change_head(cv) + field_change_tail(f)),
            j <= c.fields.len(),
            out@ == old(out)@ + concat_lines(v.take(j as int), f),
        decreases c.fields.len() - j,
    {
        proof {
            lemma_concat_lines_step(v, f, j as int);
        }
        let ghost o = out@;
        let (field, value) = &c.fields[j];
        push_binding_change_head(out, c);
        push_field_change_tail(out, field, value);
        assert(out@ =~= o + f(v[j as int]));
        j = j + 1;
    }
    assert(v.take(c.fields.len() as int) =~= v);
}

fn push_binding_changes(out: &mut String, changes: &Vec<EguiAuthoredBindingChange>)
    ensures
        final(out)@ == old(out)@ + concat_lines(
            binding_changes_view(changes@),
            |c: BindingChangeV| binding_change_lines(c),
        ),
{
    let ghost v = binding_changes_view(changes@);
    let ghost f = |c: BindingChangeV| binding_change_lines(c);
    let mut j: usize = 0;
    while j < changes.len()
        invariant
            v == binding_changes_view(changes@),
            f == (|c: BindingChangeV| binding_change_lines(c)),
            j <= changes.len(),
            out@ == old(out)@ + concat_lines(v.take(j as int), f),
        decreases changes.len() - j,
    {
        proof {
            lemma_concat_lines_step(v, f, j as int);
        }
        push_binding_change_lines(out, &changes[j]);
        j = j + 1;
    }
    assert(v.take(changes.len() as int) =~= v);
}

fn push_id_ambiguities(out: &mut String, v: &Vec<crate::egui_diff::EguiAuthoredIdAmbiguity>)
    ensures
        final(out)@ == old(out)@ + concat_lines(
            v@.map_values(|x: crate::egui_diff::EguiAuthoredIdAmbiguity| x@),
            |x: IdAmbiguityV| id_ambiguity_line(x),
        ),
{
    let ghost vv = v@.map_values(|x: crate::egui_diff::EguiAuthoredIdAmbiguity| x@);
    let ghost f = |x: IdAmbiguityV| id_ambiguity_line(x);
    let mut j: usize = 0;
    while j < v.len()
        invariant
            vv == v@.map_values(|x: crate::egui_diff::EguiAuthoredIdAmbiguity| x@),
            f == (|x: IdAmbiguityV| id_ambiguity_line(x)),
            j <= v.len(),
            out@ == old(out)@ + concat_lines(vv.take(j as int), f),
        decreases v.len() - j,
    {
        proof {
            lemma_concat_lines_step(vv, f, j as int);
        }
        let ghost o = out@;
        let a = &v[j];
        push_str(out, "authored-ambiguity id=");
        push_json_str(out, a.id.as_str());
        push_str(out, " before_count=");
        push_decimal(out, a.before_count as u64);
        push_str(out, " after_count=");
        push_decimal(out, a.after_count as u64);
        push_str(out, " matching=refused\n");
        assert(out@ =~= o + f(vv[j as int]));
        j = j + 1;
    }
    assert(vv.take(v.len() as int) =~= vv);
}

fn push_binding_ambiguities(out: &mut String, v: &Vec<crate::egui_diff::EguiAuthoredBindingIdAmbiguity>)
    ensures
        final(out)@ == old(out)@ + concat_lines(
            binding_ambiguities_view(v@),
            |x: BindingIdAmbiguityV| binding_ambiguity_line(x),
        ),
{
    let ghost vv = binding_ambiguities_view(v@);
    let ghost f = |x: BindingIdAmbiguityV| binding_ambiguity_line(x);
    let mut j: usize = 0;
    while j < v.len()
        invariant
            vv == binding_ambiguities_view(v@),
            f == (|x: BindingIdAmbiguityV| binding_ambiguity_line(x)),
            j <= v.len(),
            out@ == old(out)@ + concat_lines(vv.take(j as int), f),
        decreases v.len() - j,
    {
        proof {
            lemma_concat_lines_step(vv, f, j as int);
        }
        let ghost o = out@;
        let a = &v[j];
        push_str(out, "authored-binding-ambiguity object_id=");
        push_json_str(out, a.object_id.as_str());
        push_str(out, " authored_binding_id=");
        push_json_str(out, a.binding_id.as_str());
        push_str(out, " before_count=");
        push_decimal(out, a.before_count as u64);
        push_str(out, " after_count=");
        push_decimal(out, a.after_count as u64);
        push_str(out, " matching=refused\n");
        assert(out@ =~= o + f(vv[j as int]));
        j = j + 1;
    }
    assert(vv.take(v.len() as int) =~= vv);
}

fn push_churn_line(out: &mut String, c: &crate::egui_diff::EguiAuthoredExecutionHandleChange)
    ensures
        final(out)@ == old(out)@ + churn_line(c@),
{
    push_str(out, "authored-handle-churn id=");
    push_json_str(out, c.id.as_str());
    let ghost o1 = out@;
    match &c.authored_binding_id {
        Some(id) => {
            push_str(out, " authored_binding_id=");
            push_json_str(out, id.as_str());
        },
        None => {},
    }
    assert(out@ =~= o1 + str_part(" authored_binding_id="@, c@.authored_binding_id));
    push_str(out, " binding_ordinal=");
    push_decimal(out, c.binding_ordinal as u64);
    push_str(out, " before_shape_index=");
    push_decimal(out, c.before_shape_index as u64);
    push_str(out, " after_shape_index=");
    push_decimal(out, c.after_shape_index as u64);
    push_str(out, " material=false continuity=frame_local_structure_sensitive\n");
    assert(out@ =~= old(out)@ + churn_line(c@));
}

fn push_churns(out: &mut String, v: &Vec<crate::egui_diff::EguiAuthoredExecutionHandleChange>)
    ensures
        final(out)@ == old(out)@ + concat_lines(churns_view(v@), |c: ChurnV| churn_line(c)),
{
    let ghost vv = churns_view(v@);
    let ghost f = |c: ChurnV| churn_line(c);
    let mut j: usize = 0;
    while j < v.len()
        invariant
            vv == churns_view(v@),
            f == (|c: ChurnV| churn_line(c)),
            j <= v.len(),
            out@ == old(out)@ + concat_lines(vv.take(j as int), f),
        decreases v.len() - j,
    {
        proof {
            lemma_concat_lines_step(vv, f, j as int);
        }
        push_churn_line(out, &v[j]);
        j = j + 1;
    }
    assert(vv.take(v.len() as int) =~= vv);
}

fn push_authored_objects_text(out: &mut String, diff: &EguiCorrelatedDiff)
    ensures
        final(out)@ == old(out)@ + authored_objects_text(diff@),
{
    let a = &diff.authored;
    push_object_deltas(out, "+authored-object", &a.objects_added);
    push_object_deltas(out, "-authored-object", &a.objects_removed);
    push_object_changes(out, &a.objects_changed);
    assert(out@ =~= old(out)@ + authored_objects_text(diff@));
}

fn push_authored_bindings_text(out: &mut String, diff: &EguiCorrelatedDiff)
    ensures
        final(out)@ == old(out)@ + authored_bindings_text(diff@),
{
    let a = &diff.authored;
    push_binding_deltas(out, "+authored-binding", &a.bindings_added);
    push_binding_deltas(out, "-authored-binding", &a.bindings_removed);
    push_binding_changes(out, &a.bindings_changed);
    push_id_ambiguities(out, &a.ambiguous_ids);
    push_binding_ambiguities(out, &a.binding_ambiguities);
    push_churns(out, &a.execution_handle_churn);
    assert(out@ =~= old(out)@ + authored_bindings_text(diff@));
}

/// Deterministic agent projection of a correlated egui diff. Generic paint
/// is absent; authored binding changes are field-granular; slot churn is
/// labelled non-material.
#[verifier::spinoff_prover]
#[verifier::rlimit(40)]
pub fn correlated_diff_to_agent_text(diff: &EguiCorrelatedDiff) -> (text: String)
    ensures
        text@ == correlated_diff_text(diff@),
{
    let mut out = String::new();
    push_correlated_diff_header(&mut out, diff);
    let semantic = diff_to_agent_text(&diff.semantic);
    push_str(&mut out, semantic.as_str());
    push_authored_objects_text(&mut out, diff);
    push_authored_bindings_text(&mut out, diff);
    assert(out@ =~= correlated_diff_text(diff@));
    out
}

// ---------------------------------------------------------------------------
// Correlated capture.
// ---------------------------------------------------------------------------

/// Derived bounding-box clip survival of one paint slot: the fraction of its
/// bounds inside its clip (by its `Display` text) and the surviving bounds.
#[derive(Debug)]
pub struct ClipSurvival {
    pub fraction: LineText,
    pub visible_bounds: Option<Rect>,
}

pub ghost struct ClipV {
    pub fraction: Seq<char>,
    pub visible_bounds: Option<RectV>,
}

impl View for ClipSurvival {
    type V = ClipV;

    open spec fn view(&self) -> ClipV {
        ClipV { fraction: self.fraction@, visible_bounds: rect_opt_view(self.visible_bounds) }
    }
}

pub open spec fn clips_view(v: Seq<ClipSurvival>) -> Seq<ClipV> {
    v.map_values(|c: ClipSurvival| c@)
}

pub open spec fn survival_part(c: ClipV) -> Seq<char> {
    " visible_fraction="@ + c.fraction + " visible_fraction_evidence=derived_bbox_clip"@ + match c.visible_bounds {
        Some(r) => " visible_bounds="@ + rect_text(r),
        None => " visible_bounds=none"@,
    }
}

/// The concatenation of `f(0)`, ..., `f(n - 1)`.
pub open spec fn lines_upto(n: int, f: spec_fn(int) -> Seq<char>) -> Seq<char>
    decreases n,
{
    if n <= 0 {
        Seq::empty()
    } else {
        lines_upto(n - 1, f) + f(n - 1)
    }
}

pub open spec fn capture_object_head(index: nat, o: ObjectV) -> Seq<char> {
    "authored-object index="@ + decimal(index) + " id="@ + json_quote(o.id) + " role="@ + json_quote(
        o.role,
    )
}

pub open spec fn capture_object_tail(o: ObjectV) -> Seq<char> {
    str_part(" name="@, o.name) + " semantic_evidence="@ + json_quote(o.semantic_evidence)
        + " binding_count="@ + decimal(o.bindings.len()) + "\n"@
}

pub open spec fn capture_object_line(index: nat, o: ObjectV) -> Seq<char> {
    capture_object_head(index, o) + capture_object_tail(o)
}

pub open spec fn capture_binding_line(
    object_index: nat,
    binding_index: nat,
    object_id: Seq<char>,
    b: BindingV,
    c: ClipV,
) -> Seq<char> {
    "authored-binding object_index="@ + decimal(object_index) + " binding_index="@ + decimal(
        binding_index,
    ) + " object_id="@ + json_quote(object_id) + binding_core(b) + (if b.bounds is Some {
        survival_part(c)
    } else {
        Seq::empty()
    }) + "\n"@
}

/// Authored objects are listed by ID, role and name.
pub open spec fn object_sort_keys(objects: Seq<ObjectV>) -> Seq<Seq<Seq<char>>> {
    objects.map_values(
        |o: ObjectV|
            seq![o.id, o.role] + match o.name {
                Some(n) => seq![n],
                None => Seq::empty(),
            },
    )
}

pub open spec fn object_order(objects: Seq<ObjectV>) -> Seq<int> {
    stable_order(object_sort_keys(objects), objects.len() as int)
}

/// One object line followed by one line per binding.
pub open spec fn object_block(index: nat, o: ObjectV, clips: Seq<ClipV>) -> Seq<char> {
    capture_object_line(index, o) + lines_upto(
        o.bindings.len() as int,
        |b: int| capture_binding_line(index, b as nat, o.id, o.bindings[b], clips[b]),
    )
}

pub open spec fn total_bindings(objects: Seq<ObjectV>) -> nat
    decreases objects.len(),
{
    if objects.len() == 0 {
        0
    } else {
        total_bindings(objects.drop_last()) + objects.last().bindings.len()
    }
}

/// `request=.. viewport_id=.. pass=.. viewport_rect=[..]`.
pub open spec fn capture_ids(c: CorrelatedCaptureV) -> Seq<char> {
    "request="@ + decimal(c.request_id as nat) + " viewport_id="@ + decimal(c.viewport_id as nat)
        + " pass="@ + decimal(c.pass_nr as nat) + " viewport_rect="@ + rect_text(c.viewport_rect)
}

pub open spec fn capture_header(c: CorrelatedCaptureV) -> Seq<char> {
    "egui-correlated "@ + capture_ids(c) + " paint_count="@ + decimal(c.paint.len()) + " authored_count="@ + decimal(
        c.authored_objects.len(),
    ) + " authored_binding_count="@ + decimal(total_bindings(c.authored_objects))
        + " correlation=same_full_output\n"@
}

pub open spec fn authored_capture_text(c: CorrelatedCaptureV, clips: Seq<Seq<ClipV>>) -> Seq<char> {
    let order = object_order(c.authored_objects);
    lines_upto(
        c.authored_objects.len() as int,
        |k: int| object_block(k as nat, c.authored_objects[order[k]], clips[order[k]]),
    )
}

pub open spec fn paint_line(p: PaintObservationV, c: ClipV) -> Seq<char> {
    "paint order="@ + decimal(p.order as nat) + " kind="@ + json_quote(paint_kind_name(p.kind))
        + " bounds="@ + rect_text(p.bounds) + clip_part(p.clip_rect) + survival_part(c) + "\n"@
}

pub open spec fn paint_orders(paint: Seq<PaintObservationV>) -> Seq<nat> {
    paint.map_values(|p: PaintObservationV| p.order as nat)
}

/// Paint entries are listed by paint order.
pub open spec fn paint_text(c: CorrelatedCaptureV, clips: Seq<ClipV>) -> Seq<char> {
    let order = stable_order_nat(paint_orders(c.paint), c.paint.len() as int);
    lines_upto(c.paint.len() as int, |k: int| paint_line(c.paint[order[k]], clips[order[k]]))
}

/// The agent text of an exact capture: header, the witness text, authored
/// objects with their bindings, then generic paint.
pub open spec fn capture_text(
    c: CorrelatedCaptureV,
    paint_clips: Seq<ClipV>,
    binding_clips: Seq<Seq<ClipV>>,
) -> Seq<char> {
    capture_header(c) + witness_text(c.witness) + authored_capture_text(c, binding_clips) + paint_text(
        c,
        paint_clips,
    )
}

/// Clip evidence shaped like the captured paint and authored bindings.
pub open spec fn clips_fit(
    c: CorrelatedCaptureV,
    paint_clips: Seq<ClipV>,
    binding_clips: Seq<Seq<ClipV>>,
) -> bool {
    &&& paint_clips.len() == c.paint.len()
    &&& binding_clips.len() == c.authored_objects.len()
    &&& forall|i: int|
        0 <= i < binding_clips.len() ==> (#[trigger] binding_clips[i]).len()
            == c.authored_objects[i].bindings.len()
}

pub open spec fn nested_clips_view(v: Seq<Vec<ClipSurvival>>) -> Seq<Seq<ClipV>> {
    v.map_values(|x: Vec<ClipSurvival>| clips_view(x@))
}

pub proof fn lemma_lines_upto_step(n: int, f: spec_fn(int) -> Seq<char>)
    requires
        n >= 0,
    ensures
        lines_upto(n + 1, f) == lines_upto(n, f) + f(n),
{
}

fn push_survival(out: &mut String, c: &ClipSurvival)
    ensures
        final(out)@ == old(out)@ + survival_part(c@),
{
    push_str(out, " visible_fraction=");
    push_str(out, c.fraction.as_str());
    push_str(out, " visible_fraction_evidence=derived_bbox_clip");
    match &c.visible_bounds {
        Some(r) => {
            push_str(out, " visible_bounds=");
            push_rect(out, r);
        },
        None => push_str(out, " visible_bounds=none"),
    }
    assert(out@ =~= old(out)@ + survival_part(c@));
}

fn push_capture_object_head(out: &mut String, index: usize, o: &EguiAuthoredPaintObject)
    ensures
        final(out)@ == old(out)@ + capture_object_head(index as nat, o@),
{
    push_str(out, "authored-object index=");
    push_decimal(out, index as u64);
    push_str(out, " id=");
    push_json_str(out, o.id.as_str());
    push_str(out, " role=");
    push_json_str(out, o.role.as_str());
    assert(out@ =~= old(out)@ + capture_object_head(index as nat, o@));
}

fn push_capture_object_tail(out: &mut String, o: &EguiAuthoredPaintObject)
    ensures
        final(out)@ == old(out)@ + capture_object_tail(o@),
{
    let ghost o1 = out@;
    match &o.name {
        Some(n) => {
            push_str(out, " name=");
            push_json_str(out, n.as_str());
        },
        None => {},
    }
    assert(out@ =~= o1 + str_part(" name="@, o@.name));
    push_str(out, " semantic_evidence=");
    push_json_str(out, o.semantic_evidence.as_str());
    push_str(out, " binding_count=");
    push_decimal(out, o.bindings.len() as u64);
    push_str(out, "\n");
    assert(out@ =~= old(out)@ + capture_object_tail(o@));
}

fn push_capture_object_line(out: &mut String, index: usize, o: &EguiAuthoredPaintObject)
    ensures
        final(out)@ == old(out)@ + capture_object_line(index as nat, o@),
{
    push_capture_object_head(out, index, o);
    push_capture_object_tail(out, o);
    assert(out@ =~= old(out)@ + capture_object_line(index as nat, o@));
}

fn push_capture_ids(out: &mut String, capture: &EguiCorrelatedCapture)
    ensures
        final(out)@ == old(out)@ + capture_ids(capture@),
{
    push_str(out, "request=");
    push_decimal(out, capture.request_id);
    push_str(out, " viewport_id=");
    push_decimal(out, capture.viewport_id);
    push_str(out, " pass=");
    push_decimal(out, capture.pass_nr);
    push_str(out, " viewport_rect=");
    push_rect(out, &capture.viewport_rect);
    assert(out@ =~= old(out)@ + capture_ids(capture@));
}

fn push_capture_binding_line(
    out: &mut String,
    object_index: usize,
    binding_index: usize,
    object_id: &String,
    b: &EguiAuthoredPaintBinding,
    c: &ClipSurvival,
)
    ensures
        final(out)@ == old(out)@ + capture_binding_line(
            object_index as nat,
            binding_index as nat,
            object_id@,
            b@,
            c@,
        ),
{
    push_str(out, "authored-binding object_index=");
    push_decimal(out, object_index as u64);
    push_str(out, " binding_index=");
    push_decimal(out, binding_index as u64);
    push_str(out, " object_id=");
    push_json_str(out, object_id.as_str());
    push_binding_core(out, b);
    let ghost o1 = out@;
    if b.bounds.is_some() {
        push_survival(out, c);
    }
    assert(out@ =~= o1 + (if b@.bounds is Some {
        survival_part(c@)
    } else {
        Seq::<char>::empty()
    }));
    push_str(out, "\n");
    assert(out@ =~= old(out)@ + capture_binding_line(
        object_index as nat,
        binding_index as nat,
        object_id@,
        b@,
        c@,
    ));
}

fn push_object_block(out: &mut String, index: usize, o: &EguiAuthoredPaintObject, clips: &Vec<ClipSurvival>)
    requires
        clips@.len() == o.bindings@.len(),
    ensures
        final(out)@ == old(out)@ + object_block(index as nat, o@, clips_view(clips@)),
{
    let ghost ov = o@;
    let ghost cv = clips_view(clips@);
    push_capture_object_line(out, index, o);
    let ghost base = out@;
    let ghost f = |b: int| capture_binding_line(index as nat, b as nat, ov.id, ov.bindings[b], cv[b]);
    let mut b: usize = 0;
    while b < o.bindings.len()
        invariant
            ov == o@,
            cv == clips_view(clips@),
            clips@.len() == o.bindings@.len(),
            f == (|b: int| capture_binding_line(index as nat, b as nat, ov.id, ov.bindings[b], cv[b])),
            b <= o.bindings.len(),
            out@ == base + lines_upto(b as int, f),
        decreases o.bindings.len() - b,
    {
        proof {
            lemma_lines_upto_step(b as int, f);
        }
        push_capture_binding_line(out, index, b, &o.id, &o.bindings[b], &clips[b]);
        b = b + 1;
    }
}

fn object_keys(objects: &Vec<EguiAuthoredPaintObject>) -> (keys: Vec<Vec<Vec<char>>>)
    ensures
        tuple_views(keys@) == object_sort_keys(objects_view(objects@)),
        keys@.len() == objects@.len(),
{
    let mut keys: Vec<Vec<Vec<char>>> = Vec::new();
    let mut i: usize = 0;
    while i < objects.len()
        invariant
            i <= objects.len(),
            keys.len() == i,
            forall|k: int|
                0 <= k < i ==> crate::text::chars_views((#[trigger] keys@[k])@)
                    == object_sort_keys(objects_view(objects@))[k],
        decreases objects.len() - i,
    {
        let o = &objects[i];
        let mut key: Vec<Vec<char>> = Vec::new();
        key.push(chars_of(o.id.as_str()));
        key.push(chars_of(o.role.as_str()));
        match &o.name {
            Some(n) => key.push(chars_of(n.as_str())),
            None => {},
        }
        assert(crate::text::chars_views(key@) =~= object_sort_keys(objects_view(objects@))[i as int]);
        keys.push(key);
        i = i + 1;
    }
    assert(tuple_views(keys@) =~= object_sort_keys(objects_view(objects@)));
    keys
}

fn binding_total(objects: &Vec<EguiAuthoredPaintObject>) -> (n: u64)
    requires
        total_bindings(objects_view(objects@)) <= u64::MAX,
    ensures
        n as nat == total_bindings(objects_view(objects@)),
{
    let ghost v = objects_view(objects@);
    let mut n: u64 = 0;
    let mut i: usize = 0;
    while i < objects.len()
        invariant
            v == objects_view(objects@),
            total_bindings(v) <= u64::MAX,
            i <= objects.len(),
            n as nat == total_bindings(v.take(i as int)),
        decreases objects.len() - i,
    {
        proof {
            assert(v.take(i + 1).drop_last() =~= v.take(i as int));
            lemma_total_bindings_prefix(v, i + 1);
        }
        n = n + objects[i].bindings.len() as u64;
        i = i + 1;
    }
    assert(v.take(objects.len() as int) =~= v);
    n
}

proof fn lemma_total_bindings_prefix(v: Seq<ObjectV>, k: int)
    requires
        0 <= k <= v.len(),
    ensures
        total_bindings(v.take(k)) <= total_bindings(v),
    decreases v.len() - k,
{
    if k < v.len() {
        lemma_total_bindings_prefix(v, k + 1);
        assert(v.take(k + 1).drop_last() =~= v.take(k));
    } else {
        assert(v.take(k) =~= v);
    }
}

#[verifier::rlimit(40)]
fn push_capture_header(out: &mut String, capture: &EguiCorrelatedCapture)
    requires
        total_bindings(objects_view(capture.authored_objects@)) <= u64::MAX,
    ensures
        final(out)@ == old(out)@ + capture_header(capture@),
{
    push_str(out, "egui-correlated ");
    push_capture_ids(out, capture);
    push_str(out, " paint_count=");
    push_decimal(out, capture.paint.len() as u64);
    push_str(out, " authored_count=");
    push_decimal(out, capture.authored_objects.len() as u64);
    push_str(out, " authored_binding_count=");
    let total = binding_total(&capture.authored_objects);
    push_decimal(out, total);
    push_str(out, " correlation=same_full_output\n");
    assert(out@ =~= old(out)@ + capture_header(capture@));
}

fn push_authored_capture(
    out: &mut String,
    capture: &EguiCorrelatedCapture,
    binding_clips: &Vec<Vec<ClipSurvival>>,
)
    requires
        binding_clips@.len() == capture.authored_objects@.len(),
        forall|i: int|
            0 <= i < binding_clips@.len() ==> (#[trigger] binding_clips@[i])@.len()
                == capture.authored_objects@[i].bindings@.len(),
    ensures
        final(out)@ == old(out)@ + authored_capture_text(capture@, nested_clips_view(binding_clips@)),
{
    let ghost c = capture@;
    let ghost clips = nested_clips_view(binding_clips@);
    let keys = object_keys(&capture.authored_objects);
    let order = stable_sort(&keys);
    let ghost ord = object_order(c.authored_objects);
    let ghost f = |k: int| object_block(k as nat, c.authored_objects[ord[k]], clips[ord[k]]);
    let mut k: usize = 0;
    while k < order.len()
        invariant
            c == capture@,
            clips == nested_clips_view(binding_clips@),
            binding_clips@.len() == capture.authored_objects@.len(),
            forall|i: int|
                0 <= i < binding_clips@.len() ==> (#[trigger] binding_clips@[i])@.len()
                    == capture.authored_objects@[i].bindings@.len(),
            ord == object_order(c.authored_objects),
            c.authored_objects == objects_view(capture.authored_objects@),
            tuple_views(keys@) == object_sort_keys(c.authored_objects),
            keys@.len() == capture.authored_objects@.len(),
            order@.len() == keys@.len(),
            forall|q: int| 0 <= q < order@.len() ==> order@[q] < keys@.len(),
            forall|q: int| 0 <= q < order@.len() ==> order@[q] as int == ord[q],
            f == (|k: int| object_block(k as nat, c.authored_objects[ord[k]], clips[ord[k]])),
            k <= order.len(),
            out@ == old(out)@ + lines_upto(k as int, f),
        decreases order.len() - k,
    {
        let i = order[k];
        proof {
            lemma_lines_upto_step(k as int, f);
            assert(c.authored_objects[i as int] == capture.authored_objects@[i as int]@);
            assert(clips[i as int] == clips_view(binding_clips@[i as int]@));
        }
        push_object_block(out, k, &capture.authored_objects[i], &binding_clips[i]);
        k = k + 1;
    }
}

fn push_paint_line(out: &mut String, p: &EguiPaintObservation, c: &ClipSurvival)
    ensures
        final(out)@ == old(out)@ + paint_line(p@, c@),
{
    push_str(out, "paint order=");
    push_decimal(out, p.order as u64);
    push_str(out, " kind=");
    push_json_str(out, p.kind.name());
    push_str(out, " bounds=");
    push_rect(out, &p.bounds);
    push_clip_part(out, &p.clip_rect);
    push_survival(out, c);
    push_str(out, "\n");
    assert(out@ =~= old(out)@ + paint_line(p@, c@));
}

fn push_paint(out: &mut String, capture: &EguiCorrelatedCapture, paint_clips: &Vec<ClipSurvival>)
    requires
        paint_clips@.len() == capture.paint@.len(),
    ensures
        final(out)@ == old(out)@ + paint_text(capture@, clips_view(paint_clips@)),
{
    let ghost c = capture@;
    let ghost clips = clips_view(paint_clips@);
    let mut orders: Vec<usize> = Vec::new();
    let mut i: usize = 0;
    while i < capture.paint.len()
        invariant
            c == capture@,
            i <= capture.paint.len(),
            orders@.len() == i,
            forall|q: int| 0 <= q < i ==> orders@[q] == capture.paint@[q].order,
        decreases capture.paint.len() - i,
    {
        orders.push(capture.paint[i].order);
        i = i + 1;
    }
    assert(nat_views(orders@) =~= paint_orders(c.paint));
    let order = stable_sort_numbers(&orders);
    let ghost ord = stable_order_nat(paint_orders(c.paint), c.paint.len() as int);
    let ghost f = |k: int| paint_line(c.paint[ord[k]], clips[ord[k]]);
    let mut k: usize = 0;
    while k < order.len()
        invariant
            c == capture@,
            clips == clips_view(paint_clips@),
            paint_clips@.len() == capture.paint@.len(),
            orders@.len() == capture.paint@.len(),
            ord == stable_order_nat(paint_orders(c.paint), c.paint.len() as int),
            order@.len() == orders@.len(),
            forall|q: int| 0 <= q < order@.len() ==> order@[q] < orders@.len(),
            forall|q: int| 0 <= q < order@.len() ==> order@[q] as int == ord[q],
            f == (|k: int| paint_line(c.paint[ord[k]], clips[ord[k]])),
            k <= order.len(),
            out@ == old(out)@ + lines_upto(k as int, f),
        decreases order.len() - k,
    {
        let i = order[k];
        proof {
            lemma_lines_upto_step(k as int, f);
            assert(c.paint[i as int] == capture.paint@[i as int]@);
        }
        push_paint_line(out, &capture.paint[i], &paint_clips[i]);
        k = k + 1;
    }
}

/// Project an exact capture into agent text. The clip survival of each
/// paint entry and each authored binding is supplied alongside, in the
/// capture's own order.
pub fn correlated_capture_to_agent_text(
    capture: &EguiCorrelatedCapture,
    paint_clips: &Vec<ClipSurvival>,
    binding_clips: &Vec<Vec<ClipSurvival>>,
) -> (text: String)
    requires
        clips_fit(capture@, clips_view(paint_clips@), nested_clips_view(binding_clips@)),
        total_bindings(objects_view(capture.authored_objects@)) <= u64::MAX,
    ensures
        text@ == capture_text(
            capture@,
            clips_view(paint_clips@),
            nested_clips_view(binding_clips@),
        ),
        forall|at: int|
            0 <= at < capture.authored_objects@.len() ==> #[trigger] object_line_listed(
                capture@,
                clips_view(paint_clips@),
                nested_clips_view(binding_clips@),
                at,
            ),
        forall|at: int, b: int|
            0 <= at < capture.authored_objects@.len() && 0 <= b
                < capture@.authored_objects[object_order(capture@.authored_objects)[at]].bindings.len()
                ==> #[trigger] binding_line_listed(
                capture@,
                clips_view(paint_clips@),
                nested_clips_view(binding_clips@),
                at,
                b,
            ),
{
    proof {
        let c = capture@;
        let pc = clips_view(paint_clips@);
        let clips = nested_clips_view(binding_clips@);
        assert forall|i: int| 0 <= i < clips.len() implies (#[trigger] clips[i]).len()
            == c.authored_objects[i].bindings.len() by {
            assert(clips[i] == clips_view(binding_clips@[i]@));
            assert(c.authored_objects[i] == capture.authored_objects@[i]@);
        }
        assert forall|i: int| 0 <= i < binding_clips@.len() implies (#[trigger] binding_clips@[i])@.len()
            == capture.authored_objects@[i].bindings@.len() by {
            assert(clips[i] == clips_view(binding_clips@[i]@));
            assert(c.authored_objects[i] == capture.authored_objects@[i]@);
        }
        lemma_capture_texts(*capture, binding_clips@);
        assert forall|at: int| 0 <= at < capture.authored_objects@.len() implies #[trigger] object_line_listed(
            c,
            pc,
            clips,
            at,
        ) by {
            law_capture_lists_focus_lines(c, pc, clips, at, 0);
        }
        assert forall|at: int, b: int|
            0 <= at < capture.authored_objects@.len() && 0 <= b
                < c.authored_objects[object_order(c.authored_objects)[at]].bindings.len() implies #[trigger] binding_line_listed(
            c,
            pc,
            clips,
            at,
            b,
        ) by {
            law_capture_lists_focus_lines(c, pc, clips, at, b);
        }
    }
    assert forall|i: int| 0 <= i < binding_clips@.len() implies (#[trigger] binding_clips@[i])@.len()
        == capture.authored_objects@[i].bindings@.len() by {
        assert(nested_clips_view(binding_clips@)[i] == clips_view(binding_clips@[i]@));
        assert(objects_view(capture.authored_objects@)[i] == capture.authored_objects@[i]@);
    }
    let mut out = String::new();
    push_capture_header(&mut out, capture);
    let w = to_agent_text(&capture.witness);
    push_str(&mut out, w.as_str());
    push_authored_capture(&mut out, capture, binding_clips);
    push_paint(&mut out, capture, paint_clips);
    assert(out@ =~= capture_text(capture@, clips_view(paint_clips@), nested_clips_view(binding_clips@)));
    out
}

// ---------------------------------------------------------------------------
// Focused projection of one authored object (and optionally one binding).
// ---------------------------------------------------------------------------

pub open spec fn str_opt_ref_view(s: Option<&str>) -> Option<Seq<char>> {
    match s {
        Some(s) => Some(s@),
        None => None,
    }
}

pub open spec fn binding_selected(b: BindingV, binding_id: Option<Seq<char>>) -> bool {
    match binding_id {
        Some(k) => b.authored_binding_id == Some(k),
        None => true,
    }
}

pub open spec fn selected_bindings(bs: Seq<BindingV>, binding_id: Option<Seq<char>>) -> nat
    decreases bs.len(),
{
    if bs.len() == 0 {
        0
    } else {
        selected_bindings(bs.drop_last(), binding_id) + if binding_selected(bs.last(), binding_id) {
            1nat
        } else {
            0nat
        }
    }
}

/// Bindings selected by the focus among the objects carrying `object_id`.
pub open spec fn focus_binding_count(
    objects: Seq<ObjectV>,
    object_id: Seq<char>,
    binding_id: Option<Seq<char>>,
) -> nat
    decreases objects.len(),
{
    if objects.len() == 0 {
        0
    } else {
        focus_binding_count(objects.drop_last(), object_id, binding_id) + if objects.last().id
            == object_id {
            selected_bindings(objects.last().bindings, binding_id)
        } else {
            0nat
        }
    }
}

pub open spec fn focus_header(
    c: CorrelatedCaptureV,
    object_id: Seq<char>,
    binding_id: Option<Seq<char>>,
) -> Seq<char> {
    "egui-correlated-focus "@ + capture_ids(c) + " object_id="@ + json_quote(object_id) + str_part(
        " binding_id="@,
        binding_id,
    ) + " object_match_count="@ + decimal(count_id(c.authored_objects, object_id))
        + " binding_match_count="@ + decimal(
        focus_binding_count(c.authored_objects, object_id, binding_id),
    ) + " correlation=same_full_output projection=authored_focus omitted=canonical_semantics,generic_paint\n"@
}

pub open spec fn focus_block(
    index: nat,
    o: ObjectV,
    clips: Seq<ClipV>,
    object_id: Seq<char>,
    binding_id: Option<Seq<char>>,
) -> Seq<char> {
    if o.id == object_id {
        capture_object_line(index, o) + lines_upto(
            o.bindings.len() as int,
            |b: int|
                if binding_selected(o.bindings[b], binding_id) {
                    capture_binding_line(index, b as nat, o.id, o.bindings[b], clips[b])
                } else {
                    Seq::empty()
                },
        )
    } else {
        Seq::empty()
    }
}

/// The focused projection: a header with match counts, then the matching
/// objects (at their index in the full listing) with their selected bindings.
pub open spec fn focus_text(
    c: CorrelatedCaptureV,
    clips: Seq<Seq<ClipV>>,
    object_id: Seq<char>,
    binding_id: Option<Seq<char>>,
) -> Seq<char> {
    let ord = object_order(c.authored_objects);
    focus_header(c, object_id, binding_id) + lines_upto(
        c.authored_objects.len() as int,
        |k: int| focus_block(k as nat, c.authored_objects[ord[k]], clips[ord[k]], object_id, binding_id),
    )
}

proof fn lemma_selected_bound(bs: Seq<BindingV>, binding_id: Option<Seq<char>>)
    ensures
        selected_bindings(bs, binding_id) <= bs.len(),
    decreases bs.len(),
{
    if bs.len() > 0 {
        lemma_selected_bound(bs.drop_last(), binding_id);
    }
}

proof fn lemma_focus_count_bound(objects: Seq<ObjectV>, object_id: Seq<char>, binding_id: Option<Seq<char>>)
    ensures
        focus_binding_count(objects, object_id, binding_id) <= total_bindings(objects),
        count_id(objects, object_id) <= objects.len(),
    decreases objects.len(),
{
    if objects.len() > 0 {
        lemma_focus_count_bound(objects.drop_last(), object_id, binding_id);
        lemma_selected_bound(objects.last().bindings, binding_id);
    }
}

fn selected_in(o: &EguiAuthoredPaintObject, binding_id: Option<&str>, b: usize) -> (r: bool)
    requires
        b < o.bindings@.len(),
    ensures
        r == binding_selected(o@.bindings[b as int], str_opt_ref_view(binding_id)),
{
    assert(o@.bindings[b as int] == o.bindings@[b as int]@);
    match binding_id {
        Some(k) => match &o.bindings[b].authored_binding_id {
            Some(id) => {
                let key = crate::text::owned(k);
                *id == key
            },
            None => false,
        },
        None => true,
    }
}

fn focus_counts(
    objects: &Vec<EguiAuthoredPaintObject>,
    object_id: &str,
    binding_id: Option<&str>,
) -> (r: (u64, u64))
    requires
        total_bindings(objects_view(objects@)) <= u64::MAX,
    ensures
        r.0 as nat == count_id(objects_view(objects@), object_id@),
        r.1 as nat == focus_binding_count(objects_view(objects@), object_id@, str_opt_ref_view(binding_id)),
{
    let ghost v = objects_view(objects@);
    let ghost bid = str_opt_ref_view(binding_id);
    let target = crate::text::owned(object_id);
    let mut objects_found: u64 = 0;
    let mut bindings_found: u64 = 0;
    let mut i: usize = 0;
    while i < objects.len()
        invariant
            v == objects_view(objects@),
            bid == str_opt_ref_view(binding_id),
            target@ == object_id@,
            total_bindings(v) <= u64::MAX,
            i <= objects.len(),
            objects_found as nat == count_id(v.take(i as int), object_id@),
            bindings_found as nat == focus_binding_count(v.take(i as int), object_id@, bid),
        decreases objects.len() - i,
    {
        proof {
            assert(v.take(i + 1).drop_last() =~= v.take(i as int));
            assert(v.take(i + 1).last() == objects@[i as int]@);
            lemma_focus_count_bound(v.take(i + 1), object_id@, bid);
            lemma_total_bindings_prefix(v, i + 1);
            lemma_focus_count_bound(v, object_id@, bid);
        }
        let o = &objects[i];
        if o.id == target {
            objects_found = objects_found + 1;
            let ghost ov = o@;
            let mut n: u64 = 0;
            let mut b: usize = 0;
            while b < o.bindings.len()
                invariant
                    ov == o@,
                    b <= o.bindings.len(),
                    n as nat == selected_bindings(ov.bindings.take(b as int), bid),
                    n <= b,
                    bid == str_opt_ref_view(binding_id),
                decreases o.bindings.len() - b,
            {
                proof {
                    assert(ov.bindings.take(b + 1).drop_last() =~= ov.bindings.take(b as int));
                }
                if selected_in(o, binding_id, b) {
                    n = n + 1;
                }
                b = b + 1;
            }
            assert(ov.bindings.take(o.bindings.len() as int) =~= ov.bindings);
            bindings_found = bindings_found + n;
        }
        i = i + 1;
    }
    assert(v.take(objects.len() as int) =~= v);
    (objects_found, bindings_found)
}

fn push_focus_block(
    out: &mut String,
    index: usize,
    o: &EguiAuthoredPaintObject,
    clips: &Vec<ClipSurvival>,
    object_id: &str,
    binding_id: Option<&str>,
)
    requires
        clips@.len() == o.bindings@.len(),
    ensures
        final(out)@ == old(out)@ + focus_block(
            index as nat,
            o@,
            clips_view(clips@),
            object_id@,
            str_opt_ref_view(binding_id),
        ),
{
    let ghost ov = o@;
    let ghost cv = clips_view(clips@);
    let ghost bid = str_opt_ref_view(binding_id);
    let target = crate::text::owned(object_id);
    if o.id != target {
        assert(out@ =~= old(out)@ + focus_block(index as nat, ov, cv, object_id@, bid));
        return;
    }
    push_capture_object_line(out, index, o);
    let ghost base = out@;
    let ghost f = |b: int|
        if binding_selected(ov.bindings[b], bid) {
            capture_binding_line(index as nat, b as nat, ov.id, ov.bindings[b], cv[b])
        } else {
            Seq::<char>::empty()
        };
    let mut b: usize = 0;
    while b < o.bindings.len()
        invariant
            ov == o@,
            cv == clips_view(clips@),
            bid == str_opt_ref_view(binding_id),
            clips@.len() == o.bindings@.len(),
            f == (|b: int|
                if binding_selected(ov.bindings[b], bid) {
                    capture_binding_line(index as nat, b as nat, ov.id, ov.bindings[b], cv[b])
                } else {
                    Seq::<char>::empty()
                }),
            b <= o.bindings.len(),
            out@ == base + lines_upto(b as int, f),
        decreases o.bindings.len() - b,
    {
        proof {
            lemma_lines_upto_step(b as int, f);
        }
        let ghost o_before = out@;
        if selected_in(o, binding_id, b) {
            push_capture_binding_line(out, index, b, &o.id, &o.bindings[b], &clips[b]);
        }
        assert(out@ =~= o_before + f(b as int));
        b = b + 1;
    }
}

#[verifier::spinoff_prover]
#[verifier::rlimit(80)]
fn push_focus_header(
    out: &mut String,
    capture: &EguiCorrelatedCapture,
    object_id: &str,
    binding_id: Option<&str>,
)
    requires
        total_bindings(objects_view(capture.authored_objects@)) <= u64::MAX,
    ensures
        final(out)@ == old(out)@ + focus_header(capture@, object_id@, str_opt_ref_view(binding_id)),
{
    let (object_matches, binding_matches) = focus_counts(&capture.authored_objects, object_id, binding_id);
    push_str(out, "egui-correlated-focus ");
    push_capture_ids(out, capture);
    push_str(out, " object_id=");
    push_json_str(out, object_id);
    let ghost o1 = out@;
    match binding_id {
        Some(b) => {
            push_str(out, " binding_id=");
            push_json_str(out, b);
        },
        None => {},
    }
    assert(out@ =~= o1 + str_part(" binding_id="@, str_opt_ref_view(binding_id)));
    push_str(out, " object_match_count=");
    push_decimal(out, object_matches);
    push_str(out, " binding_match_count=");
    push_decimal(out, binding_matches);
    push_str(
        out,
        " correlation=same_full_output projection=authored_focus omitted=canonical_semantics,generic_paint\n",
    );
    assert(out@ =~= old(out)@ + focus_header(capture@, object_id@, str_opt_ref_view(binding_id)));
}

/// Focus the agent projection on one authored object ID and optionally one
/// authored binding ID. Canonical semantics and generic paint are omitted
/// (the header says so); duplicate matches are all listed and counted.
pub fn correlated_capture_authored_focus_to_agent_text(
    capture: &EguiCorrelatedCapture,
    binding_clips: &Vec<Vec<ClipSurvival>>,
    object_id: &str,
    binding_id: Option<&str>,
) -> (text: String)
    requires
        binding_clips@.len() == capture.authored_objects@.len(),
        forall|i: int|
            0 <= i < binding_clips@.len() ==> (#[trigger] binding_clips@[i])@.len()
                == capture.authored_objects@[i].bindings@.len(),
        total_bindings(objects_view(capture.authored_objects@)) <= u64::MAX,
    ensures
        text@ == focus_text(
            capture@,
            nested_clips_view(binding_clips@),
            object_id@,
            str_opt_ref_view(binding_id),
        ),
        text@.len() > 0 && text@.last() == '\n',
        line_breaks(text@) == 1 + count_id(objects_view(capture.authored_objects@), object_id@)
            + focus_binding_count(
            objects_view(capture.authored_objects@),
            object_id@,
            str_opt_ref_view(binding_id),
        ),
{
    let ghost c = capture@;
    let ghost clips = nested_clips_view(binding_clips@);
    let ghost bid = str_opt_ref_view(binding_id);
    proof {
        assert forall|i: int| 0 <= i < clips.len() implies (#[trigger] clips[i]).len()
            == c.authored_objects[i].bindings.len() by {
            assert(clips[i] == clips_view(binding_clips@[i]@));
            assert(c.authored_objects[i] == capture.authored_objects@[i]@);
        }
        lemma_capture_texts(*capture, binding_clips@);
        law_focus_text_lines(c, clips, object_id@, bid);
    }
    let mut out = String::new();
    push_focus_header(&mut out, capture, object_id, binding_id);
    let ghost base = out@;
    let keys = object_keys(&capture.authored_objects);
    let order = stable_sort(&keys);
    let ghost ord = object_order(c.authored_objects);
    let ghost f = |k: int| focus_block(k as nat, c.authored_objects[ord[k]], clips[ord[k]], object_id@, bid);
    let mut k: usize = 0;
    while k < order.len()
        invariant
            c == capture@,
            clips == nested_clips_view(binding_clips@),
            bid == str_opt_ref_view(binding_id),
            binding_clips@.len() == capture.authored_objects@.len(),
            forall|i: int|
                0 <= i < binding_clips@.len() ==> (#[trigger] binding_clips@[i])@.len()
                    == capture.authored_objects@[i].bindings@.len(),
            ord == object_order(c.authored_objects),
            c.authored_objects == objects_view(capture.authored_objects@),
            tuple_views(keys@) == object_sort_keys(c.authored_objects),
            keys@.len() == capture.authored_objects@.len(),
            order@.len() == keys@.len(),
            forall|q: int| 0 <= q < order@.len() ==> order@[q] < keys@.len(),
            forall|q: int| 0 <= q < order@.len() ==> order@[q] as int == ord[q],
            f == (|k: int| focus_block(k as nat, c.authored_objects[ord[k]], clips[ord[k]], object_id@, bid)),
            k <= order.len(),
            out@ == base + lines_upto(k as int, f),
        decreases order.len() - k,
    {
        let i = order[k];
        proof {
            lemma_lines_upto_step(k as int, f);
            assert(c.authored_objects[i as int] == capture.authored_objects@[i as int]@);
            assert(clips[i as int] == clips_view(binding_clips@[i as int]@));
        }
        push_focus_block(&mut out, k, &capture.authored_objects[i], &binding_clips[i], object_id, binding_id);
        k = k + 1;
    }
    out
}

} // verus!
