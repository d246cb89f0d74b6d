//! Line structure of the focused authored projection.
use vstd::prelude::*;

use crate::agent_text::{
    bool_text, concat_lines, meta_line, node_line, rect_text, relation_line, str_part, view_header,
    witness_nodes_text, witness_relations_text, witness_text,
};
use crate::model::WitnessV;
use crate::egui_agent_text::{
    ClipV, authored_capture_text, binding_core, capture_header, capture_text, clips_fit, object_block,
    paint_text, binding_ids_text, binding_selected, binding_shape_text, capture_binding_line,
    capture_ids, capture_object_head, capture_object_line, clip_part,
    focus_binding_count, focus_block, focus_header, focus_text, lines_upto, object_order,
    object_sort_keys, selected_bindings, survival_part,
};
use crate::egui_annotation::{BindingV, ObjectV, layer_order_name};
use crate::egui_diff::count_id;
use crate::egui_paint::paint_kind_name;
use crate::correlated::{CorrelatedCaptureV, EguiCorrelatedCapture};
use crate::egui_agent_text::{ClipSurvival, nested_clips_view};
use crate::egui_annotation::EguiAuthoredPaintBinding;
use crate::lines::lemma_rect_texts;
use crate::text::lemma_line_text_view;
use crate::lines::{
    lemma_header_meta_end, lemma_node_line_ends, lemma_relation_line_ends, lemma_decimal_nl_free, lemma_line_breaks_concat, lemma_nl_free_concat_auto, lemma_one_line,
    lemma_quote_nl_free, lemma_rect_text_nl_free, lemma_str_part_nl_free, line_breaks,
    rect_nl_free,
};
use crate::order::{lemma_stable_order_covers, lemma_stable_order_len_pub, law_stable_order_sorts, stable_order};
use crate::text::{decimal, json_quote, nl_free};

verus! {

/// `g(0) + ... + g(n - 1)`.
pub open spec fn index_sum(n: int, g: spec_fn(int) -> nat) -> nat
    decreases n,
{
    if n <= 0 {
        0
    } else {
        index_sum(n - 1, g) + g(n - 1)
    }
}

proof fn lemma_index_sum_agree(n: int, g1: spec_fn(int) -> nat, g2: spec_fn(int) -> nat)
    requires
        forall|i: int| 0 <= i < n ==> #[trigger] g1(i) == g2(i),
    ensures
        index_sum(n, g1) == index_sum(n, g2),
    decreases n,
{
    if n > 0 {
        lemma_index_sum_agree(n - 1, g1, g2);
    }
}

/// `p` occurs in the listing `s`.
pub open spec fn listed(s: Seq<int>, p: int) -> bool {
    exists|m: int| 0 <= m < s.len() && #[trigger] s[m] == p
}

/// Taking out the item at `m` of a listing takes its term out of the sum.
proof fn lemma_index_sum_remove(s: Seq<int>, m: int, g: spec_fn(int) -> nat)
    requires
        0 <= m < s.len(),
    ensures
        index_sum(s.len() as int, |k: int| g(s[k])) == index_sum(
            s.len() - 1,
            |k: int| g(s.remove(m)[k]),
        ) + g(s[m]),
    decreases s.len(),
{
    let n = s.len() as int;
    let f = |k: int| g(s[k]);
    let fr = |k: int| g(s.remove(m)[k]);
    if m == n - 1 {
        assert forall|k: int| 0 <= k < n - 1 implies #[trigger] f(k) == fr(k) by {
            assert(s.remove(m)[k] == s[k]);
        }
        lemma_index_sum_agree(n - 1, f, fr);
    } else {
        let d = s.drop_last();
        let fd = |k: int| g(d[k]);
        let fdr = |k: int| g(d.remove(m)[k]);
        lemma_index_sum_remove(d, m, g);
        assert forall|k: int| 0 <= k < n - 1 implies #[trigger] f(k) == fd(k) by {
            assert(d[k] == s[k]);
        }
        lemma_index_sum_agree(n - 1, f, fd);
        assert forall|k: int| 0 <= k < n - 2 implies #[trigger] fr(k) == fdr(k) by {
            assert(s.remove(m)[k] == d.remove(m)[k]);
        }
        lemma_index_sum_agree(n - 2, fr, fdr);
        assert(s.remove(m)[n - 2] == s[n - 1]);
        assert(index_sum(n - 1, fr) == index_sum(n - 2, fr) + fr(n - 2));
    }
}

/// Summing along a listing that holds each of `0..n` once gives the plain sum.
proof fn lemma_index_sum_permuted(s: Seq<int>, g: spec_fn(int) -> nat)
    requires
        forall|k: int| 0 <= k < s.len() ==> 0 <= #[trigger] s[k] < s.len(),
        forall|i: int, j: int| 0 <= i < j < s.len() ==> #[trigger] s[i] != #[trigger] s[j],
        forall|p: int| 0 <= p < s.len() ==> #[trigger] listed(s, p),
    ensures
        index_sum(s.len() as int, |k: int| g(s[k])) == index_sum(s.len() as int, g),
    decreases s.len(),
{
    let n = s.len() as int;
    if n > 0 {
        assert(listed(s, n - 1));
        let m = choose|m: int| 0 <= m < n && #[trigger] s[m] == n - 1;
        let r = s.remove(m);
        assert forall|k: int| 0 <= k < r.len() implies 0 <= #[trigger] r[k] < r.len() by {
            if k < m {
                assert(r[k] == s[k]);
                assert(s[k] != s[m]);
            } else {
                assert(r[k] == s[k + 1]);
                assert(s[k + 1] != s[m]);
            }
        }
        assert forall|i: int, j: int| 0 <= i < j < r.len() implies #[trigger] r[i] != #[trigger] r[j] by {
            let si = if i < m { i } else { i + 1 };
            let sj = if j < m { j } else { j + 1 };
            assert(r[i] == s[si] && r[j] == s[sj]);
            assert(si < sj);
        }
        assert forall|p: int| 0 <= p < r.len() implies #[trigger] listed(r, p) by {
            assert(listed(s, p));
            let w = choose|w: int| 0 <= w < n && #[trigger] s[w] == p;
            assert(w != m);
            if w < m {
                assert(r[w] == p);
            } else {
                assert(r[w - 1] == p);
            }
        }
        lemma_index_sum_permuted(r, g);
        lemma_index_sum_remove(s, m, g);
    }
}

/// Concatenated renderings hold the sum of their line breaks; each piece is
/// empty or ends a line, and so does the whole.
proof fn lemma_lines_upto_breaks(n: int, f: spec_fn(int) -> Seq<char>)
    requires
        forall|k: int| 0 <= k < n ==> (#[trigger] f(k)).len() == 0 || f(k).last() == '\n',
    ensures
        line_breaks(lines_upto(n, f)) == index_sum(n, |k: int| line_breaks(f(k))),
        lines_upto(n, f).len() == 0 || lines_upto(n, f).last() == '\n',
    decreases n,
{
    if n > 0 {
        lemma_lines_upto_breaks(n - 1, f);
        lemma_line_breaks_concat(lines_upto(n - 1, f), f(n - 1));
        if f(n - 1).len() == 0 {
            assert(lines_upto(n, f) =~= lines_upto(n - 1, f));
        }
    }
}

proof fn lemma_selected_as_sum(bs: Seq<BindingV>, bid: Option<Seq<char>>)
    ensures
        selected_bindings(bs, bid) == index_sum(
            bs.len() as int,
            |b: int|
                if binding_selected(bs[b], bid) {
                    1nat
                } else {
                    0nat
                },
        ),
    decreases bs.len(),
{
    if bs.len() > 0 {
        let d = bs.drop_last();
        lemma_selected_as_sum(d, bid);
        let g = |b: int|
            if binding_selected(bs[b], bid) {
                1nat
            } else {
                0nat
            };
        let gd = |b: int|
            if binding_selected(d[b], bid) {
                1nat
            } else {
                0nat
            };
        assert forall|b: int| 0 <= b < d.len() implies #[trigger] g(b) == gd(b) by {
            assert(d[b] == bs[b]);
        }
        lemma_index_sum_agree(d.len() as int, g, gd);
    }
}

/// The lines an object contributes to the focused projection.
pub open spec fn focus_block_lines(o: ObjectV, object_id: Seq<char>, binding_id: Option<Seq<char>>) -> nat {
    if o.id == object_id {
        1 + selected_bindings(o.bindings, binding_id)
    } else {
        0
    }
}

proof fn lemma_focus_counts_as_sum(objects: Seq<ObjectV>, id: Seq<char>, bid: Option<Seq<char>>)
    ensures
        count_id(objects, id) + focus_binding_count(objects, id, bid) == index_sum(
            objects.len() as int,
            |i: int| focus_block_lines(objects[i], id, bid),
        ),
    decreases objects.len(),
{
    if objects.len() > 0 {
        let d = objects.drop_last();
        lemma_focus_counts_as_sum(d, id, bid);
        let g = |i: int| focus_block_lines(objects[i], id, bid);
        let gd = |i: int| focus_block_lines(d[i], id, bid);
        assert forall|i: int| 0 <= i < d.len() implies #[trigger] g(i) == gd(i) by {
            assert(d[i] == objects[i]);
        }
        lemma_index_sum_agree(d.len() as int, g, gd);
    }
}

/// The texts a binding line carries verbatim hold no line break.
pub open spec fn binding_nl_free(b: BindingV) -> bool {
    &&& (b.bounds matches Some(r) ==> rect_nl_free(r))
    &&& (b.clip_rect matches Some(r) ==> rect_nl_free(r))
}

/// The clip evidence texts hold no line break.
pub open spec fn clip_nl_free(c: ClipV) -> bool {
    &&& nl_free(c.fraction)
    &&& (c.visible_bounds matches Some(r) ==> rect_nl_free(r))
}

/// The texts the focused projection carries verbatim (quantity displays and
/// clip evidence) hold no line break.
pub open spec fn focus_nl_free(c: CorrelatedCaptureV, clips: Seq<Seq<ClipV>>) -> bool {
    &&& rect_nl_free(c.viewport_rect)
    &&& forall|i: int, j: int|
        0 <= i < c.authored_objects.len() && 0 <= j < c.authored_objects[i].bindings.len()
            ==> binding_nl_free(#[trigger] c.authored_objects[i].bindings[j])
    &&& forall|i: int, j: int|
        0 <= i < c.authored_objects.len() && 0 <= j < c.authored_objects[i].bindings.len()
            ==> clip_nl_free(#[trigger] clips[i][j])
}

proof fn lemma_capture_ids_nl_free(c: CorrelatedCaptureV)
    requires
        rect_nl_free(c.viewport_rect),
    ensures
        nl_free(capture_ids(c)),
{
    broadcast use lemma_nl_free_concat_auto;

    reveal_strlit("request=");
    reveal_strlit(" viewport_id=");
    reveal_strlit(" pass=");
    reveal_strlit(" viewport_rect=");
    assert(nl_free("request="@) && nl_free(" viewport_id="@) && nl_free(" pass="@) && nl_free(" viewport_rect="@));
    lemma_decimal_nl_free(c.request_id as nat);
    lemma_decimal_nl_free(c.viewport_id as nat);
    lemma_decimal_nl_free(c.pass_nr as nat);
    lemma_rect_text_nl_free(c.viewport_rect);
    assert(nl_free(capture_ids(c)));
}

proof fn lemma_focus_header_one_line(c: CorrelatedCaptureV, id: Seq<char>, bid: Option<Seq<char>>)
    requires
        rect_nl_free(c.viewport_rect),
    ensures
        line_breaks(focus_header(c, id, bid)) == 1,
        focus_header(c, id, bid).len() > 0,
        focus_header(c, id, bid).last() == '\n',
{
    broadcast use lemma_nl_free_concat_auto;

    reveal_strlit("egui-correlated-focus ");
    reveal_strlit(" object_id=");
    reveal_strlit(" binding_id=");
    reveal_strlit(" object_match_count=");
    reveal_strlit(" binding_match_count=");
    reveal_strlit(
        " correlation=same_full_output projection=authored_focus omitted=canonical_semantics,generic_paint\n",
    );
    let tail = " correlation=same_full_output projection=authored_focus omitted=canonical_semantics,generic_paint\n"@;
    let t0 = tail.drop_last();
    assert(tail.last() == '\n');
    assert(tail =~= t0 + seq!['\n']);
    assert(nl_free(t0));
    assert(nl_free("egui-correlated-focus "@) && nl_free(" object_id="@) && nl_free(" binding_id="@)
        && nl_free(" object_match_count="@) && nl_free(" binding_match_count="@));
    lemma_capture_ids_nl_free(c);
    lemma_quote_nl_free(id);
    lemma_str_part_nl_free(" binding_id="@, bid);
    lemma_decimal_nl_free(count_id(c.authored_objects, id));
    lemma_decimal_nl_free(focus_binding_count(c.authored_objects, id, bid));
    let body = "egui-correlated-focus "@ + capture_ids(c) + " object_id="@ + json_quote(id) + str_part(
        " binding_id="@,
        bid,
    ) + " object_match_count="@ + decimal(count_id(c.authored_objects, id)) + " binding_match_count="@
        + decimal(focus_binding_count(c.authored_objects, id, bid)) + t0;
    assert(nl_free(body));
    assert(focus_header(c, id, bid) =~= body + seq!['\n']);
    lemma_one_line(body);
}

proof fn lemma_object_line_one_line(index: nat, o: ObjectV)
    ensures
        line_breaks(capture_object_line(index, o)) == 1,
        capture_object_line(index, o).len() > 0,
        capture_object_line(index, o).last() == '\n',
{
    broadcast use lemma_nl_free_concat_auto;

    reveal_strlit("authored-object index=");
    reveal_strlit(" id=");
    reveal_strlit(" role=");
    reveal_strlit(" name=");
    reveal_strlit(" semantic_evidence=");
    reveal_strlit(" binding_count=");
    reveal_strlit("\n");
    assert(nl_free("authored-object index="@) && nl_free(" id="@) && nl_free(" role="@) && nl_free(" name="@)
        && nl_free(" semantic_evidence="@) && nl_free(" binding_count="@));
    lemma_decimal_nl_free(index);
    lemma_decimal_nl_free(o.bindings.len());
    lemma_quote_nl_free(o.id);
    lemma_quote_nl_free(o.role);
    lemma_quote_nl_free(o.semantic_evidence);
    lemma_str_part_nl_free(" name="@, o.name);
    let body = capture_object_head(index, o) + str_part(" name="@, o.name) + " semantic_evidence="@ + json_quote(
        o.semantic_evidence,
    ) + " binding_count="@ + decimal(o.bindings.len());
    assert(nl_free(capture_object_head(index, o)));
    assert(nl_free(body));
    assert(capture_object_line(index, o) =~= body + seq!['\n']);
    lemma_one_line(body);
}

proof fn lemma_binding_line_one_line(oi: nat, bi: nat, oid: Seq<char>, b: BindingV, c: ClipV)
    requires
        binding_nl_free(b),
        clip_nl_free(c),
    ensures
        line_breaks(capture_binding_line(oi, bi, oid, b, c)) == 1,
        capture_binding_line(oi, bi, oid, b, c).len() > 0,
        capture_binding_line(oi, bi, oid, b, c).last() == '\n',
{
    broadcast use lemma_nl_free_concat_auto;

    reveal_strlit("authored-binding object_index=");
    reveal_strlit(" binding_index=");
    reveal_strlit(" object_id=");
    reveal_strlit(" authored_binding_id=");
    reveal_strlit(" binding_evidence=");
    reveal_strlit(" layer_order=");
    reveal_strlit(" layer_id=");
    reveal_strlit(" shape_index=");
    reveal_strlit(" verified=");
    reveal_strlit(" kind=");
    reveal_strlit(" bounds=");
    reveal_strlit(" clip=");
    reveal_strlit(" clip=unbounded");
    reveal_strlit(" visible_fraction=");
    reveal_strlit(" visible_fraction_evidence=derived_bbox_clip");
    reveal_strlit(" visible_bounds=");
    reveal_strlit(" visible_bounds=none");
    reveal_strlit("true");
    reveal_strlit("false");
    reveal_strlit("\n");
    assert(nl_free("authored-binding object_index="@) && nl_free(" binding_index="@) && nl_free(" object_id="@));
    assert(nl_free(" authored_binding_id="@) && nl_free(" binding_evidence="@) && nl_free(" layer_order="@)
        && nl_free(" layer_id="@) && nl_free(" shape_index="@) && nl_free(" verified="@));
    assert(nl_free(" kind="@) && nl_free(" bounds="@) && nl_free(" clip="@) && nl_free(" clip=unbounded"@));
    assert(nl_free(" visible_fraction="@) && nl_free(" visible_fraction_evidence=derived_bbox_clip"@)
        && nl_free(" visible_bounds="@) && nl_free(" visible_bounds=none"@));
    assert(nl_free(bool_text(b.verified_at_end_pass)));
    lemma_decimal_nl_free(oi);
    lemma_decimal_nl_free(bi);
    lemma_decimal_nl_free(b.layer_id as nat);
    lemma_decimal_nl_free(b.shape_index as nat);
    lemma_quote_nl_free(oid);
    lemma_quote_nl_free(b.binding_evidence);
    lemma_quote_nl_free(layer_order_name(b.layer_order));
    lemma_str_part_nl_free(" authored_binding_id="@, b.authored_binding_id);
    assert(nl_free(binding_ids_text(b)));
    if let Some(k) = b.kind {
        lemma_quote_nl_free(paint_kind_name(k));
    }
    if let Some(r) = b.bounds {
        lemma_rect_text_nl_free(r);
    }
    if let Some(r) = b.clip_rect {
        lemma_rect_text_nl_free(r);
    }
    let kind_part = match b.kind {
        Some(k) => " kind="@ + json_quote(paint_kind_name(k)),
        None => Seq::<char>::empty(),
    };
    let bounds_part = match b.bounds {
        Some(r) => " bounds="@ + rect_text(r),
        None => Seq::<char>::empty(),
    };
    assert(nl_free(kind_part) && nl_free(bounds_part) && nl_free(clip_part(b.clip_rect)));
    assert(binding_shape_text(b) == kind_part + bounds_part + clip_part(b.clip_rect));
    assert(nl_free(binding_shape_text(b)));
    assert(nl_free(binding_core(b)));
    if let Some(r) = c.visible_bounds {
        lemma_rect_text_nl_free(r);
    }
    assert(nl_free(survival_part(c)));
    let surv = if b.bounds is Some {
        survival_part(c)
    } else {
        Seq::<char>::empty()
    };
    let body = "authored-binding object_index="@ + decimal(oi) + " binding_index="@ + decimal(bi)
        + " object_id="@ + json_quote(oid) + binding_core(b) + surv;
    assert(nl_free(body));
    assert(capture_binding_line(oi, bi, oid, b, c) =~= body + seq!['\n']);
    lemma_one_line(body);
}

proof fn lemma_focus_block_lines(
    index: nat,
    o: ObjectV,
    clips: Seq<ClipV>,
    id: Seq<char>,
    bid: Option<Seq<char>>,
)
    requires
        forall|j: int| 0 <= j < o.bindings.len() ==> binding_nl_free(#[trigger] o.bindings[j]) && clip_nl_free(
            clips[j],
        ),
    ensures
        line_breaks(focus_block(index, o, clips, id, bid)) == focus_block_lines(o, id, bid),
        focus_block(index, o, clips, id, bid).len() == 0 || focus_block(index, o, clips, id, bid).last()
            == '\n',
{
    if o.id == id {
        let n = o.bindings.len() as int;
        let f = |b: int|
            if binding_selected(o.bindings[b], bid) {
                capture_binding_line(index, b as nat, o.id, o.bindings[b], clips[b])
            } else {
                Seq::<char>::empty()
            };
        let g = |b: int|
            if binding_selected(o.bindings[b], bid) {
                1nat
            } else {
                0nat
            };
        assert forall|k: int| 0 <= k < n implies (#[trigger] f(k)).len() == 0 || f(k).last() == '\n' by {
            if binding_selected(o.bindings[k], bid) {
                lemma_binding_line_one_line(index, k as nat, o.id, o.bindings[k], clips[k]);
            }
        }
        lemma_lines_upto_breaks(n, f);
        let lf = |k: int| line_breaks(f(k));
        assert forall|k: int| 0 <= k < n implies #[trigger] lf(k) == g(k) by {
            if binding_selected(o.bindings[k], bid) {
                lemma_binding_line_one_line(index, k as nat, o.id, o.bindings[k], clips[k]);
            } else {
                assert(f(k) =~= Seq::<char>::empty());
            }
        }
        lemma_index_sum_agree(n, lf, g);
        lemma_selected_as_sum(o.bindings, bid);
        lemma_object_line_one_line(index, o);
        let ol = capture_object_line(index, o);
        let bl = lines_upto(n, f);
        assert(focus_block(index, o, clips, id, bid) == ol + bl);
        lemma_line_breaks_concat(ol, bl);
        if bl.len() == 0 {
            assert(ol + bl =~= ol);
        }
    } else {
        assert(focus_block(index, o, clips, id, bid) =~= Seq::<char>::empty());
    }
}

/// The focused projection holds exactly its header line, one line per object
/// carrying the focused ID and one line per selected binding of those
/// objects, and ends with a line break (when the quantity and clip texts it
/// carries hold no line break of their own, as those of every capture and
/// clip value do: `lemma_capture_texts`). When no object carries the ID,
/// only the header is there.
pub proof fn law_focus_text_lines(
    c: CorrelatedCaptureV,
    clips: Seq<Seq<ClipV>>,
    object_id: Seq<char>,
    binding_id: Option<Seq<char>>,
)
    requires
        clips.len() == c.authored_objects.len(),
        forall|i: int| 0 <= i < clips.len() ==> (#[trigger] clips[i]).len() == c.authored_objects[i].bindings.len(),
        focus_nl_free(c, clips),
    ensures
        line_breaks(focus_text(c, clips, object_id, binding_id)) == 1 + count_id(c.authored_objects, object_id)
            + focus_binding_count(c.authored_objects, object_id, binding_id),
        focus_text(c, clips, object_id, binding_id).len() > 0,
        focus_text(c, clips, object_id, binding_id).last() == '\n',
{
    let objs = c.authored_objects;
    let n = objs.len() as int;
    let ord = object_order(objs);
    lemma_stable_order_len_pub(object_sort_keys(objs), n);
    law_stable_order_sorts(object_sort_keys(objs), n);
    let f = |k: int| focus_block(k as nat, objs[ord[k]], clips[ord[k]], object_id, binding_id);
    let blocks = |i: int| focus_block_lines(objs[i], object_id, binding_id);
    assert forall|k: int| 0 <= k < n implies (#[trigger] f(k)).len() == 0 || f(k).last() == '\n' by {
        let i = ord[k];
        assert(0 <= i < n);
        assert forall|j: int| 0 <= j < objs[i].bindings.len() implies binding_nl_free(#[trigger] objs[i].bindings[j])
            && clip_nl_free(clips[i][j]) by {
            assert(binding_nl_free(c.authored_objects[i].bindings[j]) && clip_nl_free(clips[i][j]));
        }
        lemma_focus_block_lines(k as nat, objs[i], clips[i], object_id, binding_id);
    }
    lemma_lines_upto_breaks(n, f);
    let lf = |k: int| line_breaks(f(k));
    let pf = |k: int| blocks(ord[k]);
    assert forall|k: int| 0 <= k < n implies #[trigger] lf(k) == pf(k) by {
        let i = ord[k];
        assert(0 <= i < n);
        assert forall|j: int| 0 <= j < objs[i].bindings.len() implies binding_nl_free(#[trigger] objs[i].bindings[j])
            && clip_nl_free(clips[i][j]) by {
            assert(binding_nl_free(c.authored_objects[i].bindings[j]) && clip_nl_free(clips[i][j]));
        }
        lemma_focus_block_lines(k as nat, objs[i], clips[i], object_id, binding_id);
    }
    lemma_index_sum_agree(n, lf, pf);
    assert forall|p: int| 0 <= p < ord.len() implies #[trigger] listed(ord, p) by {
        lemma_stable_order_covers(object_sort_keys(objs), n, p);
    }
    assert forall|i: int, j: int| 0 <= i < j < ord.len() implies #[trigger] ord[i] != #[trigger] ord[j] by {
        assert(ord[i] != ord[j]);
    }
    lemma_index_sum_permuted(ord, blocks);
    lemma_focus_counts_as_sum(objs, object_id, binding_id);
    lemma_focus_header_one_line(c, object_id, binding_id);
    let h = focus_header(c, object_id, binding_id);
    let bl = lines_upto(n, f);
    assert(focus_text(c, clips, object_id, binding_id) == h + bl);
    lemma_line_breaks_concat(h, bl);
    if bl.len() == 0 {
        assert(h + bl =~= h);
    }
}

/// `f(a)`, ..., `f(b - 1)` concatenated.
pub open spec fn lines_range(a: int, b: int, f: spec_fn(int) -> Seq<char>) -> Seq<char>
    decreases b - a,
{
    if b <= a {
        Seq::empty()
    } else {
        f(a) + lines_range(a + 1, b, f)
    }
}

proof fn lemma_lines_range_snoc(a: int, b: int, f: spec_fn(int) -> Seq<char>)
    requires
        a < b,
    ensures
        lines_range(a, b, f) == lines_range(a, b - 1, f) + f(b - 1),
    decreases b - a,
{
    if a == b - 1 {
        assert(lines_range(a + 1, b, f) =~= Seq::<char>::empty());
        assert(lines_range(a, b - 1, f) =~= Seq::<char>::empty());
        assert(lines_range(a, b, f) =~= lines_range(a, b - 1, f) + f(b - 1));
    } else {
        lemma_lines_range_snoc(a + 1, b, f);
        assert(lines_range(a, b, f) =~= lines_range(a, b - 1, f) + f(b - 1));
    }
}

proof fn lemma_lines_upto_split(n: int, k: int, f: spec_fn(int) -> Seq<char>)
    requires
        0 <= k < n,
    ensures
        lines_upto(n, f) == lines_upto(k, f) + f(k) + lines_range(k + 1, n, f),
    decreases n,
{
    if n == k + 1 {
        assert(lines_range(k + 1, n, f) =~= Seq::<char>::empty());
        assert(lines_upto(n, f) =~= lines_upto(k, f) + f(k) + lines_range(k + 1, n, f));
    } else {
        lemma_lines_upto_split(n - 1, k, f);
        lemma_lines_range_snoc(k + 1, n, f);
        assert(lines_upto(n, f) =~= lines_upto(k, f) + f(k) + lines_range(k + 1, n, f));
    }
}

/// `line` stands in `text` at position `p`, right after a line break.
pub open spec fn line_at(text: Seq<char>, line: Seq<char>, p: int) -> bool {
    &&& 0 < p
    &&& p + line.len() <= text.len()
    &&& text[p - 1] == '\n'
    &&& text.subrange(p, p + line.len()) == line
}

proof fn lemma_line_at(a: Seq<char>, line: Seq<char>, z: Seq<char>)
    requires
        a.len() > 0,
        a.last() == '\n',
    ensures
        line_at(a + line + z, line, a.len() as int),
{
    assert((a + line + z).subrange(a.len() as int, (a.len() + line.len()) as int) =~= line);
    assert((a + line + z)[a.len() - 1] == a.last());
}

proof fn lemma_ends_line(a: Seq<char>, b: Seq<char>)
    requires
        a.len() > 0 && a.last() == '\n',
        b.len() == 0 || b.last() == '\n',
    ensures
        (a + b).len() > 0 && (a + b).last() == '\n',
{
    if b.len() == 0 {
        assert(a + b =~= a);
    }
}

proof fn lemma_concat_lines_end<A>(items: Seq<A>, f: spec_fn(A) -> Seq<char>)
    requires
        forall|k: int| 0 <= k < items.len() ==> (#[trigger] f(items[k])).len() > 0 && f(items[k]).last() == '\n',
    ensures
        concat_lines(items, f).len() == 0 || concat_lines(items, f).last() == '\n',
    decreases items.len(),
{
    if items.len() > 0 {
        let d = items.drop_last();
        assert forall|k: int| 0 <= k < d.len() implies (#[trigger] f(d[k])).len() > 0 && f(d[k]).last() == '\n' by {
            assert(d[k] == items[k]);
        }
        lemma_concat_lines_end(d, f);
        let last = f(items[items.len() - 1]);
        assert((concat_lines(d, f) + last).last() == last.last());
    }
}

/// A witness's agent text ends with a line break.
proof fn lemma_witness_text_ends_line(w: WitnessV)
    ensures
        witness_text(w).len() > 0,
        witness_text(w).last() == '\n',
{
    let nf = |i: int| node_line("node"@, w.nodes[i]);
    let rf = |i: int| relation_line("relation"@, w.relations[i]);
    let nord = stable_order(crate::agent_text::node_sort_keys(w.nodes), w.nodes.len() as int);
    let rord = stable_order(crate::agent_text::relation_sort_keys(w.relations), w.relations.len() as int);
    assert forall|k: int| 0 <= k < nord.len() implies (#[trigger] nf(nord[k])).len() > 0 && nf(nord[k]).last()
        == '\n' by {
        lemma_node_line_ends("node"@, w.nodes[nord[k]]);
    }
    assert forall|k: int| 0 <= k < rord.len() implies (#[trigger] rf(rord[k])).len() > 0 && rf(rord[k]).last()
        == '\n' by {
        lemma_relation_line_ends("relation"@, w.relations[rord[k]]);
    }
    lemma_concat_lines_end(nord, nf);
    lemma_concat_lines_end(rord, rf);
    assert(witness_nodes_text(w) == concat_lines(nord, nf));
    assert(witness_relations_text(w) == concat_lines(rord, rf));
    lemma_header_meta_end(w);
    let h = view_header(w);
    let m = meta_line(w);
    lemma_ends_line(h, m);
    lemma_ends_line(h + m, witness_nodes_text(w));
    lemma_ends_line(h + m + witness_nodes_text(w), witness_relations_text(w));
}

proof fn lemma_object_block_ends(c: CorrelatedCaptureV, clips: Seq<Seq<ClipV>>, q: int)
    requires
        focus_nl_free(c, clips),
        0 <= q < c.authored_objects.len(),
    ensures
        ({
            let ord = object_order(c.authored_objects);
            let blk = object_block(q as nat, c.authored_objects[ord[q]], clips[ord[q]]);
            blk.len() > 0 && blk.last() == '\n'
        }),
{
    let objs = c.authored_objects;
    let n = objs.len() as int;
    let ord = object_order(objs);
    lemma_stable_order_len_pub(object_sort_keys(objs), n);
    let iq = ord[q];
    let oq = objs[iq];
    let g = |bb: int| capture_binding_line(q as nat, bb as nat, oq.id, oq.bindings[bb], clips[iq][bb]);
    assert forall|bb: int| 0 <= bb < oq.bindings.len() implies (#[trigger] g(bb)).len() == 0 || g(bb).last()
        == '\n' by {
        lemma_binding_line_one_line(q as nat, bb as nat, oq.id, oq.bindings[bb], clips[iq][bb]);
    }
    lemma_lines_upto_breaks(oq.bindings.len() as int, g);
    lemma_object_line_one_line(q as nat, oq);
    lemma_ends_line(capture_object_line(q as nat, oq), lines_upto(oq.bindings.len() as int, g));
}

proof fn lemma_regroup_split(h: Seq<char>, w: Seq<char>, l: Seq<char>, x: Seq<char>, r: Seq<char>, p: Seq<char>)
    ensures
        h + w + (l + x + r) + p == (h + w + l) + x + (r + p),
{
    assert(h + w + (l + x + r) + p =~= (h + w + l) + x + (r + p));
}

proof fn lemma_regroup_pair(a: Seq<char>, b: Seq<char>, c: Seq<char>, d: Seq<char>)
    ensures
        a + (b + c) + d == a + b + (c + d),
{
    assert(a + (b + c) + d =~= a + b + (c + d));
}

/// The capture text up to the listing position `at` of the authored objects.
pub open spec fn capture_prefix(c: CorrelatedCaptureV, clips: Seq<Seq<ClipV>>, at: int) -> Seq<char> {
    let ord = object_order(c.authored_objects);
    capture_header(c) + witness_text(c.witness) + lines_upto(
        at,
        |k: int| object_block(k as nat, c.authored_objects[ord[k]], clips[ord[k]]),
    )
}

#[verifier::spinoff_prover]
#[verifier::rlimit(40)]
proof fn lemma_capture_prefix(c: CorrelatedCaptureV, paint_clips: Seq<ClipV>, clips: Seq<Seq<ClipV>>, at: int)
    requires
        focus_nl_free(c, clips),
        0 <= at < c.authored_objects.len(),
    ensures
        ({
            let ord = object_order(c.authored_objects);
            let f = |k: int| object_block(k as nat, c.authored_objects[ord[k]], clips[ord[k]]);
            &&& capture_prefix(c, clips, at).len() > 0
            &&& capture_prefix(c, clips, at).last() == '\n'
            &&& capture_text(c, paint_clips, clips) == capture_prefix(c, clips, at) + f(at) + (lines_range(
                at + 1,
                c.authored_objects.len() as int,
                f,
            ) + paint_text(c, paint_clips))
        }),
{
    let objs = c.authored_objects;
    let n = objs.len() as int;
    let ord = object_order(objs);
    let f = |k: int| object_block(k as nat, c.authored_objects[ord[k]], clips[ord[k]]);
    assert forall|q: int| 0 <= q < n implies (#[trigger] f(q)).len() == 0 || f(q).last() == '\n' by {
        lemma_object_block_ends(c, clips, q);
    }
    lemma_lines_upto_breaks(at, f);
    lemma_lines_upto_split(n, at, f);
    lemma_witness_text_ends_line(c.witness);
    let head = capture_header(c) + witness_text(c.witness);
    assert(head.len() > 0 && head.last() == witness_text(c.witness).last());
    lemma_ends_line(head, lines_upto(at, f));
    assert(authored_capture_text(c, clips) == lines_upto(n, f));
    assert(capture_text(c, paint_clips, clips) == capture_header(c) + witness_text(c.witness) + lines_upto(n, f)
        + paint_text(c, paint_clips));
    lemma_regroup_split(
        capture_header(c),
        witness_text(c.witness),
        lines_upto(at, f),
        f(at),
        lines_range(at + 1, n, f),
        paint_text(c, paint_clips),
    );
    assert(capture_prefix(c, clips, at) == capture_header(c) + witness_text(c.witness) + lines_upto(at, f));
}

proof fn lemma_object_block_split(at: nat, o: ObjectV, cl: Seq<ClipV>)
    ensures
        object_block(at, o, cl) == capture_object_line(at, o) + lines_upto(
            o.bindings.len() as int,
            |b: int| capture_binding_line(at, b as nat, o.id, o.bindings[b], cl[b]),
        ),
{
}

proof fn lemma_lines_upto_ends(n: int, f: spec_fn(int) -> Seq<char>)
    requires
        forall|k: int| 0 <= k < n ==> (#[trigger] f(k)).len() == 0 || f(k).last() == '\n',
    ensures
        lines_upto(n, f).len() == 0 || lines_upto(n, f).last() == '\n',
    decreases n,
{
    if n > 0 {
        lemma_lines_upto_ends(n - 1, f);
        if f(n - 1).len() == 0 {
            assert(lines_upto(n, f) =~= lines_upto(n - 1, f));
        } else {
            assert(lines_upto(n, f).last() == f(n - 1).last());
        }
    }
}

/// In a block of a head line followed by lines, each line of the block
/// comes right after a line break.
proof fn lemma_line_in_lines(
    before: Seq<char>,
    head: Seq<char>,
    after: Seq<char>,
    m: int,
    g: spec_fn(int) -> Seq<char>,
    bi: int,
)
    requires
        before.len() > 0,
        before.last() == '\n',
        head.len() > 0,
        head.last() == '\n',
        0 <= bi < m,
        forall|k: int| 0 <= k < m ==> (#[trigger] g(k)).len() == 0 || g(k).last() == '\n',
    ensures
        line_at(before + (head + lines_upto(m, g)) + after, g(bi), (before + head + lines_upto(bi, g)).len() as int),
{
    lemma_lines_upto_ends(bi, g);
    lemma_lines_upto_split(m, bi, g);
    lemma_ends_line(before, head);
    lemma_ends_line(before + head, lines_upto(bi, g));
    let l = lines_upto(bi, g);
    let r = lines_range(bi + 1, m, g);
    assert(before + (head + (l + g(bi) + r)) + after =~= (before + head + l) + g(bi) + (r + after));
    lemma_line_at(before + head + lines_upto(bi, g), g(bi), lines_range(bi + 1, m, g) + after);
}

#[verifier::spinoff_prover]
#[verifier::rlimit(40)]
proof fn lemma_binding_in_block(before: Seq<char>, after: Seq<char>, at: nat, o: ObjectV, cl: Seq<ClipV>, bi: int)
    requires
        before.len() > 0,
        before.last() == '\n',
        0 <= bi < o.bindings.len(),
        forall|j: int| 0 <= j < o.bindings.len() ==> binding_nl_free(#[trigger] o.bindings[j]) && clip_nl_free(
            cl[j],
        ),
    ensures
        exists|p: int|
            #[trigger] line_at(
                before + object_block(at, o, cl) + after,
                capture_binding_line(at, bi as nat, o.id, o.bindings[bi], cl[bi]),
                p,
            ),
{
    let g = |b: int| capture_binding_line(at, b as nat, o.id, o.bindings[b], cl[b]);
    let m = o.bindings.len() as int;
    let ol = capture_object_line(at, o);
    lemma_object_block_split(at, o, cl);
    assert forall|bb: int| 0 <= bb < m implies (#[trigger] g(bb)).len() == 0 || g(bb).last() == '\n' by {
        lemma_binding_line_one_line(at, bb as nat, o.id, o.bindings[bb], cl[bb]);
    }
    lemma_object_line_one_line(at, o);
    lemma_line_in_lines(before, ol, after, m, g, bi);
}

proof fn lemma_lines_in_block(before: Seq<char>, after: Seq<char>, at: nat, o: ObjectV, cl: Seq<ClipV>, bi: int)
    requires
        before.len() > 0,
        before.last() == '\n',
        forall|j: int| 0 <= j < o.bindings.len() ==> binding_nl_free(#[trigger] o.bindings[j]) && clip_nl_free(
            cl[j],
        ),
    ensures
        line_at(before + object_block(at, o, cl) + after, capture_object_line(at, o), before.len() as int),
        0 <= bi < o.bindings.len() ==> exists|p: int|
            #[trigger] line_at(
                before + object_block(at, o, cl) + after,
                capture_binding_line(at, bi as nat, o.id, o.bindings[bi], cl[bi]),
                p,
            ),
{
    let g = |b: int| capture_binding_line(at, b as nat, o.id, o.bindings[b], cl[b]);
    let m = o.bindings.len() as int;
    let ol = capture_object_line(at, o);
    lemma_object_block_split(at, o, cl);
    lemma_regroup_pair(before, ol, lines_upto(m, g), after);
    lemma_line_at(before, ol, lines_upto(m, g) + after);
    if 0 <= bi < m {
        lemma_binding_in_block(before, after, at, o, cl, bi);
    }
}

/// Every authored-object line of the capture text's listing comes right after
/// a line break, and so does every binding line of it: the lines the focused
/// projection shows for an object at listing position `at` are lines of the
/// capture text at the same indices (when the binding and clip texts hold no
/// line break of their own).
pub proof fn law_capture_lists_focus_lines(
    c: CorrelatedCaptureV,
    paint_clips: Seq<ClipV>,
    clips: Seq<Seq<ClipV>>,
    at: int,
    b: int,
)
    requires
        clips_fit(c, paint_clips, clips),
        focus_nl_free(c, clips),
        0 <= at < c.authored_objects.len(),
    ensures
        ({
            let ord = object_order(c.authored_objects);
            let o = c.authored_objects[ord[at]];
            let text = capture_text(c, paint_clips, clips);
            &&& exists|p: int| #[trigger] line_at(text, capture_object_line(at as nat, o), p)
            &&& 0 <= b < o.bindings.len() ==> exists|p: int|
                #[trigger] line_at(
                    text,
                    capture_binding_line(at as nat, b as nat, o.id, o.bindings[b], clips[ord[at]][b]),
                    p,
                )
        }),
{
    let n = c.authored_objects.len() as int;
    let ord = object_order(c.authored_objects);
    lemma_stable_order_len_pub(object_sort_keys(c.authored_objects), n);
    let i = ord[at];
    let o = c.authored_objects[i];
    let cl = clips[i];
    let f = |k: int| object_block(k as nat, c.authored_objects[ord[k]], clips[ord[k]]);
    lemma_capture_prefix(c, paint_clips, clips, at);
    let before = capture_prefix(c, clips, at);
    let after = lines_range(at + 1, n, f) + paint_text(c, paint_clips);
    assert(f(at) == object_block(at as nat, o, cl));
    assert forall|j: int| 0 <= j < o.bindings.len() implies binding_nl_free(#[trigger] o.bindings[j]) && clip_nl_free(
        cl[j],
    ) by {
        assert(binding_nl_free(c.authored_objects[i].bindings[j]));
        assert(clip_nl_free(clips[i][j]));
    }
    lemma_lines_in_block(before, after, at as nat, o, cl, b);
}

/// The capture text lists the object line of listing position `at`.
pub open spec fn object_line_listed(
    c: CorrelatedCaptureV,
    paint_clips: Seq<ClipV>,
    clips: Seq<Seq<ClipV>>,
    at: int,
) -> bool {
    let o = c.authored_objects[object_order(c.authored_objects)[at]];
    exists|p: int| #[trigger] line_at(capture_text(c, paint_clips, clips), capture_object_line(at as nat, o), p)
}

/// The capture text lists binding `b` of the object at listing position `at`.
pub open spec fn binding_line_listed(
    c: CorrelatedCaptureV,
    paint_clips: Seq<ClipV>,
    clips: Seq<Seq<ClipV>>,
    at: int,
    b: int,
) -> bool {
    let i = object_order(c.authored_objects)[at];
    let o = c.authored_objects[i];
    exists|p: int|
        #[trigger] line_at(
            capture_text(c, paint_clips, clips),
            capture_binding_line(at as nat, b as nat, o.id, o.bindings[b], clips[i][b]),
            p,
        )
}

proof fn lemma_binding_texts(b: EguiAuthoredPaintBinding)
    ensures
        binding_nl_free(b@),
{
    if let Some(r) = b.bounds {
        lemma_rect_texts(r);
    }
    if let Some(r) = b.clip_rect {
        lemma_rect_texts(r);
    }
}

proof fn lemma_clip_texts(c: ClipSurvival)
    ensures
        clip_nl_free(c@),
{
    lemma_line_text_view(c.fraction);
    if let Some(r) = c.visible_bounds {
        lemma_rect_texts(r);
    }
}

/// Every capture and clip evidence the library's types can hold meets the
/// premise of the focused line-structure laws.
pub proof fn lemma_capture_texts(c: EguiCorrelatedCapture, clips: Seq<Vec<ClipSurvival>>)
    requires
        clips.len() == c.authored_objects@.len(),
        forall|i: int| 0 <= i < clips.len() ==> (#[trigger] clips[i])@.len() == c.authored_objects@[i].bindings@.len(),
    ensures
        focus_nl_free(c@, nested_clips_view(clips)),
{
    lemma_rect_texts(c.viewport_rect);
    let objs = c@.authored_objects;
    assert forall|i: int, j: int|
        0 <= i < objs.len() && 0 <= j < objs[i].bindings.len() implies binding_nl_free(
        #[trigger] objs[i].bindings[j],
    ) by {
        assert(objs[i] == c.authored_objects@[i]@);
        lemma_binding_texts(c.authored_objects@[i].bindings@[j]);
    }
    assert forall|i: int, j: int|
        0 <= i < objs.len() && 0 <= j < objs[i].bindings.len() implies clip_nl_free(
        #[trigger] nested_clips_view(clips)[i][j],
    ) by {
        assert(c.authored_objects@[i]@.bindings.len() == c.authored_objects@[i].bindings@.len());
        lemma_clip_texts(clips[i]@[j]);
    }
}

} // verus!
