//! Line structure of the agent text: each rendered item is one line.
use vstd::prelude::*;

use crate::agent_text::{
    bool_part, bool_text, concat_lines, frame_part, identity_value, meta_line, node_flags,
    node_head, node_key, node_line, node_shape, node_sort_keys, node_tail, rect_text, relation_line,
    relation_sort_keys, str_part, view_header, viewport_text, witness_nodes_text,
    witness_relations_text, witness_text,
};
use crate::diff::strings_json;
use crate::json::{JsonV, NumberV, items_text, json_text, members_text};
use crate::json::{JsonEntry, JsonNumber, JsonValue, entry_views, json_view, json_views, lemma_entry_views, lemma_json_views};
use crate::model::{Measure, Node, NodeV, Rect, RectV, Relation, RelationV, ViewportV, Witness, WitnessV};
use crate::text::{LineText, lemma_line_text_view};
use crate::order::{lemma_stable_order_len_pub, stable_order};
use crate::text::{decimal, hex_lower, json_escape, json_escape_char, json_quote, nl_free};

verus! {


/// The number of line breaks in a text.
pub open spec fn line_breaks(s: Seq<char>) -> nat
    decreases s.len(),
{
    if s.len() == 0 {
        0
    } else {
        line_breaks(s.drop_last()) + if s.last() == '\n' {
            1nat
        } else {
            0nat
        }
    }
}

pub proof fn lemma_line_breaks_concat(a: Seq<char>, b: Seq<char>)
    ensures
        line_breaks(a + b) == line_breaks(a) + line_breaks(b),
    decreases b.len(),
{
    if b.len() == 0 {
        assert(a + b =~= a);
    } else {
        assert((a + b).drop_last() =~= a + b.drop_last());
        lemma_line_breaks_concat(a, b.drop_last());
    }
}

pub proof fn lemma_nl_free_no_breaks(s: Seq<char>)
    requires
        nl_free(s),
    ensures
        line_breaks(s) == 0,
    decreases s.len(),
{
    if s.len() > 0 {
        lemma_nl_free_no_breaks(s.drop_last());
    }
}

/// A line: a text without line breaks followed by one.
pub proof fn lemma_one_line(body: Seq<char>)
    requires
        nl_free(body),
    ensures
        line_breaks(body + seq!['\n']) == 1,
{
    lemma_nl_free_no_breaks(body);
    assert((body + seq!['\n']).drop_last() =~= body);
}

pub proof fn lemma_decimal_nl_free(n: nat)
    ensures
        nl_free(decimal(n)),
    decreases n,
{
    if n >= 10 {
        lemma_decimal_nl_free(n / 10);
    }
}

pub proof fn lemma_escape_nl_free(s: Seq<char>)
    ensures
        nl_free(json_escape(s)),
    decreases s.len(),
{
    if s.len() > 0 {
        lemma_escape_nl_free(s.drop_last());
        let c = s.last();
        let n = c as u32;
        assert(nl_free(json_escape_char(c))) by {
            if n < 32 && n != 8 && n != 9 && n != 10 && n != 12 && n != 13 && c != '"' && c != '\\' {
                assert(hex_lower((n / 16) as nat) != '\n');
                assert(hex_lower((n % 16) as nat) != '\n');
            }
            if n >= 32 {
                assert(c != '\n');
            }
        }
    }
}

pub proof fn lemma_quote_nl_free(s: Seq<char>)
    ensures
        nl_free(json_quote(s)),
{
    lemma_escape_nl_free(s);
}

/// Every number text that a JSON value carries is free of line breaks.
pub open spec fn json_nl_free(v: JsonV) -> bool
    decreases v,
{
    match v {
        JsonV::Number(NumberV::Float(_, text)) => nl_free(text),
        JsonV::Array(xs) => forall|i: int| 0 <= i < xs.len() ==> json_nl_free(#[trigger] xs[i]),
        JsonV::Object(xs) => forall|i: int| 0 <= i < xs.len() ==> json_nl_free(#[trigger] xs[i].1),
        _ => true,
    }
}

pub open spec fn members_nl_free(xs: Seq<(Seq<char>, JsonV)>) -> bool {
    forall|i: int| 0 <= i < xs.len() ==> json_nl_free(#[trigger] xs[i].1)
}

pub proof fn lemma_json_text_nl_free(v: JsonV)
    requires
        json_nl_free(v),
    ensures
        nl_free(json_text(v)),
    decreases v, 0int,
{
    match v {
        JsonV::Number(n) => {
            match n {
                NumberV::PosInt(x) => lemma_decimal_nl_free(x as nat),
                NumberV::NegInt(x) => {
                    if x < 0 {
                        lemma_decimal_nl_free((-x) as nat);
                    } else {
                        lemma_decimal_nl_free(x as nat);
                    }
                },
                NumberV::Float(_, _) => {},
            }
        },
        JsonV::Str(s) => lemma_quote_nl_free(s),
        JsonV::Array(xs) => lemma_items_text_nl_free(xs),
        JsonV::Object(xs) => lemma_members_text_nl_free(xs),
        _ => {},
    }
}

pub proof fn lemma_items_text_nl_free(xs: Seq<JsonV>)
    requires
        forall|i: int| 0 <= i < xs.len() ==> json_nl_free(#[trigger] xs[i]),
    ensures
        nl_free(items_text(xs)),
    decreases xs, 1int,
{
    if xs.len() > 0 {
        let h = xs.subrange(0, xs.len() - 1);
        assert(decreases_to!(xs => xs[xs.len() - 1]));
        assert(decreases_to!(xs => h));
        assert forall|i: int| 0 <= i < h.len() implies json_nl_free(#[trigger] h[i]) by {
            assert(h[i] == xs[i]);
        }
        lemma_items_text_nl_free(h);
        lemma_json_text_nl_free(xs[xs.len() - 1]);
    }
}

pub proof fn lemma_members_text_nl_free(xs: Seq<(Seq<char>, JsonV)>)
    requires
        members_nl_free(xs),
    ensures
        nl_free(members_text(xs)),
    decreases xs, 1int,
{
    if xs.len() > 0 {
        let h = xs.subrange(0, xs.len() - 1);
        assert(decreases_to!(xs => xs[xs.len() - 1]));
        assert(decreases_to!(xs[xs.len() - 1] => xs[xs.len() - 1].1));
        assert(decreases_to!(xs => h));
        assert forall|i: int| 0 <= i < h.len() implies json_nl_free(#[trigger] h[i].1) by {
            assert(h[i] == xs[i]);
        }
        lemma_members_text_nl_free(h);
        lemma_quote_nl_free(xs[xs.len() - 1].0);
        lemma_json_text_nl_free(xs[xs.len() - 1].1);
    }
}

pub proof fn lemma_nl_free_concat(a: Seq<char>, b: Seq<char>)
    requires
        nl_free(a),
        nl_free(b),
    ensures
        nl_free(a + b),
{
    assert forall|i: int| 0 <= i < (a + b).len() implies (a + b)[i] != '\n' by {
        if i >= a.len() {
            assert((a + b)[i] == b[i - a.len()]);
        }
    }
}

pub broadcast proof fn lemma_nl_free_concat_auto(a: Seq<char>, b: Seq<char>)
    requires
        nl_free(a),
        nl_free(b),
    ensures
        #[trigger] nl_free(a + b),
{
    lemma_nl_free_concat(a, b);
}

pub proof fn lemma_str_part_nl_free(label: Seq<char>, v: Option<Seq<char>>)
    requires
        nl_free(label),
    ensures
        nl_free(str_part(label, v)),
{
    if let Some(s) = v {
        lemma_quote_nl_free(s);
        lemma_nl_free_concat(label, json_quote(s));
    }
}

proof fn lemma_bool_part_nl_free(label: Seq<char>, v: Option<bool>)
    requires
        nl_free(label),
    ensures
        nl_free(bool_part(label, v)),
{
    reveal_strlit("true");
    reveal_strlit("false");
    if let Some(b) = v {
        assert(nl_free(bool_text(b)));
        lemma_nl_free_concat(label, bool_text(b));
    }
}

/// The display texts of a rectangle's quantities hold no line break.
pub open spec fn rect_nl_free(r: RectV) -> bool {
    nl_free(r.x.display) && nl_free(r.y.display) && nl_free(r.width.display) && nl_free(r.height.display)
}

pub proof fn lemma_rect_text_nl_free(r: RectV)
    requires
        rect_nl_free(r),
    ensures
        nl_free(rect_text(r)),
{
    reveal_strlit("[");
    reveal_strlit(",");
    reveal_strlit("]");
    assert(nl_free("["@) && nl_free(","@) && nl_free("]"@));
    lemma_nl_free_concat("["@, r.x.display);
    lemma_nl_free_concat("["@ + r.x.display, ","@);
    lemma_nl_free_concat("["@ + r.x.display + ","@, r.y.display);
    lemma_nl_free_concat("["@ + r.x.display + ","@ + r.y.display, ","@);
    lemma_nl_free_concat("["@ + r.x.display + ","@ + r.y.display + ","@, r.width.display);
    lemma_nl_free_concat("["@ + r.x.display + ","@ + r.y.display + ","@ + r.width.display, ","@);
    lemma_nl_free_concat(
        "["@ + r.x.display + ","@ + r.y.display + ","@ + r.width.display + ","@,
        r.height.display,
    );
    lemma_nl_free_concat(
        "["@ + r.x.display + ","@ + r.y.display + ","@ + r.width.display + ","@ + r.height.display,
        "]"@,
    );
}

/// The texts a node line carries verbatim (quantity displays and JSON
/// number texts) hold no line break.
pub open spec fn node_nl_free(n: NodeV) -> bool {
    &&& (n.bounds matches Some(b) ==> rect_nl_free(b))
    &&& (n.value matches Some(v) ==> json_nl_free(v))
    &&& members_nl_free(n.properties)
}

proof fn lemma_node_head_nl_free(prefix: Seq<char>, n: NodeV)
    requires
        nl_free(prefix),
        node_nl_free(n),
    ensures
        nl_free(node_head(prefix, n)),
{
    reveal_strlit(" id=");
    reveal_strlit(" role=");
    reveal_strlit(" parent=");
    reveal_strlit(" identity=");
    reveal_strlit(" name=");
    reveal_strlit(" bounds=");
    reveal_strlit("provenance");
    reveal_strlit("stability");
    reveal_strlit("author_id");
    assert(nl_free(" id="@) && nl_free(" role="@) && nl_free(" parent="@));
    assert(nl_free(" identity="@) && nl_free(" name="@) && nl_free(" bounds="@));
    lemma_quote_nl_free(n.id);
    lemma_quote_nl_free(n.role);
    lemma_str_part_nl_free(" parent="@, n.parent);
    lemma_nl_free_concat(prefix, " id="@);
    lemma_nl_free_concat(prefix + " id="@, json_quote(n.id));
    lemma_nl_free_concat(prefix + " id="@ + json_quote(n.id), " role="@);
    lemma_nl_free_concat(prefix + " id="@ + json_quote(n.id) + " role="@, json_quote(n.role));
    lemma_nl_free_concat(
        prefix + " id="@ + json_quote(n.id) + " role="@ + json_quote(n.role),
        str_part(" parent="@, n.parent),
    );
    assert(nl_free(node_key(prefix, n)));
    let ident = match n.identity {
        Some(i) => " identity="@ + json_text(identity_value(i)),
        None => Seq::<char>::empty(),
    };
    assert(nl_free(ident)) by {
        if let Some(i) = n.identity {
            let v = identity_value(i);
            assert(json_nl_free(v)) by {
                assert forall|k: int| 0 <= k < v->Object_0.len() implies json_nl_free(#[trigger] v->Object_0[k].1) by {
                    assert(v->Object_0[k].1 is Str);
                }
            }
            lemma_json_text_nl_free(v);
            lemma_nl_free_concat(" identity="@, json_text(v));
        }
    }
    lemma_str_part_nl_free(" name="@, n.name);
    let bounds = match n.bounds {
        Some(b) => " bounds="@ + rect_text(b),
        None => Seq::<char>::empty(),
    };
    assert(nl_free(bounds)) by {
        if let Some(b) = n.bounds {
            lemma_rect_text_nl_free(b);
            lemma_nl_free_concat(" bounds="@, rect_text(b));
        }
    }
    lemma_nl_free_concat(ident, str_part(" name="@, n.name));
    lemma_nl_free_concat(ident + str_part(" name="@, n.name), bounds);
    assert(node_shape(n) == ident + str_part(" name="@, n.name) + bounds);
    lemma_nl_free_concat(node_key(prefix, n), node_shape(n));
}

proof fn lemma_node_flags_nl_free(n: NodeV)
    ensures
        nl_free(node_flags(n)),
{
    reveal_strlit(" visible=");
    reveal_strlit(" enabled=");
    reveal_strlit(" focused=");
    reveal_strlit(" selected=");
    assert(nl_free(" visible="@) && nl_free(" enabled="@) && nl_free(" focused="@) && nl_free(" selected="@));
    lemma_bool_part_nl_free(" visible="@, n.visible);
    lemma_bool_part_nl_free(" enabled="@, n.enabled);
    lemma_bool_part_nl_free(" focused="@, n.focused);
    lemma_bool_part_nl_free(" selected="@, n.selected);
    lemma_nl_free_concat(bool_part(" visible="@, n.visible), bool_part(" enabled="@, n.enabled));
    lemma_nl_free_concat(
        bool_part(" visible="@, n.visible) + bool_part(" enabled="@, n.enabled),
        bool_part(" focused="@, n.focused),
    );
    lemma_nl_free_concat(
        bool_part(" visible="@, n.visible) + bool_part(" enabled="@, n.enabled) + bool_part(" focused="@, n.focused),
        bool_part(" selected="@, n.selected),
    );
}

/// A node renders as exactly one line.
pub proof fn lemma_node_line_one_line(prefix: Seq<char>, n: NodeV)
    requires
        nl_free(prefix),
        node_nl_free(n),
    ensures
        line_breaks(node_line(prefix, n)) == 1,
{
    reveal_strlit(" text=");
    reveal_strlit(" value=");
    reveal_strlit(" actions=");
    reveal_strlit(" props=");
    reveal_strlit("\n");
    assert(nl_free(" text="@) && nl_free(" value="@) && nl_free(" actions="@) && nl_free(" props="@));
    lemma_node_head_nl_free(prefix, n);
    lemma_node_flags_nl_free(n);
    lemma_str_part_nl_free(" text="@, n.text);
    let value = match n.value {
        Some(v) => " value="@ + json_text(v),
        None => Seq::<char>::empty(),
    };
    assert(nl_free(value)) by {
        if let Some(v) = n.value {
            lemma_json_text_nl_free(v);
            lemma_nl_free_concat(" value="@, json_text(v));
        }
    }
    let actions = if n.actions.len() > 0 {
        " actions="@ + json_text(strings_json(n.actions))
    } else {
        Seq::<char>::empty()
    };
    assert(nl_free(actions)) by {
        if n.actions.len() > 0 {
            let v = strings_json(n.actions);
            assert(json_nl_free(v)) by {
                assert forall|k: int| 0 <= k < v->Array_0.len() implies json_nl_free(#[trigger] v->Array_0[k]) by {
                    assert(v->Array_0[k] is Str);
                }
            }
            lemma_json_text_nl_free(v);
            lemma_nl_free_concat(" actions="@, json_text(v));
        }
    }
    let props = if n.properties.len() > 0 {
        " props="@ + json_text(JsonV::Object(n.properties))
    } else {
        Seq::<char>::empty()
    };
    assert(nl_free(props)) by {
        if n.properties.len() > 0 {
            lemma_json_text_nl_free(JsonV::Object(n.properties));
            lemma_nl_free_concat(" props="@, json_text(JsonV::Object(n.properties)));
        }
    }
    let body = node_head(prefix, n) + node_flags(n) + str_part(" text="@, n.text) + value + actions + props;
    lemma_nl_free_concat(node_head(prefix, n), node_flags(n));
    lemma_nl_free_concat(node_head(prefix, n) + node_flags(n), str_part(" text="@, n.text));
    lemma_nl_free_concat(node_head(prefix, n) + node_flags(n) + str_part(" text="@, n.text), value);
    lemma_nl_free_concat(node_head(prefix, n) + node_flags(n) + str_part(" text="@, n.text) + value, actions);
    lemma_nl_free_concat(
        node_head(prefix, n) + node_flags(n) + str_part(" text="@, n.text) + value + actions,
        props,
    );
    assert(node_line(prefix, n) =~= body + seq!['\n']);
    lemma_one_line(body);
}

/// A relation renders as exactly one line.
pub proof fn lemma_relation_line_one_line(prefix: Seq<char>, r: RelationV)
    requires
        nl_free(prefix),
        members_nl_free(r.properties),
    ensures
        line_breaks(relation_line(prefix, r)) == 1,
{
    reveal_strlit(" kind=");
    reveal_strlit(" from=");
    reveal_strlit(" to=");
    reveal_strlit(" evidence=");
    reveal_strlit(" props=");
    reveal_strlit("\n");
    assert(nl_free(" kind="@) && nl_free(" from="@) && nl_free(" to="@) && nl_free(" evidence="@)
        && nl_free(" props="@));
    lemma_quote_nl_free(r.kind);
    lemma_quote_nl_free(r.from);
    lemma_quote_nl_free(r.to);
    lemma_quote_nl_free(r.evidence);
    let props = if r.properties.len() > 0 {
        " props="@ + json_text(JsonV::Object(r.properties))
    } else {
        Seq::<char>::empty()
    };
    assert(nl_free(props)) by {
        if r.properties.len() > 0 {
            lemma_json_text_nl_free(JsonV::Object(r.properties));
            lemma_nl_free_concat(" props="@, json_text(JsonV::Object(r.properties)));
        }
    }
    let a = prefix + " kind="@;
    lemma_nl_free_concat(prefix, " kind="@);
    lemma_nl_free_concat(a, json_quote(r.kind));
    lemma_nl_free_concat(a + json_quote(r.kind), " from="@);
    lemma_nl_free_concat(a + json_quote(r.kind) + " from="@, json_quote(r.from));
    lemma_nl_free_concat(a + json_quote(r.kind) + " from="@ + json_quote(r.from), " to="@);
    lemma_nl_free_concat(a + json_quote(r.kind) + " from="@ + json_quote(r.from) + " to="@, json_quote(r.to));
    let b = a + json_quote(r.kind) + " from="@ + json_quote(r.from) + " to="@ + json_quote(r.to);
    lemma_nl_free_concat(b, " evidence="@);
    lemma_nl_free_concat(b + " evidence="@, json_quote(r.evidence));
    lemma_nl_free_concat(b + " evidence="@ + json_quote(r.evidence), props);
    let body = b + " evidence="@ + json_quote(r.evidence) + props;
    assert(relation_line(prefix, r) =~= body + seq!['\n']);
    lemma_one_line(body);
}

/// Concatenated one-line renderings hold one line break per item, and end
/// with one when there is any item.
pub proof fn lemma_concat_lines_breaks<A>(items: Seq<A>, f: spec_fn(A) -> Seq<char>)
    requires
        forall|k: int|
            0 <= k < items.len() ==> line_breaks(#[trigger] f(items[k])) == 1 && f(items[k]).len() > 0
                && f(items[k]).last() == '\n',
    ensures
        line_breaks(concat_lines(items, f)) == items.len(),
        items.len() > 0 ==> concat_lines(items, f).len() > 0 && concat_lines(items, f).last() == '\n',
    decreases items.len(),
{
    if items.len() > 0 {
        let d = items.drop_last();
        assert forall|k: int| 0 <= k < d.len() implies line_breaks(#[trigger] f(d[k])) == 1 && f(d[k]).len()
            > 0 && f(d[k]).last() == '\n' by {
            assert(d[k] == items[k]);
        }
        lemma_concat_lines_breaks(d, f);
        let last = f(items[items.len() - 1]);
        lemma_line_breaks_concat(concat_lines(d, f), last);
        assert((concat_lines(d, f) + last).last() == last.last());
    }
}

proof fn lemma_viewport_text_nl_free(v: ViewportV)
    requires
        nl_free(v.width.display),
        nl_free(v.height.display),
        nl_free(v.scale_factor.display),
    ensures
        nl_free(viewport_text(v)),
{
    reveal_strlit("[");
    reveal_strlit(",");
    reveal_strlit("]");
    assert(nl_free("["@) && nl_free(","@) && nl_free("]"@));
    lemma_nl_free_concat("["@, v.width.display);
    lemma_nl_free_concat("["@ + v.width.display, ","@);
    lemma_nl_free_concat("["@ + v.width.display + ","@, v.height.display);
    lemma_nl_free_concat("["@ + v.width.display + ","@ + v.height.display, ","@);
    lemma_nl_free_concat("["@ + v.width.display + ","@ + v.height.display + ","@, v.scale_factor.display);
    lemma_nl_free_concat(
        "["@ + v.width.display + ","@ + v.height.display + ","@ + v.scale_factor.display,
        "]"@,
    );
}

/// The texts a witness's agent text carries verbatim (quantity displays and
/// JSON number texts) hold no line break.
pub open spec fn witness_nl_free(w: WitnessV) -> bool {
    &&& nl_free(w.capture.viewport.width.display)
    &&& nl_free(w.capture.viewport.height.display)
    &&& nl_free(w.capture.viewport.scale_factor.display)
    &&& members_nl_free(w.capture.metadata)
    &&& forall|i: int| 0 <= i < w.nodes.len() ==> node_nl_free(#[trigger] w.nodes[i])
    &&& forall|i: int| 0 <= i < w.relations.len() ==> members_nl_free(#[trigger] w.relations[i].properties)
}

proof fn lemma_header_one_line(w: WitnessV)
    requires
        witness_nl_free(w),
    ensures
        line_breaks(view_header(w)) == 1,
        view_header(w).len() > 0,
        view_header(w).last() == '\n',
{
    reveal_strlit("view version=");
    reveal_strlit(" source=");
    reveal_strlit(" viewport=");
    reveal_strlit(" frame=");
    reveal_strlit("\n");
    assert(nl_free("view version="@) && nl_free(" source="@) && nl_free(" viewport="@) && nl_free(" frame="@));
    let c = w.capture;
    lemma_quote_nl_free(w.version);
    lemma_quote_nl_free(c.source);
    lemma_viewport_text_nl_free(c.viewport);
    assert(nl_free(frame_part(" frame="@, c.frame))) by {
        if let Some(f) = c.frame {
            lemma_decimal_nl_free(f as nat);
            lemma_nl_free_concat(" frame="@, decimal(f as nat));
        }
    }
    let h0 = "view version="@ + json_quote(w.version);
    lemma_nl_free_concat("view version="@, json_quote(w.version));
    lemma_nl_free_concat(h0, " source="@);
    lemma_nl_free_concat(h0 + " source="@, json_quote(c.source));
    lemma_nl_free_concat(h0 + " source="@ + json_quote(c.source), " viewport="@);
    lemma_nl_free_concat(h0 + " source="@ + json_quote(c.source) + " viewport="@, viewport_text(c.viewport));
    let h1 = h0 + " source="@ + json_quote(c.source) + " viewport="@ + viewport_text(c.viewport);
    lemma_nl_free_concat(h1, frame_part(" frame="@, c.frame));
    let hb = h1 + frame_part(" frame="@, c.frame);
    assert(view_header(w) =~= hb + seq!['\n']);
    lemma_one_line(hb);
}

proof fn lemma_meta_line(w: WitnessV)
    requires
        witness_nl_free(w),
    ensures
        line_breaks(meta_line(w)) == (if w.capture.metadata.len() > 0 {
            1nat
        } else {
            0nat
        }),
        w.capture.metadata.len() > 0 ==> meta_line(w).len() > 0 && meta_line(w).last() == '\n',
        w.capture.metadata.len() == 0 ==> meta_line(w) =~= Seq::<char>::empty(),
{
    reveal_strlit("meta ");
    reveal_strlit("\n");
    assert(nl_free("meta "@));
    let c = w.capture;
    if c.metadata.len() > 0 {
        lemma_json_text_nl_free(JsonV::Object(c.metadata));
        lemma_nl_free_concat("meta "@, json_text(JsonV::Object(c.metadata)));
        let mb = "meta "@ + json_text(JsonV::Object(c.metadata));
        assert(meta_line(w) =~= mb + seq!['\n']);
        lemma_one_line(mb);
    }
}

proof fn lemma_nodes_text_lines(w: WitnessV)
    requires
        witness_nl_free(w),
    ensures
        line_breaks(witness_nodes_text(w)) == w.nodes.len(),
        w.nodes.len() > 0 ==> witness_nodes_text(w).len() > 0 && witness_nodes_text(w).last() == '\n',
        w.nodes.len() == 0 ==> witness_nodes_text(w) =~= Seq::<char>::empty(),
{
    reveal_strlit("node");
    assert(nl_free("node"@));
    let n = w.nodes.len() as int;
    let norder = stable_order(node_sort_keys(w.nodes), n);
    lemma_stable_order_len_pub(node_sort_keys(w.nodes), n);
    let nf = |i: int| node_line("node"@, w.nodes[i]);
    assert forall|k: int| 0 <= k < norder.len() implies line_breaks(#[trigger] nf(norder[k])) == 1 && nf(
        norder[k],
    ).len() > 0 && nf(norder[k]).last() == '\n' by {
        let i = norder[k];
        assert(0 <= i < n);
        lemma_node_line_one_line("node"@, w.nodes[i]);
        reveal_strlit("\n");
        assert(node_line("node"@, w.nodes[i]).last() == '\n');
    }
    lemma_concat_lines_breaks(norder, nf);
    assert(witness_nodes_text(w) == concat_lines(norder, nf));
}

proof fn lemma_relations_text_lines(w: WitnessV)
    requires
        witness_nl_free(w),
    ensures
        line_breaks(witness_relations_text(w)) == w.relations.len(),
        w.relations.len() > 0 ==> witness_relations_text(w).len() > 0 && witness_relations_text(w).last()
            == '\n',
        w.relations.len() == 0 ==> witness_relations_text(w) =~= Seq::<char>::empty(),
{
    reveal_strlit("relation");
    assert(nl_free("relation"@));
    let r = w.relations.len() as int;
    let rorder = stable_order(relation_sort_keys(w.relations), r);
    lemma_stable_order_len_pub(relation_sort_keys(w.relations), r);
    let rf = |i: int| relation_line("relation"@, w.relations[i]);
    assert forall|k: int| 0 <= k < rorder.len() implies line_breaks(#[trigger] rf(rorder[k])) == 1 && rf(
        rorder[k],
    ).len() > 0 && rf(rorder[k]).last() == '\n' by {
        let i = rorder[k];
        assert(0 <= i < r);
        lemma_relation_line_one_line("relation"@, w.relations[i]);
        reveal_strlit("\n");
        assert(relation_line("relation"@, w.relations[i]).last() == '\n');
    }
    lemma_concat_lines_breaks(rorder, rf);
    assert(witness_relations_text(w) == concat_lines(rorder, rf));
}

/// A witness's agent text is complete and has no extra lines: it ends with a
/// line break, and holds one line for the header, one for the metadata when
/// there is any, one per node and one per relation (when the quantity and
/// number texts it carries hold no line break of their own, as those of
/// every `Witness` value do: `lemma_witness_texts`; `to_agent_text` states
/// the count for every witness).
pub proof fn law_agent_text_one_line_per_item(w: WitnessV)
    requires
        witness_nl_free(w),
    ensures
        line_breaks(witness_text(w)) == 1 + (if w.capture.metadata.len() > 0 {
            1nat
        } else {
            0nat
        }) + w.nodes.len() + w.relations.len(),
        witness_text(w).len() > 0,
        witness_text(w).last() == '\n',
{
    lemma_header_one_line(w);
    lemma_meta_line(w);
    lemma_nodes_text_lines(w);
    lemma_relations_text_lines(w);
    let a = view_header(w);
    let b = meta_line(w);
    let nt = witness_nodes_text(w);
    let rt = witness_relations_text(w);
    lemma_line_breaks_concat(a, b);
    lemma_line_breaks_concat(a + b, nt);
    lemma_line_breaks_concat(a + b + nt, rt);
    assert(witness_text(w) == a + b + nt + rt);
    let ab = a + b;
    assert(ab.len() > 0 && ab.last() == '\n') by {
        if b.len() == 0 {
            assert(ab =~= a);
        }
    }
    let abn = ab + nt;
    assert(abn.len() > 0 && abn.last() == '\n') by {
        if nt.len() == 0 {
            assert(abn =~= ab);
        }
    }
    let all = abn + rt;
    assert(all.len() > 0 && all.last() == '\n') by {
        if rt.len() == 0 {
            assert(all =~= abn);
        }
    }
}

/// A node line ends with a line break.
pub proof fn lemma_node_line_ends(prefix: Seq<char>, n: NodeV)
    ensures
        node_line(prefix, n).len() > 0,
        node_line(prefix, n).last() == '\n',
{
    reveal_strlit("\n");
    let t = node_tail(n);
    assert(t.len() > 0 && t.last() == '\n');
    assert(node_line(prefix, n).last() == t.last());
}

/// A relation line ends with a line break.
pub proof fn lemma_relation_line_ends(prefix: Seq<char>, r: RelationV)
    ensures
        relation_line(prefix, r).len() > 0,
        relation_line(prefix, r).last() == '\n',
{
    reveal_strlit("\n");
}

/// A witness's header line ends with a line break, and so does its metadata
/// line when there is one.
pub proof fn lemma_header_meta_end(w: WitnessV)
    ensures
        view_header(w).len() > 0,
        view_header(w).last() == '\n',
        meta_line(w).len() == 0 || meta_line(w).last() == '\n',
{
    reveal_strlit("\n");
}

// ---------------------------------------------------------------------------
// Every value of the library's types carries texts without line breaks.
// ---------------------------------------------------------------------------

/// The texts of a measure hold no line break.
pub proof fn lemma_measure_texts(m: Measure)
    ensures
        nl_free(m@.display),
        nl_free(m@.json),
{
    lemma_line_text_view(m.display);
    lemma_line_text_view(m.json);
}

pub proof fn lemma_rect_texts(r: Rect)
    ensures
        rect_nl_free(r@),
{
    lemma_measure_texts(r.x);
    lemma_measure_texts(r.y);
    lemma_measure_texts(r.width);
    lemma_measure_texts(r.height);
}

/// The number texts of a JSON value hold no line break.
pub proof fn lemma_json_value_texts(v: JsonValue)
    ensures
        json_nl_free(json_view(v)),
    decreases v,
{
    match v {
        JsonValue::Number(n) => {
            if let JsonNumber::Float { bits, text } = n {
                lemma_line_text_view(text);
            }
        },
        JsonValue::Array(items) => {
            assert(decreases_to!(v => items));
            assert(decreases_to!(items => items@));
            lemma_json_views(items@);
            assert forall|i: int| 0 <= i < json_views(items@).len() implies json_nl_free(
                #[trigger] json_views(items@)[i],
            ) by {
                assert(decreases_to!(items@ => items@[i]));
                lemma_json_value_texts(items@[i]);
            }
        },
        JsonValue::Object(entries) => {
            assert(decreases_to!(v => entries));
            assert(decreases_to!(entries => entries@));
            lemma_entry_views(entries@);
            assert forall|i: int| 0 <= i < entry_views(entries@).len() implies json_nl_free(
                #[trigger] entry_views(entries@)[i].1,
            ) by {
                assert(decreases_to!(entries@ => entries@[i]));
                assert(decreases_to!(entries@[i] => entries@[i].value));
                lemma_json_value_texts(entries@[i].value);
            }
        },
        _ => {},
    }
}

pub proof fn lemma_entries_texts(es: Seq<JsonEntry>)
    ensures
        members_nl_free(entry_views(es)),
{
    lemma_entry_views(es);
    assert forall|i: int| 0 <= i < entry_views(es).len() implies json_nl_free(#[trigger] entry_views(es)[i].1) by {
        lemma_json_value_texts(es[i].value);
    }
}

pub proof fn lemma_node_texts(n: Node)
    ensures
        node_nl_free(n@),
{
    if let Some(b) = n.bounds {
        lemma_rect_texts(b);
    }
    if let Some(v) = n.value {
        lemma_json_value_texts(v);
    }
    lemma_entries_texts(n.properties@);
}

/// Every witness the library's types can hold meets the premise of the
/// line-structure law: its carried texts hold no line break.
pub proof fn lemma_witness_texts(w: Witness)
    ensures
        witness_nl_free(w@),
{
    lemma_measure_texts(w.capture.viewport.width);
    lemma_measure_texts(w.capture.viewport.height);
    lemma_measure_texts(w.capture.viewport.scale_factor);
    lemma_entries_texts(w.capture.metadata@);
    assert forall|i: int| 0 <= i < w@.nodes.len() implies node_nl_free(#[trigger] w@.nodes[i]) by {
        lemma_node_texts(w.nodes@[i]);
    }
    assert forall|i: int| 0 <= i < w@.relations.len() implies members_nl_free(#[trigger] w@.relations[i].properties) by {
        lemma_entries_texts(w.relations@[i].properties@);
    }
}

} // verus!
