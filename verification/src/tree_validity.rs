//! A converted accessibility tree is a valid witness.
use vstd::prelude::*;

use crate::agent_text::{node_sort_keys, relation_sort_keys};
use crate::ieee::{f32_is_finite, f32_le_zero, f32_lt_zero};
use crate::model::{NodeV, RelationV, ViewportV, WitnessV};
use crate::order::{lemma_stable_order_covers, lemma_stable_order_len_pub, law_stable_order_sorts, stable_order};
use crate::semantic::{
    SemanticNodeV, SemanticTreeV, converted_node, converted_nodes, id_known, node_id_text,
    node_relations, observed_relation, parent_from, relations_from, relations_to, role_name_text,
    tree_relations, tree_witness,
};
use crate::text::{decimal, digit_char, is_blank, is_white_space};
use crate::validation::{
    bounds_issues, header_issues, identity_issues, issue_if, node_id_issue, node_issues, nodes_issues,
    parent_issues, parents_issues, relation_issues, relations_issues, witness_issues,
};

verus! {

proof fn lemma_decimal_len(n: nat)
    ensures
        decimal(n).len() >= 1,
        n >= 10 ==> decimal(n).len() >= 2,
    decreases n,
{
    if n >= 10 {
        lemma_decimal_len(n / 10);
    }
}

/// Distinct numbers have distinct decimal numerals.
proof fn lemma_decimal_injective(a: nat, b: nat)
    requires
        decimal(a) == decimal(b),
    ensures
        a == b,
    decreases a,
{
    lemma_decimal_len(a);
    lemma_decimal_len(b);
    if a < 10 && b < 10 {
        assert(decimal(a)[0] == digit_char(a));
        assert(decimal(b)[0] == digit_char(b));
    } else if a >= 10 && b >= 10 {
        assert(decimal(a).drop_last() =~= decimal(a / 10));
        assert(decimal(b).drop_last() =~= decimal(b / 10));
        lemma_decimal_injective(a / 10, b / 10);
        assert(decimal(a).last() == digit_char(a % 10));
        assert(decimal(b).last() == digit_char(b % 10));
    }
}

/// Distinct node numbers have distinct witness IDs, and no witness ID is
/// blank.
proof fn lemma_node_id_text(a: u64, b: u64)
    ensures
        node_id_text(a) == node_id_text(b) ==> a == b,
        !is_blank(node_id_text(a)),
{
    reveal_strlit("ak:");
    assert(node_id_text(a)[0] == 'a');
    assert(!is_white_space('a'));
    if node_id_text(a) == node_id_text(b) {
        assert(decimal(a as nat) =~= node_id_text(a).subrange(3, node_id_text(a).len() as int));
        assert(decimal(b as nat) =~= node_id_text(b).subrange(3, node_id_text(b).len() as int));
        lemma_decimal_injective(a as nat, b as nat);
    }
}

/// `s` is the witness ID of a node of the tree.
pub open spec fn known_text(nodes: Seq<SemanticNodeV>, s: Seq<char>) -> bool {
    exists|i: int| 0 <= i < nodes.len() && node_id_text(#[trigger] nodes[i].id) == s
}

/// A relation between nodes of the tree, of a kind the conversion observes.
pub open spec fn relation_ok(nodes: Seq<SemanticNodeV>, r: RelationV) -> bool {
    &&& known_text(nodes, r.from)
    &&& known_text(nodes, r.to)
    &&& r.evidence == "observed"@
    &&& (r.kind == "labels"@ || r.kind == "describes"@ || r.kind == "controls"@)
}

pub open spec fn all_ok(nodes: Seq<SemanticNodeV>, rs: Seq<RelationV>) -> bool {
    forall|i: int| 0 <= i < rs.len() ==> relation_ok(nodes, #[trigger] rs[i])
}

proof fn lemma_all_ok_concat(nodes: Seq<SemanticNodeV>, a: Seq<RelationV>, b: Seq<RelationV>)
    requires
        all_ok(nodes, a),
        all_ok(nodes, b),
    ensures
        all_ok(nodes, a + b),
{
    assert forall|i: int| 0 <= i < (a + b).len() implies relation_ok(nodes, #[trigger] (a + b)[i]) by {
        if i < a.len() {
            assert((a + b)[i] == a[i]);
        } else {
            assert((a + b)[i] == b[i - a.len()]);
        }
    }
}

proof fn lemma_observed_ok(nodes: Seq<SemanticNodeV>, kind: Seq<char>, a: u64, b: u64)
    requires
        id_known(nodes, a),
        id_known(nodes, b),
        kind == "labels"@ || kind == "describes"@ || kind == "controls"@,
    ensures
        relation_ok(nodes, observed_relation(kind, a, b)),
{
    let i = choose|i: int| 0 <= i < nodes.len() && #[trigger] nodes[i].id == a;
    let j = choose|j: int| 0 <= j < nodes.len() && #[trigger] nodes[j].id == b;
    assert(node_id_text(nodes[i].id) == node_id_text(a));
    assert(node_id_text(nodes[j].id) == node_id_text(b));
}

proof fn lemma_relations_from_ok(nodes: Seq<SemanticNodeV>, kind: Seq<char>, sources: Seq<u64>, target: u64)
    requires
        kind == "labels"@ || kind == "describes"@ || kind == "controls"@,
    ensures
        all_ok(nodes, relations_from(nodes, kind, sources, target)),
    decreases sources.len(),
{
    if sources.len() > 0 {
        lemma_relations_from_ok(nodes, kind, sources.drop_last(), target);
        let s = sources.last();
        if id_known(nodes, s) && id_known(nodes, target) {
            lemma_observed_ok(nodes, kind, s, target);
            assert(all_ok(nodes, seq![observed_relation(kind, s, target)]));
            lemma_all_ok_concat(
                nodes,
                relations_from(nodes, kind, sources.drop_last(), target),
                seq![observed_relation(kind, s, target)],
            );
        } else {
            assert(relations_from(nodes, kind, sources, target) =~= relations_from(
                nodes,
                kind,
                sources.drop_last(),
                target,
            ));
        }
    }
}

proof fn lemma_relations_to_ok(nodes: Seq<SemanticNodeV>, kind: Seq<char>, source: u64, targets: Seq<u64>)
    requires
        kind == "labels"@ || kind == "describes"@ || kind == "controls"@,
    ensures
        all_ok(nodes, relations_to(nodes, kind, source, targets)),
    decreases targets.len(),
{
    if targets.len() > 0 {
        lemma_relations_to_ok(nodes, kind, source, targets.drop_last());
        let t = targets.last();
        if id_known(nodes, source) && id_known(nodes, t) {
            lemma_observed_ok(nodes, kind, source, t);
            assert(all_ok(nodes, seq![observed_relation(kind, source, t)]));
            lemma_all_ok_concat(
                nodes,
                relations_to(nodes, kind, source, targets.drop_last()),
                seq![observed_relation(kind, source, t)],
            );
        } else {
            assert(relations_to(nodes, kind, source, targets) =~= relations_to(
                nodes,
                kind,
                source,
                targets.drop_last(),
            ));
        }
    }
}

proof fn lemma_tree_relations_ok(nodes: Seq<SemanticNodeV>, k: int)
    ensures
        all_ok(nodes, tree_relations(nodes, k)),
    decreases k,
{
    if k > 0 {
        lemma_tree_relations_ok(nodes, k - 1);
        let n = nodes[k - 1];
        lemma_relations_from_ok(nodes, "labels"@, n.labelled_by, n.id);
        lemma_relations_from_ok(nodes, "describes"@, n.described_by, n.id);
        lemma_relations_to_ok(nodes, "controls"@, n.id, n.controls);
        lemma_all_ok_concat(
            nodes,
            relations_from(nodes, "labels"@, n.labelled_by, n.id),
            relations_from(nodes, "describes"@, n.described_by, n.id),
        );
        lemma_all_ok_concat(
            nodes,
            relations_from(nodes, "labels"@, n.labelled_by, n.id) + relations_from(
                nodes,
                "describes"@,
                n.described_by,
                n.id,
            ),
            relations_to(nodes, "controls"@, n.id, n.controls),
        );
        lemma_all_ok_concat(nodes, tree_relations(nodes, k - 1), node_relations(nodes, n));
    }
}

proof fn lemma_parent_from_known(nodes: Seq<SemanticNodeV>, child: u64, i: int)
    ensures
        parent_from(nodes, child, i) matches Some(p) ==> id_known(nodes, p),
    decreases nodes.len() - i,
{
    if 0 <= i < nodes.len() && !nodes[i].children.contains(child) {
        lemma_parent_from_known(nodes, child, i + 1);
    }
}

/// What the validation asks of one accessibility node: a role name that is
/// not blank, a non-blank author ID when there is one, and finite bounds of
/// non-negative size when there are bounds.
pub open spec fn node_convertible(n: SemanticNodeV) -> bool {
    &&& !is_blank(role_name_text(n.role))
    &&& (n.author_id matches Some(a) ==> !is_blank(a))
    &&& (n.bounds matches Some(b) ==> f32_is_finite(b.x.bits) && f32_is_finite(b.y.bits) && f32_is_finite(
        b.width.bits,
    ) && f32_is_finite(b.height.bits) && !f32_lt_zero(b.width.bits) && !f32_lt_zero(b.height.bits))
}

/// Node numbers are distinct and every node is convertible.
pub open spec fn tree_convertible(t: SemanticTreeV) -> bool {
    &&& forall|i: int, j: int|
        0 <= i < j < t.nodes.len() ==> #[trigger] t.nodes[i].id != #[trigger] t.nodes[j].id
    &&& forall|i: int| 0 <= i < t.nodes.len() ==> node_convertible(#[trigger] t.nodes[i])
}

/// Finite viewport geometry of non-negative size and positive scale.
pub open spec fn viewport_valid(v: ViewportV) -> bool {
    &&& f32_is_finite(v.width.bits)
    &&& f32_is_finite(v.height.bits)
    &&& f32_is_finite(v.scale_factor.bits)
    &&& !f32_lt_zero(v.width.bits)
    &&& !f32_lt_zero(v.height.bits)
    &&& !f32_le_zero(v.scale_factor.bits)
}

proof fn lemma_no_issues_upto_nodes(nodes: Seq<NodeV>, k: int)
    requires
        k <= nodes.len(),
        forall|j: int| 0 <= j < k ==> #[trigger] node_issues(nodes, j) == Seq::<Seq<char>>::empty(),
    ensures
        nodes_issues(nodes, k) == Seq::<Seq<char>>::empty(),
    decreases k,
{
    if k > 0 {
        lemma_no_issues_upto_nodes(nodes, k - 1);
        assert(nodes_issues(nodes, k) =~= Seq::<Seq<char>>::empty() + node_issues(nodes, k - 1));
    }
}

proof fn lemma_no_issues_upto_parents(nodes: Seq<NodeV>, k: int)
    requires
        k <= nodes.len(),
        forall|j: int| 0 <= j < k ==> #[trigger] parent_issues(nodes, j) == Seq::<Seq<char>>::empty(),
    ensures
        parents_issues(nodes, k) == Seq::<Seq<char>>::empty(),
    decreases k,
{
    if k > 0 {
        lemma_no_issues_upto_parents(nodes, k - 1);
        assert(parents_issues(nodes, k) =~= Seq::<Seq<char>>::empty() + parent_issues(nodes, k - 1));
    }
}

proof fn lemma_no_issues_upto_relations(nodes: Seq<NodeV>, rels: Seq<RelationV>, k: int)
    requires
        k <= rels.len(),
        forall|j: int| 0 <= j < k ==> #[trigger] relation_issues(nodes, rels[j]) == Seq::<Seq<char>>::empty(),
    ensures
        relations_issues(nodes, rels, k) == Seq::<Seq<char>>::empty(),
    decreases k,
{
    if k > 0 {
        lemma_no_issues_upto_relations(nodes, rels, k - 1);
        assert(relations_issues(nodes, rels, k) =~= Seq::<Seq<char>>::empty() + relation_issues(
            nodes,
            rels[k - 1],
        ));
    }
}

/// The listed witness nodes of a tree: each is the conversion of the node
/// the stable order puts there, and every node is listed once.
proof fn lemma_listed_nodes(t: SemanticTreeV, frame: Option<u64>, viewport: ViewportV)
    ensures
        ({
            let w = tree_witness(t, frame, viewport);
            let ord = stable_order(node_sort_keys(converted_nodes(t)), t.nodes.len() as int);
            &&& w.nodes.len() == t.nodes.len()
            &&& ord.len() == t.nodes.len()
            &&& forall|j: int| 0 <= j < t.nodes.len() ==> 0 <= #[trigger] ord[j] < t.nodes.len()
            &&& forall|j: int| 0 <= j < t.nodes.len() ==> #[trigger] w.nodes[j] == converted_node(t.nodes, t.focus, ord[j])
            &&& forall|i: int, j: int| 0 <= i < j < t.nodes.len() ==> #[trigger] ord[i] != #[trigger] ord[j]
        }),
{
    let n = t.nodes.len() as int;
    let keys = node_sort_keys(converted_nodes(t));
    lemma_stable_order_len_pub(keys, n);
    law_stable_order_sorts(keys, n);
    let ord = stable_order(keys, n);
    assert forall|i: int, j: int| 0 <= i < j < n implies #[trigger] ord[i] != #[trigger] ord[j] by {
        assert(ord[i] != ord[j]);
    }
}

/// A node of the tree is known to the validation by its witness ID.
proof fn lemma_known_in_witness(t: SemanticTreeV, frame: Option<u64>, viewport: ViewportV, s: Seq<char>)
    requires
        known_text(t.nodes, s),
    ensures
        crate::validation::id_known(tree_witness(t, frame, viewport).nodes, t.nodes.len() as int, s),
{
    let w = tree_witness(t, frame, viewport);
    let n = t.nodes.len() as int;
    let keys = node_sort_keys(converted_nodes(t));
    lemma_listed_nodes(t, frame, viewport);
    let i = choose|i: int| 0 <= i < n && node_id_text(#[trigger] t.nodes[i].id) == s;
    lemma_stable_order_covers(keys, n, i);
    let m = choose|m: int| 0 <= m < n && #[trigger] stable_order(keys, n)[m] == i;
    assert(w.nodes[m] == converted_node(t.nodes, t.focus, i));
    lemma_node_id_text(t.nodes[i].id, t.nodes[i].id);
    assert(!is_blank(w.nodes[m].id) && w.nodes[m].id == s);
}

proof fn lemma_node_clean(t: SemanticTreeV, frame: Option<u64>, viewport: ViewportV, j: int)
    requires
        tree_convertible(t),
        0 <= j < t.nodes.len(),
    ensures
        node_issues(tree_witness(t, frame, viewport).nodes, j) == Seq::<Seq<char>>::empty(),
{
    let w = tree_witness(t, frame, viewport);
    let nodes = w.nodes;
    let ord = stable_order(node_sort_keys(converted_nodes(t)), t.nodes.len() as int);
    lemma_listed_nodes(t, frame, viewport);
    let i = ord[j];
    let sn = t.nodes[i];
    let node = nodes[j];
    assert(node == converted_node(t.nodes, t.focus, i));
    assert(node_convertible(sn));
    lemma_node_id_text(sn.id, sn.id);
    assert(!crate::validation::id_known(nodes, j, node.id)) by {
        if crate::validation::id_known(nodes, j, node.id) {
            let k = choose|k: int| 0 <= k < j && !is_blank(#[trigger] nodes[k].id) && nodes[k].id == node.id;
            assert(nodes[k] == converted_node(t.nodes, t.focus, ord[k]));
            lemma_node_id_text(t.nodes[ord[k]].id, sn.id);
            assert(ord[k] != ord[j]);
            if ord[k] < ord[j] {
                assert(t.nodes[ord[k]].id != t.nodes[ord[j]].id);
            } else {
                assert(t.nodes[ord[j]].id != t.nodes[ord[k]].id);
            }
        }
    }
    assert(node_id_issue(nodes, j) =~= Seq::<Seq<char>>::empty());
    reveal_strlit("accesskit_node_id");
    reveal_strlit("structure_sensitive");
    assert(!is_white_space('a') && !is_white_space('s'));
    assert("accesskit_node_id"@[0] == 'a' && "structure_sensitive"@[0] == 's');
    assert(identity_issues(node) =~= Seq::<Seq<char>>::empty());
    assert(bounds_issues(node) =~= Seq::<Seq<char>>::empty());
    reveal(node_issues);
    assert(node_issues(nodes, j) =~= Seq::<Seq<char>>::empty());
}

proof fn lemma_parent_clean(t: SemanticTreeV, frame: Option<u64>, viewport: ViewportV, j: int)
    requires
        0 <= j < t.nodes.len(),
    ensures
        parent_issues(tree_witness(t, frame, viewport).nodes, j) == Seq::<Seq<char>>::empty(),
{
    let w = tree_witness(t, frame, viewport);
    let ord = stable_order(node_sort_keys(converted_nodes(t)), t.nodes.len() as int);
    lemma_listed_nodes(t, frame, viewport);
    let i = ord[j];
    let sn = t.nodes[i];
    assert(w.nodes[j] == converted_node(t.nodes, t.focus, i));
    lemma_parent_from_known(t.nodes, sn.id, 0);
    reveal(parent_issues);
    if let Some(p) = parent_from(t.nodes, sn.id, 0) {
        let k = choose|k: int| 0 <= k < t.nodes.len() && #[trigger] t.nodes[k].id == p;
        assert(node_id_text(t.nodes[k].id) == node_id_text(p));
        lemma_known_in_witness(t, frame, viewport, node_id_text(p));
    }
    assert(parent_issues(w.nodes, j) =~= Seq::<Seq<char>>::empty());
}

proof fn lemma_relation_clean(t: SemanticTreeV, frame: Option<u64>, viewport: ViewportV, j: int)
    requires
        0 <= j < tree_witness(t, frame, viewport).relations.len(),
    ensures
        relation_issues(tree_witness(t, frame, viewport).nodes, tree_witness(t, frame, viewport).relations[j])
            == Seq::<Seq<char>>::empty(),
{
    let w = tree_witness(t, frame, viewport);
    let rels = tree_relations(t.nodes, t.nodes.len() as int);
    let keys = relation_sort_keys(rels);
    lemma_stable_order_len_pub(keys, rels.len() as int);
    let k = stable_order(keys, rels.len() as int)[j];
    assert(w.relations[j] == rels[k]);
    lemma_tree_relations_ok(t.nodes, t.nodes.len() as int);
    let r = rels[k];
    assert(relation_ok(t.nodes, r));
    lemma_known_in_witness(t, frame, viewport, r.from);
    lemma_known_in_witness(t, frame, viewport, r.to);
    lemma_listed_nodes(t, frame, viewport);
    reveal_strlit("labels");
    reveal_strlit("describes");
    reveal_strlit("controls");
    reveal_strlit("observed");
    reveal_strlit("derived");
    assert(!is_white_space('l') && !is_white_space('d') && !is_white_space('c'));
    assert(!is_blank(r.kind)) by {
        assert(r.kind[0] == 'l' || r.kind[0] == 'd' || r.kind[0] == 'c');
    }
    reveal(relation_issues);
    assert(relation_issues(w.nodes, r) =~= Seq::<Seq<char>>::empty());
}

/// The witness converted from an accessibility tree passes validation when
/// the tree's node numbers are distinct, each node has a non-blank role name,
/// a non-blank author ID when it has one and finite bounds of non-negative
/// size when it has bounds, and the viewport is finite, of non-negative size
/// and of positive scale: every parent and relation end it lists is one of
/// its nodes.
pub proof fn law_converted_tree_is_valid(t: SemanticTreeV, frame: Option<u64>, viewport: ViewportV)
    requires
        tree_convertible(t),
        viewport_valid(viewport),
    ensures
        witness_issues(tree_witness(t, frame, viewport)) == Seq::<Seq<char>>::empty(),
{
    let w = tree_witness(t, frame, viewport);
    let n = t.nodes.len() as int;
    lemma_listed_nodes(t, frame, viewport);
    reveal_strlit("0.1");
    reveal_strlit("egui");
    assert(!is_white_space('0') && !is_white_space('e'));
    assert("0.1"@[0] == '0' && "egui"@[0] == 'e');
    assert(header_issues(w) =~= Seq::<Seq<char>>::empty());
    assert forall|j: int| 0 <= j < n implies #[trigger] node_issues(w.nodes, j) == Seq::<Seq<char>>::empty() by {
        lemma_node_clean(t, frame, viewport, j);
    }
    lemma_no_issues_upto_nodes(w.nodes, n);
    assert forall|j: int| 0 <= j < n implies #[trigger] parent_issues(w.nodes, j) == Seq::<Seq<char>>::empty() by {
        lemma_parent_clean(t, frame, viewport, j);
    }
    lemma_no_issues_upto_parents(w.nodes, n);
    assert forall|j: int| 0 <= j < w.relations.len() implies #[trigger] relation_issues(w.nodes, w.relations[j])
        == Seq::<Seq<char>>::empty() by {
        lemma_relation_clean(t, frame, viewport, j);
    }
    lemma_no_issues_upto_relations(w.nodes, w.relations, w.relations.len() as int);
    assert(witness_issues(w) =~= Seq::<Seq<char>>::empty());
}

/// Every node of the converted witness is the conversion of one node of the
/// tree, and every node of the tree is converted: the witness node carries
/// the tree node's ID (`ak:` and its number), its selection state, its
/// bounds, and its visibility (visible unless hidden).
pub proof fn law_converted_nodes_carry_their_source(t: SemanticTreeV, frame: Option<u64>, viewport: ViewportV)
    ensures
        ({
            let w = tree_witness(t, frame, viewport);
            &&& w.nodes.len() == t.nodes.len()
            &&& forall|j: int| 0 <= j < w.nodes.len() ==> has_source(t.nodes, #[trigger] w.nodes[j])
            &&& forall|i: int| 0 <= i < t.nodes.len() ==> is_converted(w.nodes, #[trigger] t.nodes[i])
        }),
{
    let w = tree_witness(t, frame, viewport);
    let n = t.nodes.len() as int;
    let keys = node_sort_keys(converted_nodes(t));
    lemma_listed_nodes(t, frame, viewport);
    let ord = stable_order(keys, n);
    assert forall|j: int| 0 <= j < w.nodes.len() implies has_source(t.nodes, #[trigger] w.nodes[j]) by {
        assert(w.nodes[j] == converted_node(t.nodes, t.focus, ord[j]));
        assert(carries(w.nodes[j], t.nodes[ord[j]]));
    }
    assert forall|i: int| 0 <= i < t.nodes.len() implies is_converted(w.nodes, #[trigger] t.nodes[i]) by {
        lemma_stable_order_covers(keys, n, i);
        let m = choose|m: int| 0 <= m < n && #[trigger] stable_order(keys, n)[m] == i;
        assert(w.nodes[m] == converted_node(t.nodes, t.focus, i));
        assert(carries(w.nodes[m], t.nodes[i]));
    }
}

/// Some node of the tree is the source of witness node `w`.
pub open spec fn has_source(nodes: Seq<SemanticNodeV>, w: NodeV) -> bool {
    exists|i: int| 0 <= i < nodes.len() && #[trigger] carries(w, nodes[i])
}

/// Some witness node is the conversion of `s`.
pub open spec fn is_converted(ws: Seq<NodeV>, s: SemanticNodeV) -> bool {
    exists|j: int| 0 <= j < ws.len() && #[trigger] carries(ws[j], s)
}

/// A witness node carries the ID, role name, selection state, bounds,
/// visibility, disabled state, label, numeric value and author ID of an
/// accessibility node.
pub open spec fn carries(w: NodeV, s: SemanticNodeV) -> bool {
    &&& w.id == node_id_text(s.id)
    &&& w.role == role_name_text(s.role)
    &&& w.selected == s.selected
    &&& w.bounds == s.bounds
    &&& w.visible == Some(!s.hidden)
    &&& (s.disabled ==> w.enabled == Some(false))
    &&& (s.label matches Some(l) ==> w.name == Some(l))
    &&& (s.numeric_value matches Some(v) ==> w.value == Some(v))
    &&& (w.identity matches Some(i) && i.author_id == s.author_id)
}

} // verus!
