//! What validation promises about relations: a relation end that names no
//! node is reported, and a witness without issues has every relation
//! between its nodes.
use vstd::prelude::*;

use crate::model::{NodeV, RelationV, WitnessV};
use crate::text::is_blank;
use crate::validation::{
    header_issues, id_known, issue_if, node_id_issue, node_issues, nodes_issues, parent_issues, parents_issues,
    relation_issues, relations_issues, witness_issues,
};

verus! {

/// Some node carries the non-blank ID `id`.
pub open spec fn names_node(nodes: Seq<NodeV>, id: Seq<char>) -> bool {
    exists|i: int| 0 <= i < nodes.len() && #[trigger] nodes[i].id == id && !is_blank(id)
}

proof fn lemma_known_names(nodes: Seq<NodeV>, id: Seq<char>)
    ensures
        id_known(nodes, nodes.len() as int, id) <==> names_node(nodes, id),
{
    if id_known(nodes, nodes.len() as int, id) {
        let j = choose|j: int| 0 <= j < nodes.len() && !is_blank(#[trigger] nodes[j].id) && nodes[j].id == id;
        assert(nodes[j].id == id);
    }
    if names_node(nodes, id) {
        let i = choose|i: int| 0 <= i < nodes.len() && #[trigger] nodes[i].id == id && !is_blank(id);
        assert(!is_blank(nodes[i].id) && nodes[i].id == id);
    }
}

proof fn lemma_relations_issues_list(nodes: Seq<NodeV>, rels: Seq<RelationV>, n: int, k: int)
    requires
        0 <= k < n,
    ensures
        forall|m: Seq<char>| relation_issues(nodes, rels[k]).contains(m) ==> relations_issues(nodes, rels, n).contains(m),
        relations_issues(nodes, rels, n).len() == 0 ==> relation_issues(nodes, rels[k]).len() == 0,
    decreases n,
{
    let prev = relations_issues(nodes, rels, n - 1);
    let last = relation_issues(nodes, rels[n - 1]);
    let whole = relations_issues(nodes, rels, n);
    assert(whole == prev + last);
    if k < n - 1 {
        lemma_relations_issues_list(nodes, rels, n - 1, k);
        assert forall|m: Seq<char>| relation_issues(nodes, rels[k]).contains(m) implies whole.contains(m) by {
            assert(prev.contains(m));
            let w = choose|w: int| 0 <= w < prev.len() && prev[w] == m;
            assert(whole[w] == m);
        }
    } else {
        assert forall|m: Seq<char>| relation_issues(nodes, rels[k]).contains(m) implies whole.contains(m) by {
            let w = choose|w: int| 0 <= w < last.len() && last[w] == m;
            assert(whole[prev.len() + w] == m);
        }
    }
}

proof fn lemma_witness_issues_list(w: WitnessV, k: int)
    requires
        0 <= k < w.relations.len(),
    ensures
        forall|m: Seq<char>| relation_issues(w.nodes, w.relations[k]).contains(m) ==> witness_issues(w).contains(m),
        witness_issues(w).len() == 0 ==> relation_issues(w.nodes, w.relations[k]).len() == 0,
{
    let rs = relations_issues(w.nodes, w.relations, w.relations.len() as int);
    lemma_relations_issues_list(w.nodes, w.relations, w.relations.len() as int, k);
    let front = witness_issues(w).subrange(0, witness_issues(w).len() - rs.len());
    assert(witness_issues(w) =~= front + rs);
    assert forall|m: Seq<char>| relation_issues(w.nodes, w.relations[k]).contains(m) implies witness_issues(w).contains(m) by {
        assert(rs.contains(m));
        let x = choose|x: int| 0 <= x < rs.len() && rs[x] == m;
        assert(witness_issues(w)[front.len() + x] == m);
    }
}

/// A relation whose source names no node of the witness is reported as
/// `relation <kind> references missing source <from>`, and one whose target
/// names no node as `relation <kind> references missing target <to>`; a
/// witness without issues has every relation's source and target naming one
/// of its nodes.
pub proof fn law_missing_relation_ends_are_reported(w: WitnessV, k: int)
    requires
        0 <= k < w.relations.len(),
    ensures
        !names_node(w.nodes, w.relations[k].from) ==> witness_issues(w).contains(
            "relation "@ + w.relations[k].kind + " references missing source "@ + w.relations[k].from,
        ),
        !names_node(w.nodes, w.relations[k].to) ==> witness_issues(w).contains(
            "relation "@ + w.relations[k].kind + " references missing target "@ + w.relations[k].to,
        ),
        witness_issues(w).len() == 0 ==> names_node(w.nodes, w.relations[k].from) && names_node(
            w.nodes,
            w.relations[k].to,
        ),
{
    let r = w.relations[k];
    let nodes = w.nodes;
    lemma_known_names(nodes, r.from);
    lemma_known_names(nodes, r.to);
    lemma_witness_issues_list(w, k);
    reveal(relation_issues);
    let is = relation_issues(nodes, r);
    let src = "relation "@ + r.kind + " references missing source "@ + r.from;
    let tgt = "relation "@ + r.kind + " references missing target "@ + r.to;
    let p0 = crate::validation::issue_if(is_blank(r.kind), "relation kind must not be empty"@);
    let p1 = crate::validation::issue_if(!id_known(nodes, nodes.len() as int, r.from), src);
    let p2 = crate::validation::issue_if(!id_known(nodes, nodes.len() as int, r.to), tgt);
    let p3 = crate::validation::issue_if(
        r.evidence != "observed"@ && r.evidence != "derived"@,
        "relation "@ + r.kind + " has unknown evidence kind "@ + r.evidence,
    );
    assert(is == p0 + p1 + p2 + p3);
    if !names_node(nodes, r.from) {
        assert(is[p0.len() as int] == src);
        assert(is.contains(src));
    }
    if !names_node(nodes, r.to) {
        assert(is[(p0.len() + p1.len()) as int] == tgt);
        assert(is.contains(tgt));
    }
}

proof fn lemma_concat_keeps(x: Seq<Seq<char>>, y: Seq<Seq<char>>)
    ensures
        forall|e: Seq<char>| x.contains(e) ==> (x + y).contains(e),
        forall|e: Seq<char>| y.contains(e) ==> (x + y).contains(e),
{
    assert forall|e: Seq<char>| x.contains(e) implies (x + y).contains(e) by {
        let w = choose|w: int| 0 <= w < x.len() && x[w] == e;
        assert((x + y)[w] == e);
    }
    assert forall|e: Seq<char>| y.contains(e) implies (x + y).contains(e) by {
        let w = choose|w: int| 0 <= w < y.len() && y[w] == e;
        assert((x + y)[x.len() + w] == e);
    }
}

proof fn lemma_nodes_issues_list(nodes: Seq<NodeV>, n: int, k: int)
    requires
        0 <= k < n,
    ensures
        forall|m: Seq<char>| node_issues(nodes, k).contains(m) ==> nodes_issues(nodes, n).contains(m),
        nodes_issues(nodes, n).len() == 0 ==> node_issues(nodes, k).len() == 0,
    decreases n,
{
    let prev = nodes_issues(nodes, n - 1);
    let last = node_issues(nodes, n - 1);
    assert(nodes_issues(nodes, n) == prev + last);
    lemma_concat_keeps(prev, last);
    if k < n - 1 {
        lemma_nodes_issues_list(nodes, n - 1, k);
    }
}

proof fn lemma_parents_issues_list(nodes: Seq<NodeV>, n: int, k: int)
    requires
        0 <= k < n,
    ensures
        forall|m: Seq<char>| parent_issues(nodes, k).contains(m) ==> parents_issues(nodes, n).contains(m),
        parents_issues(nodes, n).len() == 0 ==> parent_issues(nodes, k).len() == 0,
    decreases n,
{
    let prev = parents_issues(nodes, n - 1);
    let last = parent_issues(nodes, n - 1);
    assert(parents_issues(nodes, n) == prev + last);
    lemma_concat_keeps(prev, last);
    if k < n - 1 {
        lemma_parents_issues_list(nodes, n - 1, k);
    }
}

proof fn lemma_witness_parts(w: WitnessV, k: int)
    requires
        0 <= k < w.nodes.len(),
    ensures
        forall|m: Seq<char>| node_issues(w.nodes, k).contains(m) ==> witness_issues(w).contains(m),
        forall|m: Seq<char>| parent_issues(w.nodes, k).contains(m) ==> witness_issues(w).contains(m),
        witness_issues(w).len() == 0 ==> node_issues(w.nodes, k).len() == 0 && parent_issues(w.nodes, k).len() == 0,
{
    let n = w.nodes.len() as int;
    let h = header_issues(w);
    let ni = nodes_issues(w.nodes, n);
    let pi = parents_issues(w.nodes, n);
    let ri = relations_issues(w.nodes, w.relations, w.relations.len() as int);
    assert(witness_issues(w) == h + ni + pi + ri);
    lemma_nodes_issues_list(w.nodes, n, k);
    lemma_parents_issues_list(w.nodes, n, k);
    lemma_concat_keeps(h, ni);
    lemma_concat_keeps(h + ni, pi);
    lemma_concat_keeps(h + ni + pi, ri);
}

/// Validation reports each node that lacks an ID, carries an ID an earlier
/// node already carries, lacks a role, or names a parent no node carries; a
/// witness without issues has non-blank, unique node IDs, non-blank roles,
/// and every parent naming one of its nodes.
pub proof fn law_node_issues_are_reported(w: WitnessV, k: int)
    requires
        0 <= k < w.nodes.len(),
    ensures
        is_blank(w.nodes[k].id) ==> witness_issues(w).contains("node id must not be empty"@),
        !is_blank(w.nodes[k].id) && (exists|j: int| 0 <= j < k && #[trigger] w.nodes[j].id == w.nodes[k].id)
            ==> witness_issues(w).contains("duplicate node id: "@ + w.nodes[k].id),
        is_blank(w.nodes[k].role) ==> witness_issues(w).contains(
            "node "@ + w.nodes[k].id + " role must not be empty"@,
        ),
        (w.nodes[k].parent matches Some(p) && !names_node(w.nodes, p)) ==> witness_issues(w).contains(
            "node "@ + w.nodes[k].id + " references missing parent "@ + w.nodes[k].parent->0,
        ),
        witness_issues(w).len() == 0 ==> {
            &&& !is_blank(w.nodes[k].id)
            &&& !is_blank(w.nodes[k].role)
            &&& forall|j: int| 0 <= j < k ==> #[trigger] w.nodes[j].id != w.nodes[k].id
            &&& (w.nodes[k].parent matches Some(p) ==> names_node(w.nodes, p))
        },
{
    let nodes = w.nodes;
    let n = nodes[k];
    lemma_witness_parts(w, k);
    reveal(node_issues);
    reveal(parent_issues);
    let id_part = node_id_issue(nodes, k);
    let role_part = issue_if(is_blank(n.role), "node "@ + n.id + " role must not be empty"@);
    let rest = crate::validation::identity_issues(n) + crate::validation::bounds_issues(n);
    assert(node_issues(nodes, k) =~= id_part + role_part + rest);
    lemma_concat_keeps(id_part, role_part);
    lemma_concat_keeps(id_part + role_part, rest);
    if is_blank(n.id) {
        assert(id_part[0] == "node id must not be empty"@);
        assert(id_part.contains("node id must not be empty"@));
    }
    if !is_blank(n.id) && (exists|j: int| 0 <= j < k && #[trigger] nodes[j].id == n.id) {
        let j = choose|j: int| 0 <= j < k && #[trigger] nodes[j].id == n.id;
        assert(id_known(nodes, k, n.id));
        assert(id_part[0] == "duplicate node id: "@ + n.id);
        assert(id_part.contains("duplicate node id: "@ + n.id));
    }
    if is_blank(n.role) {
        assert(role_part[0] == "node "@ + n.id + " role must not be empty"@);
        assert(role_part.contains("node "@ + n.id + " role must not be empty"@));
    }
    if let Some(p) = n.parent {
        lemma_known_names(nodes, p);
        if !names_node(nodes, p) {
            let m = "node "@ + n.id + " references missing parent "@ + p;
            assert(parent_issues(nodes, k)[0] == m);
            assert(parent_issues(nodes, k).contains(m));
        }
    }
    if witness_issues(w).len() == 0 {
        assert(node_issues(nodes, k).len() == 0);
        assert forall|j: int| 0 <= j < k implies #[trigger] nodes[j].id != n.id by {
            if nodes[j].id == n.id && !is_blank(n.id) {
                assert(id_known(nodes, k, n.id));
            }
        }
    }
}

} // verus!
