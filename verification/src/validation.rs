//! Structural validation of a witness: every issue found, in a fixed order.
use vstd::prelude::*;

use crate::diff::nodes_view;
use crate::ieee::{f32_is_finite, f32_le_zero, f32_lt_zero, is_finite32, le_zero32, lt_zero32};
use crate::model::{Node, NodeV, RelationV, Witness, WitnessV, strings_view};
use crate::text::{blank, is_blank, owned, push_str};

verus! {

broadcast use vstd::string::group_string_axioms;

/// Some node before position `upto` has the non-blank ID `id`.
pub open spec fn id_known(nodes: Seq<NodeV>, upto: int, id: Seq<char>) -> bool {
    exists|j: int| 0 <= j < upto && !is_blank(#[trigger] nodes[j].id) && nodes[j].id == id
}

pub open spec fn issue_if(cond: bool, message: Seq<char>) -> Seq<Seq<char>> {
    if cond {
        seq![message]
    } else {
        Seq::empty()
    }
}

/// Issues of the version, source and viewport.
pub open spec fn header_issues(w: WitnessV) -> Seq<Seq<char>> {
    let v = w.capture.viewport;
    issue_if(is_blank(w.version), "viewwitness_version must not be empty"@) + issue_if(
        is_blank(w.capture.source),
        "capture source must not be empty"@,
    ) + issue_if(
        !f32_is_finite(v.width.bits) || !f32_is_finite(v.height.bits) || !f32_is_finite(
            v.scale_factor.bits,
        ),
        "viewport geometry must be finite"@,
    ) + issue_if(
        f32_lt_zero(v.width.bits) || f32_lt_zero(v.height.bits),
        "viewport dimensions must be non-negative"@,
    ) + issue_if(f32_le_zero(v.scale_factor.bits), "viewport scale_factor must be positive"@)
}

/// The ID issue of the `i`-th node (IDs before it count as seen).
pub open spec fn node_id_issue(nodes: Seq<NodeV>, i: int) -> Seq<Seq<char>> {
    let n = nodes[i];
    if is_blank(n.id) {
        seq!["node id must not be empty"@]
    } else if id_known(nodes, i, n.id) {
        seq!["duplicate node id: "@ + n.id]
    } else {
        Seq::empty()
    }
}

pub open spec fn identity_issues(n: NodeV) -> Seq<Seq<char>> {
    match n.identity {
        Some(idn) => issue_if(
            is_blank(idn.provenance),
            "node "@ + n.id + " identity provenance must not be empty"@,
        ) + issue_if(
            is_blank(idn.stability),
            "node "@ + n.id + " identity stability must not be empty"@,
        ) + issue_if(
            idn.author_id matches Some(a) && is_blank(a),
            "node "@ + n.id + " identity author_id must not be empty"@,
        ),
        None => Seq::empty(),
    }
}

pub open spec fn bounds_issues(n: NodeV) -> Seq<Seq<char>> {
    match n.bounds {
        Some(b) => issue_if(
            !f32_is_finite(b.x.bits) || !f32_is_finite(b.y.bits) || !f32_is_finite(b.width.bits)
                || !f32_is_finite(b.height.bits),
            "node "@ + n.id + " has non-finite bounds"@,
        ) + issue_if(
            f32_lt_zero(b.width.bits) || f32_lt_zero(b.height.bits),
            "node "@ + n.id + " has negative bounds"@,
        ),
        None => Seq::empty(),
    }
}

/// Issues of the `i`-th node on its own.
#[verifier::opaque]
pub open spec fn node_issues(nodes: Seq<NodeV>, i: int) -> Seq<Seq<char>> {
    let n = nodes[i];
    node_id_issue(nodes, i) + issue_if(is_blank(n.role), "node "@ + n.id + " role must not be empty"@)
        + identity_issues(n) + bounds_issues(n)
}

pub open spec fn nodes_issues(nodes: Seq<NodeV>, n: int) -> Seq<Seq<char>>
    decreases n,
{
    if n <= 0 {
        Seq::empty()
    } else {
        nodes_issues(nodes, n - 1) + node_issues(nodes, n - 1)
    }
}

/// The missing-parent issue of the `i`-th node.
#[verifier::opaque]
pub open spec fn parent_issues(nodes: Seq<NodeV>, i: int) -> Seq<Seq<char>> {
    match nodes[i].parent {
        Some(p) => issue_if(
            !id_known(nodes, nodes.len() as int, p),
            "node "@ + nodes[i].id + " references missing parent "@ + p,
        ),
        None => Seq::empty(),
    }
}

pub open spec fn parents_issues(nodes: Seq<NodeV>, n: int) -> Seq<Seq<char>>
    decreases n,
{
    if n <= 0 {
        Seq::empty()
    } else {
        parents_issues(nodes, n - 1) + parent_issues(nodes, n - 1)
    }
}

#[verifier::opaque]
pub open spec fn relation_issues(nodes: Seq<NodeV>, r: RelationV) -> Seq<Seq<char>> {
    let all = nodes.len() as int;
    issue_if(is_blank(r.kind), "relation kind must not be empty"@) + issue_if(
        !id_known(nodes, all, r.from),
        "relation "@ + r.kind + " references missing source "@ + r.from,
    ) + issue_if(
        !id_known(nodes, all, r.to),
        "relation "@ + r.kind + " references missing target "@ + r.to,
    ) + issue_if(
        r.evidence != "observed"@ && r.evidence != "derived"@,
        "relation "@ + r.kind + " has unknown evidence kind "@ + r.evidence,
    )
}

pub open spec fn relations_issues(nodes: Seq<NodeV>, rels: Seq<RelationV>, n: int) -> Seq<Seq<char>>
    decreases n,
{
    if n <= 0 {
        Seq::empty()
    } else {
        relations_issues(nodes, rels, n - 1) + relation_issues(nodes, rels[n - 1])
    }
}

/// Every structural issue of a witness, in check order.
pub open spec fn witness_issues(w: WitnessV) -> Seq<Seq<char>> {
    header_issues(w) + nodes_issues(w.nodes, w.nodes.len() as int) + parents_issues(
        w.nodes,
        w.nodes.len() as int,
    ) + relations_issues(w.nodes, w.relations, w.relations.len() as int)
}

fn push_issue(issues: &mut Vec<String>, cond: bool, message: String)
    ensures
        strings_view(final(issues)@) == strings_view(old(issues)@) + issue_if(cond, message@),
{
    if cond {
        issues.push(message);
    }
    assert(strings_view(issues@) =~= strings_view(old(issues)@) + issue_if(cond, message@));
}

fn message2(a: &str, b: &str) -> (r: String)
    ensures
        r@ == a@ + b@,
{
    let mut s = owned(a);
    push_str(&mut s, b);
    s
}

fn message3(a: &str, b: &str, c: &str) -> (r: String)
    ensures
        r@ == a@ + b@ + c@,
{
    let mut s = message2(a, b);
    push_str(&mut s, c);
    s
}

fn message4(a: &str, b: &str, c: &str, d: &str) -> (r: String)
    ensures
        r@ == a@ + b@ + c@ + d@,
{
    let mut s = message3(a, b, c);
    push_str(&mut s, d);
    s
}

/// Whether a node before position `upto` has the non-blank ID `id`.
fn known_id(nodes: &Vec<Node>, upto: usize, id: &String) -> (r: bool)
    requires
        upto <= nodes.len(),
    ensures
        r == id_known(nodes_view(nodes@), upto as int, id@),
{
    let ghost v = nodes_view(nodes@);
    let mut j: usize = 0;
    while j < upto
        invariant
            v == nodes_view(nodes@),
            j <= upto <= nodes.len(),
            !id_known(v, j as int, id@),
        decreases upto - j,
    {
        assert(v[j as int] == nodes@[j as int]@);
        if !blank(nodes[j].id.as_str()) && nodes[j].id == *id {
            assert(!is_blank(v[j as int].id) && v[j as int].id == id@);
            return true;
        }
        assert forall|q: int| 0 <= q < j + 1 && !is_blank(#[trigger] v[q].id) implies v[q].id != id@ by {
            if q < j {
                assert(!(0 <= q < j && !is_blank(v[q].id) && v[q].id == id@));
            }
        }
        j = j + 1;
    }
    false
}

fn push_identity_issues(node: &Node, issues: &mut Vec<String>)
    ensures
        strings_view(final(issues)@) == strings_view(old(issues)@) + identity_issues(node@),
{
    let id = node.id.as_str();
    match &node.identity {
        Some(identity) => {
            push_issue(
                issues,
                blank(identity.provenance.as_str()),
                message3("node ", id, " identity provenance must not be empty"),
            );
            push_issue(
                issues,
                blank(identity.stability.as_str()),
                message3("node ", id, " identity stability must not be empty"),
            );
            let empty_author = match &identity.author_id {
                Some(a) => blank(a.as_str()),
                None => false,
            };
            push_issue(issues, empty_author, message3("node ", id, " identity author_id must not be empty"));
        },
        None => {},
    }
    assert(strings_view(issues@) =~= strings_view(old(issues)@) + identity_issues(node@));
}

fn push_bounds_issues(node: &Node, issues: &mut Vec<String>)
    ensures
        strings_view(final(issues)@) == strings_view(old(issues)@) + bounds_issues(node@),
{
    let id = node.id.as_str();
    match &node.bounds {
        Some(b) => {
            push_issue(
                issues,
                !is_finite32(b.x.bits) || !is_finite32(b.y.bits) || !is_finite32(b.width.bits)
                    || !is_finite32(b.height.bits),
                message3("node ", id, " has non-finite bounds"),
            );
            push_issue(
                issues,
                lt_zero32(b.width.bits) || lt_zero32(b.height.bits),
                message3("node ", id, " has negative bounds"),
            );
        },
        None => {},
    }
    assert(strings_view(issues@) =~= strings_view(old(issues)@) + bounds_issues(node@));
}

fn push_id_issue(nodes: &Vec<Node>, i: usize, issues: &mut Vec<String>)
    requires
        i < nodes.len(),
    ensures
        strings_view(final(issues)@) == strings_view(old(issues)@) + node_id_issue(nodes_view(nodes@), i as int),
{
    let ghost v = nodes_view(nodes@);
    let node = &nodes[i];
    assert(v[i as int] == node@);
    let id = node.id.as_str();
    if blank(id) {
        issues.push(owned("node id must not be empty"));
    } else if known_id(nodes, i, &node.id) {
        issues.push(message2("duplicate node id: ", id));
    }
    assert(strings_view(issues@) =~= strings_view(old(issues)@) + node_id_issue(v, i as int));
}

fn push_node_issues(nodes: &Vec<Node>, i: usize, issues: &mut Vec<String>)
    requires
        i < nodes.len(),
    ensures
        strings_view(final(issues)@) == strings_view(old(issues)@) + node_issues(nodes_view(nodes@), i as int),
{
    let ghost v = nodes_view(nodes@);
    let node = &nodes[i];
    assert(v[i as int] == node@);
    let id = node.id.as_str();
    push_id_issue(nodes, i, issues);
    push_issue(issues, blank(node.role.as_str()), message3("node ", id, " role must not be empty"));
    push_identity_issues(node, issues);
    push_bounds_issues(node, issues);
    reveal(node_issues);
    assert(strings_view(issues@) =~= strings_view(old(issues)@) + node_issues(v, i as int));
}

fn push_relation_issues(nodes: &Vec<Node>, r: &crate::model::Relation, issues: &mut Vec<String>)
    ensures
        strings_view(final(issues)@) == strings_view(old(issues)@) + relation_issues(nodes_view(nodes@), r@),
{
    let kind = r.kind.as_str();
    push_issue(issues, blank(kind), owned("relation kind must not be empty"));
    let from_known = known_id(nodes, nodes.len(), &r.from);
    push_issue(issues, !from_known, message4("relation ", kind, " references missing source ", r.from.as_str()));
    let to_known = known_id(nodes, nodes.len(), &r.to);
    push_issue(issues, !to_known, message4("relation ", kind, " references missing target ", r.to.as_str()));
    let observed = owned("observed");
    let derived = owned("derived");
    let unknown = r.evidence != observed && r.evidence != derived;
    push_issue(issues, unknown, message4("relation ", kind, " has unknown evidence kind ", r.evidence.as_str()));
    reveal(relation_issues);
    assert(strings_view(issues@) =~= strings_view(old(issues)@) + relation_issues(nodes_view(nodes@), r@));
}

fn push_parent_issue(nodes: &Vec<Node>, i: usize, issues: &mut Vec<String>)
    requires
        i < nodes.len(),
    ensures
        strings_view(final(issues)@) == strings_view(old(issues)@) + parent_issues(nodes_view(nodes@), i as int),
{
    let node = &nodes[i];
    assert(nodes_view(nodes@)[i as int] == node@);
    match &node.parent {
        Some(p) => {
            let known = known_id(nodes, nodes.len(), p);
            push_issue(
                issues,
                !known,
                message4("node ", node.id.as_str(), " references missing parent ", p.as_str()),
            );
        },
        None => {},
    }
    reveal(parent_issues);
    assert(strings_view(issues@) =~= strings_view(old(issues)@) + parent_issues(nodes_view(nodes@), i as int));
}

impl Witness {
    /// Every structural issue of this witness, as messages in check order:
    /// header issues, then per-node issues, then missing parents, then
    /// relation issues.
    pub fn validation_issues(&self) -> (issues: Vec<String>)
        ensures
            strings_view(issues@) == witness_issues(self@),
    {
        let ghost w = self@;
        assert(w.nodes == nodes_view(self.nodes@));
        let mut issues: Vec<String> = Vec::new();
        let v = &self.capture.viewport;
        push_issue(&mut issues, blank(self.viewwitness_version.as_str()), owned("viewwitness_version must not be empty"));
        push_issue(&mut issues, blank(self.capture.source.as_str()), owned("capture source must not be empty"));
        push_issue(
            &mut issues,
            !is_finite32(v.width.bits) || !is_finite32(v.height.bits) || !is_finite32(v.scale_factor.bits),
            owned("viewport geometry must be finite"),
        );
        push_issue(
            &mut issues,
            lt_zero32(v.width.bits) || lt_zero32(v.height.bits),
            owned("viewport dimensions must be non-negative"),
        );
        push_issue(&mut issues, le_zero32(v.scale_factor.bits), owned("viewport scale_factor must be positive"));
        assert(strings_view(issues@) =~= header_issues(w));
        let mut i: usize = 0;
        while i < self.nodes.len()
            invariant
                w == self@,
                w.nodes == nodes_view(self.nodes@),
                i <= self.nodes.len(),
                strings_view(issues@) == header_issues(w) + nodes_issues(w.nodes, i as int),
            decreases self.nodes.len() - i,
        {
            push_node_issues(&self.nodes, i, &mut issues);
            i = i + 1;
            assert(strings_view(issues@) =~= header_issues(w) + nodes_issues(w.nodes, i as int));
        }
        let ghost base = strings_view(issues@);
        let mut i: usize = 0;
        while i < self.nodes.len()
            invariant
                w == self@,
                w.nodes == nodes_view(self.nodes@),
                i <= self.nodes.len(),
                strings_view(issues@) == base + parents_issues(w.nodes, i as int),
            decreases self.nodes.len() - i,
        {
            push_parent_issue(&self.nodes, i, &mut issues);
            i = i + 1;
            assert(strings_view(issues@) =~= base + parents_issues(w.nodes, i as int));
        }
        let ghost base2 = strings_view(issues@);
        let mut i: usize = 0;
        while i < self.relations.len()
            invariant
                w == self@,
                w.nodes == nodes_view(self.nodes@),
                i <= self.relations.len(),
                strings_view(issues@) == base2 + relations_issues(w.nodes, w.relations, i as int),
            decreases self.relations.len() - i,
        {
            assert(w.relations[i as int] == self.relations@[i as int]@);
            push_relation_issues(&self.nodes, &self.relations[i], &mut issues);
            i = i + 1;
            assert(strings_view(issues@) =~= base2 + relations_issues(w.nodes, w.relations, i as int));
        }
        assert(strings_view(issues@) =~= witness_issues(w));
        issues
    }
}

} // verus!
