//! Stable ascending orders: the order in which the agent projections list
//! nodes, relations, authored objects and paint entries.
use vstd::prelude::*;

use crate::text::{chars_equal, chars_less, chars_lt, chars_views};

verus! {

/// Lexicographic order on tuples of strings from component `i` on.
pub open spec fn tuple_lt_from(a: Seq<Seq<char>>, b: Seq<Seq<char>>, i: int) -> bool
    decreases a.len() - i,
{
    if i < 0 {
        false
    } else if i >= a.len() {
        i < b.len()
    } else if i >= b.len() {
        false
    } else if a[i] != b[i] {
        chars_lt(a[i], b[i])
    } else {
        tuple_lt_from(a, b, i + 1)
    }
}

/// `a` orders strictly before `b`, component by component (as tuples of
/// strings compare in Rust; a proper prefix first).
pub open spec fn tuple_lt(a: Seq<Seq<char>>, b: Seq<Seq<char>>) -> bool {
    tuple_lt_from(a, b, 0)
}

pub open spec fn tuple_views(v: Seq<Vec<Vec<char>>>) -> Seq<Seq<Seq<char>>> {
    v.map_values(|t: Vec<Vec<char>>| chars_views(t@))
}

/// Exact tuple comparison.
pub fn tuple_less(a: &Vec<Vec<char>>, b: &Vec<Vec<char>>) -> (r: bool)
    ensures
        r == tuple_lt(chars_views(a@), chars_views(b@)),
{
    let ghost av = chars_views(a@);
    let ghost bv = chars_views(b@);
    let mut i: usize = 0;
    while i < a.len() && i < b.len() && chars_equal(&a[i], &b[i])
        invariant
            av == chars_views(a@),
            bv == chars_views(b@),
            i <= a.len(),
            i <= b.len(),
            tuple_lt(av, bv) == tuple_lt_from(av, bv, i as int),
        decreases a.len() - i,
    {
        i = i + 1;
    }
    if i >= a.len() {
        i < b.len()
    } else if i >= b.len() {
        false
    } else {
        chars_less(&a[i], &b[i])
    }
}

/// Number of entries of `order` whose key is not above the key of `x`.
pub open spec fn count_not_above(keys: Seq<Seq<Seq<char>>>, order: Seq<int>, x: int) -> nat
    decreases order.len(),
{
    if order.len() == 0 {
        0
    } else {
        count_not_above(keys, order.drop_last(), x) + if tuple_lt(keys[x], keys[order.last()]) {
            0nat
        } else {
            1nat
        }
    }
}

/// The stable ascending order of the first `n` positions: each position is
/// placed after every earlier-placed position whose key is not above its own.
pub open spec fn stable_order(keys: Seq<Seq<Seq<char>>>, n: int) -> Seq<int>
    decreases n,
{
    if n <= 0 {
        Seq::empty()
    } else {
        let prev = stable_order(keys, n - 1);
        prev.insert(count_not_above(keys, prev, n - 1) as int, n - 1)
    }
}

proof fn lemma_count_not_above_bound(keys: Seq<Seq<Seq<char>>>, order: Seq<int>, x: int)
    ensures
        count_not_above(keys, order, x) <= order.len(),
    decreases order.len(),
{
    if order.len() > 0 {
        lemma_count_not_above_bound(keys, order.drop_last(), x);
    }
}

proof fn lemma_stable_order_len(keys: Seq<Seq<Seq<char>>>, n: int)
    requires
        n >= 0,
    ensures
        stable_order(keys, n).len() == n,
        forall|j: int| 0 <= j < n ==> 0 <= #[trigger] stable_order(keys, n)[j] < n,
    decreases n,
{
    if n > 0 {
        lemma_stable_order_len(keys, n - 1);
        let prev = stable_order(keys, n - 1);
        lemma_count_not_above_bound(keys, prev, n - 1);
        let pos = count_not_above(keys, prev, n - 1) as int;
        assert forall|j: int| 0 <= j < n implies 0 <= #[trigger] stable_order(keys, n)[j] < n by {
            if j < pos {
                assert(stable_order(keys, n)[j] == prev[j]);
            } else if j > pos {
                assert(stable_order(keys, n)[j] == prev[j - 1]);
            }
        }
    }
}

/// The stable ascending order of the given tuple keys, as positions.
pub fn stable_sort(keys: &Vec<Vec<Vec<char>>>) -> (order: Vec<usize>)
    ensures
        order@.len() == keys@.len(),
        forall|j: int| 0 <= j < order@.len() ==> order@[j] < keys@.len(),
        forall|j: int|
            0 <= j < order@.len() ==> order@[j] as int == stable_order(tuple_views(keys@), keys@.len() as int)[j],
{
    let ghost kv = tuple_views(keys@);
    let mut order: Vec<usize> = Vec::new();
    let mut n: usize = 0;
    while n < keys.len()
        invariant
            kv == tuple_views(keys@),
            n <= keys.len(),
            order@.len() == n,
            forall|j: int| 0 <= j < n ==> order@[j] as int == stable_order(kv, n as int)[j],
            forall|j: int| 0 <= j < n ==> order@[j] < n,
        decreases keys.len() - n,
    {
        let ghost prev = stable_order(kv, n as int);
        proof {
            lemma_stable_order_len(kv, n as int);
            lemma_stable_order_len(kv, n + 1);
        }
        let mut pos: usize = 0;
        let mut j: usize = 0;
        while j < order.len()
            invariant
                kv == tuple_views(keys@),
                n < keys.len(),
                order@.len() == n,
                prev == stable_order(kv, n as int),
                prev.len() == n,
                forall|q: int| 0 <= q < n ==> order@[q] as int == prev[q],
                forall|q: int| 0 <= q < n ==> order@[q] < n,
                j <= order.len(),
                pos <= j,
                pos == count_not_above(kv, prev.take(j as int), n as int),
            decreases order.len() - j,
        {
            proof {
                assert(prev.take(j + 1).drop_last() =~= prev.take(j as int));
                assert(prev.take(j + 1).last() == order@[j as int] as int);
                assert(kv[order@[j as int] as int] == chars_views(keys@[order@[j as int] as int]@));
                assert(kv[n as int] == chars_views(keys@[n as int]@));
            }
            if !tuple_less(&keys[n], &keys[order[j]]) {
                pos = pos + 1;
            }
            j = j + 1;
        }
        assert(prev.take(n as int) =~= prev);
        let ghost before = order@;
        order.insert(pos, n);
        proof {
            let next = stable_order(kv, n + 1);
            assert(next == prev.insert(pos as int, n as int));
            assert forall|q: int| 0 <= q < n + 1 implies order@[q] as int == next[q] by {
                if q < pos {
                    assert(order@[q] == before[q]);
                } else if q > pos {
                    assert(order@[q] == before[q - 1]);
                }
            }
        }
        n = n + 1;
    }
    order
}

/// Number of entries of `order` whose number is not above that of `x`.
pub open spec fn count_not_above_nat(keys: Seq<nat>, order: Seq<int>, x: int) -> nat
    decreases order.len(),
{
    if order.len() == 0 {
        0
    } else {
        count_not_above_nat(keys, order.drop_last(), x) + if keys[x] < keys[order.last()] {
            0nat
        } else {
            1nat
        }
    }
}

/// The stable ascending order of the first `n` positions by number.
pub open spec fn stable_order_nat(keys: Seq<nat>, n: int) -> Seq<int>
    decreases n,
{
    if n <= 0 {
        Seq::empty()
    } else {
        let prev = stable_order_nat(keys, n - 1);
        prev.insert(count_not_above_nat(keys, prev, n - 1) as int, n - 1)
    }
}

proof fn lemma_count_not_above_nat_bound(keys: Seq<nat>, order: Seq<int>, x: int)
    ensures
        count_not_above_nat(keys, order, x) <= order.len(),
    decreases order.len(),
{
    if order.len() > 0 {
        lemma_count_not_above_nat_bound(keys, order.drop_last(), x);
    }
}

proof fn lemma_stable_order_nat_len(keys: Seq<nat>, n: int)
    requires
        n >= 0,
    ensures
        stable_order_nat(keys, n).len() == n,
        forall|j: int| 0 <= j < n ==> 0 <= #[trigger] stable_order_nat(keys, n)[j] < n,
    decreases n,
{
    if n > 0 {
        lemma_stable_order_nat_len(keys, n - 1);
        let prev = stable_order_nat(keys, n - 1);
        lemma_count_not_above_nat_bound(keys, prev, n - 1);
        let pos = count_not_above_nat(keys, prev, n - 1) as int;
        assert forall|j: int| 0 <= j < n implies 0 <= #[trigger] stable_order_nat(keys, n)[j] < n by {
            if j < pos {
                assert(stable_order_nat(keys, n)[j] == prev[j]);
            } else if j > pos {
                assert(stable_order_nat(keys, n)[j] == prev[j - 1]);
            }
        }
    }
}

pub open spec fn nat_views(v: Seq<usize>) -> Seq<nat> {
    v.map_values(|x: usize| x as nat)
}

/// The stable ascending order of the given numbers, as positions.
pub fn stable_sort_numbers(keys: &Vec<usize>) -> (order: Vec<usize>)
    ensures
        order@.len() == keys@.len(),
        forall|j: int| 0 <= j < order@.len() ==> order@[j] < keys@.len(),
        forall|j: int|
            0 <= j < order@.len() ==> order@[j] as int == stable_order_nat(nat_views(keys@), keys@.len() as int)[j],
{
    let ghost kv = nat_views(keys@);
    let mut order: Vec<usize> = Vec::new();
    let mut n: usize = 0;
    while n < keys.len()
        invariant
            kv == nat_views(keys@),
            n <= keys.len(),
            order@.len() == n,
            forall|j: int| 0 <= j < n ==> order@[j] as int == stable_order_nat(kv, n as int)[j],
            forall|j: int| 0 <= j < n ==> order@[j] < n,
        decreases keys.len() - n,
    {
        let ghost prev = stable_order_nat(kv, n as int);
        proof {
            lemma_stable_order_nat_len(kv, n as int);
            lemma_stable_order_nat_len(kv, n + 1);
        }
        let mut pos: usize = 0;
        let mut j: usize = 0;
        while j < order.len()
            invariant
                kv == nat_views(keys@),
                n < keys.len(),
                order@.len() == n,
                prev == stable_order_nat(kv, n as int),
                prev.len() == n,
                forall|q: int| 0 <= q < n ==> order@[q] as int == prev[q],
                forall|q: int| 0 <= q < n ==> order@[q] < n,
                j <= order.len(),
                pos <= j,
                pos == count_not_above_nat(kv, prev.take(j as int), n as int),
            decreases order.len() - j,
        {
            proof {
                assert(prev.take(j + 1).drop_last() =~= prev.take(j as int));
                assert(prev.take(j + 1).last() == order@[j as int] as int);
            }
            if !(keys[n] < keys[order[j]]) {
                pos = pos + 1;
            }
            j = j + 1;
        }
        assert(prev.take(n as int) =~= prev);
        let ghost before = order@;
        order.insert(pos, n);
        proof {
            let next = stable_order_nat(kv, n + 1);
            assert(next == prev.insert(pos as int, n as int));
            assert forall|q: int| 0 <= q < n + 1 implies order@[q] as int == next[q] by {
                if q < pos {
                    assert(order@[q] == before[q]);
                } else if q > pos {
                    assert(order@[q] == before[q - 1]);
                }
            }
        }
        n = n + 1;
    }
    order
}

/// The stable order of `n` positions lists exactly `n` positions below `n`.
pub proof fn lemma_stable_order_len_pub(keys: Seq<Seq<Seq<char>>>, n: int)
    requires
        n >= 0,
    ensures
        stable_order(keys, n).len() == n,
        forall|j: int| 0 <= j < n ==> 0 <= #[trigger] stable_order(keys, n)[j] < n,
{
    lemma_stable_order_len(keys, n);
}


// ---------------------------------------------------------------------------
// The tuple order is a strict total order.
// ---------------------------------------------------------------------------

proof fn lemma_tuple_lt_from_irreflexive(a: Seq<Seq<char>>, i: int)
    ensures
        !tuple_lt_from(a, a, i),
    decreases a.len() - i,
{
    if 0 <= i < a.len() {
        lemma_tuple_lt_from_irreflexive(a, i + 1);
    }
}

proof fn lemma_tuple_lt_from_transitive(a: Seq<Seq<char>>, b: Seq<Seq<char>>, c: Seq<Seq<char>>, i: int)
    requires
        tuple_lt_from(a, b, i),
        tuple_lt_from(b, c, i),
    ensures
        tuple_lt_from(a, c, i),
    decreases a.len() - i,
{
    if 0 <= i < a.len() && i < b.len() && i < c.len() {
        if a[i] != b[i] && b[i] != c[i] {
            crate::text::lemma_chars_lt_transitive(a[i], b[i], c[i]);
            if a[i] == c[i] {
                crate::text::lemma_chars_lt_asymmetric(a[i], b[i]);
            }
        } else if a[i] == b[i] && b[i] == c[i] {
            lemma_tuple_lt_from_transitive(a, b, c, i + 1);
        }
    }
}

proof fn lemma_tuple_lt_from_total(a: Seq<Seq<char>>, b: Seq<Seq<char>>, i: int)
    requires
        0 <= i <= a.len(),
        i <= b.len(),
        forall|j: int| 0 <= j < i ==> a[j] == b[j],
        !tuple_lt_from(a, b, i),
        !tuple_lt_from(b, a, i),
    ensures
        a == b,
    decreases a.len() - i,
{
    if i < a.len() && i < b.len() {
        if a[i] == b[i] {
            lemma_tuple_lt_from_total(a, b, i + 1);
        } else {
            crate::text::lemma_chars_lt_total(a[i], b[i]);
        }
    } else {
        assert(a =~= b);
    }
}

pub proof fn lemma_tuple_lt_irreflexive(a: Seq<Seq<char>>)
    ensures
        !tuple_lt(a, a),
{
    lemma_tuple_lt_from_irreflexive(a, 0);
}

pub proof fn lemma_tuple_lt_transitive(a: Seq<Seq<char>>, b: Seq<Seq<char>>, c: Seq<Seq<char>>)
    requires
        tuple_lt(a, b),
        tuple_lt(b, c),
    ensures
        tuple_lt(a, c),
{
    lemma_tuple_lt_from_transitive(a, b, c, 0);
}

pub proof fn lemma_tuple_lt_total(a: Seq<Seq<char>>, b: Seq<Seq<char>>)
    ensures
        a == b || tuple_lt(a, b) || tuple_lt(b, a),
{
    if !tuple_lt(a, b) && !tuple_lt(b, a) {
        lemma_tuple_lt_from_total(a, b, 0);
    }
}

/// "Not above" is transitive.
proof fn lemma_not_above_transitive(a: Seq<Seq<char>>, b: Seq<Seq<char>>, c: Seq<Seq<char>>)
    requires
        !tuple_lt(b, a),
        !tuple_lt(c, b),
    ensures
        !tuple_lt(c, a),
{
    if tuple_lt(c, a) {
        lemma_tuple_lt_total(a, b);
        if tuple_lt(a, b) {
            lemma_tuple_lt_transitive(c, a, b);
        }
    }
}

// ---------------------------------------------------------------------------
// The stable order sorts.
// ---------------------------------------------------------------------------

/// `order` lists each of the positions `0..n` once, in ascending key order,
/// positions with equal keys in their own order.
pub open spec fn is_stable_sort(keys: Seq<Seq<Seq<char>>>, order: Seq<int>, n: int) -> bool {
    &&& order.len() == n
    &&& forall|j: int| 0 <= j < n ==> 0 <= #[trigger] order[j] < n
    &&& forall|i: int, j: int| 0 <= i < j < n ==> #[trigger] order[i] != #[trigger] order[j]
    &&& forall|i: int, j: int|
        0 <= i < j < n ==> !tuple_lt(keys[#[trigger] order[j]], keys[#[trigger] order[i]])
    &&& forall|i: int, j: int|
        0 <= i < j < n && keys[#[trigger] order[i]] == keys[#[trigger] order[j]] ==> order[i] < order[j]
}

/// In an order sorted by key, the entries whose key is not above that of `x`
/// are exactly the first `count_not_above` entries.
proof fn lemma_count_is_prefix(keys: Seq<Seq<Seq<char>>>, order: Seq<int>, x: int)
    requires
        forall|i: int, j: int|
            0 <= i < j < order.len() ==> !tuple_lt(keys[#[trigger] order[j]], keys[#[trigger] order[i]]),
    ensures
        count_not_above(keys, order, x) <= order.len(),
        forall|j: int|
            0 <= j < order.len() ==> (!tuple_lt(keys[x], keys[#[trigger] order[j]]) <==> j < count_not_above(
                keys,
                order,
                x,
            )),
    decreases order.len(),
{
    if order.len() > 0 {
        let p = order.drop_last();
        assert forall|i: int, j: int| 0 <= i < j < p.len() implies !tuple_lt(
            keys[#[trigger] p[j]],
            keys[#[trigger] p[i]],
        ) by {
            assert(p[i] == order[i] && p[j] == order[j]);
        }
        lemma_count_is_prefix(keys, p, x);
        let last = order.len() - 1;
        let c = count_not_above(keys, p, x);
        if !tuple_lt(keys[x], keys[order[last]]) {
            // Every earlier entry is not above the last, hence not above x.
            assert forall|j: int| 0 <= j < p.len() implies j < c && #[trigger] p[j] == order[j] by {
                assert(p[j] == order[j]);
                assert(!tuple_lt(keys[order[last]], keys[order[j]]));
                lemma_not_above_transitive(keys[order[j]], keys[order[last]], keys[x]);
            }
            if p.len() > 0 {
                assert(p[p.len() - 1] == order[p.len() - 1]);
            }
        }
        assert forall|j: int| 0 <= j < order.len() implies (!tuple_lt(keys[x], keys[#[trigger] order[j]])
            <==> j < count_not_above(keys, order, x)) by {
            if j < p.len() {
                assert(p[j] == order[j]);
            }
        }
    }
}

/// The stable order of `n` positions sorts them by key, stably.
pub proof fn law_stable_order_sorts(keys: Seq<Seq<Seq<char>>>, n: int)
    requires
        n >= 0,
    ensures
        is_stable_sort(keys, stable_order(keys, n), n),
    decreases n,
{
    if n > 0 {
        law_stable_order_sorts(keys, n - 1);
        let prev = stable_order(keys, n - 1);
        let x = n - 1;
        lemma_count_is_prefix(keys, prev, x);
        let pos = count_not_above(keys, prev, x) as int;
        let next = stable_order(keys, n);
        assert(next == prev.insert(pos, x));
        assert forall|j: int| 0 <= j < n implies #[trigger] next[j] == if j < pos {
            prev[j]
        } else if j == pos {
            x
        } else {
            prev[j - 1]
        } by {}
        assert forall|j: int| 0 <= j < n implies 0 <= #[trigger] next[j] < n by {}
        assert forall|i: int, j: int| 0 <= i < j < n implies #[trigger] next[i] != #[trigger] next[j] by {
            if i != pos && j != pos {
                let pi = if i < pos { i } else { i - 1 };
                let pj = if j < pos { j } else { j - 1 };
                assert(prev[pi] != prev[pj]);
            }
        }
        assert forall|i: int, j: int| 0 <= i < j < n implies !tuple_lt(
            keys[#[trigger] next[j]],
            keys[#[trigger] next[i]],
        ) by {
            let pi = if i < pos { i } else { i - 1 };
            let pj = if j < pos { j } else { j - 1 };
            if i != pos && j != pos {
                assert(!tuple_lt(keys[prev[pj]], keys[prev[pi]]));
            } else if i == pos {
                assert(tuple_lt(keys[x], keys[prev[pj]]));
                if tuple_lt(keys[prev[pj]], keys[x]) {
                    lemma_tuple_lt_transitive(keys[x], keys[prev[pj]], keys[x]);
                    lemma_tuple_lt_irreflexive(keys[x]);
                }
            } else {
                assert(!tuple_lt(keys[x], keys[prev[pi]]));
            }
        }
        assert forall|i: int, j: int|
            0 <= i < j < n && keys[#[trigger] next[i]] == keys[#[trigger] next[j]] implies next[i] < next[j] by {
            let pi = if i < pos { i } else { i - 1 };
            let pj = if j < pos { j } else { j - 1 };
            if i != pos && j != pos {
                assert(keys[prev[pi]] == keys[prev[pj]]);
            } else if i == pos {
                assert(tuple_lt(keys[x], keys[prev[pj]]));
                lemma_tuple_lt_irreflexive(keys[x]);
            }
        }
    }
}


/// `order` lists each of the positions `0..n` once, in ascending order of
/// their numbers, positions with equal numbers in their own order.
pub open spec fn is_stable_sort_nat(keys: Seq<nat>, order: Seq<int>, n: int) -> bool {
    &&& order.len() == n
    &&& forall|j: int| 0 <= j < n ==> 0 <= #[trigger] order[j] < n
    &&& forall|i: int, j: int| 0 <= i < j < n ==> #[trigger] order[i] != #[trigger] order[j]
    &&& forall|i: int, j: int| 0 <= i < j < n ==> keys[#[trigger] order[i]] <= keys[#[trigger] order[j]]
    &&& forall|i: int, j: int|
        0 <= i < j < n && keys[#[trigger] order[i]] == keys[#[trigger] order[j]] ==> order[i] < order[j]
}

proof fn lemma_count_nat_is_prefix(keys: Seq<nat>, order: Seq<int>, x: int)
    requires
        forall|i: int, j: int| 0 <= i < j < order.len() ==> keys[#[trigger] order[i]] <= keys[#[trigger] order[j]],
    ensures
        count_not_above_nat(keys, order, x) <= order.len(),
        forall|j: int|
            0 <= j < order.len() ==> (keys[#[trigger] order[j]] <= keys[x] <==> j < count_not_above_nat(
                keys,
                order,
                x,
            )),
    decreases order.len(),
{
    if order.len() > 0 {
        let p = order.drop_last();
        assert forall|i: int, j: int| 0 <= i < j < p.len() implies keys[#[trigger] p[i]] <= keys[#[trigger] p[j]] by {
            assert(p[i] == order[i] && p[j] == order[j]);
        }
        lemma_count_nat_is_prefix(keys, p, x);
        let last = order.len() - 1;
        let c = count_not_above_nat(keys, p, x);
        if keys[order[last]] <= keys[x] {
            assert forall|j: int| 0 <= j < p.len() implies j < c && #[trigger] p[j] == order[j] by {
                assert(p[j] == order[j]);
                assert(keys[order[j]] <= keys[order[last]]);
            }
            if p.len() > 0 {
                assert(p[p.len() - 1] == order[p.len() - 1]);
            }
        }
        assert forall|j: int| 0 <= j < order.len() implies (keys[#[trigger] order[j]] <= keys[x] <==> j
            < count_not_above_nat(keys, order, x)) by {
            if j < p.len() {
                assert(p[j] == order[j]);
            }
        }
    }
}

/// The stable order of `n` positions by number sorts them, stably.
pub proof fn law_stable_order_nat_sorts(keys: Seq<nat>, n: int)
    requires
        n >= 0,
    ensures
        is_stable_sort_nat(keys, stable_order_nat(keys, n), n),
    decreases n,
{
    if n > 0 {
        law_stable_order_nat_sorts(keys, n - 1);
        let prev = stable_order_nat(keys, n - 1);
        let x = n - 1;
        lemma_count_nat_is_prefix(keys, prev, x);
        let pos = count_not_above_nat(keys, prev, x) as int;
        let next = stable_order_nat(keys, n);
        assert(next == prev.insert(pos, x));
        assert forall|j: int| 0 <= j < n implies #[trigger] next[j] == if j < pos {
            prev[j]
        } else if j == pos {
            x
        } else {
            prev[j - 1]
        } by {}
        assert forall|j: int| 0 <= j < n implies 0 <= #[trigger] next[j] < n by {}
        assert forall|i: int, j: int| 0 <= i < j < n implies #[trigger] next[i] != #[trigger] next[j] by {
            if i != pos && j != pos {
                let pi = if i < pos { i } else { i - 1 };
                let pj = if j < pos { j } else { j - 1 };
                assert(prev[pi] != prev[pj]);
            }
        }
        assert forall|i: int, j: int| 0 <= i < j < n implies keys[#[trigger] next[i]] <= keys[#[trigger] next[j]] by {
            let pi = if i < pos { i } else { i - 1 };
            let pj = if j < pos { j } else { j - 1 };
            if i != pos && j != pos {
                assert(keys[prev[pi]] <= keys[prev[pj]]);
            } else if i == pos {
                assert(!(keys[prev[pj]] <= keys[x]));
            } else {
                assert(keys[prev[pi]] <= keys[x]);
            }
        }
        assert forall|i: int, j: int|
            0 <= i < j < n && keys[#[trigger] next[i]] == keys[#[trigger] next[j]] implies next[i] < next[j] by {
            let pi = if i < pos { i } else { i - 1 };
            let pj = if j < pos { j } else { j - 1 };
            if i != pos && j != pos {
                assert(keys[prev[pi]] == keys[prev[pj]]);
            } else if i == pos {
                assert(!(keys[prev[pj]] <= keys[x]));
            }
        }
    }
}


/// Every position `0..n` occurs in the stable order of `n` positions.
pub proof fn lemma_stable_order_covers(keys: Seq<Seq<Seq<char>>>, n: int, p: int)
    requires
        0 <= p < n,
    ensures
        exists|m: int| 0 <= m < n && #[trigger] stable_order(keys, n)[m] == p,
{
    law_stable_order_sorts(keys, n);
    let s = stable_order(keys, n);
    assert(s.no_duplicates()) by {
        assert forall|i: int, j: int| 0 <= i < s.len() && 0 <= j < s.len() && i != j implies s[i] != s[j] by {
            if i < j {
                assert(s[i] != s[j]);
            } else {
                assert(s[j] != s[i]);
            }
        }
    }
    s.unique_seq_to_set();
    vstd::set_lib::lemma_int_range(0, n);
    let range = vstd::set_lib::set_int_range(0, n);
    assert(s.to_set().subset_of(range)) by {
        assert forall|v: int| s.to_set().contains(v) implies range.contains(v) by {
            assert(s.contains(v));
            let m = choose|m: int| 0 <= m < s.len() && s[m] == v;
            assert(0 <= s[m] < n);
        }
    }
    vstd::seq_lib::seq_to_set_is_finite(s);
    vstd::set_lib::lemma_subset_equality(s.to_set(), range);
    assert(range.contains(p));
    assert(s.to_set().contains(p));
    assert(s.contains(p));
}

/// Two listings of the same items, each with unique keys, agree position by
/// position once sorted by key.
pub proof fn lemma_sorted_listings_agree<A>(x: Seq<A>, y: Seq<A>, key: spec_fn(A) -> Seq<Seq<char>>)
    requires
        x.len() == y.len(),
        forall|i: int, j: int| 0 <= i < j < x.len() ==> key(#[trigger] x[i]) != key(#[trigger] x[j]),
        forall|i: int, j: int| 0 <= i < j < y.len() ==> key(#[trigger] y[i]) != key(#[trigger] y[j]),
        forall|i: int| 0 <= i < x.len() ==> y.contains(#[trigger] x[i]),
        forall|j: int| 0 <= j < y.len() ==> x.contains(#[trigger] y[j]),
    ensures
        forall|k: int|
            0 <= k < x.len() ==> #[trigger] x[stable_order(x.map_values(key), x.len() as int)[k]]
                == y[stable_order(y.map_values(key), y.len() as int)[k]],
{
    let n = x.len() as int;
    lemma_sorted_listings_agree_upto(x, y, key, n);
}

proof fn lemma_sorted_strict<A>(x: Seq<A>, key: spec_fn(A) -> Seq<Seq<char>>, i: int, j: int)
    requires
        forall|a: int, b: int| 0 <= a < b < x.len() ==> key(#[trigger] x[a]) != key(#[trigger] x[b]),
        0 <= i < j < x.len(),
    ensures
        tuple_lt(
            key(x[stable_order(x.map_values(key), x.len() as int)[i]]),
            key(x[stable_order(x.map_values(key), x.len() as int)[j]]),
        ),
{
    let n = x.len() as int;
    let kx = x.map_values(key);
    let s = stable_order(kx, n);
    law_stable_order_sorts(kx, n);
    assert(!tuple_lt(kx[s[j]], kx[s[i]]));
    assert(s[i] != s[j]);
    assert(kx[s[i]] == key(x[s[i]]));
    assert(kx[s[j]] == key(x[s[j]]));
    if s[i] < s[j] {
        assert(key(x[s[i]]) != key(x[s[j]]));
    } else {
        assert(key(x[s[j]]) != key(x[s[i]]));
    }
    lemma_tuple_lt_total(kx[s[i]], kx[s[j]]);
}

proof fn lemma_sorted_listings_agree_upto<A>(
    x: Seq<A>,
    y: Seq<A>,
    key: spec_fn(A) -> Seq<Seq<char>>,
    k: int,
)
    requires
        x.len() == y.len(),
        0 <= k <= x.len(),
        forall|i: int, j: int| 0 <= i < j < x.len() ==> key(#[trigger] x[i]) != key(#[trigger] x[j]),
        forall|i: int, j: int| 0 <= i < j < y.len() ==> key(#[trigger] y[i]) != key(#[trigger] y[j]),
        forall|i: int| 0 <= i < x.len() ==> y.contains(#[trigger] x[i]),
        forall|j: int| 0 <= j < y.len() ==> x.contains(#[trigger] y[j]),
    ensures
        forall|m: int|
            0 <= m < k ==> #[trigger] x[stable_order(x.map_values(key), x.len() as int)[m]]
                == y[stable_order(y.map_values(key), y.len() as int)[m]],
    decreases k,
{
    if k > 0 {
        lemma_sorted_listings_agree_upto(x, y, key, k - 1);
        let n = x.len() as int;
        let sx = stable_order(x.map_values(key), n);
        let sy = stable_order(y.map_values(key), n);
        law_stable_order_sorts(x.map_values(key), n);
        law_stable_order_sorts(y.map_values(key), n);
        let c = k - 1;
        let lx = x[sx[c]];
        let ly = y[sy[c]];
        // Where lx stands in y's listing.
        assert(y.contains(x[sx[c]]));
        let p = choose|p: int| 0 <= p < y.len() && y[p] == lx;
        lemma_stable_order_covers(y.map_values(key), n, p);
        let m = choose|m: int| 0 <= m < n && #[trigger] sy[m] == p;
        // Where ly stands in x's listing.
        assert(x.contains(y[sy[c]]));
        let q = choose|q: int| 0 <= q < x.len() && x[q] == ly;
        lemma_stable_order_covers(x.map_values(key), n, q);
        let m2 = choose|m2: int| 0 <= m2 < n && #[trigger] sx[m2] == q;
        if lx != ly {
            if m < c {
                // y's entry m is x's entry m, so x lists lx twice.
                assert(x[sx[m]] == y[sy[m]]);
                lemma_sorted_strict(x, key, m, c);
                lemma_tuple_lt_irreflexive(key(lx));
            } else if m2 < c {
                assert(x[sx[m2]] == y[sy[m2]]);
                lemma_sorted_strict(y, key, m2, c);
                lemma_tuple_lt_irreflexive(key(ly));
            } else {
                assert(m != c && m2 != c);
                lemma_sorted_strict(y, key, c, m);
                lemma_sorted_strict(x, key, c, m2);
                lemma_tuple_lt_transitive(key(ly), key(lx), key(ly));
                lemma_tuple_lt_irreflexive(key(ly));
            }
        }
    }
}

} // verus!
