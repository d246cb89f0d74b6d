//! Character-level text support: code-point order, sorted listings of keys,
//! decimal rendering, JSON string quoting and Unicode white space.
use vstd::prelude::*;
use vstd::std_specs::iter::IteratorSpec;

verus! {

broadcast use vstd::string::group_string_axioms;

// ---------------------------------------------------------------------------
// Code-point order on character sequences (the order of `str`/`String`).
// ---------------------------------------------------------------------------

/// Lexicographic comparison of `a` and `b` from position `i` on, by code point.
pub open spec fn chars_lt_from(a: Seq<char>, b: Seq<char>, i: int) -> bool
    decreases a.len() - i,
{
    if i < 0 {
        false
    } else if i >= a.len() {
        i < b.len()
    } else if i >= b.len() {
        false
    } else if a[i] != b[i] {
        (a[i] as int) < (b[i] as int)
    } else {
        chars_lt_from(a, b, i + 1)
    }
}

/// `a` orders strictly before `b` as Rust orders strings: by code point,
/// a proper prefix before its extensions.
pub open spec fn chars_lt(a: Seq<char>, b: Seq<char>) -> bool {
    chars_lt_from(a, b, 0)
}

proof fn lemma_lt_from_irreflexive(a: Seq<char>, i: int)
    requires
        0 <= i,
    ensures
        !chars_lt_from(a, a, i),
    decreases a.len() - i,
{
    if i < a.len() {
        lemma_lt_from_irreflexive(a, i + 1);
    }
}

proof fn lemma_lt_from_transitive(a: Seq<char>, b: Seq<char>, c: Seq<char>, i: int)
    requires
        0 <= i,
        chars_lt_from(a, b, i),
        chars_lt_from(b, c, i),
    ensures
        chars_lt_from(a, c, i),
    decreases a.len() - i,
{
    if i < a.len() && i < b.len() && i < c.len() && a[i] == b[i] && b[i] == c[i] {
        lemma_lt_from_transitive(a, b, c, i + 1);
    }
}

proof fn lemma_lt_from_total(a: Seq<char>, b: Seq<char>, i: int)
    requires
        0 <= i <= a.len(),
        i <= b.len(),
        forall|j: int| 0 <= j < i ==> a[j] == b[j],
        !chars_lt_from(a, b, i),
        !chars_lt_from(b, a, i),
    ensures
        a == b,
    decreases a.len() - i,
{
    if i < a.len() && i < b.len() {
        if a[i] == b[i] {
            lemma_lt_from_total(a, b, i + 1);
        } else {
            assert((a[i] as int) != (b[i] as int));
        }
    } else {
        assert(a =~= b);
    }
}

pub proof fn lemma_chars_lt_irreflexive(a: Seq<char>)
    ensures
        !chars_lt(a, a),
{
    lemma_lt_from_irreflexive(a, 0);
}

pub proof fn lemma_chars_lt_transitive(a: Seq<char>, b: Seq<char>, c: Seq<char>)
    requires
        chars_lt(a, b),
        chars_lt(b, c),
    ensures
        chars_lt(a, c),
{
    lemma_lt_from_transitive(a, b, c, 0);
}

pub proof fn lemma_chars_lt_total(a: Seq<char>, b: Seq<char>)
    ensures
        a == b || chars_lt(a, b) || chars_lt(b, a),
{
    if !chars_lt(a, b) && !chars_lt(b, a) {
        lemma_lt_from_total(a, b, 0);
    }
}

pub proof fn lemma_chars_lt_asymmetric(a: Seq<char>, b: Seq<char>)
    requires
        chars_lt(a, b),
    ensures
        !chars_lt(b, a),
{
    if chars_lt(b, a) {
        lemma_chars_lt_transitive(a, b, a);
        lemma_chars_lt_irreflexive(a);
    }
}

/// Exact code-point comparison of two character sequences.
pub fn chars_less(a: &Vec<char>, b: &Vec<char>) -> (r: bool)
    ensures
        r == chars_lt(a@, b@),
{
    let mut i: usize = 0;
    while i < a.len() && i < b.len() && a[i] == b[i]
        invariant
            i <= a.len(),
            i <= b.len(),
            chars_lt(a@, b@) == chars_lt_from(a@, b@, i as int),
        decreases a.len() - i,
    {
        i = i + 1;
    }
    if i >= a.len() {
        i < b.len()
    } else if i >= b.len() {
        false
    } else {
        a[i] < b[i]
    }
}

/// Exact equality of two character sequences.
pub fn chars_equal(a: &Vec<char>, b: &Vec<char>) -> (r: bool)
    ensures
        r == (a@ == b@),
{
    if a.len() != b.len() {
        return false;
    }
    let mut i: usize = 0;
    while i < a.len()
        invariant
            i <= a.len(),
            a.len() == b.len(),
            forall|j: int| 0 <= j < i ==> a@[j] == b@[j],
        decreases a.len() - i,
    {
        if a[i] != b[i] {
            return false;
        }
        i = i + 1;
    }
    assert(a@ =~= b@);
    true
}

/// The characters of `s`, one by one.
pub fn chars_of(s: &str) -> (r: Vec<char>)
    ensures
        r@ == s@,
{
    let mut it = s.chars();
    let mut out: Vec<char> = Vec::new();
    loop
        invariant
            it.obeys_prophetic_iter_laws(),
            out@ + it.remaining() == s@,
            it.decrease() is Some,
        decreases it.decrease()->0,
    {
        match it.next() {
            Some(c) => {
                out.push(c);
                assert(out@ + it.remaining() =~= s@);
            },
            None => {
                assert(out@ =~= s@);
                return out;
            },
        }
    }
}

/// No character of `s` is a line break.
pub open spec fn nl_free(s: Seq<char>) -> bool {
    forall|i: int| 0 <= i < s.len() ==> s[i] != '\n'
}

/// A rendered quantity or number: a text that holds no line break, as the
/// `Display` and JSON texts of a number never do.
#[derive(Debug)]
pub struct LineText {
    text: String,
}

impl LineText {
    #[verifier::type_invariant]
    spec fn holds_no_line_break(self) -> bool {
        nl_free(self.text@)
    }

    /// The text, when it holds no line break.
    pub fn new(text: String) -> (r: Option<LineText>)
        ensures
            r is Some <==> nl_free(text@),
            r matches Some(t) ==> t@ == text@,
    {
        let cs = chars_of(text.as_str());
        let mut i: usize = 0;
        while i < cs.len()
            invariant
                cs@ == text@,
                i <= cs.len(),
                forall|j: int| 0 <= j < i ==> cs@[j] != '\n',
            decreases cs.len() - i,
        {
            if cs[i] == '\n' {
                return None;
            }
            i = i + 1;
        }
        Some(LineText { text })
    }

    /// The text itself.
    pub fn as_str(&self) -> (r: &str)
        ensures
            r@ == self@,
    {
        proof {
            use_type_invariant(self);
        }
        self.text.as_str()
    }

    pub fn copy(&self) -> (r: LineText)
        ensures
            r@ == self@,
    {
        proof {
            use_type_invariant(self);
        }
        LineText { text: self.text.clone() }
    }
}

impl View for LineText {
    type V = Seq<char>;

    closed spec fn view(&self) -> Seq<char> {
        if nl_free(self.text@) {
            self.text@
        } else {
            Seq::empty()
        }
    }
}

/// What a line text stands for holds no line break.
pub broadcast proof fn lemma_line_text_view(t: LineText)
    ensures
        #[trigger] nl_free(t@),
{
}

// ---------------------------------------------------------------------------
// Sorted listings: the ascending, duplicate-free enumeration of a key set,
// as a `BTreeSet<&str>` iterates it.
// ---------------------------------------------------------------------------

pub open spec fn strictly_ascending(s: Seq<Seq<char>>) -> bool {
    forall|i: int, j: int| 0 <= i < j < s.len() ==> chars_lt(s[i], s[j])
}

/// `s` lists exactly the members of `keys`, in strictly ascending order.
pub open spec fn is_sorted_listing(s: Seq<Seq<char>>, keys: Set<Seq<char>>) -> bool {
    &&& strictly_ascending(s)
    &&& forall|x: Seq<char>| s.contains(x) <==> keys.contains(x)
}

/// The ascending enumeration of a key set (unique where it exists, see
/// `lemma_sorted_listing_unique`).
pub open spec fn sorted_listing(keys: Set<Seq<char>>) -> Seq<Seq<char>> {
    choose|s: Seq<Seq<char>>| is_sorted_listing(s, keys)
}

pub open spec fn chars_views(v: Seq<Vec<char>>) -> Seq<Seq<char>> {
    v.map_values(|x: Vec<char>| x@)
}

pub open spec fn key_set(v: Seq<Seq<char>>) -> Set<Seq<char>> {
    Set::new(|x: Seq<char>| v.contains(x))
}

/// Two ascending enumerations of the same key set are the same sequence.
pub proof fn lemma_sorted_listing_unique(s1: Seq<Seq<char>>, s2: Seq<Seq<char>>, keys: Set<Seq<char>>)
    requires
        is_sorted_listing(s1, keys),
        is_sorted_listing(s2, keys),
    ensures
        s1 == s2,
    decreases s1.len(),
{
    if s1.len() == 0 {
        if s2.len() > 0 {
            assert(s2.contains(s2[0]));
        }
        assert(s1 =~= s2);
    } else {
        assert(s1.contains(s1[0]));
        assert(keys.contains(s1[0]));
        let k2 = choose|k: int| 0 <= k < s2.len() && s2[k] == s1[0];
        assert(s2.contains(s2[0]));
        let k1 = choose|k: int| 0 <= k < s1.len() && s1[k] == s2[0];
        if k2 > 0 {
            assert(chars_lt(s2[0], s2[k2]));
            if k1 > 0 {
                assert(chars_lt(s1[0], s1[k1]));
                lemma_chars_lt_asymmetric(s1[0], s2[0]);
            } else {
                lemma_chars_lt_irreflexive(s1[0]);
            }
        }
        assert(s1[0] == s2[0]);
        let rest = keys.remove(s1[0]);
        let t1 = s1.drop_first();
        let t2 = s2.drop_first();
        assert forall|x: Seq<char>| t1.contains(x) <==> rest.contains(x) by {
            if t1.contains(x) {
                let k = choose|k: int| 0 <= k < t1.len() && t1[k] == x;
                assert(s1[k + 1] == x);
                assert(chars_lt(s1[0], s1[k + 1]));
                lemma_chars_lt_irreflexive(x);
                assert(s1.contains(x));
            }
            if rest.contains(x) {
                assert(s1.contains(x));
                let k = choose|k: int| 0 <= k < s1.len() && s1[k] == x;
                assert(k != 0);
                assert(t1[k - 1] == x);
            }
        }
        assert forall|x: Seq<char>| t2.contains(x) <==> rest.contains(x) by {
            if t2.contains(x) {
                let k = choose|k: int| 0 <= k < t2.len() && t2[k] == x;
                assert(s2[k + 1] == x);
                assert(chars_lt(s2[0], s2[k + 1]));
                lemma_chars_lt_irreflexive(x);
                assert(s2.contains(x));
            }
            if rest.contains(x) {
                assert(s2.contains(x));
                let k = choose|k: int| 0 <= k < s2.len() && s2[k] == x;
                assert(k != 0);
                assert(t2[k - 1] == x);
            }
        }
        assert(strictly_ascending(t1)) by {
            assert forall|i: int, j: int| 0 <= i < j < t1.len() implies chars_lt(t1[i], t1[j]) by {
                assert(t1[i] == s1[i + 1] && t1[j] == s1[j + 1]);
            }
        }
        assert(strictly_ascending(t2)) by {
            assert forall|i: int, j: int| 0 <= i < j < t2.len() implies chars_lt(t2[i], t2[j]) by {
                assert(t2[i] == s2[i + 1] && t2[j] == s2[j + 1]);
            }
        }
        lemma_sorted_listing_unique(t1, t2, rest);
        assert(s1 =~= s2) by {
            assert forall|i: int| 0 <= i < s1.len() implies s1[i] == s2[i] by {
                if i > 0 {
                    assert(s1[i] == t1[i - 1]);
                    assert(s2[i] == t2[i - 1]);
                }
            }
        }
    }
}

/// A sequence that is an ascending enumeration is *the* ascending enumeration.
pub proof fn lemma_sorted_listing_is(s: Seq<Seq<char>>, keys: Set<Seq<char>>)
    requires
        is_sorted_listing(s, keys),
    ensures
        sorted_listing(keys) == s,
{
    lemma_sorted_listing_unique(sorted_listing(keys), s, keys);
}

/// Every key sequence has an ascending enumeration of its keys.
pub proof fn lemma_sorted_listing_exists(v: Seq<Seq<char>>)
    ensures
        is_sorted_listing(sorted_listing(key_set(v)), key_set(v)),
    decreases v.len(),
{
    if v.len() == 0 {
        let e = Seq::<Seq<char>>::empty();
        assert(is_sorted_listing(e, key_set(v)));
    } else {
        let prefix = v.drop_last();
        let x = v.last();
        lemma_sorted_listing_exists(prefix);
        let l = sorted_listing(key_set(prefix));
        if l.contains(x) {
            assert forall|y: Seq<char>| l.contains(y) <==> key_set(v).contains(y) by {
                if v.contains(y) {
                    let w = choose|w: int| 0 <= w < v.len() && v[w] == y;
                    if w < v.len() - 1 {
                        assert(prefix[w] == y);
                    }
                }
                if prefix.contains(y) {
                    let w = choose|w: int| 0 <= w < prefix.len() && prefix[w] == y;
                    assert(v[w] == y);
                }
            }
            assert(is_sorted_listing(l, key_set(v)));
        } else {
            let p = count_below(l, x, l.len() as int);
            lemma_count_below(l, x, l.len() as int);
            let n = l.insert(p, x);
            assert forall|i: int, j: int| 0 <= i < j < n.len() implies chars_lt(n[i], n[j]) by {
                if j < p {
                    assert(n[i] == l[i] && n[j] == l[j]);
                } else if j == p {
                    assert(n[i] == l[i]);
                } else if i == p {
                    assert(n[j] == l[j - 1]);
                    lemma_chars_lt_total(l[j - 1], x);
                } else if i < p {
                    assert(n[i] == l[i] && n[j] == l[j - 1]);
                } else {
                    assert(n[i] == l[i - 1] && n[j] == l[j - 1]);
                }
            }
            assert forall|y: Seq<char>| n.contains(y) <==> key_set(v).contains(y) by {
                if n.contains(y) {
                    let w = choose|w: int| 0 <= w < n.len() && n[w] == y;
                    if w < p {
                        assert(l[w] == y);
                        assert(key_set(prefix).contains(y));
                        let u = choose|u: int| 0 <= u < prefix.len() && prefix[u] == y;
                        assert(v[u] == y);
                    } else if w == p {
                        assert(v[v.len() - 1] == y);
                    } else {
                        assert(l[w - 1] == y);
                        assert(key_set(prefix).contains(y));
                        let u = choose|u: int| 0 <= u < prefix.len() && prefix[u] == y;
                        assert(v[u] == y);
                    }
                }
                if v.contains(y) {
                    let w = choose|w: int| 0 <= w < v.len() && v[w] == y;
                    if w < v.len() - 1 {
                        assert(prefix[w] == y);
                        assert(l.contains(y));
                        let u = choose|u: int| 0 <= u < l.len() && l[u] == y;
                        if u < p {
                            assert(n[u] == y);
                        } else {
                            assert(n[u + 1] == y);
                        }
                    } else {
                        assert(n[p] == y);
                    }
                }
            }
            assert(is_sorted_listing(n, key_set(v)));
        }
    }
}

/// How many of the first `k` entries of an ascending `l` are below `x`.
pub open spec fn count_below(l: Seq<Seq<char>>, x: Seq<char>, k: int) -> int
    decreases k,
{
    if k <= 0 {
        0
    } else if chars_lt(l[k - 1], x) {
        count_below(l, x, k - 1) + 1
    } else {
        count_below(l, x, k - 1)
    }
}

/// In an ascending `l`, the entries below `x` are exactly its first
/// `count_below` entries.
proof fn lemma_count_below(l: Seq<Seq<char>>, x: Seq<char>, k: int)
    requires
        strictly_ascending(l),
        0 <= k <= l.len(),
    ensures
        0 <= count_below(l, x, k) <= k,
        forall|i: int| 0 <= i < count_below(l, x, k) ==> chars_lt(#[trigger] l[i], x),
        forall|i: int| count_below(l, x, k) <= i < k ==> !chars_lt(#[trigger] l[i], x),
    decreases k,
{
    if k > 0 {
        lemma_count_below(l, x, k - 1);
        let c = count_below(l, x, k - 1);
        if chars_lt(l[k - 1], x) {
            assert forall|i: int| 0 <= i < k - 1 implies chars_lt(#[trigger] l[i], x) by {
                lemma_chars_lt_transitive(l[i], l[k - 1], x);
            }
        }
    }
}

/// Copy of a character vector.
pub fn copy_chars(v: &Vec<char>) -> (r: Vec<char>)
    ensures
        r@ == v@,
{
    let mut out: Vec<char> = Vec::new();
    let mut i: usize = 0;
    while i < v.len()
        invariant
            i <= v.len(),
            out@ == v@.take(i as int),
        decreases v.len() - i,
    {
        out.push(v[i]);
        i = i + 1;
        assert(out@ =~= v@.take(i as int));
    }
    assert(v@.take(v.len() as int) =~= v@);
    out
}

/// The ascending, duplicate-free enumeration of the given keys.
pub fn sorted_unique(keys: &Vec<Vec<char>>) -> (r: Vec<Vec<char>>)
    ensures
        is_sorted_listing(chars_views(r@), key_set(chars_views(keys@))),
        chars_views(r@) == sorted_listing(key_set(chars_views(keys@))),
{
    let ghost all = chars_views(keys@);
    let mut out: Vec<Vec<char>> = Vec::new();
    let mut last: Option<usize> = None;
    loop
        invariant
            all == chars_views(keys@),
            strictly_ascending(chars_views(out@)),
            out.len() <= keys.len(),
            last is None <==> out.len() == 0,
            last matches Some(l) ==> l < keys.len() && keys@[l as int]@ == chars_views(out@).last(),
            forall|x: Seq<char>| chars_views(out@).contains(x) ==> all.contains(x),
            // every key up to the last listed one is listed
            forall|k: int| #![trigger all[k]] 0 <= k < keys.len() && (last matches Some(l) && !chars_lt(keys@[l as int]@, all[k]))
                ==> chars_views(out@).contains(all[k]),
        decreases keys.len() - out.len(),
    {
        // find the least key strictly above `last`
        let mut best: Option<usize> = None;
        let mut j: usize = 0;
        while j < keys.len()
            invariant
                j <= keys.len(),
                all == chars_views(keys@),
                all.len() == keys.len(),
                last matches Some(l) ==> l < keys.len(),
                best matches Some(b) ==> b < j,
                best matches Some(b) ==> (last matches Some(l) ==> chars_lt(all[l as int], all[b as int])),
                forall|k: int| #![trigger all[k]] 0 <= k < j && (last matches Some(l) ==> chars_lt(all[l as int], all[k]))
                    ==> (best matches Some(b) && !chars_lt(all[k], all[b as int])),
            decreases keys.len() - j,
        {
            let above = match last {
                None => true,
                Some(l) => chars_less(&keys[l], &keys[j]),
            };
            if above {
                let better = match best {
                    None => true,
                    Some(b) => chars_less(&keys[j], &keys[b]),
                };
                if better {
                    proof {
                        assert forall|k: int| #![trigger all[k]] 0 <= k < j + 1 && (last matches Some(l) ==> chars_lt(all[l as int], all[k]))
                            implies !chars_lt(all[k], all[j as int]) by {
                            if k < j {
                                let b = best->0;
                                lemma_chars_lt_total(all[j as int], all[b as int]);
                                if chars_lt(all[k], all[j as int]) {
                                    lemma_chars_lt_transitive(all[k], all[j as int], all[b as int]);
                                }
                            } else {
                                lemma_chars_lt_irreflexive(all[k]);
                            }
                        }
                    }
                    best = Some(j);
                }
            }
            j = j + 1;
        }
        match best {
            None => {
                proof {
                    let s = chars_views(out@);
                    assert forall|x: Seq<char>| s.contains(x) <==> key_set(all).contains(x) by {
                        if key_set(all).contains(x) {
                            let k = choose|k: int| 0 <= k < all.len() && all[k] == x;
                            if last is Some {
                                let l = last->0;
                                if chars_lt(all[l as int], all[k]) {
                                    assert(false);
                                }
                            }
                        }
                    }
                    lemma_sorted_listing_is(s, key_set(all));
                }
                return out;
            },
            Some(b) => {
                let ghost old_out = chars_views(out@);
                let copy = copy_chars(&keys[b]);
                out.push(copy);
                proof {
                    let s = chars_views(out@);
                    assert(s =~= old_out.push(all[b as int]));
                    assert forall|i: int, k: int| 0 <= i < k < s.len() implies chars_lt(s[i], s[k]) by {
                        if k == s.len() - 1 && i < k {
                            if last is Some {
                                let l = last->0;
                                if i < old_out.len() - 1 {
                                    lemma_chars_lt_transitive(s[i], all[l as int], all[b as int]);
                                }
                            }
                        }
                    }
                    // `out` never lists a key twice, so it stays within the distinct keys
                    assert forall|k: int| #![trigger all[k]] 0 <= k < keys.len() && !chars_lt(all[b as int], all[k])
                        implies s.contains(all[k]) by {
                        lemma_chars_lt_total(all[k], all[b as int]);
                        if all[k] == all[b as int] {
                            assert(s[s.len() - 1] == all[k]);
                        } else {
                            if last is Some {
                                let l = last->0;
                                if chars_lt(all[l as int], all[k]) {
                                    assert(false);
                                }
                                assert(old_out.contains(all[k]));
                                let m = choose|m: int| 0 <= m < old_out.len() && old_out[m] == all[k];
                                assert(s[m] == all[k]);
                            } else {
                                assert(false);
                            }
                        }
                    }
                    lemma_listing_bounded(s, all);
                }
                last = Some(b);
            },
        }
    }
}

/// A strictly ascending listing of keys drawn from `all` is no longer than `all`.
proof fn lemma_listing_bounded(s: Seq<Seq<char>>, all: Seq<Seq<char>>)
    requires
        strictly_ascending(s),
        forall|x: Seq<char>| s.contains(x) ==> all.contains(x),
    ensures
        s.len() <= all.len(),
{
    let ss = s.to_set();
    let sa = all.to_set();
    assert(ss.subset_of(sa)) by {
        assert forall|x: Seq<char>| ss.contains(x) implies sa.contains(x) by {
            assert(s.contains(x));
        }
    }
    vstd::set_lib::lemma_len_subset(ss, sa);
    assert(s.no_duplicates()) by {
        assert forall|i: int, j: int| 0 <= i < s.len() && 0 <= j < s.len() && i != j implies s[i] != s[j] by {
            if i < j {
                lemma_chars_lt_irreflexive(s[i]);
            } else {
                lemma_chars_lt_irreflexive(s[j]);
            }
        }
    }
    s.unique_seq_to_set();
    all.lemma_cardinality_of_set();
}

// ---------------------------------------------------------------------------
// Appending text.
// ---------------------------------------------------------------------------

/// Append one character: calls std's `String::push`, whose documentation
/// says it appends the character to the end of the string; the contract
/// states exactly that of the string's characters (not proved here).
#[verifier::external_body]
pub(crate) fn push_char(out: &mut String, c: char)
    ensures
        final(out)@ == old(out)@.push(c),
{
    out.push(c);
}

/// Append a string slice.
pub fn push_str(out: &mut String, s: &str)
    ensures
        final(out)@ == old(out)@ + s@,
{
    out.append(s);
}

/// Append a character vector.
pub fn push_chars(out: &mut String, s: &Vec<char>)
    ensures
        final(out)@ == old(out)@ + s@,
{
    let mut i: usize = 0;
    while i < s.len()
        invariant
            i <= s.len(),
            out@ == old(out)@ + s@.take(i as int),
        decreases s.len() - i,
    {
        push_char(out, s[i]);
        i = i + 1;
        assert(out@ =~= old(out)@ + s@.take(i as int));
    }
    assert(s@.take(s.len() as int) =~= s@);
}

// ---------------------------------------------------------------------------
// Decimal rendering of unsigned integers (Rust's `Display` for integers).
// ---------------------------------------------------------------------------

pub open spec fn digit_char(d: nat) -> char {
    if d == 0 { '0' }
    else if d == 1 { '1' }
    else if d == 2 { '2' }
    else if d == 3 { '3' }
    else if d == 4 { '4' }
    else if d == 5 { '5' }
    else if d == 6 { '6' }
    else if d == 7 { '7' }
    else if d == 8 { '8' }
    else { '9' }
}

/// Shortest decimal numeral of `n`.
pub open spec fn decimal(n: nat) -> Seq<char>
    decreases n,
{
    if n < 10 {
        seq![digit_char(n)]
    } else {
        decimal(n / 10).push(digit_char(n % 10))
    }
}

fn digit(d: u64) -> (c: char)
    requires
        d < 10,
    ensures
        c == digit_char(d as nat),
{
    if d == 0 { '0' }
    else if d == 1 { '1' }
    else if d == 2 { '2' }
    else if d == 3 { '3' }
    else if d == 4 { '4' }
    else if d == 5 { '5' }
    else if d == 6 { '6' }
    else if d == 7 { '7' }
    else if d == 8 { '8' }
    else { '9' }
}

/// Append the decimal numeral of `n`.
pub fn push_decimal(out: &mut String, n: u64)
    ensures
        final(out)@ == old(out)@ + decimal(n as nat),
    decreases n,
{
    if n >= 10 {
        push_decimal(out, n / 10);
    }
    let c = digit(n % 10);
    push_char(out, c);
    assert(out@ =~= old(out)@ + decimal(n as nat));
}

// ---------------------------------------------------------------------------
// JSON string quoting, as serde_json writes a string.
// ---------------------------------------------------------------------------

pub open spec fn hex_lower(d: nat) -> char {
    if d < 10 { digit_char(d) }
    else if d == 10 { 'a' }
    else if d == 11 { 'b' }
    else if d == 12 { 'c' }
    else if d == 13 { 'd' }
    else if d == 14 { 'e' }
    else { 'f' }
}

/// The JSON escape of one character: `"` and `\` are backslash-escaped, the
/// control characters below U+0020 use their short escapes or `\u00XX`, and
/// every other character stands for itself.
pub open spec fn json_escape_char(c: char) -> Seq<char> {
    let n = c as u32;
    if c == '"' {
        seq!['\\', '"']
    } else if c == '\\' {
        seq!['\\', '\\']
    } else if n == 8 {
        seq!['\\', 'b']
    } else if n == 9 {
        seq!['\\', 't']
    } else if n == 10 {
        seq!['\\', 'n']
    } else if n == 12 {
        seq!['\\', 'f']
    } else if n == 13 {
        seq!['\\', 'r']
    } else if n < 32 {
        seq!['\\', 'u', '0', '0', hex_lower((n / 16) as nat), hex_lower((n % 16) as nat)]
    } else {
        seq![c]
    }
}

pub open spec fn json_escape(s: Seq<char>) -> Seq<char>
    decreases s.len(),
{
    if s.len() == 0 {
        Seq::empty()
    } else {
        json_escape(s.drop_last()) + json_escape_char(s.last())
    }
}

/// A string as a JSON string literal.
pub open spec fn json_quote(s: Seq<char>) -> Seq<char> {
    seq!['"'] + json_escape(s) + seq!['"']
}

fn hex_digit(d: u32) -> (c: char)
    requires
        d < 16,
    ensures
        c == hex_lower(d as nat),
{
    if d < 10 { digit(d as u64) }
    else if d == 10 { 'a' }
    else if d == 11 { 'b' }
    else if d == 12 { 'c' }
    else if d == 13 { 'd' }
    else if d == 14 { 'e' }
    else { 'f' }
}

fn push_escaped_char(out: &mut String, c: char)
    ensures
        final(out)@ == old(out)@ + json_escape_char(c),
{
    let n = c as u32;
    if c == '"' {
        push_char(out, '\\');
        push_char(out, '"');
    } else if c == '\\' {
        push_char(out, '\\');
        push_char(out, '\\');
    } else if n == 8 {
        push_char(out, '\\');
        push_char(out, 'b');
    } else if n == 9 {
        push_char(out, '\\');
        push_char(out, 't');
    } else if n == 10 {
        push_char(out, '\\');
        push_char(out, 'n');
    } else if n == 12 {
        push_char(out, '\\');
        push_char(out, 'f');
    } else if n == 13 {
        push_char(out, '\\');
        push_char(out, 'r');
    } else if n < 32 {
        push_char(out, '\\');
        push_char(out, 'u');
        push_char(out, '0');
        push_char(out, '0');
        let h = hex_digit(n / 16);
        push_char(out, h);
        let l = hex_digit(n % 16);
        push_char(out, l);
    } else {
        push_char(out, c);
    }
    assert(out@ =~= old(out)@ + json_escape_char(c));
}

/// Append the JSON string literal of a character sequence.
pub fn push_json_chars(out: &mut String, s: &Vec<char>)
    ensures
        final(out)@ == old(out)@ + json_quote(s@),
{
    push_char(out, '"');
    let mut i: usize = 0;
    while i < s.len()
        invariant
            i <= s.len(),
            out@ == old(out)@ + seq!['"'] + json_escape(s@.take(i as int)),
        decreases s.len() - i,
    {
        let ghost before = out@;
        push_escaped_char(out, s[i]);
        proof {
            assert(s@.take(i + 1).drop_last() =~= s@.take(i as int));
            assert(s@.take(i + 1).last() == s@[i as int]);
        }
        i = i + 1;
        assert(out@ =~= old(out)@ + seq!['"'] + json_escape(s@.take(i as int)));
    }
    assert(s@.take(s.len() as int) =~= s@);
    push_char(out, '"');
    assert(out@ =~= old(out)@ + json_quote(s@));
}

/// Append the JSON string literal of a string.
pub fn push_json_str(out: &mut String, s: &str)
    ensures
        final(out)@ == old(out)@ + json_quote(s@),
{
    let cs = chars_of(s);
    push_json_chars(out, &cs);
}

// ---------------------------------------------------------------------------
// Unicode white space (what `str::trim` removes).
// ---------------------------------------------------------------------------

/// The Unicode `White_Space` property.
pub open spec fn is_white_space(c: char) -> bool {
    let n = c as u32;
    (9 <= n <= 13) || n == 0x20 || n == 0x85 || n == 0xA0 || n == 0x1680 || (0x2000 <= n
        <= 0x200A) || n == 0x2028 || n == 0x2029 || n == 0x202F || n == 0x205F || n == 0x3000
}

/// A string that `trim` reduces to the empty string.
pub open spec fn is_blank(s: Seq<char>) -> bool {
    forall|i: int| 0 <= i < s.len() ==> is_white_space(s[i])
}

fn white_space(c: char) -> (r: bool)
    ensures
        r == is_white_space(c),
{
    let n = c as u32;
    (9 <= n && n <= 13) || n == 0x20 || n == 0x85 || n == 0xA0 || n == 0x1680 || (0x2000 <= n
        && n <= 0x200A) || n == 0x2028 || n == 0x2029 || n == 0x202F || n == 0x205F || n == 0x3000
}

/// Whether the string consists of white space only (`s.trim().is_empty()`).
pub fn blank(s: &str) -> (r: bool)
    ensures
        r == is_blank(s@),
{
    let cs = chars_of(s);
    let mut i: usize = 0;
    while i < cs.len()
        invariant
            i <= cs.len(),
            cs@ == s@,
            forall|j: int| 0 <= j < i ==> is_white_space(cs@[j]),
        decreases cs.len() - i,
    {
        if !white_space(cs[i]) {
            return false;
        }
        i = i + 1;
    }
    true
}

/// An owned copy of a string slice.
pub fn owned(s: &str) -> (r: String)
    ensures
        r@ == s@,
{
    let mut r = String::new();
    push_str(&mut r, s);
    r
}

/// A string holding the given characters.
pub fn chars_to_string(v: &Vec<char>) -> (r: String)
    ensures
        r@ == v@,
{
    let mut r = String::new();
    push_chars(&mut r, v);
    assert(r@ =~= v@);
    r
}

// ---------------------------------------------------------------------------
// Looking keys up.
// ---------------------------------------------------------------------------

/// Position of the last occurrence of `k` in `keys`, or -1.
pub open spec fn last_index_of(keys: Seq<Seq<char>>, k: Seq<char>) -> int
    decreases keys.len(),
{
    if keys.len() == 0 {
        -1
    } else if keys.last() == k {
        keys.len() - 1
    } else {
        last_index_of(keys.drop_last(), k)
    }
}

pub proof fn lemma_last_index_of(keys: Seq<Seq<char>>, k: Seq<char>)
    ensures
        -1 <= last_index_of(keys, k) < keys.len(),
        last_index_of(keys, k) >= 0 ==> keys[last_index_of(keys, k)] == k,
        last_index_of(keys, k) >= 0 <==> keys.contains(k),
    decreases keys.len(),
{
    if keys.len() > 0 {
        lemma_last_index_of(keys.drop_last(), k);
        if keys.contains(k) && keys.last() != k {
            let w = choose|w: int| 0 <= w < keys.len() && keys[w] == k;
            assert(keys.drop_last()[w] == k);
        }
        if keys.drop_last().contains(k) {
            let w = choose|w: int| 0 <= w < keys.len() - 1 && keys.drop_last()[w] == k;
            assert(keys[w] == k);
        }
        if keys.last() == k {
            assert(keys[keys.len() - 1] == k);
        }
    }
}

/// A member of the listing of two key sequences occurs in one of them.
pub proof fn lemma_listing_member(ks: Seq<Seq<char>>, s1: Seq<Seq<char>>, s2: Seq<Seq<char>>, k: Seq<char>)
    requires
        is_sorted_listing(ks, key_set(s1 + s2)),
        ks.contains(k),
    ensures
        s1.contains(k) || s2.contains(k),
{
    let all = s1 + s2;
    assert(all.contains(k));
    let w = choose|w: int| 0 <= w < all.len() && all[w] == k;
    if w < s1.len() {
        assert(s1[w] == k);
    } else {
        assert(s2[w - s1.len()] == k);
    }
}

/// Position of the last occurrence of `k` among `keys`.
pub fn find_last(keys: &Vec<Vec<char>>, k: &Vec<char>) -> (r: Option<usize>)
    ensures
        r matches Some(i) ==> i as int == last_index_of(chars_views(keys@), k@),
        r is None ==> last_index_of(chars_views(keys@), k@) < 0,
{
    let ghost v = chars_views(keys@);
    let mut last: Option<usize> = None;
    let mut i: usize = 0;
    while i < keys.len()
        invariant
            v == chars_views(keys@),
            i <= keys.len(),
            last matches Some(l) ==> l as int == last_index_of(v.take(i as int), k@),
            last is None ==> last_index_of(v.take(i as int), k@) < 0,
        decreases keys.len() - i,
    {
        proof {
            assert(v.take(i + 1).drop_last() =~= v.take(i as int));
            assert(v.take(i + 1).last() == keys@[i as int]@);
        }
        if chars_equal(&keys[i], k) {
            last = Some(i);
        }
        i = i + 1;
    }
    assert(v.take(keys.len() as int) =~= v);
    last
}

/// Append `true` or `false`.
pub fn push_bool_text(out: &mut String, b: bool)
    ensures
        final(out)@ == old(out)@ + (if b { "true"@ } else { "false"@ }),
{
    if b {
        push_str(out, "true");
    } else {
        push_str(out, "false");
    }
}

} // verus!
