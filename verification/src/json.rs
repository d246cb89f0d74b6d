//! JSON values as the witness format carries them: numbers keep their exact
//! encoding (and, for binary64 values, the decimal rendering observed with
//! them), objects keep their members in ascending key order, equality follows
//! JSON value semantics, and the compact text rendering is exact.
use vstd::prelude::*;

use crate::ieee::{f64_eq, f64_is_finite, f64_is_nan, eq64};
use crate::text::{LineText, chars_lt, decimal, json_quote, push_char, push_decimal, push_json_str, push_str};

verus! {

broadcast use vstd::string::group_string_axioms;

/// A JSON number: a non-negative integer, a negative integer, or a finite
/// binary64 value together with its shortest round-trip rendering.
#[derive(Debug)]
pub enum JsonNumber {
    PosInt(u64),
    NegInt(i64),
    Float { bits: u64, text: LineText },
}

/// One member of a JSON object.
#[derive(Debug)]
pub struct JsonEntry {
    pub key: String,
    pub value: JsonValue,
}

/// A JSON value. Object members are kept in ascending key order.
#[derive(Debug)]
pub enum JsonValue {
    Null,
    Bool(bool),
    Number(JsonNumber),
    String(String),
    Array(Vec<JsonValue>),
    Object(Vec<JsonEntry>),
}

/// Mathematical view of a JSON number.
pub ghost enum NumberV {
    PosInt(u64),
    NegInt(i64),
    Float(u64, Seq<char>),
}

/// Mathematical view of a JSON value.
pub ghost enum JsonV {
    Null,
    Bool(bool),
    Number(NumberV),
    Str(Seq<char>),
    Array(Seq<JsonV>),
    Object(Seq<(Seq<char>, JsonV)>),
}

impl View for JsonNumber {
    type V = NumberV;

    open spec fn view(&self) -> NumberV {
        match self {
            JsonNumber::PosInt(n) => NumberV::PosInt(*n),
            JsonNumber::NegInt(n) => NumberV::NegInt(*n),
            JsonNumber::Float { bits, text } => NumberV::Float(*bits, text@),
        }
    }
}

pub open spec fn json_view(v: JsonValue) -> JsonV
    decreases v,
{
    match v {
        JsonValue::Null => JsonV::Null,
        JsonValue::Bool(b) => JsonV::Bool(b),
        JsonValue::Number(n) => JsonV::Number(n@),
        JsonValue::String(s) => JsonV::Str(s@),
        JsonValue::Array(items) => {
            proof {
                assert(decreases_to!(v => items));
                assert(decreases_to!(items => items@));
            }
            JsonV::Array(json_views(items@))
        },
        JsonValue::Object(entries) => {
            proof {
                assert(decreases_to!(v => entries));
                assert(decreases_to!(entries => entries@));
            }
            JsonV::Object(entry_views(entries@))
        },
    }
}

pub open spec fn json_views(items: Seq<JsonValue>) -> Seq<JsonV>
    decreases items,
{
    if items.len() == 0 {
        Seq::empty()
    } else {
        proof {
            assert(decreases_to!(items => items[items.len() - 1]));
            assert(decreases_to!(items => items.subrange(0, items.len() - 1)));
        }
        json_views(items.subrange(0, items.len() - 1)).push(json_view(items[items.len() - 1]))
    }
}

pub open spec fn entry_views(entries: Seq<JsonEntry>) -> Seq<(Seq<char>, JsonV)>
    decreases entries,
{
    if entries.len() == 0 {
        Seq::empty()
    } else {
        proof {
            assert(decreases_to!(entries => entries[entries.len() - 1]));
            assert(decreases_to!(entries[entries.len() - 1] => entries[entries.len() - 1].value));
            assert(decreases_to!(entries => entries.subrange(0, entries.len() - 1)));
        }
        entry_views(entries.subrange(0, entries.len() - 1)).push(
            (entries[entries.len() - 1].key@, json_view(entries[entries.len() - 1].value)),
        )
    }
}

pub broadcast proof fn lemma_json_views(items: Seq<JsonValue>)
    ensures
        #[trigger] json_views(items).len() == items.len(),
        forall|i: int|
            #![trigger json_views(items)[i]]
            #![trigger items[i]]
            0 <= i < items.len() ==> json_views(items)[i] == json_view(items[i]),
    decreases items.len(),
{
    if items.len() > 0 {
        let prefix = items.subrange(0, items.len() - 1);
        lemma_json_views(prefix);
        assert forall|i: int| 0 <= i < items.len() implies json_views(items)[i] == json_view(
            #[trigger] items[i],
        ) by {
            if i < items.len() - 1 {
                assert(prefix[i] == items[i]);
            }
        }
    }
}

pub broadcast proof fn lemma_entry_views(entries: Seq<JsonEntry>)
    ensures
        #[trigger] entry_views(entries).len() == entries.len(),
        forall|i: int|
            #![trigger entry_views(entries)[i]]
            #![trigger entries[i]]
            0 <= i < entries.len() ==> entry_views(entries)[i] == (
                entries[i].key@,
                json_view(entries[i].value),
            ),
    decreases entries.len(),
{
    if entries.len() > 0 {
        let prefix = entries.subrange(0, entries.len() - 1);
        lemma_entry_views(prefix);
        assert forall|i: int| 0 <= i < entries.len() implies entry_views(entries)[i] == (
            (#[trigger] entries[i]).key@,
            json_view(entries[i].value),
        ) by {
            if i < entries.len() - 1 {
                assert(prefix[i] == entries[i]);
            }
        }
    }
}

impl View for JsonValue {
    type V = JsonV;

    open spec fn view(&self) -> JsonV {
        json_view(*self)
    }
}

// ---------------------------------------------------------------------------
// Equality with JSON value semantics.
// ---------------------------------------------------------------------------

/// Numbers are equal when they are the same kind of number with the same
/// value; binary64 values compare as `f64` does.
pub open spec fn number_eq(a: NumberV, b: NumberV) -> bool {
    match (a, b) {
        (NumberV::PosInt(x), NumberV::PosInt(y)) => x == y,
        (NumberV::NegInt(x), NumberV::NegInt(y)) => x == y,
        (NumberV::Float(x, _), NumberV::Float(y, _)) => f64_eq(x, y),
        _ => false,
    }
}

/// Equality of JSON values: member by member, numbers by value.
pub open spec fn json_eq(a: JsonV, b: JsonV) -> bool
    decreases a,
{
    match a {
        JsonV::Null => b is Null,
        JsonV::Bool(x) => b matches JsonV::Bool(y) && x == y,
        JsonV::Number(x) => b matches JsonV::Number(y) && number_eq(x, y),
        JsonV::Str(x) => b matches JsonV::Str(y) && x == y,
        JsonV::Array(xs) => b matches JsonV::Array(ys) && items_eq(xs, ys),
        JsonV::Object(xs) => b matches JsonV::Object(ys) && members_eq(xs, ys),
    }
}

/// Element-wise equality of two value sequences.
pub open spec fn items_eq(xs: Seq<JsonV>, ys: Seq<JsonV>) -> bool
    decreases xs,
{
    if xs.len() == 0 {
        ys.len() == 0
    } else {
        proof {
            assert(decreases_to!(xs => xs[xs.len() - 1]));
            assert(decreases_to!(xs => xs.subrange(0, xs.len() - 1)));
        }
        &&& ys.len() == xs.len()
        &&& items_eq(xs.subrange(0, xs.len() - 1), ys.subrange(0, ys.len() - 1))
        &&& json_eq(xs[xs.len() - 1], ys[ys.len() - 1])
    }
}

/// Member-wise equality of two member sequences (same keys, equal values).
pub open spec fn members_eq(xs: Seq<(Seq<char>, JsonV)>, ys: Seq<(Seq<char>, JsonV)>) -> bool
    decreases xs,
{
    if xs.len() == 0 {
        ys.len() == 0
    } else {
        proof {
            assert(decreases_to!(xs => xs[xs.len() - 1]));
            assert(decreases_to!(xs[xs.len() - 1] => xs[xs.len() - 1].1));
            assert(decreases_to!(xs => xs.subrange(0, xs.len() - 1)));
        }
        &&& ys.len() == xs.len()
        &&& members_eq(xs.subrange(0, xs.len() - 1), ys.subrange(0, ys.len() - 1))
        &&& xs[xs.len() - 1].0 == ys[ys.len() - 1].0
        &&& json_eq(xs[xs.len() - 1].1, ys[ys.len() - 1].1)
    }
}

pub proof fn lemma_items_eq(xs: Seq<JsonV>, ys: Seq<JsonV>)
    ensures
        items_eq(xs, ys) <==> (xs.len() == ys.len() && forall|i: int|
            0 <= i < xs.len() ==> #[trigger] json_eq(xs[i], ys[i])),
    decreases xs.len(),
{
    if xs.len() > 0 && ys.len() == xs.len() {
        let px = xs.subrange(0, xs.len() - 1);
        let py = ys.subrange(0, ys.len() - 1);
        lemma_items_eq(px, py);
        if forall|i: int| 0 <= i < xs.len() ==> #[trigger] json_eq(xs[i], ys[i]) {
            assert forall|i: int| 0 <= i < px.len() implies #[trigger] json_eq(px[i], py[i]) by {
                assert(json_eq(xs[i], ys[i]));
            }
            assert(json_eq(xs[xs.len() - 1], ys[ys.len() - 1]));
        }
        if items_eq(xs, ys) {
            assert forall|i: int| 0 <= i < xs.len() implies #[trigger] json_eq(xs[i], ys[i]) by {
                if i < xs.len() - 1 {
                    assert(json_eq(px[i], py[i]));
                }
            }
        }
    }
}

/// The `i`-th members of two member sequences agree.
pub open spec fn members_at(xs: Seq<(Seq<char>, JsonV)>, ys: Seq<(Seq<char>, JsonV)>, i: int) -> bool {
    xs[i].0 == ys[i].0 && json_eq(xs[i].1, ys[i].1)
}

pub proof fn lemma_members_eq(xs: Seq<(Seq<char>, JsonV)>, ys: Seq<(Seq<char>, JsonV)>)
    ensures
        members_eq(xs, ys) <==> (xs.len() == ys.len() && forall|i: int|
            0 <= i < xs.len() ==> #[trigger] members_at(xs, ys, i)),
    decreases xs.len(),
{
    if xs.len() > 0 && ys.len() == xs.len() {
        let px = xs.subrange(0, xs.len() - 1);
        let py = ys.subrange(0, ys.len() - 1);
        lemma_members_eq(px, py);
        if forall|i: int| 0 <= i < xs.len() ==> #[trigger] members_at(xs, ys, i) {
            assert forall|i: int| 0 <= i < px.len() implies #[trigger] members_at(px, py, i) by {
                assert(members_at(xs, ys, i));
            }
            assert(members_at(xs, ys, xs.len() - 1));
            assert(members_eq(px, py));
            assert(members_eq(xs, ys));
        }
        if members_eq(xs, ys) {
            assert forall|i: int| 0 <= i < xs.len() implies #[trigger] members_at(xs, ys, i) by {
                if i < xs.len() - 1 {
                    assert(members_at(px, py, i));
                }
            }
        }
    }
}

proof fn lemma_array_mismatch(x: Seq<JsonV>, y: Seq<JsonV>, i: int)
    requires
        0 <= i < x.len(),
        x.len() == y.len(),
        !json_eq(x[i], y[i]),
    ensures
        !json_eq(JsonV::Array(x), JsonV::Array(y)),
{
    lemma_items_eq(x, y);
}

proof fn lemma_object_mismatch(x: Seq<(Seq<char>, JsonV)>, y: Seq<(Seq<char>, JsonV)>, i: int)
    requires
        0 <= i < x.len(),
        x.len() == y.len(),
        x[i].0 != y[i].0 || !json_eq(x[i].1, y[i].1),
    ensures
        !json_eq(JsonV::Object(x), JsonV::Object(y)),
{
    lemma_members_eq(x, y);
    assert(!members_at(x, y, i));
}

fn numbers_equal(a: &JsonNumber, b: &JsonNumber) -> (r: bool)
    ensures
        r == number_eq(a@, b@),
{
    match (a, b) {
        (JsonNumber::PosInt(x), JsonNumber::PosInt(y)) => *x == *y,
        (JsonNumber::NegInt(x), JsonNumber::NegInt(y)) => *x == *y,
        (JsonNumber::Float { bits: x, .. }, JsonNumber::Float { bits: y, .. }) => eq64(*x, *y),
        _ => false,
    }
}

/// JSON value equality.
pub fn json_equal(a: &JsonValue, b: &JsonValue) -> (r: bool)
    ensures
        r == json_eq(a@, b@),
    decreases a,
{
    broadcast use lemma_json_views, lemma_entry_views;

    match a {
        JsonValue::Null => match b {
            JsonValue::Null => true,
            _ => false,
        },
        JsonValue::Bool(x) => match b {
            JsonValue::Bool(y) => *x == *y,
            _ => false,
        },
        JsonValue::Number(x) => match b {
            JsonValue::Number(y) => numbers_equal(x, y),
            _ => false,
        },
        JsonValue::String(x) => match b {
            JsonValue::String(y) => *x == *y,
            _ => false,
        },
        JsonValue::Array(xs) => match b {
            JsonValue::Array(ys) => {
                proof {
                    lemma_json_views(xs@);
                    lemma_json_views(ys@);
                }
                if xs.len() != ys.len() {
                    return false;
                }
                let mut i: usize = 0;
                while i < xs.len()
                    invariant
                        *a == JsonValue::Array(*xs),
                        *b == JsonValue::Array(*ys),
                        i <= xs.len(),
                        xs.len() == ys.len(),
                        forall|k: int| 0 <= k < i ==> json_eq(json_view(xs@[k]), json_view(ys@[k])),
                    decreases xs.len() - i,
                {
                    proof {
                        lemma_json_views(xs@);
                        lemma_json_views(ys@);
                        assert(decreases_to!(*a => (*a)->Array_0));
                        assert(decreases_to!(*xs => xs@));
                        assert(decreases_to!(xs@ => xs@[i as int]));
                    }
                    if !json_equal(&xs[i], &ys[i]) {
                        assert(!json_eq(json_views(xs@)[i as int], json_views(ys@)[i as int]));
                        assert(a@ == JsonV::Array(json_views(xs@)));
                        assert(b@ == JsonV::Array(json_views(ys@)));
                        proof {
                            lemma_array_mismatch(json_views(xs@), json_views(ys@), i as int);
                        }
                        return false;
                    }
                    i = i + 1;
                }
                proof {
                    lemma_json_views(xs@);
                    lemma_json_views(ys@);
                }
                proof {
                    lemma_items_eq(json_views(xs@), json_views(ys@));
                }
                assert(json_eq(a@, b@));
                true
            },
            _ => false,
        },
        JsonValue::Object(xs) => match b {
            JsonValue::Object(ys) => {
                proof {
                    lemma_entry_views(xs@);
                    lemma_entry_views(ys@);
                }
                if xs.len() != ys.len() {
                    return false;
                }
                let mut i: usize = 0;
                while i < xs.len()
                    invariant
                        *a == JsonValue::Object(*xs),
                        *b == JsonValue::Object(*ys),
                        i <= xs.len(),
                        xs.len() == ys.len(),
                        forall|k: int|
                            0 <= k < i ==> xs@[k].key@ == ys@[k].key@ && json_eq(
                                json_view(xs@[k].value),
                                json_view(ys@[k].value),
                            ),
                    decreases xs.len() - i,
                {
                    proof {
                        lemma_entry_views(xs@);
                        lemma_entry_views(ys@);
                        assert(decreases_to!(*a => (*a)->Object_0));
                        assert(decreases_to!(*xs => xs@));
                        assert(decreases_to!(xs@ => xs@[i as int]));
                        assert(decreases_to!(xs@[i as int] => xs@[i as int].value));
                    }
                    if xs[i].key != ys[i].key {
                        assert(entry_views(xs@)[i as int].0 != entry_views(ys@)[i as int].0);
                        assert(a@ == JsonV::Object(entry_views(xs@)));
                        assert(b@ == JsonV::Object(entry_views(ys@)));
                        proof {
                            lemma_object_mismatch(entry_views(xs@), entry_views(ys@), i as int);
                        }
                        return false;
                    }
                    if !json_equal(&xs[i].value, &ys[i].value) {
                        assert(!json_eq(entry_views(xs@)[i as int].1, entry_views(ys@)[i as int].1));
                        assert(a@ == JsonV::Object(entry_views(xs@)));
                        assert(b@ == JsonV::Object(entry_views(ys@)));
                        proof {
                            lemma_object_mismatch(entry_views(xs@), entry_views(ys@), i as int);
                        }
                        return false;
                    }
                    i = i + 1;
                }
                proof {
                    lemma_entry_views(xs@);
                    lemma_entry_views(ys@);
                }
                proof {
                    lemma_members_eq(entry_views(xs@), entry_views(ys@));
                }
                assert(json_eq(a@, b@));
                true
            },
            _ => false,
        },
    }
}

// ---------------------------------------------------------------------------
// Copies.
// ---------------------------------------------------------------------------

impl JsonNumber {
    pub fn copy(&self) -> (r: JsonNumber)
        ensures
            r@ == self@,
    {
        match self {
            JsonNumber::PosInt(n) => JsonNumber::PosInt(*n),
            JsonNumber::NegInt(n) => JsonNumber::NegInt(*n),
            JsonNumber::Float { bits, text } => JsonNumber::Float { bits: *bits, text: text.copy() },
        }
    }
}

impl JsonValue {
    /// An independent copy of this value.
    pub fn copy(&self) -> (r: JsonValue)
        ensures
            r@ == self@,
        decreases self,
    {
        broadcast use lemma_json_views, lemma_entry_views;

        match self {
            JsonValue::Null => JsonValue::Null,
            JsonValue::Bool(b) => JsonValue::Bool(*b),
            JsonValue::Number(n) => JsonValue::Number(n.copy()),
            JsonValue::String(s) => JsonValue::String(s.clone()),
            JsonValue::Array(xs) => {
                let mut out: Vec<JsonValue> = Vec::new();
                let mut i: usize = 0;
                while i < xs.len()
                    invariant
                        *self == JsonValue::Array(*xs),
                        i <= xs.len(),
                        out.len() == i,
                        forall|k: int| 0 <= k < i ==> json_view(#[trigger] out@[k]) == json_view(xs@[k]),
                    decreases xs.len() - i,
                {
                    proof {
                        assert(decreases_to!(*self => (*self)->Array_0));
                        assert(decreases_to!(*xs => xs@));
                        assert(decreases_to!(xs@ => xs@[i as int]));
                    }
                    out.push(xs[i].copy());
                    i = i + 1;
                }
                proof {
                    lemma_json_views(out@);
                    lemma_json_views(xs@);
                }
                assert(json_views(out@) =~= json_views(xs@));
                JsonValue::Array(out)
            },
            JsonValue::Object(xs) => {
                let mut out: Vec<JsonEntry> = Vec::new();
                let mut i: usize = 0;
                while i < xs.len()
                    invariant
                        *self == JsonValue::Object(*xs),
                        i <= xs.len(),
                        out.len() == i,
                        forall|k: int|
                            0 <= k < i ==> (#[trigger] out@[k]).key@ == xs@[k].key@ && json_view(
                                out@[k].value,
                            ) == json_view(xs@[k].value),
                    decreases xs.len() - i,
                {
                    proof {
                        assert(decreases_to!(*self => (*self)->Object_0));
                        assert(decreases_to!(*xs => xs@));
                        assert(decreases_to!(xs@ => xs@[i as int]));
                        assert(decreases_to!(xs@[i as int] => xs@[i as int].value));
                    }
                    let v = xs[i].value.copy();
                    out.push(JsonEntry { key: xs[i].key.clone(), value: v });
                    i = i + 1;
                }
                proof {
                    lemma_entry_views(out@);
                    lemma_entry_views(xs@);
                }
                assert(entry_views(out@) =~= entry_views(xs@));
                JsonValue::Object(out)
            },
        }
    }
}

// ---------------------------------------------------------------------------
// Compact text rendering (as `serde_json::to_string` writes a value).
// ---------------------------------------------------------------------------

pub open spec fn number_text(n: NumberV) -> Seq<char> {
    match n {
        NumberV::PosInt(v) => decimal(v as nat),
        NumberV::NegInt(v) => if v < 0 {
            seq!['-'] + decimal((-v) as nat)
        } else {
            decimal(v as nat)
        },
        NumberV::Float(_, text) => text,
    }
}

pub open spec fn json_text(v: JsonV) -> Seq<char>
    decreases v,
{
    match v {
        JsonV::Null => seq!['n', 'u', 'l', 'l'],
        JsonV::Bool(b) => if b { seq!['t', 'r', 'u', 'e'] } else { seq!['f', 'a', 'l', 's', 'e'] },
        JsonV::Number(n) => number_text(n),
        JsonV::Str(s) => json_quote(s),
        JsonV::Array(xs) => seq!['['] + items_text(xs) + seq![']'],
        JsonV::Object(xs) => seq!['{'] + members_text(xs) + seq!['}'],
    }
}

/// Comma-separated renderings of a sequence of values.
pub open spec fn items_text(xs: Seq<JsonV>) -> Seq<char>
    decreases xs,
{
    if xs.len() == 0 {
        Seq::empty()
    } else {
        proof {
            assert(decreases_to!(xs => xs[xs.len() - 1]));
            assert(decreases_to!(xs => xs.subrange(0, xs.len() - 1)));
        }
        let head = items_text(xs.subrange(0, xs.len() - 1));
        let sep = if xs.len() == 1 { Seq::empty() } else { seq![','] };
        head + sep + json_text(xs[xs.len() - 1])
    }
}

/// Comma-separated `"key":value` renderings of object members.
pub open spec fn members_text(xs: Seq<(Seq<char>, JsonV)>) -> Seq<char>
    decreases xs,
{
    if xs.len() == 0 {
        Seq::empty()
    } else {
        proof {
            assert(decreases_to!(xs => xs[xs.len() - 1]));
            assert(decreases_to!(xs[xs.len() - 1] => xs[xs.len() - 1].1));
            assert(decreases_to!(xs => xs.subrange(0, xs.len() - 1)));
        }
        let head = members_text(xs.subrange(0, xs.len() - 1));
        let sep = if xs.len() == 1 { Seq::empty() } else { seq![','] };
        head + sep + json_quote(xs[xs.len() - 1].0) + seq![':'] + json_text(xs[xs.len() - 1].1)
    }
}

fn push_number(out: &mut String, n: &JsonNumber)
    ensures
        final(out)@ == old(out)@ + number_text(n@),
{
    match n {
        JsonNumber::PosInt(v) => push_decimal(out, *v),
        JsonNumber::NegInt(v) => {
            if *v >= 0 {
                push_decimal(out, *v as u64);
            } else {
                push_char(out, '-');
                let magnitude: u64 = if *v == i64::MIN {
                    0x8000_0000_0000_0000u64
                } else {
                    (0 - *v) as u64
                };
                push_decimal(out, magnitude);
                assert(out@ =~= old(out)@ + number_text(n@));
            }
        },
        JsonNumber::Float { text, .. } => push_str(out, text.as_str()),
    }
}

/// Append the compact JSON rendering of a value.
pub fn write_json(out: &mut String, v: &JsonValue)
    ensures
        final(out)@ == old(out)@ + json_text(v@),
    decreases v,
{
    broadcast use lemma_json_views, lemma_entry_views;

    match v {
        JsonValue::Null => {
            push_str(out, "null");
            proof { reveal_strlit("null"); }
            assert(out@ =~= old(out)@ + json_text(v@));
        },
        JsonValue::Bool(b) => {
            if *b {
                push_str(out, "true");
                proof { reveal_strlit("true"); }
            } else {
                push_str(out, "false");
                proof { reveal_strlit("false"); }
            }
            assert(out@ =~= old(out)@ + json_text(v@));
        },
        JsonValue::Number(n) => push_number(out, n),
        JsonValue::String(s) => push_json_str(out, s.as_str()),
        JsonValue::Array(xs) => {
            push_char(out, '[');
            let ghost views = json_views(xs@);
            let mut i: usize = 0;
            while i < xs.len()
                invariant
                    *v == JsonValue::Array(*xs),
                    views == json_views(xs@),
                    views.len() == xs.len(),
                    i <= xs.len(),
                    out@ == old(out)@ + seq!['['] + items_text(views.take(i as int)),
                decreases xs.len() - i,
            {
                proof {
                    assert(decreases_to!(*v => (*v)->Array_0));
                    assert(decreases_to!(*xs => xs@));
                    assert(decreases_to!(xs@ => xs@[i as int]));
                }
                if i > 0 {
                    push_char(out, ',');
                }
                write_json(out, &xs[i]);
                proof {
                    lemma_json_views(xs@);
                    let t = views.take(i + 1);
                    assert(t.subrange(0, t.len() - 1) =~= views.take(i as int));
                    assert(t[t.len() - 1] == views[i as int]);
                    assert(views[i as int] == xs@[i as int]@);
                }
                i = i + 1;
                assert(out@ =~= old(out)@ + seq!['['] + items_text(views.take(i as int)));
            }
            assert(views.take(xs.len() as int) =~= views);
            push_char(out, ']');
            assert(out@ =~= old(out)@ + json_text(v@));
        },
        JsonValue::Object(xs) => {
            push_char(out, '{');
            let ghost views = entry_views(xs@);
            let mut i: usize = 0;
            while i < xs.len()
                invariant
                    *v == JsonValue::Object(*xs),
                    views == entry_views(xs@),
                    views.len() == xs.len(),
                    i <= xs.len(),
                    out@ == old(out)@ + seq!['{'] + members_text(views.take(i as int)),
                decreases xs.len() - i,
            {
                proof {
                    assert(decreases_to!(*v => (*v)->Object_0));
                    assert(decreases_to!(*xs => xs@));
                    assert(decreases_to!(xs@ => xs@[i as int]));
                    assert(decreases_to!(xs@[i as int] => xs@[i as int].value));
                }
                if i > 0 {
                    push_char(out, ',');
                }
                push_json_str(out, xs[i].key.as_str());
                push_char(out, ':');
                write_json(out, &xs[i].value);
                proof {
                    lemma_entry_views(xs@);
                    let t = views.take(i + 1);
                    assert(t.subrange(0, t.len() - 1) =~= views.take(i as int));
                    assert(t[t.len() - 1] == views[i as int]);
                    assert(views[i as int].0 == xs@[i as int].key@);
                    assert(views[i as int].1 == xs@[i as int].value@);
                }
                i = i + 1;
                assert(out@ =~= old(out)@ + seq!['{'] + members_text(views.take(i as int)));
            }
            assert(views.take(xs.len() as int) =~= views);
            push_char(out, '}');
            assert(out@ =~= old(out)@ + json_text(v@));
        },
    }
}

/// The compact JSON rendering of a value.
pub fn json_string(v: &JsonValue) -> (r: String)
    ensures
        r@ == json_text(v@),
{
    let mut out = String::new();
    write_json(&mut out, v);
    assert(out@ =~= json_text(v@));
    out
}

// ---------------------------------------------------------------------------
// Well-formed values: every number is a real number.
// ---------------------------------------------------------------------------

/// No binary64 number of the value is a NaN (as serde_json guarantees).
pub open spec fn json_finite(v: JsonV) -> bool
    decreases v,
{
    match v {
        JsonV::Number(NumberV::Float(bits, _)) => !f64_is_nan(bits),
        JsonV::Array(xs) => items_finite(xs),
        JsonV::Object(xs) => members_finite(xs),
        _ => true,
    }
}

pub open spec fn items_finite(xs: Seq<JsonV>) -> bool
    decreases xs,
{
    if xs.len() == 0 {
        true
    } else {
        proof {
            assert(decreases_to!(xs => xs[xs.len() - 1]));
            assert(decreases_to!(xs => xs.subrange(0, xs.len() - 1)));
        }
        items_finite(xs.subrange(0, xs.len() - 1)) && json_finite(xs[xs.len() - 1])
    }
}

pub open spec fn members_finite(xs: Seq<(Seq<char>, JsonV)>) -> bool
    decreases xs,
{
    if xs.len() == 0 {
        true
    } else {
        proof {
            assert(decreases_to!(xs => xs[xs.len() - 1]));
            assert(decreases_to!(xs[xs.len() - 1] => xs[xs.len() - 1].1));
            assert(decreases_to!(xs => xs.subrange(0, xs.len() - 1)));
        }
        members_finite(xs.subrange(0, xs.len() - 1)) && json_finite(xs[xs.len() - 1].1)
    }
}

/// A value with no NaN equals itself.
pub proof fn lemma_json_eq_refl(v: JsonV)
    requires
        json_finite(v),
    ensures
        json_eq(v, v),
    decreases v,
{
    match v {
        JsonV::Array(xs) => {
            assert(decreases_to!(v => xs));
            lemma_items_eq_refl(xs);
        },
        JsonV::Object(xs) => {
            assert(decreases_to!(v => xs));
            lemma_members_eq_refl(xs);
        },
        _ => {},
    }
}

pub proof fn lemma_items_eq_refl(xs: Seq<JsonV>)
    requires
        items_finite(xs),
    ensures
        items_eq(xs, xs),
    decreases xs,
{
    if xs.len() > 0 {
        assert(decreases_to!(xs => xs[xs.len() - 1]));
        assert(decreases_to!(xs => xs.subrange(0, xs.len() - 1)));
        lemma_items_eq_refl(xs.subrange(0, xs.len() - 1));
        lemma_json_eq_refl(xs[xs.len() - 1]);
    }
}

pub proof fn lemma_members_eq_refl(xs: Seq<(Seq<char>, JsonV)>)
    requires
        members_finite(xs),
    ensures
        members_eq(xs, xs),
    decreases xs,
{
    if xs.len() > 0 {
        assert(decreases_to!(xs => xs[xs.len() - 1]));
        assert(decreases_to!(xs[xs.len() - 1] => xs[xs.len() - 1].1));
        assert(decreases_to!(xs => xs.subrange(0, xs.len() - 1)));
        lemma_members_eq_refl(xs.subrange(0, xs.len() - 1));
        lemma_json_eq_refl(xs[xs.len() - 1].1);
    }
}


/// Member keys strictly ascending (so each key occurs once), as in an
/// ordered map.
pub open spec fn keys_ascending(m: Seq<(Seq<char>, JsonV)>) -> bool {
    forall|i: int, j: int| 0 <= i < j < m.len() ==> chars_lt(#[trigger] m[i].0, #[trigger] m[j].0)
}

/// The values a JSON value can hold: objects are ordered maps (keys strictly
/// ascending) and every binary64 number is finite.
pub open spec fn json_wf(v: JsonV) -> bool
    decreases v,
{
    match v {
        JsonV::Number(NumberV::Float(bits, _)) => f64_is_finite(bits),
        JsonV::Array(xs) => forall|i: int| 0 <= i < xs.len() ==> json_wf(#[trigger] xs[i]),
        JsonV::Object(xs) => keys_ascending(xs) && members_wf(xs),
        _ => true,
    }
}

/// Every member value is well formed.
pub open spec fn members_wf(xs: Seq<(Seq<char>, JsonV)>) -> bool
    decreases xs,
{
    forall|i: int| 0 <= i < xs.len() ==> json_wf(#[trigger] xs[i].1)
}

/// An ordered map of well-formed values.
pub open spec fn map_wf(xs: Seq<(Seq<char>, JsonV)>) -> bool {
    keys_ascending(xs) && members_wf(xs)
}

} // verus!
