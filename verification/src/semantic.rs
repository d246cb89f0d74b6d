//! Conversion of an egui-produced accessibility tree into a canonical
//! witness. The tree is held as plain values: what the conversion reads of
//! each accessibility node.
use vstd::prelude::*;

use crate::agent_text::{concat_lines, lemma_concat_lines_step};
use crate::json::{
    JsonEntry, JsonV, JsonValue, entry_views, json_view, json_wf, keys_ascending, lemma_entry_views,
    map_wf, members_wf,
};
use crate::model::{
    node_wf, witness_wf, Capture, CaptureV, Node, NodeIdentity, NodeIdentityV, NodeV, Rect, RectV, Relation, RelationV,
    Viewport, ViewportV, Witness, WitnessV, copy_json_opt, copy_rect_opt, copy_str_opt,
    json_opt_view, rect_opt_view, str_opt_view, strings_view,
};
use crate::agent_text::{node_sort_keys, relation_sort_keys};
use crate::diff::{nodes_view, relations_view};
use crate::order::{stable_order, stable_sort, tuple_views};
use crate::tree_validity::{law_converted_tree_is_valid, tree_convertible, viewport_valid};
use crate::validation::witness_issues;
use crate::text::{chars_less, chars_lt, chars_of, decimal, owned, push_char, push_decimal, push_str};

verus! {

broadcast use vstd::string::group_string_axioms;

// ---------------------------------------------------------------------------
// Ordered maps held as key-ordered member lists.
// ---------------------------------------------------------------------------

/// Position of the first member whose key is not below `k`, from `i` on.
pub open spec fn insert_position(members: Seq<(Seq<char>, JsonV)>, k: Seq<char>, i: int) -> int
    decreases members.len() - i,
{
    if i < 0 || i >= members.len() {
        members.len() as int
    } else if chars_lt(members[i].0, k) {
        insert_position(members, k, i + 1)
    } else {
        i
    }
}

/// `members` with `k` set to `v`: an existing member with that key gets the
/// new value, otherwise a member is inserted at the key's ordered position.
pub open spec fn map_insert(members: Seq<(Seq<char>, JsonV)>, k: Seq<char>, v: JsonV) -> Seq<
    (Seq<char>, JsonV),
> {
    let p = insert_position(members, k, 0);
    if p < members.len() && members[p].0 == k {
        members.update(p, (k, v))
    } else {
        members.insert(p, (k, v))
    }
}

proof fn lemma_insert_position_bounds(members: Seq<(Seq<char>, JsonV)>, k: Seq<char>, i: int)
    requires
        0 <= i <= members.len(),
    ensures
        i <= insert_position(members, k, i) <= members.len(),
    decreases members.len() - i,
{
    if i < members.len() && chars_lt(members[i].0, k) {
        lemma_insert_position_bounds(members, k, i + 1);
    }
}


proof fn lemma_insert_position_splits(m: Seq<(Seq<char>, JsonV)>, k: Seq<char>, i: int)
    requires
        keys_ascending(m),
        0 <= i <= m.len(),
        forall|j: int| 0 <= j < i ==> chars_lt(#[trigger] m[j].0, k),
    ensures
        forall|j: int| 0 <= j < insert_position(m, k, i) ==> chars_lt(#[trigger] m[j].0, k),
        forall|j: int| insert_position(m, k, i) <= j < m.len() ==> !chars_lt(#[trigger] m[j].0, k),
    decreases m.len() - i,
{
    lemma_insert_position_bounds(m, k, i);
    if i < m.len() {
        if chars_lt(m[i].0, k) {
            lemma_insert_position_splits(m, k, i + 1);
        } else {
            assert forall|j: int| i <= j < m.len() implies !chars_lt(#[trigger] m[j].0, k) by {
                if j > i && chars_lt(m[j].0, k) {
                    assert(chars_lt(m[i].0, m[j].0));
                    crate::text::lemma_chars_lt_transitive(m[i].0, m[j].0, k);
                }
            }
        }
    }
}

/// Setting a key in a key-ordered member list is a map update: the result is
/// still key-ordered, holds the key with the new value, keeps every member
/// with another key, and holds nothing else.
pub proof fn law_map_insert_sets_one_key(m: Seq<(Seq<char>, JsonV)>, k: Seq<char>, v: JsonV)
    requires
        keys_ascending(m),
    ensures
        keys_ascending(map_insert(m, k, v)),
        map_insert(m, k, v).contains((k, v)),
        forall|i: int| 0 <= i < m.len() && m[i].0 != k ==> map_insert(m, k, v).contains(#[trigger] m[i]),
        forall|j: int|
            0 <= j < map_insert(m, k, v).len() ==> (#[trigger] map_insert(m, k, v)[j]).0 == k
                || m.contains(map_insert(m, k, v)[j]),
{
    lemma_insert_position_splits(m, k, 0);
    lemma_insert_position_bounds(m, k, 0);
    let p = insert_position(m, k, 0);
    let r = map_insert(m, k, v);
    if p < m.len() && m[p].0 == k {
        assert(r == m.update(p, (k, v)));
        assert(r[p] == (k, v));
        assert forall|i: int| 0 <= i < m.len() && m[i].0 != k implies r.contains(#[trigger] m[i]) by {
            assert(r[i] == m[i]);
        }
        assert forall|j: int| 0 <= j < r.len() implies (#[trigger] r[j]).0 == k || m.contains(r[j]) by {
            if j != p {
                assert(r[j] == m[j]);
            }
        }
    } else {
        assert(r == m.insert(p, (k, v)));
        assert(r[p] == (k, v));
        assert forall|i: int, j: int| 0 <= i < j < r.len() implies chars_lt(#[trigger] r[i].0, #[trigger] r[j].0) by {
            if j < p {
                assert(r[i] == m[i] && r[j] == m[j]);
            } else if j == p {
                assert(r[i] == m[i]);
            } else {
                assert(r[j] == m[j - 1]);
                assert(!chars_lt(m[j - 1].0, k));
                if j - 1 == p {
                    crate::text::lemma_chars_lt_total(m[j - 1].0, k);
                } else {
                    assert(chars_lt(m[p].0, m[j - 1].0));
                    assert(!chars_lt(m[p].0, k));
                    crate::text::lemma_chars_lt_total(m[j - 1].0, k);
                }
                if i < p {
                    assert(r[i] == m[i]);
                    assert(chars_lt(m[i].0, k));
                    crate::text::lemma_chars_lt_transitive(m[i].0, k, m[j - 1].0);
                } else if i > p {
                    assert(r[i] == m[i - 1]);
                }
            }
        }
        assert forall|i: int| 0 <= i < m.len() && m[i].0 != k implies r.contains(#[trigger] m[i]) by {
            if i < p {
                assert(r[i] == m[i]);
            } else {
                assert(r[i + 1] == m[i]);
            }
        }
        assert forall|j: int| 0 <= j < r.len() implies (#[trigger] r[j]).0 == k || m.contains(r[j]) by {
            if j < p {
                assert(r[j] == m[j]);
            } else if j > p {
                assert(r[j] == m[j - 1]);
            }
        }
    }
}

/// Setting a well-formed value in an ordered map of well-formed values
/// gives an ordered map of well-formed values.
pub proof fn lemma_map_insert_wf(m: Seq<(Seq<char>, JsonV)>, k: Seq<char>, v: JsonV)
    requires
        map_wf(m),
        json_wf(v),
    ensures
        map_wf(map_insert(m, k, v)),
{
    law_map_insert_sets_one_key(m, k, v);
    let r = map_insert(m, k, v);
    let p = choose|p: int| 0 <= p < r.len() && r[p] == (k, v);
    assert forall|j: int| 0 <= j < r.len() implies json_wf(#[trigger] r[j].1) by {
        if r[j].0 == k {
            if j != p {
                if j < p {
                    assert(chars_lt(r[j].0, r[p].0));
                } else {
                    assert(chars_lt(r[p].0, r[j].0));
                }
                crate::text::lemma_chars_lt_irreflexive(k);
            }
        } else {
            let w = choose|w: int| 0 <= w < m.len() && m[w] == r[j];
            assert(json_wf(m[w].1));
        }
    }
}

fn key_below(a: &String, b: &Vec<char>) -> (r: bool)
    ensures
        r == chars_lt(a@, b@),
{
    let ac = chars_of(a.as_str());
    chars_less(&ac, b)
}

/// Set `key` to `value` in a key-ordered member list.
pub fn map_set(members: &mut Vec<JsonEntry>, key: String, value: JsonValue)
    ensures
        entry_views(final(members)@) == map_insert(entry_views(old(members)@), key@, value@),
        map_wf(entry_views(old(members)@)) && json_wf(value@) ==> map_wf(entry_views(final(members)@)),
{
    proof {
        if map_wf(entry_views(old(members)@)) && json_wf(value@) {
            lemma_map_insert_wf(entry_views(old(members)@), key@, value@);
        }
    }
    broadcast use lemma_entry_views;

    let ghost m = entry_views(members@);
    let kc = chars_of(key.as_str());
    let mut p: usize = 0;
    proof {
        lemma_entry_views(members@);
    }
    while p < members.len() && key_below(&members[p].key, &kc)
        invariant
            m == entry_views(members@),
            m.len() == members@.len(),
            forall|q: int| 0 <= q < m.len() ==> #[trigger] m[q].0 == members@[q].key@,
            kc@ == key@,
            p <= members.len(),
            insert_position(m, key@, p as int) == insert_position(m, key@, 0),
        decreases members.len() - p,
    {
        p = p + 1;
    }
    proof {
        if p < members.len() {
            assert(m[p as int].0 == members@[p as int].key@);
        }
    }
    proof {
        lemma_insert_position_bounds(m, key@, 0);
    }
    assert(p as int == insert_position(m, key@, 0));
    if p < members.len() && members[p].key == key {
        members.set(p, JsonEntry { key, value });
        assert(entry_views(members@) =~= m.update(p as int, (key@, value@)));
    } else {
        members.insert(p, JsonEntry { key, value });
        assert(entry_views(members@) =~= m.insert(p as int, (key@, value@)));
    }
}

// ---------------------------------------------------------------------------
// Role names.
// ---------------------------------------------------------------------------

pub open spec fn is_ascii_upper(c: char) -> bool {
    'A' <= c && c <= 'Z'
}

pub open spec fn is_ascii_lower(c: char) -> bool {
    'a' <= c && c <= 'z'
}

pub open spec fn ascii_lower(c: char) -> char {
    if is_ascii_upper(c) {
        ((c as u32) + 32) as char
    } else {
        c
    }
}

/// The snake_case rendering of the `i`-th character of a PascalCase name:
/// an uppercase letter becomes lowercase, preceded by `_` when it is not the
/// first character and a lowercase letter stands before or after it.
pub open spec fn snake_piece(cs: Seq<char>, i: int) -> Seq<char> {
    let c = cs[i];
    if is_ascii_upper(c) {
        let prev_lower = i > 0 && is_ascii_lower(cs[i - 1]);
        let next_lower = i + 1 < cs.len() && is_ascii_lower(cs[i + 1]);
        (if i > 0 && (prev_lower || next_lower) {
            seq!['_']
        } else {
            Seq::empty()
        }) + seq![ascii_lower(c)]
    } else {
        seq![c]
    }
}

pub open spec fn snake_upto(cs: Seq<char>, n: int) -> Seq<char>
    decreases n,
{
    if n <= 0 {
        Seq::empty()
    } else {
        snake_upto(cs, n - 1) + snake_piece(cs, n - 1)
    }
}

/// PascalCase to snake_case, character by character.
pub open spec fn pascal_to_snake_text(cs: Seq<char>) -> Seq<char> {
    snake_upto(cs, cs.len() as int)
}

fn upper(c: char) -> (r: bool)
    ensures
        r == is_ascii_upper(c),
{
    'A' <= c && c <= 'Z'
}

fn lower(c: char) -> (r: bool)
    ensures
        r == is_ascii_lower(c),
{
    'a' <= c && c <= 'z'
}

/// Convert a PascalCase name to snake_case.
pub fn pascal_to_snake(value: &str) -> (r: String)
    ensures
        r@ == pascal_to_snake_text(value@),
{
    let chars = chars_of(value);
    let mut out = String::new();
    let mut i: usize = 0;
    while i < chars.len()
        invariant
            chars@ == value@,
            i <= chars.len(),
            out@ == snake_upto(chars@, i as int),
        decreases chars.len() - i,
    {
        let c = chars[i];
        if upper(c) {
            let previous_is_lower = i > 0 && lower(chars[i - 1]);
            let next_is_lower = i + 1 < chars.len() && lower(chars[i + 1]);
            if i > 0 && (previous_is_lower || next_is_lower) {
                push_char(&mut out, '_');
            }
            let l = ((c as u32) + 32) as u8 as char;
            assert(l == ascii_lower(c)) by {
                assert((c as u32) + 32 < 128);
            }
            push_char(&mut out, l);
        } else {
            push_char(&mut out, c);
        }
        assert(out@ =~= snake_upto(chars@, i as int) + snake_piece(chars@, i as int));
        i = i + 1;
    }
    out
}

/// The witness role of an accessibility role, given the role's variant name:
/// its snake_case form, with a few names shortened to common web terms.
pub open spec fn role_name_text(variant: Seq<char>) -> Seq<char> {
    let raw = pascal_to_snake_text(variant);
    if raw == "generic_container"@ {
        "container"@
    } else if raw == "pane"@ {
        "panel"@
    } else if raw == "text_input"@ {
        "textbox"@
    } else if raw == "check_box"@ {
        "checkbox"@
    } else if raw == "radio_button"@ {
        "radio"@
    } else if raw == "radio_group"@ {
        "radiogroup"@
    } else if raw == "progress_indicator"@ {
        "progress"@
    } else if raw == "scroll_bar"@ {
        "scrollbar"@
    } else if raw == "spin_button"@ {
        "spinbutton"@
    } else {
        raw
    }
}

/// The witness role of an accessibility role variant name.
pub fn role_name(variant: &str) -> (r: String)
    ensures
        r@ == role_name_text(variant@),
{
    let raw = pascal_to_snake(variant);
    if raw == owned("generic_container") {
        owned("container")
    } else if raw == owned("pane") {
        owned("panel")
    } else if raw == owned("text_input") {
        owned("textbox")
    } else if raw == owned("check_box") {
        owned("checkbox")
    } else if raw == owned("radio_button") {
        owned("radio")
    } else if raw == owned("radio_group") {
        owned("radiogroup")
    } else if raw == owned("progress_indicator") {
        owned("progress")
    } else if raw == owned("scroll_bar") {
        owned("scrollbar")
    } else if raw == owned("spin_button") {
        owned("spinbutton")
    } else {
        raw
    }
}

// ---------------------------------------------------------------------------
// The accessibility tree, as the conversion reads it.
// ---------------------------------------------------------------------------

/// An action an accessibility node may support.
#[derive(Debug, Clone, Copy, PartialEq, Eq, Structural)]
pub enum NodeAction {
    Click,
    Focus,
    Blur,
    Collapse,
    Expand,
    CustomAction,
    Decrement,
    Increment,
    HideTooltip,
    ShowTooltip,
    ReplaceSelectedText,
    ScrollDown,
    ScrollLeft,
    ScrollRight,
    ScrollUp,
    ScrollIntoView,
    ScrollToPoint,
    SetScrollOffset,
    SetTextSelection,
    SetSequentialFocusNavigationStartingPoint,
    SetValue,
    ShowContextMenu,
}

/// The actions in the order a witness lists them.
pub open spec fn action_at(t: int) -> NodeAction {
    if t == 0 { NodeAction::Click }
    else if t == 1 { NodeAction::Focus }
    else if t == 2 { NodeAction::Blur }
    else if t == 3 { NodeAction::Collapse }
    else if t == 4 { NodeAction::Expand }
    else if t == 5 { NodeAction::CustomAction }
    else if t == 6 { NodeAction::Decrement }
    else if t == 7 { NodeAction::Increment }
    else if t == 8 { NodeAction::HideTooltip }
    else if t == 9 { NodeAction::ShowTooltip }
    else if t == 10 { NodeAction::ReplaceSelectedText }
    else if t == 11 { NodeAction::ScrollDown }
    else if t == 12 { NodeAction::ScrollLeft }
    else if t == 13 { NodeAction::ScrollRight }
    else if t == 14 { NodeAction::ScrollUp }
    else if t == 15 { NodeAction::ScrollIntoView }
    else if t == 16 { NodeAction::ScrollToPoint }
    else if t == 17 { NodeAction::SetScrollOffset }
    else if t == 18 { NodeAction::SetTextSelection }
    else if t == 19 { NodeAction::SetSequentialFocusNavigationStartingPoint }
    else if t == 20 { NodeAction::SetValue }
    else { NodeAction::ShowContextMenu }
}

pub open spec fn action_name(a: NodeAction) -> Seq<char> {
    match a {
        NodeAction::Click => "click"@,
        NodeAction::Focus => "focus"@,
        NodeAction::Blur => "blur"@,
        NodeAction::Collapse => "collapse"@,
        NodeAction::Expand => "expand"@,
        NodeAction::CustomAction => "custom_action"@,
        NodeAction::Decrement => "decrement"@,
        NodeAction::Increment => "increment"@,
        NodeAction::HideTooltip => "hide_tooltip"@,
        NodeAction::ShowTooltip => "show_tooltip"@,
        NodeAction::ReplaceSelectedText => "replace_selected_text"@,
        NodeAction::ScrollDown => "scroll_down"@,
        NodeAction::ScrollLeft => "scroll_left"@,
        NodeAction::ScrollRight => "scroll_right"@,
        NodeAction::ScrollUp => "scroll_up"@,
        NodeAction::ScrollIntoView => "scroll_into_view"@,
        NodeAction::ScrollToPoint => "scroll_to_point"@,
        NodeAction::SetScrollOffset => "set_scroll_offset"@,
        NodeAction::SetTextSelection => "set_text_selection"@,
        NodeAction::SetSequentialFocusNavigationStartingPoint => "set_sequential_focus_navigation_starting_point"@,
        NodeAction::SetValue => "set_value"@,
        NodeAction::ShowContextMenu => "show_context_menu"@,
    }
}

fn action_at_exec(t: usize) -> (a: NodeAction)
    ensures
        a == action_at(t as int),
{
    if t == 0 { NodeAction::Click }
    else if t == 1 { NodeAction::Focus }
    else if t == 2 { NodeAction::Blur }
    else if t == 3 { NodeAction::Collapse }
    else if t == 4 { NodeAction::Expand }
    else if t == 5 { NodeAction::CustomAction }
    else if t == 6 { NodeAction::Decrement }
    else if t == 7 { NodeAction::Increment }
    else if t == 8 { NodeAction::HideTooltip }
    else if t == 9 { NodeAction::ShowTooltip }
    else if t == 10 { NodeAction::ReplaceSelectedText }
    else if t == 11 { NodeAction::ScrollDown }
    else if t == 12 { NodeAction::ScrollLeft }
    else if t == 13 { NodeAction::ScrollRight }
    else if t == 14 { NodeAction::ScrollUp }
    else if t == 15 { NodeAction::ScrollIntoView }
    else if t == 16 { NodeAction::ScrollToPoint }
    else if t == 17 { NodeAction::SetScrollOffset }
    else if t == 18 { NodeAction::SetTextSelection }
    else if t == 19 { NodeAction::SetSequentialFocusNavigationStartingPoint }
    else if t == 20 { NodeAction::SetValue }
    else { NodeAction::ShowContextMenu }
}

impl NodeAction {
    pub fn name(self) -> (r: &'static str)
        ensures
            r@ == action_name(self),
    {
        match self {
            NodeAction::Click => "click",
            NodeAction::Focus => "focus",
            NodeAction::Blur => "blur",
            NodeAction::Collapse => "collapse",
            NodeAction::Expand => "expand",
            NodeAction::CustomAction => "custom_action",
            NodeAction::Decrement => "decrement",
            NodeAction::Increment => "increment",
            NodeAction::HideTooltip => "hide_tooltip",
            NodeAction::ShowTooltip => "show_tooltip",
            NodeAction::ReplaceSelectedText => "replace_selected_text",
            NodeAction::ScrollDown => "scroll_down",
            NodeAction::ScrollLeft => "scroll_left",
            NodeAction::ScrollRight => "scroll_right",
            NodeAction::ScrollUp => "scroll_up",
            NodeAction::ScrollIntoView => "scroll_into_view",
            NodeAction::ScrollToPoint => "scroll_to_point",
            NodeAction::SetScrollOffset => "set_scroll_offset",
            NodeAction::SetTextSelection => "set_text_selection",
            NodeAction::SetSequentialFocusNavigationStartingPoint => "set_sequential_focus_navigation_starting_point",
            NodeAction::SetValue => "set_value",
            NodeAction::ShowContextMenu => "show_context_menu",
        }
    }
}

/// Tri-state toggle of a checkbox-like node.
#[derive(Debug, Clone, Copy, PartialEq, Eq, Structural)]
pub enum Toggled {
    False,
    True,
    Mixed,
}

pub open spec fn toggled_name(t: Toggled) -> Seq<char> {
    match t {
        Toggled::False => "false"@,
        Toggled::True => "true"@,
        Toggled::Mixed => "mixed"@,
    }
}

impl Toggled {
    pub fn name(self) -> (r: &'static str)
        ensures
            r@ == toggled_name(self),
    {
        match self {
            Toggled::False => "false",
            Toggled::True => "true",
            Toggled::Mixed => "mixed",
        }
    }
}

/// What the conversion reads of one accessibility node. `role` is the
/// role's variant name; `numeric_value` is its number as JSON; `bounds`
/// are its logical bounds.
#[derive(Debug)]
pub struct SemanticNode {
    pub id: u64,
    pub role: String,
    pub children: Vec<u64>,
    pub labelled_by: Vec<u64>,
    pub described_by: Vec<u64>,
    pub controls: Vec<u64>,
    pub label: Option<String>,
    pub value: Option<String>,
    pub numeric_value: Option<JsonValue>,
    pub author_id: Option<String>,
    pub description: Option<String>,
    pub placeholder: Option<String>,
    pub keyboard_shortcut: Option<String>,
    pub busy: bool,
    pub read_only: bool,
    pub required: bool,
    pub modal: bool,
    pub clips_children: bool,
    pub hidden: bool,
    pub disabled: bool,
    pub selected: Option<bool>,
    pub expanded: Option<bool>,
    pub toggled: Option<Toggled>,
    pub transform_present: bool,
    pub actions: Vec<NodeAction>,
    pub bounds: Option<Rect>,
}

pub ghost struct SemanticNodeV {
    pub id: u64,
    pub role: Seq<char>,
    pub children: Seq<u64>,
    pub labelled_by: Seq<u64>,
    pub described_by: Seq<u64>,
    pub controls: Seq<u64>,
    pub label: Option<Seq<char>>,
    pub value: Option<Seq<char>>,
    pub numeric_value: Option<JsonV>,
    pub author_id: Option<Seq<char>>,
    pub description: Option<Seq<char>>,
    pub placeholder: Option<Seq<char>>,
    pub keyboard_shortcut: Option<Seq<char>>,
    pub busy: bool,
    pub read_only: bool,
    pub required: bool,
    pub modal: bool,
    pub clips_children: bool,
    pub hidden: bool,
    pub disabled: bool,
    pub selected: Option<bool>,
    pub expanded: Option<bool>,
    pub toggled: Option<Toggled>,
    pub transform_present: bool,
    pub actions: Seq<NodeAction>,
    pub bounds: Option<RectV>,
}

impl View for SemanticNode {
    type V = SemanticNodeV;

    open spec fn view(&self) -> SemanticNodeV {
        SemanticNodeV {
            id: self.id,
            role: self.role@,
            children: self.children@,
            labelled_by: self.labelled_by@,
            described_by: self.described_by@,
            controls: self.controls@,
            label: str_opt_view(self.label),
            value: str_opt_view(self.value),
            numeric_value: json_opt_view(self.numeric_value),
            author_id: str_opt_view(self.author_id),
            description: str_opt_view(self.description),
            placeholder: str_opt_view(self.placeholder),
            keyboard_shortcut: str_opt_view(self.keyboard_shortcut),
            busy: self.busy,
            read_only: self.read_only,
            required: self.required,
            modal: self.modal,
            clips_children: self.clips_children,
            hidden: self.hidden,
            disabled: self.disabled,
            selected: self.selected,
            expanded: self.expanded,
            toggled: self.toggled,
            transform_present: self.transform_present,
            actions: self.actions@,
            bounds: rect_opt_view(self.bounds),
        }
    }
}

/// Tree-level facts: the root node and the toolkit.
#[derive(Debug)]
pub struct TreeInfo {
    pub root: u64,
    pub toolkit_name: Option<String>,
    pub toolkit_version: Option<String>,
}

/// A complete accessibility tree as egui emits it for one frame.
/// `tree_id` is the tree identifier's debug rendering.
#[derive(Debug)]
pub struct SemanticTree {
    pub nodes: Vec<SemanticNode>,
    pub focus: u64,
    pub tree_id: String,
    pub tree: Option<TreeInfo>,
}

pub ghost struct TreeInfoV {
    pub root: u64,
    pub toolkit_name: Option<Seq<char>>,
    pub toolkit_version: Option<Seq<char>>,
}

pub ghost struct SemanticTreeV {
    pub nodes: Seq<SemanticNodeV>,
    pub focus: u64,
    pub tree_id: Seq<char>,
    pub tree: Option<TreeInfoV>,
}

impl View for SemanticTree {
    type V = SemanticTreeV;

    open spec fn view(&self) -> SemanticTreeV {
        SemanticTreeV {
            nodes: self.nodes@.map_values(|n: SemanticNode| n@),
            focus: self.focus,
            tree_id: self.tree_id@,
            tree: match self.tree {
                Some(t) => Some(
                    TreeInfoV {
                        root: t.root,
                        toolkit_name: str_opt_view(t.toolkit_name),
                        toolkit_version: str_opt_view(t.toolkit_version),
                    },
                ),
                None => None,
            },
        }
    }
}

// ---------------------------------------------------------------------------
// Conversion.
// ---------------------------------------------------------------------------

/// A witness node ID for an accessibility node ID.
pub open spec fn node_id_text(id: u64) -> Seq<char> {
    "ak:"@ + decimal(id as nat)
}

pub open spec fn id_known(nodes: Seq<SemanticNodeV>, id: u64) -> bool {
    exists|i: int| 0 <= i < nodes.len() && #[trigger] nodes[i].id == id
}

/// The first node, from position `i` on, listing `child` among its children.
pub open spec fn parent_from(nodes: Seq<SemanticNodeV>, child: u64, i: int) -> Option<u64>
    decreases nodes.len() - i,
{
    if i < 0 || i >= nodes.len() {
        None
    } else if nodes[i].children.contains(child) {
        Some(nodes[i].id)
    } else {
        parent_from(nodes, child, i + 1)
    }
}

/// Names of the supported actions, in listing order.
pub open spec fn action_names_upto(supported: Seq<NodeAction>, t: int) -> Seq<Seq<char>>
    decreases t,
{
    if t <= 0 {
        Seq::empty()
    } else {
        action_names_upto(supported, t - 1) + if supported.contains(action_at(t - 1)) {
            seq![action_name(action_at(t - 1))]
        } else {
            Seq::empty()
        }
    }
}

pub open spec fn action_names(supported: Seq<NodeAction>) -> Seq<Seq<char>> {
    action_names_upto(supported, 22)
}

pub open spec fn insert_str_opt(m: Seq<(Seq<char>, JsonV)>, k: Seq<char>, v: Option<Seq<char>>) -> Seq<
    (Seq<char>, JsonV),
> {
    match v {
        Some(s) => map_insert(m, k, JsonV::Str(s)),
        None => m,
    }
}

pub open spec fn insert_flag(m: Seq<(Seq<char>, JsonV)>, k: Seq<char>, set: bool) -> Seq<
    (Seq<char>, JsonV),
> {
    if set {
        map_insert(m, k, JsonV::Bool(true))
    } else {
        m
    }
}

/// The text properties of a node, in insertion order.
pub open spec fn text_properties(n: SemanticNodeV) -> Seq<(Seq<char>, JsonV)> {
    let m1 = insert_str_opt(Seq::empty(), "author_id"@, n.author_id);
    let m2 = insert_str_opt(m1, "description"@, n.description);
    let m3 = insert_str_opt(m2, "placeholder"@, n.placeholder);
    insert_str_opt(m3, "keyboard_shortcut"@, n.keyboard_shortcut)
}

/// All properties of a node.
pub open spec fn node_properties(n: SemanticNodeV) -> Seq<(Seq<char>, JsonV)> {
    let m5 = insert_flag(text_properties(n), "busy"@, n.busy);
    let m6 = insert_flag(m5, "read_only"@, n.read_only);
    let m7 = insert_flag(m6, "required"@, n.required);
    let m8 = insert_flag(m7, "modal"@, n.modal);
    let m9 = insert_flag(m8, "clips_children"@, n.clips_children);
    let m10 = match n.expanded {
        Some(b) => map_insert(m9, "expanded"@, JsonV::Bool(b)),
        None => m9,
    };
    let m11 = match n.toggled {
        Some(t) => map_insert(m10, "toggled"@, JsonV::Str(toggled_name(t))),
        None => m10,
    };
    insert_flag(m11, "accesskit_transform_present"@, n.transform_present)
}

/// The witness node for the `i`-th accessibility node.
pub open spec fn converted_node(nodes: Seq<SemanticNodeV>, focus: u64, i: int) -> NodeV {
    let n = nodes[i];
    let role = role_name_text(n.role);
    let actions = action_names(n.actions);
    let text = if role == "label"@ || role == "text_run"@ {
        n.value
    } else {
        None
    };
    let value = match n.numeric_value {
        Some(v) => Some(v),
        None => if text is None {
            match n.value {
                Some(s) => Some(JsonV::Str(s)),
                None => None,
            }
        } else {
            None
        },
    };
    NodeV {
        id: node_id_text(n.id),
        role,
        parent: match parent_from(nodes, n.id, 0) {
            Some(p) => Some(node_id_text(p)),
            None => None,
        },
        identity: Some(
            NodeIdentityV {
                provenance: "accesskit_node_id"@,
                stability: "structure_sensitive"@,
                author_id: n.author_id,
            },
        ),
        name: match n.label {
            Some(l) => Some(l),
            None => if n.role == "Label"@ {
                n.value
            } else {
                None
            },
        },
        bounds: n.bounds,
        visible: Some(!n.hidden),
        enabled: if n.disabled {
            Some(false)
        } else if actions.len() > 0 {
            Some(true)
        } else {
            None
        },
        focused: if n.id == focus {
            Some(true)
        } else if n.actions.contains(NodeAction::Focus) {
            Some(false)
        } else {
            None
        },
        selected: n.selected,
        text,
        value,
        actions,
        properties: node_properties(n),
    }
}

fn push_node_id(out: &mut String, id: u64)
    ensures
        final(out)@ == old(out)@ + node_id_text(id),
{
    push_str(out, "ak:");
    push_decimal(out, id);
    assert(out@ =~= old(out)@ + node_id_text(id));
}

/// The witness node ID of an accessibility node ID.
pub fn node_id_string(id: u64) -> (r: String)
    ensures
        r@ == node_id_text(id),
{
    let mut r = String::new();
    push_node_id(&mut r, id);
    assert(r@ =~= node_id_text(id));
    r
}

fn contains_id(v: &Vec<u64>, x: u64) -> (r: bool)
    ensures
        r == v@.contains(x),
{
    let mut i: usize = 0;
    while i < v.len()
        invariant
            i <= v.len(),
            forall|j: int| 0 <= j < i ==> v@[j] != x,
        decreases v.len() - i,
    {
        if v[i] == x {
            assert(v@[i as int] == x);
            return true;
        }
        i = i + 1;
    }
    false
}

fn contains_action(v: &Vec<NodeAction>, a: NodeAction) -> (r: bool)
    ensures
        r == v@.contains(a),
{
    let mut i: usize = 0;
    while i < v.len()
        invariant
            i <= v.len(),
            forall|j: int| 0 <= j < i ==> v@[j] != a,
        decreases v.len() - i,
    {
        if v[i] == a {
            assert(v@[i as int] == a);
            return true;
        }
        i = i + 1;
    }
    false
}

pub open spec fn semantic_nodes_view(v: Seq<SemanticNode>) -> Seq<SemanticNodeV> {
    v.map_values(|n: SemanticNode| n@)
}

fn is_known(nodes: &Vec<SemanticNode>, id: u64) -> (r: bool)
    ensures
        r == id_known(semantic_nodes_view(nodes@), id),
{
    let ghost v = semantic_nodes_view(nodes@);
    let mut i: usize = 0;
    while i < nodes.len()
        invariant
            v == semantic_nodes_view(nodes@),
            i <= nodes.len(),
            forall|j: int| 0 <= j < i ==> v[j].id != id,
        decreases nodes.len() - i,
    {
        assert(v[i as int] == nodes@[i as int]@);
        if nodes[i].id == id {
            assert(v[i as int].id == id);
            return true;
        }
        i = i + 1;
    }
    false
}

fn parent_of(nodes: &Vec<SemanticNode>, child: u64) -> (r: Option<u64>)
    ensures
        r == parent_from(semantic_nodes_view(nodes@), child, 0),
{
    let ghost v = semantic_nodes_view(nodes@);
    let mut i: usize = 0;
    while i < nodes.len()
        invariant
            v == semantic_nodes_view(nodes@),
            i <= nodes.len(),
            parent_from(v, child, i as int) == parent_from(v, child, 0),
        decreases nodes.len() - i,
    {
        assert(v[i as int] == nodes@[i as int]@);
        if contains_id(&nodes[i].children, child) {
            return Some(nodes[i].id);
        }
        i = i + 1;
    }
    None
}

fn supported_action_names(supported: &Vec<NodeAction>) -> (r: Vec<String>)
    ensures
        strings_view(r@) == action_names(supported@),
{
    let mut out: Vec<String> = Vec::new();
    let mut t: usize = 0;
    while t < 22
        invariant
            t <= 22,
            strings_view(out@) == action_names_upto(supported@, t as int),
        decreases 22 - t,
    {
        let a = action_at_exec(t);
        if contains_action(supported, a) {
            out.push(owned(a.name()));
        }
        t = t + 1;
        assert(strings_view(out@) =~= action_names_upto(supported@, t as int));
    }
    out
}

fn set_str_opt(members: &mut Vec<JsonEntry>, key: &str, v: &Option<String>)
    ensures
        entry_views(final(members)@) == insert_str_opt(entry_views(old(members)@), key@, str_opt_view(*v)),
{
    match v {
        Some(s) => map_set(members, owned(key), JsonValue::String(s.clone())),
        None => {},
    }
}

fn set_flag(members: &mut Vec<JsonEntry>, key: &str, set: bool)
    ensures
        entry_views(final(members)@) == insert_flag(entry_views(old(members)@), key@, set),
{
    if set {
        map_set(members, owned(key), JsonValue::Bool(true));
    }
}

fn text_property_list(n: &SemanticNode) -> (m: Vec<JsonEntry>)
    ensures
        entry_views(m@) == text_properties(n@),
{
    let mut m: Vec<JsonEntry> = Vec::new();
    assert(entry_views(m@) =~= Seq::<(Seq<char>, JsonV)>::empty());
    set_str_opt(&mut m, "author_id", &n.author_id);
    set_str_opt(&mut m, "description", &n.description);
    set_str_opt(&mut m, "placeholder", &n.placeholder);
    set_str_opt(&mut m, "keyboard_shortcut", &n.keyboard_shortcut);
    m
}

fn property_list(n: &SemanticNode) -> (m: Vec<JsonEntry>)
    ensures
        entry_views(m@) == node_properties(n@),
{
    let mut m = text_property_list(n);
    set_flag(&mut m, "busy", n.busy);
    set_flag(&mut m, "read_only", n.read_only);
    set_flag(&mut m, "required", n.required);
    set_flag(&mut m, "modal", n.modal);
    set_flag(&mut m, "clips_children", n.clips_children);
    match n.expanded {
        Some(b) => map_set(&mut m, owned("expanded"), JsonValue::Bool(b)),
        None => {},
    }
    match n.toggled {
        Some(t) => map_set(&mut m, owned("toggled"), JsonValue::String(owned(t.name()))),
        None => {},
    }
    set_flag(&mut m, "accesskit_transform_present", n.transform_present);
    m
}

/// Convert the `i`-th accessibility node.
fn convert_node(nodes: &Vec<SemanticNode>, focus: u64, i: usize) -> (r: Node)
    requires
        i < nodes.len(),
    ensures
        r@ == converted_node(semantic_nodes_view(nodes@), focus, i as int),
{
    let ghost v = semantic_nodes_view(nodes@);
    let n = &nodes[i];
    assert(v[i as int] == n@);
    let role = role_name(n.role.as_str());
    let actions = supported_action_names(&n.actions);
    let is_text_role = role == owned("label") || role == owned("text_run");
    let text = if is_text_role { copy_str_opt(&n.value) } else { None };
    let value = match &n.numeric_value {
        Some(v) => Some(v.copy()),
        None => if text.is_none() {
            match &n.value {
                Some(s) => Some(JsonValue::String(s.clone())),
                None => None,
            }
        } else {
            None
        },
    };
    let parent = match parent_of(nodes, n.id) {
        Some(p) => Some(node_id_string(p)),
        None => None,
    };
    let name = match &n.label {
        Some(l) => Some(l.clone()),
        None => if n.role == owned("Label") {
            copy_str_opt(&n.value)
        } else {
            None
        },
    };
    let enabled = if n.disabled {
        Some(false)
    } else if actions.len() > 0 {
        Some(true)
    } else {
        None
    };
    let focused = if n.id == focus {
        Some(true)
    } else if contains_action(&n.actions, NodeAction::Focus) {
        Some(false)
    } else {
        None
    };
    let properties = property_list(n);
    let r = Node {
        id: node_id_string(n.id),
        role,
        parent,
        identity: Some(
            NodeIdentity {
                provenance: owned("accesskit_node_id"),
                stability: owned("structure_sensitive"),
                author_id: copy_str_opt(&n.author_id),
            },
        ),
        name,
        bounds: copy_rect_opt(&n.bounds),
        visible: Some(!n.hidden),
        enabled,
        focused,
        selected: n.selected,
        text,
        value,
        actions,
        properties,
    };
    assert(r@ =~= converted_node(v, focus, i as int));
    r
}

pub open spec fn observed_relation(kind: Seq<char>, from: u64, to: u64) -> RelationV {
    RelationV {
        kind,
        from: node_id_text(from),
        to: node_id_text(to),
        evidence: "observed"@,
        properties: Seq::empty(),
    }
}

/// `kind` relations from each of `sources` to `target`, where both ends are
/// nodes of the tree.
pub open spec fn relations_from(
    nodes: Seq<SemanticNodeV>,
    kind: Seq<char>,
    sources: Seq<u64>,
    target: u64,
) -> Seq<RelationV>
    decreases sources.len(),
{
    if sources.len() == 0 {
        Seq::empty()
    } else {
        relations_from(nodes, kind, sources.drop_last(), target) + if id_known(nodes, sources.last())
            && id_known(nodes, target) {
            seq![observed_relation(kind, sources.last(), target)]
        } else {
            Seq::empty()
        }
    }
}

/// `kind` relations from `source` to each of `targets`, where both ends are
/// nodes of the tree.
pub open spec fn relations_to(
    nodes: Seq<SemanticNodeV>,
    kind: Seq<char>,
    source: u64,
    targets: Seq<u64>,
) -> Seq<RelationV>
    decreases targets.len(),
{
    if targets.len() == 0 {
        Seq::empty()
    } else {
        relations_to(nodes, kind, source, targets.drop_last()) + if id_known(nodes, source)
            && id_known(nodes, targets.last()) {
            seq![observed_relation(kind, source, targets.last())]
        } else {
            Seq::empty()
        }
    }
}

pub open spec fn node_relations(nodes: Seq<SemanticNodeV>, n: SemanticNodeV) -> Seq<RelationV> {
    relations_from(nodes, "labels"@, n.labelled_by, n.id) + relations_from(
        nodes,
        "describes"@,
        n.described_by,
        n.id,
    ) + relations_to(nodes, "controls"@, n.id, n.controls)
}

/// The observed relations of the first `k` nodes, in tree order.
pub open spec fn tree_relations(nodes: Seq<SemanticNodeV>, k: int) -> Seq<RelationV>
    decreases k,
{
    if k <= 0 {
        Seq::empty()
    } else {
        tree_relations(nodes, k - 1) + node_relations(nodes, nodes[k - 1])
    }
}

pub open spec fn tree_metadata(t: SemanticTreeV) -> Seq<(Seq<char>, JsonV)> {
    let m1 = map_insert(Seq::empty(), "semantic_source"@, JsonV::Str("accesskit"@));
    let m2 = map_insert(m1, "accesskit_tree_id"@, JsonV::Str(t.tree_id));
    let m3 = map_insert(m2, "accesskit_focus_id"@, JsonV::Str(node_id_text(t.focus)));
    match t.tree {
        Some(info) => {
            let m4 = map_insert(m3, "accesskit_root_id"@, JsonV::Str(node_id_text(info.root)));
            let m5 = insert_str_opt(m4, "toolkit_name"@, info.toolkit_name);
            insert_str_opt(m5, "toolkit_version"@, info.toolkit_version)
        },
        None => m3,
    }
}

pub open spec fn converted_nodes(t: SemanticTreeV) -> Seq<NodeV> {
    Seq::new(t.nodes.len(), |i: int| converted_node(t.nodes, t.focus, i))
}

/// The witness of a tree: converted nodes in stable ID order, observed
/// relations in stable (kind, from, to, evidence) order.
pub open spec fn tree_witness(t: SemanticTreeV, frame: Option<u64>, viewport: ViewportV) -> WitnessV {
    let nodes = converted_nodes(t);
    let norder = stable_order(node_sort_keys(nodes), nodes.len() as int);
    let rels = tree_relations(t.nodes, t.nodes.len() as int);
    let rorder = stable_order(relation_sort_keys(rels), rels.len() as int);
    WitnessV {
        version: "0.1"@,
        capture: CaptureV { source: "egui"@, frame, viewport, metadata: tree_metadata(t) },
        nodes: Seq::new(nodes.len(), |j: int| nodes[norder[j]]),
        relations: Seq::new(rels.len(), |j: int| rels[rorder[j]]),
    }
}

/// Capture context supplied by the egui integration.
#[derive(Debug)]
pub struct EguiCaptureContext {
    pub frame: Option<u64>,
    pub viewport: Viewport,
}

impl EguiCaptureContext {
    pub fn new(viewport: Viewport) -> (r: Self)
        ensures
            r.frame is None,
            r.viewport == viewport,
    {
        EguiCaptureContext { frame: None, viewport }
    }

    pub fn with_frame(self, frame: u64) -> (r: Self)
        ensures
            r.frame == Some(frame),
            r.viewport == self.viewport,
    {
        EguiCaptureContext { frame: Some(frame), viewport: self.viewport }
    }
}

fn push_relations_from(
    nodes: &Vec<SemanticNode>,
    kind: &str,
    sources: &Vec<u64>,
    target: u64,
    out: &mut Vec<Relation>,
)
    ensures
        relations_view(final(out)@) == relations_view(old(out)@) + relations_from(
            semantic_nodes_view(nodes@),
            kind@,
            sources@,
            target,
        ),
{
    let ghost v = semantic_nodes_view(nodes@);
    let target_known = is_known(nodes, target);
    let mut i: usize = 0;
    while i < sources.len()
        invariant
            v == semantic_nodes_view(nodes@),
            target_known == id_known(v, target),
            i <= sources.len(),
            relations_view(out@) == relations_view(old(out)@) + relations_from(
                v,
                kind@,
                sources@.take(i as int),
                target,
            ),
        decreases sources.len() - i,
    {
        proof {
            assert(sources@.take(i + 1).drop_last() =~= sources@.take(i as int));
        }
        let source = sources[i];
        let ghost prev = relations_view(out@);
        if is_known(nodes, source) && target_known {
            let r = Relation {
                kind: owned(kind),
                from: node_id_string(source),
                to: node_id_string(target),
                evidence: owned("observed"),
                properties: Vec::new(),
            };
            assert(entry_views(r.properties@) =~= Seq::<(Seq<char>, JsonV)>::empty());
            assert(r@ == observed_relation(kind@, source, target));
            out.push(r);
            assert(relations_view(out@) =~= prev.push(observed_relation(kind@, source, target)));
        }
        i = i + 1;
        assert(relations_view(out@) =~= relations_view(old(out)@) + relations_from(
            v,
            kind@,
            sources@.take(i as int),
            target,
        ));
    }
    assert(sources@.take(sources.len() as int) =~= sources@);
}

fn push_relations_to(
    nodes: &Vec<SemanticNode>,
    kind: &str,
    source: u64,
    targets: &Vec<u64>,
    out: &mut Vec<Relation>,
)
    ensures
        relations_view(final(out)@) == relations_view(old(out)@) + relations_to(
            semantic_nodes_view(nodes@),
            kind@,
            source,
            targets@,
        ),
{
    let ghost v = semantic_nodes_view(nodes@);
    let source_known = is_known(nodes, source);
    let mut i: usize = 0;
    while i < targets.len()
        invariant
            v == semantic_nodes_view(nodes@),
            source_known == id_known(v, source),
            i <= targets.len(),
            relations_view(out@) == relations_view(old(out)@) + relations_to(
                v,
                kind@,
                source,
                targets@.take(i as int),
            ),
        decreases targets.len() - i,
    {
        proof {
            assert(targets@.take(i + 1).drop_last() =~= targets@.take(i as int));
        }
        let target = targets[i];
        let ghost prev = relations_view(out@);
        if source_known && is_known(nodes, target) {
            let r = Relation {
                kind: owned(kind),
                from: node_id_string(source),
                to: node_id_string(target),
                evidence: owned("observed"),
                properties: Vec::new(),
            };
            assert(entry_views(r.properties@) =~= Seq::<(Seq<char>, JsonV)>::empty());
            assert(r@ == observed_relation(kind@, source, target));
            out.push(r);
            assert(relations_view(out@) =~= prev.push(observed_relation(kind@, source, target)));
        }
        i = i + 1;
        assert(relations_view(out@) =~= relations_view(old(out)@) + relations_to(
            v,
            kind@,
            source,
            targets@.take(i as int),
        ));
    }
    assert(targets@.take(targets.len() as int) =~= targets@);
}

fn observed_relations(nodes: &Vec<SemanticNode>) -> (r: Vec<Relation>)
    ensures
        relations_view(r@) == tree_relations(semantic_nodes_view(nodes@), nodes@.len() as int),
{
    let ghost v = semantic_nodes_view(nodes@);
    let mut out: Vec<Relation> = Vec::new();
    let mut i: usize = 0;
    while i < nodes.len()
        invariant
            v == semantic_nodes_view(nodes@),
            i <= nodes.len(),
            relations_view(out@) == tree_relations(v, i as int),
        decreases nodes.len() - i,
    {
        let n = &nodes[i];
        assert(v[i as int] == n@);
        let ghost start = relations_view(out@);
        push_relations_from(nodes, "labels", &n.labelled_by, n.id, &mut out);
        push_relations_from(nodes, "describes", &n.described_by, n.id, &mut out);
        push_relations_to(nodes, "controls", n.id, &n.controls, &mut out);
        i = i + 1;
        assert(relations_view(out@) =~= tree_relations(v, i as int));
    }
    out
}

fn tree_metadata_list(t: &SemanticTree) -> (m: Vec<JsonEntry>)
    ensures
        entry_views(m@) == tree_metadata(t@),
{
    let mut m: Vec<JsonEntry> = Vec::new();
    assert(entry_views(m@) =~= Seq::<(Seq<char>, JsonV)>::empty());
    map_set(&mut m, owned("semantic_source"), JsonValue::String(owned("accesskit")));
    map_set(&mut m, owned("accesskit_tree_id"), JsonValue::String(t.tree_id.clone()));
    map_set(&mut m, owned("accesskit_focus_id"), JsonValue::String(node_id_string(t.focus)));
    match &t.tree {
        Some(info) => {
            map_set(&mut m, owned("accesskit_root_id"), JsonValue::String(node_id_string(info.root)));
            set_str_opt(&mut m, "toolkit_name", &info.toolkit_name);
            set_str_opt(&mut m, "toolkit_version", &info.toolkit_version);
        },
        None => {},
    }
    m
}

fn id_keys(nodes: &Vec<Node>) -> (keys: Vec<Vec<Vec<char>>>)
    ensures
        tuple_views(keys@) == node_sort_keys(nodes_view(nodes@)),
        keys@.len() == nodes@.len(),
{
    let mut keys: Vec<Vec<Vec<char>>> = Vec::new();
    let mut i: usize = 0;
    while i < nodes.len()
        invariant
            i <= nodes.len(),
            keys.len() == i,
            forall|k: int| 0 <= k < i ==> crate::text::chars_views((#[trigger] keys@[k])@) == seq![nodes@[k].id@],
        decreases nodes.len() - i,
    {
        let mut key: Vec<Vec<char>> = Vec::new();
        key.push(chars_of(nodes[i].id.as_str()));
        assert(crate::text::chars_views(key@) =~= seq![nodes@[i as int].id@]);
        keys.push(key);
        i = i + 1;
    }
    assert(tuple_views(keys@) =~= node_sort_keys(nodes_view(nodes@)));
    keys
}

fn relation_order_keys(rels: &Vec<Relation>) -> (keys: Vec<Vec<Vec<char>>>)
    ensures
        tuple_views(keys@) == relation_sort_keys(relations_view(rels@)),
        keys@.len() == rels@.len(),
{
    let mut keys: Vec<Vec<Vec<char>>> = Vec::new();
    let mut i: usize = 0;
    while i < rels.len()
        invariant
            i <= rels.len(),
            keys.len() == i,
            forall|k: int|
                0 <= k < i ==> crate::text::chars_views((#[trigger] keys@[k])@) == seq![
                    rels@[k].kind@,
                    rels@[k].from@,
                    rels@[k].to@,
                    rels@[k].evidence@,
                ],
        decreases rels.len() - i,
    {
        let r = &rels[i];
        let mut key: Vec<Vec<char>> = Vec::new();
        key.push(chars_of(r.kind.as_str()));
        key.push(chars_of(r.from.as_str()));
        key.push(chars_of(r.to.as_str()));
        key.push(chars_of(r.evidence.as_str()));
        assert(crate::text::chars_views(key@) =~= seq![r.kind@, r.from@, r.to@, r.evidence@]);
        keys.push(key);
        i = i + 1;
    }
    assert(tuple_views(keys@) =~= relation_sort_keys(relations_view(rels@)));
    keys
}

/// Convert an egui-produced (complete) accessibility tree into a witness.
pub fn witness_from_egui_tree_update(update: &SemanticTree, context: EguiCaptureContext) -> (w: Witness)
    ensures
        w@ == tree_witness(update@, context.frame, context.viewport@),
        tree_values_wf(update@) ==> witness_wf(w@),
        tree_convertible(update@) && viewport_valid(context.viewport@) ==> witness_issues(w@)
            == Seq::<Seq<char>>::empty(),
{
    proof {
        if tree_values_wf(update@) {
            lemma_tree_witness_wf(update@, context.frame, context.viewport@);
        }
        if tree_convertible(update@) && viewport_valid(context.viewport@) {
            law_converted_tree_is_valid(update@, context.frame, context.viewport@);
        }
    }
    let ghost t = update@;
    // Nodes, in tree order, then by ID.
    let mut converted: Vec<Node> = Vec::new();
    let mut i: usize = 0;
    while i < update.nodes.len()
        invariant
            t == update@,
            t.nodes == semantic_nodes_view(update.nodes@),
            i <= update.nodes.len(),
            converted@.len() == i,
            forall|k: int| 0 <= k < i ==> (#[trigger] converted@[k])@ == converted_node(t.nodes, t.focus, k),
        decreases update.nodes.len() - i,
    {
        let n = convert_node(&update.nodes, update.focus, i);
        converted.push(n);
        i = i + 1;
    }
    let ghost cn = converted_nodes(t);
    assert(nodes_view(converted@) =~= cn);
    let keys = id_keys(&converted);
    let order = stable_sort(&keys);
    let ghost norder = stable_order(node_sort_keys(cn), cn.len() as int);
    let mut nodes: Vec<Node> = Vec::new();
    let mut j: usize = 0;
    while j < order.len()
        invariant
            nodes_view(converted@) == cn,
            norder == stable_order(node_sort_keys(cn), cn.len() as int),
            tuple_views(keys@) == node_sort_keys(cn),
            keys@.len() == converted@.len(),
            order@.len() == keys@.len(),
            forall|q: int| 0 <= q < order@.len() ==> order@[q] < keys@.len(),
            forall|q: int| 0 <= q < order@.len() ==> order@[q] as int == norder[q],
            j <= order.len(),
            nodes@.len() == j,
            forall|q: int| 0 <= q < j ==> (#[trigger] nodes@[q])@ == cn[norder[q]],
        decreases order.len() - j,
    {
        let k = order[j];
        assert(cn[k as int] == converted@[k as int]@);
        nodes.push(converted[k].copy());
        j = j + 1;
    }
    // Relations, in tree order, then by kind, source, target and evidence.
    let raw = observed_relations(&update.nodes);
    let ghost rels = tree_relations(t.nodes, t.nodes.len() as int);
    let rkeys = relation_order_keys(&raw);
    let rorder = stable_sort(&rkeys);
    let ghost ro = stable_order(relation_sort_keys(rels), rels.len() as int);
    let mut relations: Vec<Relation> = Vec::new();
    let mut j: usize = 0;
    while j < rorder.len()
        invariant
            relations_view(raw@) == rels,
            ro == stable_order(relation_sort_keys(rels), rels.len() as int),
            tuple_views(rkeys@) == relation_sort_keys(rels),
            rkeys@.len() == raw@.len(),
            rorder@.len() == rkeys@.len(),
            forall|q: int| 0 <= q < rorder@.len() ==> rorder@[q] < rkeys@.len(),
            forall|q: int| 0 <= q < rorder@.len() ==> rorder@[q] as int == ro[q],
            j <= rorder.len(),
            relations@.len() == j,
            forall|q: int| 0 <= q < j ==> (#[trigger] relations@[q])@ == rels[ro[q]],
        decreases rorder.len() - j,
    {
        let k = rorder[j];
        assert(rels[k as int] == raw@[k as int]@);
        relations.push(raw[k].copy());
        j = j + 1;
    }
    let metadata = tree_metadata_list(update);
    let w = Witness {
        viewwitness_version: owned("0.1"),
        capture: Capture {
            source: owned("egui"),
            frame: context.frame,
            viewport: context.viewport,
            metadata,
        },
        nodes,
        relations,
    };
    assert(w@.nodes =~= tree_witness(t, context.frame, context.viewport@).nodes);
    assert(w@.relations =~= tree_witness(t, context.frame, context.viewport@).relations);
    w
}


// ---------------------------------------------------------------------------
// Converted witnesses are well formed.
// ---------------------------------------------------------------------------

/// Every numeric value of the tree is a well-formed JSON value.
pub open spec fn tree_values_wf(t: SemanticTreeV) -> bool {
    forall|i: int|
        0 <= i < t.nodes.len() ==> match (#[trigger] t.nodes[i]).numeric_value {
            Some(v) => json_wf(v),
            None => true,
        }
}

proof fn lemma_str_opt_wf(m: Seq<(Seq<char>, JsonV)>, k: Seq<char>, v: Option<Seq<char>>)
    requires
        map_wf(m),
    ensures
        map_wf(insert_str_opt(m, k, v)),
{
    if let Some(x) = v {
        lemma_map_insert_wf(m, k, JsonV::Str(x));
    }
}

proof fn lemma_flag_wf(m: Seq<(Seq<char>, JsonV)>, k: Seq<char>, set: bool)
    requires
        map_wf(m),
    ensures
        map_wf(insert_flag(m, k, set)),
{
    if set {
        lemma_map_insert_wf(m, k, JsonV::Bool(true));
    }
}

proof fn lemma_node_properties_wf(n: SemanticNodeV)
    ensures
        map_wf(node_properties(n)),
{
    let e = Seq::<(Seq<char>, JsonV)>::empty();
    lemma_str_opt_wf(e, "author_id"@, n.author_id);
    let m1 = insert_str_opt(e, "author_id"@, n.author_id);
    lemma_str_opt_wf(m1, "description"@, n.description);
    let m2 = insert_str_opt(m1, "description"@, n.description);
    lemma_str_opt_wf(m2, "placeholder"@, n.placeholder);
    let m3 = insert_str_opt(m2, "placeholder"@, n.placeholder);
    lemma_str_opt_wf(m3, "keyboard_shortcut"@, n.keyboard_shortcut);
    let m4 = text_properties(n);
    lemma_flag_wf(m4, "busy"@, n.busy);
    let m5 = insert_flag(m4, "busy"@, n.busy);
    lemma_flag_wf(m5, "read_only"@, n.read_only);
    let m6 = insert_flag(m5, "read_only"@, n.read_only);
    lemma_flag_wf(m6, "required"@, n.required);
    let m7 = insert_flag(m6, "required"@, n.required);
    lemma_flag_wf(m7, "modal"@, n.modal);
    let m8 = insert_flag(m7, "modal"@, n.modal);
    lemma_flag_wf(m8, "clips_children"@, n.clips_children);
    let m9 = insert_flag(m8, "clips_children"@, n.clips_children);
    let m10 = match n.expanded {
        Some(b) => map_insert(m9, "expanded"@, JsonV::Bool(b)),
        None => m9,
    };
    if let Some(b) = n.expanded {
        lemma_map_insert_wf(m9, "expanded"@, JsonV::Bool(b));
    }
    let m11 = match n.toggled {
        Some(t) => map_insert(m10, "toggled"@, JsonV::Str(toggled_name(t))),
        None => m10,
    };
    if let Some(t) = n.toggled {
        lemma_map_insert_wf(m10, "toggled"@, JsonV::Str(toggled_name(t)));
    }
    lemma_flag_wf(m11, "accesskit_transform_present"@, n.transform_present);
}

pub proof fn lemma_tree_metadata_wf(t: SemanticTreeV)
    ensures
        map_wf(tree_metadata(t)),
{
    let e = Seq::<(Seq<char>, JsonV)>::empty();
    lemma_map_insert_wf(e, "semantic_source"@, JsonV::Str("accesskit"@));
    let m1 = map_insert(e, "semantic_source"@, JsonV::Str("accesskit"@));
    lemma_map_insert_wf(m1, "accesskit_tree_id"@, JsonV::Str(t.tree_id));
    let m2 = map_insert(m1, "accesskit_tree_id"@, JsonV::Str(t.tree_id));
    lemma_map_insert_wf(m2, "accesskit_focus_id"@, JsonV::Str(node_id_text(t.focus)));
    let m3 = map_insert(m2, "accesskit_focus_id"@, JsonV::Str(node_id_text(t.focus)));
    if let Some(info) = t.tree {
        lemma_map_insert_wf(m3, "accesskit_root_id"@, JsonV::Str(node_id_text(info.root)));
        let m4 = map_insert(m3, "accesskit_root_id"@, JsonV::Str(node_id_text(info.root)));
        lemma_str_opt_wf(m4, "toolkit_name"@, info.toolkit_name);
        let m5 = insert_str_opt(m4, "toolkit_name"@, info.toolkit_name);
        lemma_str_opt_wf(m5, "toolkit_version"@, info.toolkit_version);
    }
}

proof fn lemma_relations_from_plain(nodes: Seq<SemanticNodeV>, kind: Seq<char>, sources: Seq<u64>, target: u64)
    ensures
        forall|j: int|
            0 <= j < relations_from(nodes, kind, sources, target).len() ==> (#[trigger] relations_from(
                nodes,
                kind,
                sources,
                target,
            )[j]).properties.len() == 0,
    decreases sources.len(),
{
    if sources.len() > 0 {
        lemma_relations_from_plain(nodes, kind, sources.drop_last(), target);
        let p = relations_from(nodes, kind, sources.drop_last(), target);
        let r = relations_from(nodes, kind, sources, target);
        assert forall|j: int| 0 <= j < r.len() implies (#[trigger] r[j]).properties.len() == 0 by {
            if j < p.len() {
                assert(r[j] == p[j]);
            }
        }
    }
}

proof fn lemma_relations_to_plain(nodes: Seq<SemanticNodeV>, kind: Seq<char>, source: u64, targets: Seq<u64>)
    ensures
        forall|j: int|
            0 <= j < relations_to(nodes, kind, source, targets).len() ==> (#[trigger] relations_to(
                nodes,
                kind,
                source,
                targets,
            )[j]).properties.len() == 0,
    decreases targets.len(),
{
    if targets.len() > 0 {
        lemma_relations_to_plain(nodes, kind, source, targets.drop_last());
        let p = relations_to(nodes, kind, source, targets.drop_last());
        let r = relations_to(nodes, kind, source, targets);
        assert forall|j: int| 0 <= j < r.len() implies (#[trigger] r[j]).properties.len() == 0 by {
            if j < p.len() {
                assert(r[j] == p[j]);
            }
        }
    }
}

proof fn lemma_tree_relations_plain(nodes: Seq<SemanticNodeV>, k: int)
    ensures
        forall|j: int|
            0 <= j < tree_relations(nodes, k).len() ==> (#[trigger] tree_relations(nodes, k)[j]).properties.len()
                == 0,
    decreases k,
{
    if k > 0 {
        lemma_tree_relations_plain(nodes, k - 1);
        let n = nodes[k - 1];
        lemma_relations_from_plain(nodes, "labels"@, n.labelled_by, n.id);
        lemma_relations_from_plain(nodes, "describes"@, n.described_by, n.id);
        lemma_relations_to_plain(nodes, "controls"@, n.id, n.controls);
        let a = relations_from(nodes, "labels"@, n.labelled_by, n.id);
        let b = relations_from(nodes, "describes"@, n.described_by, n.id);
        let c = relations_to(nodes, "controls"@, n.id, n.controls);
        let p = tree_relations(nodes, k - 1);
        let r = tree_relations(nodes, k);
        assert(r == p + (a + b + c));
        assert forall|j: int| 0 <= j < r.len() implies (#[trigger] r[j]).properties.len() == 0 by {
            if j < p.len() {
                assert(r[j] == p[j]);
            } else if j < p.len() + a.len() {
                assert(r[j] == a[j - p.len()]);
            } else if j < p.len() + a.len() + b.len() {
                assert(r[j] == b[j - p.len() - a.len()]);
            } else {
                assert(r[j] == c[j - p.len() - a.len() - b.len()]);
            }
        }
    }
}

/// The witness of a tree whose numeric values are well formed is well formed.
pub proof fn lemma_tree_witness_wf(t: SemanticTreeV, frame: Option<u64>, viewport: ViewportV)
    requires
        tree_values_wf(t),
    ensures
        witness_wf(tree_witness(t, frame, viewport)),
{
    let w = tree_witness(t, frame, viewport);
    lemma_tree_metadata_wf(t);
    let nodes = converted_nodes(t);
    let norder = stable_order(node_sort_keys(nodes), nodes.len() as int);
    crate::order::lemma_stable_order_len_pub(node_sort_keys(nodes), nodes.len() as int);
    assert forall|i: int| 0 <= i < w.nodes.len() implies node_wf(#[trigger] w.nodes[i]) by {
        let q = norder[i];
        assert(w.nodes[i] == nodes[q]);
        lemma_node_properties_wf(t.nodes[q]);
        assert(match t.nodes[q].numeric_value {
            Some(v) => json_wf(v),
            None => true,
        });
    }
    let rels = tree_relations(t.nodes, t.nodes.len() as int);
    let rorder = stable_order(relation_sort_keys(rels), rels.len() as int);
    crate::order::lemma_stable_order_len_pub(relation_sort_keys(rels), rels.len() as int);
    lemma_tree_relations_plain(t.nodes, t.nodes.len() as int);
    assert forall|i: int| 0 <= i < w.relations.len() implies map_wf(#[trigger] w.relations[i].properties) by {
        let q = rorder[i];
        assert(w.relations[i] == rels[q]);
        assert(rels[q].properties.len() == 0);
        assert(rels[q].properties =~= Seq::<(Seq<char>, JsonV)>::empty());
    }
}

} // verus!
