//! The correlated-diff agent text with the authored-continuity assessment
//! promoted into its header line.
use vstd::prelude::*;

use crate::agent_text::bool_text;
use crate::correlated::{CorrelatedDiffV, EguiCorrelatedDiff};
use crate::egui_agent_text::correlated_diff_text;
use crate::epistemic::{
    EguiAuthoredContinuityAssessment, EguiAuthoredContinuityStatus, assess_authored_continuity,
    continuity_assessment, continuity_status_name,
};
use crate::text::{chars_of, decimal, json_quote, push_bool_text, push_char, push_decimal, push_json_str, push_str};

verus! {

broadcast use vstd::string::group_string_axioms;

/// Position of the first line break at or after `i`, or the length.
pub open spec fn newline_from(s: Seq<char>, i: int) -> int
    decreases s.len() - i,
{
    if i >= s.len() || i < 0 {
        s.len() as int
    } else if s[i] == '\n' {
        i
    } else {
        newline_from(s, i + 1)
    }
}

/// `s` with `ins` inserted before its first line break (appended when there
/// is none).
pub open spec fn insert_before_first_newline(s: Seq<char>, ins: Seq<char>) -> Seq<char> {
    let p = newline_from(s, 0);
    s.take(p) + ins + s.skip(p)
}

proof fn lemma_newline_from_bounds(s: Seq<char>, i: int)
    requires
        0 <= i <= s.len(),
    ensures
        i <= newline_from(s, i) <= s.len(),
    decreases s.len() - i,
{
    if i < s.len() && s[i] != '\n' {
        lemma_newline_from_bounds(s, i + 1);
    }
}

/// Insert `ins` before the first line break of `text`.
pub fn insert_at_first_line_end(text: &String, ins: &String) -> (r: String)
    ensures
        r@ == insert_before_first_newline(text@, ins@),
{
    let cs = chars_of(text.as_str());
    let mut p: usize = 0;
    while p < cs.len() && cs[p] != '\n'
        invariant
            cs@ == text@,
            p <= cs.len(),
            newline_from(cs@, p as int) == newline_from(cs@, 0),
        decreases cs.len() - p,
    {
        p = p + 1;
    }
    let mut out = String::new();
    let mut i: usize = 0;
    while i < p
        invariant
            cs@ == text@,
            p <= cs.len(),
            i <= p,
            out@ == cs@.take(i as int),
        decreases p - i,
    {
        push_char(&mut out, cs[i]);
        i = i + 1;
        assert(out@ =~= cs@.take(i as int));
    }
    push_str(&mut out, ins.as_str());
    let ghost mid = out@;
    let mut i: usize = p;
    while i < cs.len()
        invariant
            cs@ == text@,
            p <= i <= cs.len(),
            out@ == mid + cs@.subrange(p as int, i as int),
        decreases cs.len() - i,
    {
        push_char(&mut out, cs[i]);
        i = i + 1;
        assert(out@ =~= mid + cs@.subrange(p as int, i as int));
    }
    assert(cs@.subrange(p as int, cs.len() as int) =~= cs@.skip(p as int));
    out
}

/// The continuity fields added to the header line.
pub open spec fn continuity_text(a: EguiAuthoredContinuityAssessment) -> Seq<char> {
    " authored_continuity="@ + json_quote(continuity_status_name(a.status))
        + " unique_attribution_blocked="@ + bool_text(
        a.status == EguiAuthoredContinuityStatus::Ambiguous,
    ) + " object_ambiguity_count="@ + decimal(a.object_ambiguity_count as nat)
        + " binding_ambiguity_count="@ + decimal(a.binding_ambiguity_count as nat)
}

/// The correlated-diff agent text with the continuity fields at the end of
/// its first line.
pub open spec fn assessed_diff_text(d: CorrelatedDiffV) -> Seq<char> {
    insert_before_first_newline(correlated_diff_text(d), continuity_text(continuity_assessment(d)))
}

/// Agent projection of a correlated diff whose header also states whether
/// duplicated authored identity blocks unique attribution.
pub fn correlated_diff_to_agent_text(diff: &EguiCorrelatedDiff) -> (text: String)
    ensures
        text@ == assessed_diff_text(diff@),
{
    let continuity = assess_authored_continuity(diff);
    let output = crate::egui_agent_text::correlated_diff_to_agent_text(diff);
    let mut fields = String::new();
    push_str(&mut fields, " authored_continuity=");
    push_json_str(&mut fields, continuity.status.name());
    push_str(&mut fields, " unique_attribution_blocked=");
    let blocked = continuity.unique_attribution_blocked();
    push_bool_text(&mut fields, blocked);
    push_str(&mut fields, " object_ambiguity_count=");
    push_decimal(&mut fields, continuity.object_ambiguity_count as u64);
    push_str(&mut fields, " binding_ambiguity_count=");
    push_decimal(&mut fields, continuity.binding_ambiguity_count as u64);
    assert(fields@ =~= continuity_text(continuity));
    insert_at_first_line_end(&output, &fields)
}

} // verus!
