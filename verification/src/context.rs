//! The context block: a spec and its build state, framed as a system prompt for an AI.
use vstd::prelude::*;
use crate::parser::EnthSpec;
use crate::text::{append_str, string_of};

verus! {

/// The preamble after the version number.
pub const PREAMBLE_TAIL: &'static str = " ===

This project uses the Enthropic specification format.
Read the spec below before generating any code.
All architectural decisions declared here are final.

RULES:
  CONTEXT    — closed world. What is not declared does not exist.
               Do not invent entities, transforms, or relationships.
  CONTRACTS  — invariants. Violations are unacceptable, no exceptions, no workarounds.
  VOCABULARY — canonical names. Use them exactly in all code, comments, file names,
               variable names, and identifiers. Never use aliases or alternatives.
  LAYERS     — ownership boundaries. Never implement logic in a layer that does not own it.
               Never cross CALLS boundaries.
  FLOWS      — ordered sequences. Execute steps in declared order. Never skip or reorder.
               On failure, execute ROLLBACK in listed order.

=== PROJECT SPEC ===

";

/// The preamble for a spec version; a spec without a version counts as `0.1.0`.
pub open spec fn preamble(version: Seq<char>) -> Seq<char> {
    "=== ENTHROPIC CONTEXT "@ + (if version.len() == 0 {
        "0.1.0"@
    } else {
        version
    }) + PREAMBLE_TAIL@
}

/// What follows the spec when a state file exists.
pub open spec fn state_section(state: Seq<char>) -> Seq<char> {
    "\n\n=== CURRENT BUILD STATE ===\n\n"@ + state
        + "\n\nOnly implement entities, flows, and layers marked PENDING or PARTIAL."@
        + "\nDo not re-implement anything marked BUILT."@
}

/// The context block: preamble, the spec file's text, then the state file's text when there is one.
pub open spec fn context_text(version: Seq<char>, spec_content: Seq<char>, state: Option<Seq<char>>) -> Seq<char> {
    preamble(version) + spec_content + match state {
        Some(st) => state_section(st),
        None => Seq::empty(),
    }
}

/// The context block of `spec`, whose file holds `spec_content`; `state_content`
/// is the text of the project's state file when it exists.
pub fn generate(spec: &EnthSpec, spec_content: &str, state_content: Option<&str>) -> (res: String)
    ensures
        res@ == context_text(
            spec@.version,
            spec_content@,
            match state_content {
                Some(s) => Some(s@),
                None => None,
            },
        ),
{
    let mut out: Vec<char> = Vec::new();
    append_str(&mut out, "=== ENTHROPIC CONTEXT ");
    if spec.version.as_str().is_empty() {
        append_str(&mut out, "0.1.0");
    } else {
        append_str(&mut out, spec.version.as_str());
    }
    append_str(&mut out, PREAMBLE_TAIL);
    append_str(&mut out, spec_content);
    if let Some(st) = state_content {
        append_str(&mut out, "\n\n=== CURRENT BUILD STATE ===\n\n");
        append_str(&mut out, st);
        append_str(&mut out, "\n\nOnly implement entities, flows, and layers marked PENDING or PARTIAL.");
        append_str(&mut out, "\nDo not re-implement anything marked BUILT.");
    }
    proof {
        let st = match state_content {
            Some(s) => Some(s@),
            None => None,
        };
        assert(out@ =~= context_text(spec@.version, spec_content@, st));
    }
    string_of(&out)
}

/// The context block holds the spec file's text and, when there is a state
/// file, its whole text, unchanged: with a state, the block is the block
/// without one, then the build-state header, the state text, and the closing
/// instructions.
pub proof fn law_context_holds_texts(version: Seq<char>, spec_content: Seq<char>, state: Seq<char>)
    ensures
        context_text(version, spec_content, None) == preamble(version) + spec_content,
        context_text(version, spec_content, Some(state)) == context_text(version, spec_content, None)
            + "\n\n=== CURRENT BUILD STATE ===\n\n"@ + state
            + "\n\nOnly implement entities, flows, and layers marked PENDING or PARTIAL."@
            + "\nDo not re-implement anything marked BUILT."@,
        context_text(version, spec_content, Some(state)).subrange(
            preamble(version).len() as int,
            (preamble(version).len() + spec_content.len()) as int,
        ) == spec_content,
        ({
            let k = (preamble(version).len() + spec_content.len() + "\n\n=== CURRENT BUILD STATE ===\n\n"@.len()) as int;
            context_text(version, spec_content, Some(state)).subrange(k, k + state.len()) == state
        }),
{
    let h = "\n\n=== CURRENT BUILD STATE ===\n\n"@;
    let t1 = "\n\nOnly implement entities, flows, and layers marked PENDING or PARTIAL."@;
    let t2 = "\nDo not re-implement anything marked BUILT."@;
    let p = preamble(version);
    assert(context_text(version, spec_content, None) =~= p + spec_content);
    let full = context_text(version, spec_content, Some(state));
    assert(full =~= p + spec_content + h + state + t1 + t2);
    assert(full.subrange(p.len() as int, (p.len() + spec_content.len()) as int) =~= spec_content);
    let k = (p.len() + spec_content.len() + h.len()) as int;
    assert(full.subrange(k, k + state.len()) =~= state);
}

} // verus!
