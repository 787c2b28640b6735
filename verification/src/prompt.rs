//! Prompt assembly: the system and user messages for the commit pass,
//! the per-file summary pass, and the retry after a rejected message.
use vstd::prelude::*;
use crate::text::{push_str, string_from, word_views};

verus! {

/// A fully constructed prompt ready to send to the model.
pub struct Prompt {
    pub system: String,
    pub user: String,
}

/// The commit system prompt up to the scope rule.
pub const COMMIT_SYSTEM_HEAD: &'static str = "## Role\n\nYou are an expert Git commit message writer. Analyze code changes and create precise conventional commit messages.\n\n## Output Rules\n\n- ONLY output the commit message — no explanations, no preamble, no markdown\n- English only\n- Subject line: max 120 chars, imperative mood, no trailing period, lowercase after colon\n\n## Format\n\n<type>(<scope>): <subject>\n\n[optional body: explain motivation, compare old vs new behavior, note breaking changes]\n\n[optional footer: issue references]\n\n## Allowed Types\n\nfeat, fix, docs, style, refactor, perf, test, build, ci, chore, revert\n\n";

/// The commit system prompt after the scope rule.
pub const COMMIT_SYSTEM_TAIL: &'static str = "\n\n## Anti-patterns (never do)\n\n- Vague messages: \"updated files\", \"fix bug\"\n- Starting with \"This commit...\"\n- Capital letter after colon: \"feat: Add X\" (use lowercase)\n- Trailing period on subject\n- Listing changed files — describe behavior, not inventory\n- Exceeding 120 chars on subject\n\nFocus on WHY the change was made, not just WHAT changed.";

/// The scope rule when the project defines no scopes.
pub const NO_SCOPE_RULE: &'static str = "## Scope\n\nThis project defines no scopes: write the header without one, as `<type>: <subject>`.\n";

/// The scope rule for a single candidate, around the candidate's name.
pub const SINGLE_SCOPE_HEAD: &'static str = "## Scope\n\nUse the scope `";

pub const SINGLE_SCOPE_MID: &'static str = "`: write the header as `<type>(";

pub const SINGLE_SCOPE_TAIL: &'static str = "): <subject>`.";

/// The scope rule for several candidates, before the list of them.
pub const MANY_SCOPES_HEAD: &'static str = "## Scope\n\nUse the one scope below that fits the change best, as `<type>(<scope>): <subject>`; omit the scope if none fits:\n";

/// The system prompt for the per-file summary pass.
pub const SUMMARY_SYSTEM: &'static str = "## Role and Task\n\n\
    You are a code analyst producing internal change summaries.\n\
    Your output will be consumed by another model, not shown to a user.\n\n\
    ## Output Contract\n\n\
    - 1-2 sentences maximum.\n\
    - State WHAT changed and WHY if inferable from the diff.\n\
    - Mention specific identifiers: function names, type names, flag names.\n\
    - No preamble, no \"This file\", no \"The diff shows\".\n\
    - Never ask a question or express uncertainty — give your best reading.\n";

/// One `- name` line per candidate scope.
pub open spec fn scope_bullets(cs: Seq<Seq<char>>) -> Seq<char>
    decreases cs.len(),
{
    if cs.len() == 0 {
        seq![]
    } else {
        scope_bullets(cs.drop_last()) + "- "@ + cs.last() + "\n"@
    }
}

/// The scope rule for the given candidate scopes.
pub open spec fn scope_rule(cs: Seq<Seq<char>>) -> Seq<char> {
    if cs.len() == 0 {
        NO_SCOPE_RULE@
    } else if cs.len() == 1 {
        SINGLE_SCOPE_HEAD@ + cs[0] + SINGLE_SCOPE_MID@ + cs[0] + SINGLE_SCOPE_TAIL@
    } else {
        MANY_SCOPES_HEAD@ + scope_bullets(cs)
    }
}

/// The system prompt for the commit pass: the fixed rules, with the scope
/// rule on lines of its own between the allowed types and the
/// anti-patterns when it is not empty.
pub open spec fn commit_system_text(cs: Seq<Seq<char>>) -> Seq<char> {
    let rule = scope_rule(cs);
    COMMIT_SYSTEM_HEAD@ + (if rule.len() > 0 {
        "\n"@ + rule + "\n"@
    } else {
        seq![]
    }) + COMMIT_SYSTEM_TAIL@
}

pub open spec fn commit_user_text(context: Seq<char>) -> Seq<char> {
    "Please analyze the following diff and generate commit message based on the changes:\n\n"@
        + context
}

pub open spec fn summary_user_text(path: Seq<char>, diff: Seq<char>) -> Seq<char> {
    "Summarize the changes in `"@ + path + "`:\n\n"@ + diff
}

pub open spec fn retry_user_text(context: Seq<char>, original: Seq<char>, error: Seq<char>) -> Seq<
    char,
> {
    "Your previous response did not conform to the required format.\nError: "@ + error
        + "\nYour response was:\n"@ + original
        + "\n\nPlease try again and output ONLY a valid conventional commit message.\n\nDiff context:\n"@
        + context
}

fn scope_rule_chars(scope_candidates: &[&str]) -> (r: Vec<char>)
    ensures
        r@ == scope_rule(word_views(scope_candidates@)),
{
    let ghost cs = word_views(scope_candidates@);
    let n = scope_candidates.len();
    let mut v: Vec<char> = Vec::new();
    if n == 0 {
        push_str(&mut v, NO_SCOPE_RULE);
    } else if n == 1 {
        push_str(&mut v, SINGLE_SCOPE_HEAD);
        push_str(&mut v, scope_candidates[0]);
        push_str(&mut v, SINGLE_SCOPE_MID);
        push_str(&mut v, scope_candidates[0]);
        push_str(&mut v, SINGLE_SCOPE_TAIL);
    } else {
        push_str(&mut v, MANY_SCOPES_HEAD);
        let ghost head = v@;
        for i in 0..n
            invariant
                n == scope_candidates@.len(),
                cs == word_views(scope_candidates@),
                v@ == head + scope_bullets(cs.take(i as int)),
        {
            push_str(&mut v, "- ");
            push_str(&mut v, scope_candidates[i]);
            push_str(&mut v, "\n");
            proof {
                assert(cs.take(i + 1).drop_last() =~= cs.take(i as int));
                assert(cs.take(i + 1).last() == scope_candidates@[i as int]@);
            }
        }
        assert(cs.take(n as int) =~= cs);
    }
    v
}

/// System prompt for the final commit generation pass.
pub fn commit_system(scope_candidates: &[&str]) -> (r: String)
    ensures
        r@ == commit_system_text(word_views(scope_candidates@)),
{
    let rule = scope_rule_chars(scope_candidates);
    let mut v: Vec<char> = Vec::new();
    push_str(&mut v, COMMIT_SYSTEM_HEAD);
    let ghost head = v@;
    if rule.len() > 0 {
        push_str(&mut v, "\n");
        crate::text::push_all(&mut v, rule.as_slice());
        push_str(&mut v, "\n");
    }
    assert(v@ =~= head + (if rule@.len() > 0 {
        "\n"@ + rule@ + "\n"@
    } else {
        seq![]
    }));
    push_str(&mut v, COMMIT_SYSTEM_TAIL);
    string_from(v.as_slice())
}

/// User message for the final commit generation pass.
/// Kept minimal — all rules live in the system prompt.
pub fn commit_user(context: &str) -> (r: String)
    ensures
        r@ == commit_user_text(context@),
{
    let mut v: Vec<char> = Vec::new();
    push_str(
        &mut v,
        "Please analyze the following diff and generate commit message based on the changes:\n\n",
    );
    push_str(&mut v, context);
    string_from(v.as_slice())
}

pub fn build_commit_prompt(context: &str, scope_candidates: &[&str]) -> (r: Prompt)
    ensures
        r.system@ == commit_system_text(word_views(scope_candidates@)),
        r.user@ == commit_user_text(context@),
{
    Prompt { system: commit_system(scope_candidates), user: commit_user(context) }
}

// ── Per-file summarization ────────────────────────────────────────────────

/// System prompt for the cheap per-file summarization pass.
///
/// Intentionally much shorter than the commit system prompt — this pass runs
/// N times (once per file) and feeds into the commit pass, not the user.
/// Precision and brevity matter more than style enforcement here.
pub fn summary_system() -> (r: &'static str)
    ensures
        r@ == SUMMARY_SYSTEM@,
{
    SUMMARY_SYSTEM
}

/// User message for the per-file summarization pass.
pub fn summary_user(path: &str, diff: &str) -> (r: String)
    ensures
        r@ == summary_user_text(path@, diff@),
{
    let mut v: Vec<char> = Vec::new();
    push_str(&mut v, "Summarize the changes in `");
    push_str(&mut v, path);
    push_str(&mut v, "`:\n\n");
    push_str(&mut v, diff);
    string_from(v.as_slice())
}

pub fn build_file_summary_prompt(path: &str, diff: &str) -> (r: Prompt)
    ensures
        r.system@ == SUMMARY_SYSTEM@,
        r.user@ == summary_user_text(path@, diff@),
{
    let sys = crate::text::chars_of(summary_system());
    Prompt { system: string_from(sys.as_slice()), user: summary_user(path, diff) }
}

// ── Retry prompt for validation failures ──────────────────────────────────

/// Build a prompt that asks the model to retry after a validation failure.
pub fn build_retry_prompt(
    context: &str,
    scope_candidates: &[&str],
    original: &str,
    error: &str,
) -> (r: Prompt)
    ensures
        r.system@ == commit_system_text(word_views(scope_candidates@)),
        r.user@ == retry_user_text(context@, original@, error@),
{
    let system = commit_system(scope_candidates);
    let mut v: Vec<char> = Vec::new();
    push_str(&mut v, "Your previous response did not conform to the required format.\nError: ");
    push_str(&mut v, error);
    push_str(&mut v, "\nYour response was:\n");
    push_str(&mut v, original);
    push_str(
        &mut v,
        "\n\nPlease try again and output ONLY a valid conventional commit message.\n\nDiff context:\n",
    );
    push_str(&mut v, context);
    Prompt { system, user: string_from(v.as_slice()) }
}

} // verus!
