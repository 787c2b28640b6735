//! The lines the progress display prints when a step finishes. Names and
//! counts arrive already styled for the terminal; these functions decide
//! which line is shown and how its parts are put together.
use vstd::prelude::*;
use convert_case::Casing;
use crate::config::string_views;
use crate::diff::{Strategy, strategy_text};
use crate::text::{join, push_str, string_from};

verus! {

/// Joins strings with `sep` between each two.
pub fn join_strings(items: &[String], sep: &str) -> (r: String)
    ensures
        r@ == join(string_views(items@), sep@),
{
    let mut v: Vec<char> = Vec::new();
    let n = items.len();
    for i in 0..n
        invariant
            n == items@.len(),
            v@ == join(string_views(items@).take(i as int), sep@),
    {
        let ghost pre = string_views(items@).take(i as int);
        if i > 0 {
            push_str(&mut v, sep);
        }
        push_str(&mut v, items[i].as_str());
        proof {
            let now = string_views(items@).take(i + 1);
            assert(now.drop_last() =~= pre);
            assert(now.last() == items@[i as int]@);
            if i == 0 {
                assert(pre.len() == 0);
                assert(v@ =~= now[0]);
            }
        }
    }
    assert(string_views(items@).take(n as int) =~= string_views(items@));
    string_from(v.as_slice())
}

/// The line reporting the staged files: how many, which, and (when there
/// are any) which ones the exclusions filtered out.
pub open spec fn staging_text(count: Seq<char>, staged: Seq<Seq<char>>, excluded: Seq<Seq<char>>) -> Seq<
    char,
> {
    let base = "✔️ "@ + count + " files ("@ + join(staged, ", "@) + ") staged"@;
    if excluded.len() > 0 {
        base + " ("@ + join(excluded, ", "@) + " filtered)"@
    } else {
        base
    }
}

/// The line shown once the staged files are known.
pub fn staging_line(count: &str, staged: &[String], excluded: &[String]) -> (r: String)
    ensures
        r@ == staging_text(count@, string_views(staged@), string_views(excluded@)),
{
    let mut v: Vec<char> = Vec::new();
    push_str(&mut v, "✔️ ");
    push_str(&mut v, count);
    push_str(&mut v, " files (");
    let s = join_strings(staged, ", ");
    push_str(&mut v, s.as_str());
    push_str(&mut v, ") staged");
    if excluded.len() > 0 {
        push_str(&mut v, " (");
        let e = join_strings(excluded, ", ");
        push_str(&mut v, e.as_str());
        push_str(&mut v, " filtered)");
    }
    string_from(v.as_slice())
}

/// The line reporting scope detection: the detected scopes, else the
/// scopes available, else that the project defines none.
pub open spec fn scope_text(defined: bool, matched: Seq<Seq<char>>, unmatched: Seq<Seq<char>>) -> Seq<
    char,
> {
    if !defined {
        "⚠️ Scopes not defined"@
    } else if matched.len() > 0 {
        "✔️ Dedected scopes: "@ + join(matched, ", "@)
    } else {
        "⚠️ No scopes auto-matched. Available scopes: "@ + join(unmatched, ", "@)
    }
}

/// The line shown once scopes are matched; `defined` says whether the
/// configuration defines any scope.
pub fn scope_line(defined: bool, matched: &[String], unmatched: &[String]) -> (r: String)
    ensures
        r@ == scope_text(defined, string_views(matched@), string_views(unmatched@)),
{
    let mut v: Vec<char> = Vec::new();
    if !defined {
        push_str(&mut v, "⚠️ Scopes not defined");
    } else if matched.len() > 0 {
        push_str(&mut v, "✔️ Dedected scopes: ");
        let m = join_strings(matched, ", ");
        push_str(&mut v, m.as_str());
    } else {
        push_str(&mut v, "⚠️ No scopes auto-matched. Available scopes: ");
        let u = join_strings(unmatched, ", ");
        push_str(&mut v, u.as_str());
    }
    string_from(v.as_slice())
}

/// What `convert_case` makes of a text in `Case::Title`.
pub uninterp spec fn title_case(s: Seq<char>) -> Seq<char>;

/// `Casing::to_case(s, Case::Title)` from `convert_case`: splits the text
/// into words at the crate's default boundaries and capitalises each.
/// Claims only that the result is a function of the text.
#[verifier::external_body]
fn to_title_case(s: &str) -> (r: String)
    ensures
        r@ == title_case(s@),
{
    s.to_case(convert_case::Case::Title)
}

/// A strategy's name in title case, as the progress display shows it.
pub fn strategy_title(s: &Strategy) -> (r: String)
    ensures
        r@ == title_case(strategy_text(*s)),
{
    let name = s.to_string();
    to_title_case(name.as_str())
}

/// The line reporting the chosen strategy, from the styled title, file
/// count, character count and token count.
pub open spec fn strategy_text_line(title: Seq<char>, files: Seq<char>, chars: Seq<char>, tokens: Seq<
    char,
>) -> Seq<char> {
    "✔️ "@ + title + " strategy selected for "@ + files + " files with "@ + chars + " / "@ + tokens
}

/// The line shown once the strategy is chosen.
pub fn strategy_line(title: &str, files: &str, chars: &str, tokens: &str) -> (r: String)
    ensures
        r@ == strategy_text_line(title@, files@, chars@, tokens@),
{
    let mut v: Vec<char> = Vec::new();
    push_str(&mut v, "✔️ ");
    push_str(&mut v, title);
    push_str(&mut v, " strategy selected for ");
    push_str(&mut v, files);
    push_str(&mut v, " files with ");
    push_str(&mut v, chars);
    push_str(&mut v, " / ");
    push_str(&mut v, tokens);
    string_from(v.as_slice())
}

/// How many files a `StatOnly` context leaves out of `total`.
pub open spec fn skipped_count(total: nat, top_n: nat) -> nat {
    if total > top_n {
        (total - top_n) as nat
    } else {
        0
    }
}

/// The number of files the stat-only context omits.
pub fn skipped_files(total: usize, top_n: usize) -> (r: usize)
    ensures
        r == skipped_count(total as nat, top_n as nat),
{
    if total > top_n {
        total - top_n
    } else {
        0
    }
}

} // verus!
