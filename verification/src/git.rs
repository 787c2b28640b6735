//! What the library decides around git: which scopes the staged files
//! fall under, the pathspecs that exclude files, which staged files the
//! exclusions filtered out, and whether there is anything to describe.
use vstd::prelude::*;
use crate::config::{ScopeEntry, scope_patterns, string_views};
use crate::strmap::{StrMap, keys_of, strictly_sorted};
use crate::text::lex_lt;
use crate::text::{chars_of, is_blank, push_str, same_chars, split_lines, string_from, trim, trimmed, views, lines, word_views, lemma_trim_start_blank, lemma_trim_end_blank, trim_start};

verus! {

#[verifier::external_type_specification]
#[verifier::external_body]
pub struct ExPattern(glob::Pattern);

/// Whether `glob::Pattern::new` accepts a pattern.
pub uninterp spec fn glob_is_valid(pattern: Seq<char>) -> bool;

/// Whether the glob pattern (compiled by `glob::Pattern::new`) matches a
/// path under `Pattern::matches`, that is with default match options.
pub uninterp spec fn glob_matches(pattern: Seq<char>, path: Seq<char>) -> bool;

/// A glob pattern compiled from the text it keeps.
pub struct CompiledGlob {
    source: String,
    pattern: glob::Pattern,
}

impl CompiledGlob {
    /// The text the pattern was compiled from.
    pub closed spec fn source(&self) -> Seq<char> {
        self.source@
    }
}

/// Compiles a pattern with `glob::Pattern::new`, keeping its text beside
/// it. Claims that whether it compiles is a function of the text.
#[verifier::external_body]
fn compile_glob(pattern: &str) -> (r: Option<CompiledGlob>)
    ensures
        r is Some <==> glob_is_valid(pattern@),
        r matches Some(g) ==> g.source() == pattern@,
{
    match glob::Pattern::new(pattern) {
        Ok(p) => Some(CompiledGlob { source: pattern.to_string(), pattern: p }),
        Err(_) => None,
    }
}

/// `glob::Pattern::matches`: whether the compiled pattern matches `path`.
/// Claims that the answer is a function of the pattern's text and the path
/// (a `CompiledGlob` is only made by `compile_glob`, from its own text).
#[verifier::external_body]
fn glob_match(g: &CompiledGlob, path: &str) -> (r: bool)
    ensures
        r == glob_matches(g.source(), path@),
{
    g.pattern.matches(path)
}

// ── Scope detection ───────────────────────────────────────────────────────

/// Result of matching staged files against project scope definitions.
#[derive(Debug, Default)]
pub struct ScopeMatch {
    /// Scopes whose path globs matched at least one staged file.
    pub matched: Vec<String>,
    /// Scopes defined in the config that matched nothing, including those
    /// with no path patterns (manual-only).
    pub unmatched: Vec<String>,
}

/// Some valid pattern of the list matches some file.
pub open spec fn scope_hit(patterns: Seq<Seq<char>>, files: Seq<Seq<char>>) -> bool {
    exists|i: int, j: int|
        0 <= i < patterns.len() && 0 <= j < files.len() && glob_is_valid(#[trigger] patterns[i])
            && glob_matches(patterns[i], #[trigger] files[j])
}

/// A scope matches when it has patterns and one of them matches a staged
/// file.
pub open spec fn scope_is_matched(e: ScopeEntry, files: Seq<Seq<char>>) -> bool {
    scope_patterns(e).len() > 0 && scope_hit(scope_patterns(e), files)
}

/// The names of the scopes that match, in name order.
pub open spec fn matched_scopes(ps: Seq<(Seq<char>, ScopeEntry)>, files: Seq<Seq<char>>) -> Seq<
    Seq<char>,
> {
    keys_of(ps.filter(|p: (Seq<char>, ScopeEntry)| scope_is_matched(p.1, files)))
}

/// The names of the scopes that do not match, in name order.
pub open spec fn unmatched_scopes(ps: Seq<(Seq<char>, ScopeEntry)>, files: Seq<Seq<char>>) -> Seq<
    Seq<char>,
> {
    keys_of(ps.filter(|p: (Seq<char>, ScopeEntry)| !scope_is_matched(p.1, files)))
}

impl ScopeMatch {
    /// Best guess for the prompt: matched scopes first, else all defined
    /// scopes that did not match.
    pub fn best_candidates(&self) -> (r: Vec<&str>)
        ensures
            word_views(r@) == if self.matched@.len() > 0 {
                string_views(self.matched@)
            } else {
                string_views(self.unmatched@)
            },
    {
        let src: &Vec<String> = if self.matched.len() > 0 {
            &self.matched
        } else {
            &self.unmatched
        };
        let mut r: Vec<&str> = Vec::new();
        let n = src.len();
        for i in 0..n
            invariant
                n == src@.len(),
                word_views(r@) == string_views(src@).take(i as int),
        {
            let ghost before = word_views(r@);
            r.push(src[i].as_str());
            assert(word_views(r@) =~= before.push(src@[i as int]@));
            assert(string_views(src@).take(i + 1) =~= string_views(src@).take(i as int).push(
                src@[i as int]@,
            ));
        }
        assert(string_views(src@).take(n as int) =~= string_views(src@));
        r
    }
}

/// Whether any valid pattern of `patterns` matches any of `files`.
fn any_pattern_matches(patterns: &[String], files: &[String]) -> (r: bool)
    ensures
        r == scope_hit(string_views(patterns@), string_views(files@)),
{
    let ghost ps = string_views(patterns@);
    let ghost fs = string_views(files@);
    let np = patterns.len();
    let nf = files.len();
    let mut i: usize = 0;
    while i < np
        invariant
            i <= np == patterns@.len(),
            nf == files@.len(),
            ps == string_views(patterns@),
            fs == string_views(files@),
            forall|a: int, b: int|
                0 <= a < i && 0 <= b < nf ==> !(glob_is_valid(#[trigger] ps[a]) && glob_matches(
                    ps[a],
                    #[trigger] fs[b],
                )),
        decreases np - i,
    {
        if let Some(g) = compile_glob(patterns[i].as_str()) {
            let mut j: usize = 0;
            while j < nf
                invariant
                    i < np == patterns@.len(),
                    j <= nf == files@.len(),
                    ps == string_views(patterns@),
                    fs == string_views(files@),
                    g.source() == ps[i as int],
                    glob_is_valid(ps[i as int]),
                    forall|b: int| 0 <= b < j ==> !glob_matches(ps[i as int], #[trigger] fs[b]),
                decreases nf - j,
            {
                if glob_match(&g, files[j].as_str()) {
                    assert(glob_is_valid(ps[i as int]) && glob_matches(ps[i as int], fs[j as int]));
                    return true;
                }
                j = j + 1;
            }
        }
        i = i + 1;
    }
    false
}

/// Match `staged_files` against every scope's glob patterns, in scope name
/// order. A scope matches if ANY staged file matches ANY of its patterns;
/// patterns that do not compile are skipped.
pub fn detect_scopes(staged_files: &[String], scopes: &StrMap<ScopeEntry>) -> (r: ScopeMatch)
    ensures
        string_views(r.matched@) == matched_scopes(scopes.pairs(), string_views(staged_files@)),
        string_views(r.unmatched@) == unmatched_scopes(
            scopes.pairs(),
            string_views(staged_files@),
        ),
{
    let ghost fs = string_views(staged_files@);
    let ghost ps = scopes.pairs();
    let mut matched: Vec<String> = Vec::new();
    let mut unmatched: Vec<String> = Vec::new();
    let n = scopes.len();
    for i in 0..n
        invariant
            n == ps.len(),
            ps == scopes.pairs(),
            fs == string_views(staged_files@),
            string_views(matched@) == matched_scopes(ps.take(i as int), fs),
            string_views(unmatched@) == unmatched_scopes(ps.take(i as int), fs),
    {
        let name = scopes.key_at(i);
        let entry = scopes.value_at(i);
        let patterns = entry.paths();
        let hit = patterns.len() > 0 && any_pattern_matches(patterns, staged_files);
        assert(hit == scope_is_matched(ps[i as int].1, fs));
        let ghost before_m = string_views(matched@);
        let ghost before_u = string_views(unmatched@);
        if hit {
            matched.push(name.clone());
            assert(string_views(matched@) =~= before_m.push(ps[i as int].0));
        } else {
            unmatched.push(name.clone());
            assert(string_views(unmatched@) =~= before_u.push(ps[i as int].0));
        }
        proof {
            reveal_with_fuel(Seq::<_>::filter, 1);
            let t = ps.take(i + 1);
            assert(t.drop_last() =~= ps.take(i as int));
            assert(t.last() == ps[i as int]);
            let fm = |p: (Seq<char>, ScopeEntry)| scope_is_matched(p.1, fs);
            let fu = |p: (Seq<char>, ScopeEntry)| !scope_is_matched(p.1, fs);
            if hit {
                assert(t.filter(fm) == ps.take(i as int).filter(fm).push(ps[i as int]));
                assert(t.filter(fu) == ps.take(i as int).filter(fu));
                assert(keys_of(t.filter(fm)) =~= keys_of(ps.take(i as int).filter(fm)).push(
                    ps[i as int].0,
                ));
            } else {
                assert(t.filter(fu) == ps.take(i as int).filter(fu).push(ps[i as int]));
                assert(t.filter(fm) == ps.take(i as int).filter(fm));
                assert(keys_of(t.filter(fu)) =~= keys_of(ps.take(i as int).filter(fu)).push(
                    ps[i as int].0,
                ));
            }
        }
    }
    assert(ps.take(n as int) =~= ps);
    ScopeMatch { matched, unmatched }
}

/// Any valid pattern of a scope, at any position of its list, that
/// matches any staged file makes the scope matched.
pub proof fn lemma_any_pattern_matches_scope(
    scopes: StrMap<ScopeEntry>,
    files: Seq<Seq<char>>,
    s: int,
    p: int,
    f: int,
)
    requires
        strictly_sorted(scopes.pairs()),
        0 <= s < scopes.pairs().len(),
        0 <= p < scope_patterns(scopes.pairs()[s].1).len(),
        0 <= f < files.len(),
        glob_is_valid(scope_patterns(scopes.pairs()[s].1)[p]),
        glob_matches(scope_patterns(scopes.pairs()[s].1)[p], files[f]),
    ensures
        matched_scopes(scopes.pairs(), files).contains(scopes.pairs()[s].0),
        !unmatched_scopes(scopes.pairs(), files).contains(scopes.pairs()[s].0),
{
    let ps = scopes.pairs();
    let pats = scope_patterns(ps[s].1);
    assert(glob_is_valid(pats[p]) && glob_matches(pats[p], files[f]));
    assert(scope_is_matched(ps[s].1, files));
    let fu = |q: (Seq<char>, ScopeEntry)| !scope_is_matched(q.1, files);
    let fm = |q: (Seq<char>, ScopeEntry)| scope_is_matched(q.1, files);
    ps.lemma_filter_contains(fm, s);
    let fl = ps.filter(fm);
    let k = choose|k: int| 0 <= k < fl.len() && fl[k] == ps[s];
    assert(keys_of(fl)[k] == ps[s].0);
    if unmatched_scopes(ps, files).contains(ps[s].0) {
        lemma_key_in_filter(ps, fu, s);
    }
}

/// A scope is reported as matched only when one of its valid patterns
/// matches one of the staged files.
pub proof fn lemma_matched_scope_has_matching_pattern(
    scopes: StrMap<ScopeEntry>,
    files: Seq<Seq<char>>,
    s: int,
)
    requires
        strictly_sorted(scopes.pairs()),
        0 <= s < scopes.pairs().len(),
        matched_scopes(scopes.pairs(), files).contains(scopes.pairs()[s].0),
    ensures
        exists|p: int, f: int|
            0 <= p < scope_patterns(scopes.pairs()[s].1).len() && 0 <= f < files.len()
                && glob_is_valid(#[trigger] scope_patterns(scopes.pairs()[s].1)[p])
                && glob_matches(scope_patterns(scopes.pairs()[s].1)[p], #[trigger] files[f]),
{
    let ps = scopes.pairs();
    let fm = |q: (Seq<char>, ScopeEntry)| scope_is_matched(q.1, files);
    lemma_key_in_filter(ps, fm, s);
    assert(scope_is_matched(ps[s].1, files));
}

/// In a map with strictly sorted keys, a key kept by a filter belongs to an
/// entry the filter keeps.
proof fn lemma_key_in_filter(
    ps: Seq<(Seq<char>, ScopeEntry)>,
    pred: spec_fn((Seq<char>, ScopeEntry)) -> bool,
    s: int,
)
    requires
        strictly_sorted(ps),
        0 <= s < ps.len(),
        keys_of(ps.filter(pred)).contains(ps[s].0),
    ensures
        pred(ps[s]),
{
    let f = ps.filter(pred);
    let k = choose|k: int| 0 <= k < keys_of(f).len() && keys_of(f)[k] == ps[s].0;
    let e = f[k];
    ps.lemma_filter_pred(pred, k);
    assert(f.contains(e));
    ps.lemma_filter_contains_rev(pred, e);
    let t = choose|t: int| 0 <= t < ps.len() && ps[t] == e;
    if t != s {
        crate::text::lemma_lex_irreflexive(ps[s].0);
        if t < s {
            assert(lex_lt(ps[t].0, ps[s].0));
        } else {
            assert(lex_lt(ps[s].0, ps[t].0));
        }
    }
}

proof fn lemma_scope_counts(ps: Seq<(Seq<char>, ScopeEntry)>, files: Seq<Seq<char>>)
    ensures
        matched_scopes(ps, files).len() + unmatched_scopes(ps, files).len() == ps.len(),
    decreases ps.len(),
{
    if ps.len() > 0 {
        reveal_with_fuel(Seq::<_>::filter, 1);
        lemma_scope_counts(ps.drop_last(), files);
    }
}

/// Scope detection reports every defined scope exactly once: the matched
/// and the unmatched names together are as many as the scopes, and a
/// scope's name is among the matched when one of its patterns matches a
/// staged file, among the unmatched otherwise.
pub proof fn lemma_scopes_partitioned(scopes: StrMap<ScopeEntry>, files: Seq<Seq<char>>)
    ensures
        matched_scopes(scopes.pairs(), files).len() + unmatched_scopes(scopes.pairs(), files).len()
            == scopes.pairs().len(),
        forall|i: int|
            0 <= i < scopes.pairs().len() ==> {
                let (name, entry) = #[trigger] scopes.pairs()[i];
                if scope_is_matched(entry, files) {
                    matched_scopes(scopes.pairs(), files).contains(name)
                } else {
                    unmatched_scopes(scopes.pairs(), files).contains(name)
                }
            },
{
    let ps = scopes.pairs();
    lemma_scope_counts(ps, files);
    let fm = |p: (Seq<char>, ScopeEntry)| scope_is_matched(p.1, files);
    let fu = |p: (Seq<char>, ScopeEntry)| !scope_is_matched(p.1, files);
    assert forall|i: int| 0 <= i < ps.len() implies {
        let (name, entry) = #[trigger] ps[i];
        if scope_is_matched(entry, files) {
            matched_scopes(ps, files).contains(name)
        } else {
            unmatched_scopes(ps, files).contains(name)
        }
    } by {
        let f = if fm(ps[i]) { ps.filter(fm) } else { ps.filter(fu) };
        if fm(ps[i]) {
            ps.lemma_filter_contains(fm, i);
        } else {
            ps.lemma_filter_contains(fu, i);
        }
        let k = choose|k: int| 0 <= k < f.len() && f[k] == ps[i];
        assert(keys_of(f)[k] == ps[i].0);
    }
}

// ── Exclusions and staged files ───────────────────────────────────────────

/// The git pathspec that excludes files matching a pattern.
pub open spec fn exclude_pathspec(p: Seq<char>) -> Seq<char> {
    ":(exclude)"@ + p
}

/// One `:(exclude)<pattern>` pathspec per pattern, in order.
pub fn build_excludes(patterns: &[String]) -> (r: Vec<String>)
    ensures
        string_views(r@) == string_views(patterns@).map_values(|p: Seq<char>| exclude_pathspec(p)),
{
    let mut r: Vec<String> = Vec::new();
    let n = patterns.len();
    for i in 0..n
        invariant
            n == patterns@.len(),
            string_views(r@) == string_views(patterns@).take(i as int).map_values(
                |p: Seq<char>| exclude_pathspec(p),
            ),
    {
        let mut v: Vec<char> = Vec::new();
        push_str(&mut v, ":(exclude)");
        push_str(&mut v, patterns[i].as_str());
        let ghost before = string_views(r@);
        r.push(string_from(v.as_slice()));
        assert(string_views(r@) =~= before.push(exclude_pathspec(patterns@[i as int]@)));
        assert(string_views(patterns@).take(i + 1).map_values(|p: Seq<char>| exclude_pathspec(p))
            =~= string_views(patterns@).take(i as int).map_values(
            |p: Seq<char>| exclude_pathspec(p),
        ).push(exclude_pathspec(patterns@[i as int]@)));
    }
    assert(string_views(patterns@).take(n as int) =~= string_views(patterns@));
    r
}

/// The lines of a command's output, as strings.
pub fn output_lines(output: &str) -> (r: Vec<String>)
    ensures
        string_views(r@) == lines(output@),
{
    let cs = chars_of(output);
    let ls = split_lines(cs.as_slice());
    let mut r: Vec<String> = Vec::new();
    let n = ls.len();
    for i in 0..n
        invariant
            n == ls@.len(),
            views(ls@) == lines(output@),
            string_views(r@) == views(ls@).take(i as int),
    {
        let ghost before = string_views(r@);
        r.push(string_from(ls[i].as_slice()));
        assert(string_views(r@) =~= before.push(ls@[i as int]@));
        assert(views(ls@).take(i + 1) =~= views(ls@).take(i as int).push(ls@[i as int]@));
    }
    assert(views(ls@).take(n as int) =~= views(ls@));
    r
}

/// The staged files that are not among those kept by the exclusions, in
/// their original order.
pub fn excluded_files(all: &[String], kept: &[String]) -> (r: Vec<String>)
    ensures
        string_views(r@) == string_views(all@).filter(
            |f: Seq<char>| !string_views(kept@).contains(f),
        ),
{
    let ghost ks = string_views(kept@);
    let mut r: Vec<String> = Vec::new();
    let n = all.len();
    let m = kept.len();
    for i in 0..n
        invariant
            n == all@.len(),
            m == kept@.len(),
            ks == string_views(kept@),
            string_views(r@) == string_views(all@).take(i as int).filter(
                |f: Seq<char>| !ks.contains(f),
            ),
    {
        let f = chars_of(all[i].as_str());
        let mut found = false;
        let mut j: usize = 0;
        while j < m
            invariant
                j <= m == kept@.len(),
                i < n == all@.len(),
                ks == string_views(kept@),
                f@ == all@[i as int]@,
                found == exists|k: int| 0 <= k < j && ks[k] == f@,
            decreases m - j,
        {
            let kj = chars_of(kept[j].as_str());
            assert(ks[j as int] == kj@);
            if same_chars(kj.as_slice(), f.as_slice()) {
                found = true;
            }
            j = j + 1;
        }
        assert(found == ks.contains(f@));
        let ghost before = string_views(r@);
        if !found {
            r.push(all[i].clone());
            assert(string_views(r@) =~= before.push(all@[i as int]@));
        }
        proof {
            reveal_with_fuel(Seq::<_>::filter, 1);
            let t = string_views(all@).take(i + 1);
            assert(t.drop_last() =~= string_views(all@).take(i as int));
            assert(t.last() == all@[i as int]@);
        }
    }
    assert(string_views(all@).take(n as int) =~= string_views(all@));
    r
}

/// Why there is nothing to describe.
#[derive(Debug, Clone, Copy, PartialEq, Eq, Structural)]
pub enum StagedError {
    /// `git diff --stat` printed nothing: nothing is staged.
    NothingStaged,
    /// Everything staged is excluded by the patterns.
    OnlyFilteredFiles,
}

impl StagedError {
    pub fn message(&self) -> (r: &'static str)
        ensures
            r@ == match *self {
                StagedError::NothingStaged => "No staged changes found. Run `git add` first."@,
                StagedError::OnlyFilteredFiles => "Staged changes are only in filtered files."@,
            },
    {
        match self {
            StagedError::NothingStaged => "No staged changes found. Run `git add` first.",
            StagedError::OnlyFilteredFiles => "Staged changes are only in filtered files.",
        }
    }
}

/// Checks the stat and diff of the staged changes: a blank stat means
/// nothing is staged, a blank diff that everything staged is excluded.
pub fn check_staged(stat: &str, diff: &str) -> (r: Result<(), StagedError>)
    ensures
        r == if is_blank(stat@) {
            Err(StagedError::NothingStaged)
        } else if is_blank(diff@) {
            Err(StagedError::OnlyFilteredFiles)
        } else {
            Ok(())
        },
{
    let s = chars_of(stat);
    let st = trimmed(s.as_slice());
    proof {
        lemma_trim_start_blank(stat@);
        lemma_trim_end_blank(trim_start(stat@));
        assert(is_blank(trim_start(stat@)) <==> trim_start(stat@).len() == 0) by {
            lemma_trim_start_blank(trim_start(stat@));
        }
    }
    if st.len() == 0 {
        return Err(StagedError::NothingStaged);
    }
    let d = chars_of(diff);
    let dt = trimmed(d.as_slice());
    proof {
        lemma_trim_start_blank(diff@);
        lemma_trim_end_blank(trim_start(diff@));
        assert(is_blank(trim_start(diff@)) <==> trim_start(diff@).len() == 0) by {
            lemma_trim_start_blank(trim_start(diff@));
        }
    }
    if dt.len() == 0 {
        return Err(StagedError::OnlyFilteredFiles);
    }
    Ok(())
}

} // verus!
