//! Unified diff parsing, priority scoring of changed files, the choice of
//! generation strategy, and the contexts built for each strategy.
use vstd::prelude::*;
use crate::casing::lowercase;
use crate::strmap::StrMap;
use crate::text::{
    chars_of, copy_range, decimal, find, find_in, is_one_of, join, join_with, lemma_find_from,
    lines, pieces, push_all, push_decimal, push_str, split_lines, split_pieces, split_words,
    starts_with, string_from, strip_leading, strip_leading_copies, views, word_views, words,
    Separator, slice_starts_with,
};

verus! {

/// Diffs of fewer changed files than this are summarized one file at a
/// time when they do not fit; from this many files on they are handled by
/// `StatOnly`.
pub const SUMMARIZE_THRESHOLD: usize = 20;

// ── Priority scoring ──────────────────────────────────────────────────────
//
// High priority  → source code the model should read carefully
// Low priority   → generated / config / docs the model can skip or skim

pub open spec fn high_priority_ext() -> Seq<Seq<char>> {
    seq![
        "rs"@, "go"@, "py"@, "ts"@, "tsx"@, "js"@, "jsx"@, "c"@, "cpp"@, "h"@, "hpp"@, "java"@,
        "kt"@, "swift"@, "cs"@, "rb"@, "php"@, "scala"@, "zig"@, "ex"@, "exs"@,
    ]
}

pub open spec fn low_priority_ext() -> Seq<Seq<char>> {
    seq![
        "json"@, "yaml"@, "yml"@, "toml"@, "xml"@, "ini"@, "cfg"@, "md"@, "txt"@, "rst"@,
        "html"@, "css"@, "scss"@, "less"@, "svg"@, "png"@, "jpg"@, "jpeg"@, "gif"@, "ico"@,
        "woff"@, "lock"@, "sum"@, "snap"@,
    ]
}

pub open spec fn low_priority_names() -> Seq<Seq<char>> {
    seq![
        "package-lock.json"@, "yarn.lock"@, "pnpm-lock.yaml"@, "bun.lockb"@, "Cargo.lock"@,
        "poetry.lock"@, "Gemfile.lock"@, "composer.lock"@, "go.sum"@, "go.mod"@,
    ]
}

/// The components of a path: its pieces between `/` or `\`, without empty
/// pieces and without `.`.
pub open spec fn components(path: Seq<char>) -> Seq<Seq<char>> {
    pieces(path, Separator::Path).filter(|c: Seq<char>| c.len() > 0 && c != seq!['.'])
}

/// The last component of a path, unless there is none or it is `..`.
pub open spec fn file_name(path: Seq<char>) -> Option<Seq<char>> {
    let cs = components(path);
    if cs.len() > 0 && cs.last() != seq!['.', '.'] {
        Some(cs.last())
    } else {
        None
    }
}

/// Index of the last `.` in `s`.
pub open spec fn last_dot(s: Seq<char>) -> Option<int>
    decreases s.len(),
{
    if s.len() == 0 {
        None
    } else if s.last() == '.' {
        Some(s.len() - 1)
    } else {
        last_dot(s.drop_last())
    }
}

/// The extension of a path: what follows the last `.` of its file name when
/// that dot is not the name's first character; empty otherwise.
pub open spec fn extension(path: Seq<char>) -> Seq<char> {
    match file_name(path) {
        Some(name) => match last_dot(name) {
            Some(i) => if i > 0 {
                name.skip(i + 1)
            } else {
                seq![]
            },
            None => seq![],
        },
        None => seq![],
    }
}

/// The file name of a path, or the whole path when it has none.
pub open spec fn name_of(path: Seq<char>) -> Seq<char> {
    match file_name(path) {
        Some(n) => n,
        None => path,
    }
}

/// Whether the path looks like a test.
pub open spec fn looks_like_test(path: Seq<char>) -> bool {
    find(path, "test"@) is Some || find(path, "spec"@) is Some || find(path, "__tests__"@) is Some
}

/// Whether the path has a `src` or `lib` component.
pub open spec fn under_src_or_lib(path: Seq<char>) -> bool {
    components(path).contains("src"@) || components(path).contains("lib"@)
}

/// The priority of a changed file, from 0 (skim) to 90 (read carefully).
pub open spec fn priority_of(path: Seq<char>) -> u8 {
    if low_priority_names().contains(name_of(path)) {
        0
    } else if looks_like_test(path) {
        40
    } else if high_priority_ext().contains(lowercase(extension(path))) {
        if under_src_or_lib(path) {
            90
        } else {
            75
        }
    } else if low_priority_ext().contains(lowercase(extension(path))) {
        20
    } else {
        50
    }
}

/// The non-empty components of a path other than `.`.
fn path_components(path: &[char]) -> (r: Vec<Vec<char>>)
    ensures
        views(r@) == components(path@),
{
    let ps = split_pieces(path, Separator::Path);
    let mut r: Vec<Vec<char>> = Vec::new();
    let n = ps.len();
    for i in 0..n
        invariant
            n == ps@.len(),
            views(ps@) == pieces(path@, Separator::Path),
            views(r@) == views(ps@).take(i as int).filter(
                |c: Seq<char>| c.len() > 0 && c != seq!['.'],
            ),
    {
        let ghost before = views(r@);
        let c = &ps[i];
        let is_dot = c.len() == 1 && c[0] == '.';
        proof {
            if c@.len() == 1 {
                if c@[0] == '.' {
                    assert(c@ =~= seq!['.']);
                } else {
                    assert(c@[0] != seq!['.'][0]);
                }
            }
        }
        if c.len() > 0 && !is_dot {
            r.push(copy_range(c.as_slice(), 0, c.len()));
            assert(c@.subrange(0, c@.len() as int) =~= c@);
            assert(views(r@) =~= before.push(c@));
        }
        proof {
            reveal_with_fuel(Seq::<_>::filter, 1);
            assert(views(ps@).take(i + 1).drop_last() =~= views(ps@).take(i as int));
        }
    }
    assert(views(ps@).take(n as int) =~= views(ps@));
    r
}

/// The last `.` in `s`.
fn find_last_dot(s: &[char]) -> (r: Option<usize>)
    ensures
        match r {
            Some(i) => last_dot(s@) == Some(i as int) && i < s@.len(),
            None => last_dot(s@) is None,
        },
{
    let mut j = s.len();
    assert(s@.take(j as int) =~= s@);
    while j > 0 && s[j - 1] != '.'
        invariant
            j <= s@.len(),
            last_dot(s@) == last_dot(s@.take(j as int)),
        decreases j,
    {
        assert(s@.take(j as int).drop_last() =~= s@.take(j - 1));
        j = j - 1;
    }
    if j == 0 {
        assert(s@.take(0).len() == 0);
        None
    } else {
        Some(j - 1)
    }
}

/// Whether `s` is one of `words`, given as a spec list.
fn in_list(words: &[&str], s: &[char], list: Ghost<Seq<Seq<char>>>) -> (r: bool)
    requires
        word_views(words@) == list@,
    ensures
        r == list@.contains(s@),
{
    is_one_of(words, s)
}

/// Score a file path 0-100.
pub fn score_file(path: &str) -> (r: u8)
    ensures
        r == priority_of(path@),
{
    let p = chars_of(path);
    let comps = path_components(p.as_slice());
    let nc = comps.len();
    let name: Vec<char> = if nc > 0 && !(comps[nc - 1].len() == 2 && comps[nc - 1][0] == '.'
        && comps[nc - 1][1] == '.') {
        copy_range(comps[nc - 1].as_slice(), 0, comps[nc - 1].len())
    } else {
        copy_range(p.as_slice(), 0, p.len())
    };
    let has_name = nc > 0 && !(comps[nc - 1].len() == 2 && comps[nc - 1][0] == '.' && comps[nc
        - 1][1] == '.');
    proof {
        if nc > 0 {
            let last = comps@[nc - 1]@;
            if last.len() == 2 && last[0] == '.' && last[1] == '.' {
                assert(last =~= seq!['.', '.']);
            } else if last.len() == 2 {
                assert(last[0] != seq!['.', '.'][0] || last[1] != seq!['.', '.'][1]);
            }
            assert(comps@[nc - 1]@.subrange(0, comps@[nc - 1]@.len() as int) =~= last);
        }
        assert(p@.subrange(0, p@.len() as int) =~= p@);
        assert(name@ == name_of(path@));
        assert(has_name == (file_name(path@) is Some));
    }
    let ext: Vec<char> = if has_name {
        match find_last_dot(name.as_slice()) {
            Some(i) => if i > 0 {
                copy_range(name.as_slice(), i + 1, name.len())
            } else {
                Vec::new()
            },
            None => Vec::new(),
        }
    } else {
        Vec::new()
    };
    proof {
        if has_name {
            if let Some(i) = last_dot(name@) {
                if i > 0 {
                    assert(name@.subrange(i + 1, name@.len() as int) =~= name@.skip(i + 1));
                }
            }
        }
        assert(ext@ =~= extension(path@));
    }
    let lower = string_from(ext.as_slice()).as_str().to_lowercase();
    let lower_v = chars_of(lower.as_str());
    let low_names = [
        "package-lock.json",
        "yarn.lock",
        "pnpm-lock.yaml",
        "bun.lockb",
        "Cargo.lock",
        "poetry.lock",
        "Gemfile.lock",
        "composer.lock",
        "go.sum",
        "go.mod",
    ];
    assert(word_views(low_names@) =~= low_priority_names());
    if in_list(&low_names, name.as_slice(), Ghost(low_priority_names())) {
        return 0;
    }
    let test = chars_of("test");
    let spec_word = chars_of("spec");
    let tests_dir = chars_of("__tests__");
    if find_in(p.as_slice(), test.as_slice()).is_some() || find_in(
        p.as_slice(),
        spec_word.as_slice(),
    ).is_some() || find_in(p.as_slice(), tests_dir.as_slice()).is_some() {
        return 40;
    }
    let high = [
        "rs",
        "go",
        "py",
        "ts",
        "tsx",
        "js",
        "jsx",
        "c",
        "cpp",
        "h",
        "hpp",
        "java",
        "kt",
        "swift",
        "cs",
        "rb",
        "php",
        "scala",
        "zig",
        "ex",
        "exs",
    ];
    assert(word_views(high@) =~= high_priority_ext());
    if in_list(&high, lower_v.as_slice(), Ghost(high_priority_ext())) {
        let dirs = ["src", "lib"];
        let mut dominated = false;
        let mut i: usize = 0;
        while i < nc
            invariant
                i <= nc == comps@.len(),
                views(comps@) == components(path@),
                word_views(dirs@) =~= seq!["src"@, "lib"@],
                dominated == exists|j: int|
                    0 <= j < i && (comps@[j]@ == "src"@ || comps@[j]@ == "lib"@),
            decreases nc - i,
        {
            let hit = is_one_of(&dirs, comps[i].as_slice());
            assert(hit == (comps@[i as int]@ == "src"@ || comps@[i as int]@ == "lib"@)) by {
                if comps@[i as int]@ == "lib"@ {
                    assert(word_views(dirs@)[1] == comps@[i as int]@);
                }
                if comps@[i as int]@ == "src"@ {
                    assert(word_views(dirs@)[0] == comps@[i as int]@);
                }
            }
            if hit {
                dominated = true;
            }
            i = i + 1;
        }
        proof {
            let cs = components(path@);
            if dominated {
                let j = choose|j: int|
                    0 <= j < nc && (comps@[j]@ == "src"@ || comps@[j]@ == "lib"@);
                assert(cs[j] == comps@[j]@);
            }
            if cs.contains("src"@) || cs.contains("lib"@) {
                if cs.contains("src"@) {
                    let j = choose|j: int| 0 <= j < cs.len() && cs[j] == "src"@;
                    assert(comps@[j]@ == cs[j]);
                } else {
                    let j = choose|j: int| 0 <= j < cs.len() && cs[j] == "lib"@;
                    assert(comps@[j]@ == cs[j]);
                }
            }
        }
        if dominated {
            return 90;
        }
        return 75;
    }
    let low = [
        "json",
        "yaml",
        "yml",
        "toml",
        "xml",
        "ini",
        "cfg",
        "md",
        "txt",
        "rst",
        "html",
        "css",
        "scss",
        "less",
        "svg",
        "png",
        "jpg",
        "jpeg",
        "gif",
        "ico",
        "woff",
        "lock",
        "sum",
        "snap",
    ];
    assert(word_views(low@) =~= low_priority_ext());
    if in_list(&low, lower_v.as_slice(), Ghost(low_priority_ext())) {
        return 20;
    }
    50
}

} // verus!

verus! {

// ── Per-file diff chunk ────────────────────────────────────────────────────

/// One changed file of a diff.
#[derive(Debug, Clone)]
pub struct FileDiff {
    pub path: String,
    /// 0 (low) – 100 (high); higher = include first
    pub priority: u8,
    /// full diff for this file including header
    pub content: String,
}

/// The model of a [`FileDiff`].
pub struct FileDiffView {
    pub path: Seq<char>,
    pub priority: u8,
    pub content: Seq<char>,
}

impl View for FileDiff {
    type V = FileDiffView;

    open spec fn view(&self) -> FileDiffView {
        FileDiffView { path: self.path@, priority: self.priority, content: self.content@ }
    }
}

/// The models of a sequence of file diffs.
pub open spec fn diff_views(fs: Seq<FileDiff>) -> Seq<FileDiffView> {
    fs.map_values(|f: FileDiff| f@)
}

impl FileDiff {
    /// A copy of this file diff.
    pub fn duplicate(&self) -> (r: FileDiff)
        ensures
            r@ == self@,
    {
        FileDiff { path: self.path.clone(), priority: self.priority, content: self.content.clone() }
    }
}

// ── Diff parser ───────────────────────────────────────────────────────────

/// The path named by a `diff --git a/x b/y` header: its fourth word with
/// every leading `b/` removed (empty when the header has fewer words).
pub open spec fn header_path(line: Seq<char>) -> Seq<char> {
    let ws = words(line);
    strip_leading(if ws.len() > 3 { ws[3] } else { seq![] }, "b/"@)
}

/// The file diff built from a path and its lines.
pub open spec fn chunk(path: Seq<char>, ls: Seq<Seq<char>>) -> FileDiffView {
    FileDiffView { path, priority: priority_of(path), content: join(ls, seq!['\n']) }
}

/// Where the parser stands after some lines: the files it has finished,
/// the path of the file it is in, and that file's lines so far.
pub struct ParseState {
    pub files: Seq<FileDiffView>,
    pub path: Seq<char>,
    pub lines: Seq<Seq<char>>,
}

/// A header line starts a new file; the file before it is kept only if it
/// had a non-empty path. Any other line belongs to the current file.
pub open spec fn parse_step(st: ParseState, line: Seq<char>) -> ParseState {
    if starts_with(line, "diff --git "@) {
        ParseState {
            files: if st.path.len() > 0 {
                st.files.push(chunk(st.path, st.lines))
            } else {
                st.files
            },
            path: header_path(line),
            lines: seq![line],
        }
    } else {
        ParseState { files: st.files, path: st.path, lines: st.lines.push(line) }
    }
}

pub open spec fn parse_lines(ls: Seq<Seq<char>>) -> ParseState
    decreases ls.len(),
{
    if ls.len() == 0 {
        ParseState { files: seq![], path: seq![], lines: seq![] }
    } else {
        parse_step(parse_lines(ls.drop_last()), ls.last())
    }
}

/// The files of a raw diff, in the order they appear.
pub open spec fn diff_chunks(raw: Seq<char>) -> Seq<FileDiffView> {
    let st = parse_lines(lines(raw));
    if st.path.len() > 0 {
        st.files.push(chunk(st.path, st.lines))
    } else {
        st.files
    }
}

/// The files of priority `p` down to 0, each level in its original order.
pub open spec fn priority_levels(fs: Seq<FileDiffView>, p: int) -> Seq<FileDiffView>
    decreases p + 1,
{
    if p < 0 {
        seq![]
    } else {
        fs.filter(|f: FileDiffView| f.priority == p) + priority_levels(fs, p - 1)
    }
}

/// `fs` sorted by priority, highest first, keeping the order of files of
/// equal priority.
pub open spec fn by_priority(fs: Seq<FileDiffView>) -> Seq<FileDiffView> {
    priority_levels(fs, 255)
}

/// The file diff for a path and its lines.
fn make_chunk(path: &Vec<char>, ls: &Vec<Vec<char>>) -> (r: FileDiff)
    ensures
        r@ == chunk(path@, views(ls@)),
{
    let nl = ['\n'];
    assert(nl@ =~= seq!['\n']);
    let content = join_with(ls, &nl);
    let path_s = string_from(path.as_slice());
    let priority = score_file(path_s.as_str());
    FileDiff { path: path_s, priority, content: string_from(content.as_slice()) }
}

/// The path of a `diff --git` header.
fn extract_path(line: &[char]) -> (r: Vec<char>)
    ensures
        r@ == header_path(line@),
{
    let ws = split_words(line);
    let empty: Vec<char> = Vec::new();
    let w: &Vec<char> = if ws.len() > 3 {
        &ws[3]
    } else {
        &empty
    };
    let b = chars_of("b/");
    strip_leading_copies(w.as_slice(), b.as_slice())
}

/// Stable sort of file diffs by priority, highest first.
fn sort_by_priority(files: Vec<FileDiff>) -> (r: Vec<FileDiff>)
    ensures
        diff_views(r@) == by_priority(diff_views(files@)),
{
    let ghost fs = diff_views(files@);
    let n = files.len();
    let mut out: Vec<FileDiff> = Vec::new();
    let mut p: u16 = 256;
    assert(priority_levels(fs, 255) =~= Seq::<FileDiffView>::empty() + priority_levels(fs, 255));
    while p > 0
        invariant
            p <= 256,
            n == files@.len(),
            fs == diff_views(files@),
            diff_views(out@) + priority_levels(fs, p - 1) == priority_levels(fs, 255),
        decreases p,
    {
        p = p - 1;
        let ghost base = diff_views(out@);
        let mut i: usize = 0;
        while i < n
            invariant
                i <= n == files@.len(),
                p < 256,
                fs == diff_views(files@),
                diff_views(out@) == base + fs.take(i as int).filter(
                    |f: FileDiffView| f.priority == p,
                ),
            decreases n - i,
        {
            let ghost before = diff_views(out@);
            if files[i].priority as u16 == p {
                let d = files[i].duplicate();
                out.push(d);
                assert(diff_views(out@) =~= before.push(fs[i as int]));
            }
            proof {
                reveal_with_fuel(Seq::<_>::filter, 1);
                assert(fs.take(i + 1).drop_last() =~= fs.take(i as int));
                assert(fs.take(i + 1).last() == fs[i as int]);
            }
            i = i + 1;
        }
        assert(fs.take(n as int) =~= fs);
        assert(diff_views(out@) + priority_levels(fs, p - 1) =~= base + priority_levels(
            fs,
            p as int,
        ));
    }
    assert(priority_levels(fs, -1) =~= Seq::<FileDiffView>::empty());
    assert(diff_views(out@) =~= diff_views(out@) + priority_levels(fs, -1));
    out
}

/// Parse a raw `git diff` string into per-file chunks, highest priority
/// first.
pub fn parse_diff(raw: &str) -> (r: Vec<FileDiff>)
    ensures
        diff_views(r@) == by_priority(diff_chunks(raw@)),
{
    let chars = chars_of(raw);
    let ls = split_lines(chars.as_slice());
    let header = chars_of("diff --git ");
    let mut files: Vec<FileDiff> = Vec::new();
    let mut path: Vec<char> = Vec::new();
    let mut cur: Vec<Vec<char>> = Vec::new();
    let n = ls.len();
    assert(diff_views(files@) =~= Seq::<FileDiffView>::empty());
    assert(views(cur@) =~= Seq::<Seq<char>>::empty());
    assert(path@ =~= Seq::<char>::empty());
    assert(views(ls@).take(0) =~= Seq::<Seq<char>>::empty());
    for i in 0..n
        invariant
            n == ls@.len(),
            views(ls@) == lines(raw@),
            header@ == "diff --git "@,
            parse_lines(views(ls@).take(i as int)) == (ParseState {
                files: diff_views(files@),
                path: path@,
                lines: views(cur@),
            }),
    {
        let line = copy_range(ls[i].as_slice(), 0, ls[i].len());
        assert(line@ =~= views(ls@)[i as int]);
        let ghost st = parse_lines(views(ls@).take(i as int));
        proof {
            assert(views(ls@).take(i + 1).drop_last() =~= views(ls@).take(i as int));
        }
        let is_header = line.len() >= header.len() && slice_starts_with(
            line.as_slice(),
            0,
            header.as_slice(),
        );
        assert(is_header == starts_with(line@, header@)) by {
            if line@.len() >= header@.len() {
                assert(line@.take(header@.len() as int) =~= line@.subrange(
                    0,
                    header@.len() as int,
                ));
            }
        }
        if is_header {
            if path.len() > 0 {
                let c = make_chunk(&path, &cur);
                let ghost before = diff_views(files@);
                files.push(c);
                assert(diff_views(files@) =~= before.push(c@));
            }
            path = extract_path(line.as_slice());
            let mut fresh: Vec<Vec<char>> = Vec::new();
            fresh.push(line);
            assert(views(fresh@) =~= seq![views(ls@)[i as int]]);
            cur = fresh;
        } else {
            let ghost before = views(cur@);
            cur.push(line);
            assert(views(cur@) =~= before.push(views(ls@)[i as int]));
        }
        assert(parse_lines(views(ls@).take(i + 1)) == parse_step(st, views(ls@)[i as int]));
    }
    assert(views(ls@).take(n as int) =~= views(ls@));
    if path.len() > 0 {
        let c = make_chunk(&path, &cur);
        let ghost before = diff_views(files@);
        files.push(c);
        assert(diff_views(files@) =~= before.push(c@));
    }
    sort_by_priority(files)
}

} // verus!

verus! {

// ── Strategy ──────────────────────────────────────────────────────────────

/// How the diff reaches the model.
#[derive(Debug, Clone, Copy, PartialEq, Eq, Structural)]
pub enum Strategy {
    /// Diff fits in the context window — send it as-is.
    Direct,
    /// Too large: summarize each file chunk in a separate call, then
    /// combine the per-file summaries into one commit prompt.
    Summarize,
    /// Massive diff (many files): use `--stat` + highest-priority file
    /// diffs only; everything else is described by its filename.
    StatOnly { top_n: usize },
}

/// The name shown for a strategy.
pub open spec fn strategy_text(s: Strategy) -> Seq<char> {
    match s {
        Strategy::Direct => "direct"@,
        Strategy::Summarize => "per-file summarize"@,
        Strategy::StatOnly { top_n } => "stat + top-"@ + decimal(top_n as nat) + " files"@,
    }
}

impl Strategy {
    /// The name shown for this strategy.
    pub fn to_string(&self) -> (r: String)
        ensures
            r@ == strategy_text(*self),
    {
        let mut v: Vec<char> = Vec::new();
        match self {
            Strategy::Direct => push_str(&mut v, "direct"),
            Strategy::Summarize => push_str(&mut v, "per-file summarize"),
            Strategy::StatOnly { top_n } => {
                push_str(&mut v, "stat + top-");
                push_decimal(&mut v, *top_n as u64);
                push_str(&mut v, " files");
            },
        }
        string_from(v.as_slice())
    }
}

/// The first decision, once the full commit prompt has been counted:
/// `Direct` when it fits the context, `Summarize` when there are few
/// enough files, and `None` when the files must be counted one by one.
pub open spec fn first_choice(prompt_tokens: nat, budget: nat, file_count: nat) -> Option<
    Strategy,
> {
    if prompt_tokens < budget {
        Some(Strategy::Direct)
    } else if file_count < SUMMARIZE_THRESHOLD {
        Some(Strategy::Summarize)
    } else {
        None
    }
}

/// Chooses `Direct` or `Summarize`, or defers to counting files.
pub fn choose_strategy(prompt_tokens: usize, budget: u64, file_count: usize) -> (r: Option<
    Strategy,
>)
    ensures
        r == first_choice(prompt_tokens as nat, budget as nat, file_count as nat),
{
    if (prompt_tokens as u128) < (budget as u128) {
        Some(Strategy::Direct)
    } else if file_count < SUMMARIZE_THRESHOLD {
        Some(Strategy::Summarize)
    } else {
        None
    }
}

/// How many leading files fit the budget, each taking its token count
/// from what is left.
pub open spec fn fit_count(budget: int, tokens: Seq<int>) -> nat
    decreases tokens.len(),
{
    if tokens.len() == 0 || tokens[0] > budget {
        0
    } else {
        1 + fit_count(budget - tokens[0], tokens.drop_first())
    }
}

/// Progress of the `StatOnly` count: the budget left, the files that fit
/// so far, and whether a file has already failed to fit.
#[derive(Debug, Clone, Copy, PartialEq, Eq, Structural)]
pub struct TopNScan {
    pub remaining: u64,
    pub top_n: usize,
    pub stopped: bool,
}

/// One file counted: it fits when its tokens do not exceed what is left.
pub open spec fn scan_step(s: TopNScan, tokens: nat) -> TopNScan {
    if s.stopped || tokens > s.remaining {
        TopNScan { remaining: s.remaining, top_n: s.top_n, stopped: true }
    } else {
        TopNScan { remaining: (s.remaining - tokens) as u64, top_n: (s.top_n + 1) as usize, stopped: false }
    }
}

/// Files counted one after another.
pub open spec fn scan_all(s: TopNScan, tokens: Seq<nat>) -> TopNScan
    decreases tokens.len(),
{
    if tokens.len() == 0 {
        s
    } else {
        scan_all(scan_step(s, tokens[0]), tokens.drop_first())
    }
}

impl TopNScan {
    /// A count that starts with the whole context as budget.
    pub fn new(budget: u64) -> (r: TopNScan)
        ensures
            r == (TopNScan { remaining: budget, top_n: 0, stopped: false }),
    {
        TopNScan { remaining: budget, top_n: 0, stopped: false }
    }

    /// Counts the next file, whose diff has `tokens` tokens.
    pub fn add_file(&mut self, tokens: usize)
        requires
            old(self).top_n < usize::MAX,
        ensures
            *final(self) == scan_step(*old(self), tokens as nat),
    {
        if self.stopped || tokens as u64 > self.remaining {
            self.stopped = true;
        } else {
            self.remaining = self.remaining - tokens as u64;
            self.top_n = self.top_n + 1;
        }
    }

    /// The `StatOnly` strategy with at least one file.
    pub fn strategy(&self) -> (r: Strategy)
        ensures
            r == (Strategy::StatOnly { top_n: if self.top_n == 0 { 1 } else { self.top_n } }),
    {
        Strategy::StatOnly { top_n: if self.top_n == 0 { 1 } else { self.top_n } }
    }
}

/// Counting files one after another finds how many leading files fit the
/// budget, leaving the budget less their tokens.
pub proof fn lemma_scan_counts_fitting_files(budget: u64, tokens: Seq<nat>)
    requires
        tokens.len() < usize::MAX,
    ensures
        scan_all(TopNScan { remaining: budget, top_n: 0, stopped: false }, tokens).top_n
            == fit_count(budget as int, tokens.map_values(|t: nat| t as int)),
{
    lemma_scan_fit(budget, 0, tokens);
}

proof fn lemma_scan_fit(budget: u64, done: nat, tokens: Seq<nat>)
    requires
        done + tokens.len() < usize::MAX,
    ensures
        scan_all(TopNScan { remaining: budget, top_n: done as usize, stopped: false }, tokens).top_n
            == done + fit_count(budget as int, tokens.map_values(|t: nat| t as int)),
    decreases tokens.len(),
{
    let ts = tokens.map_values(|t: nat| t as int);
    if tokens.len() == 0 {
    } else if tokens[0] > budget {
        lemma_scan_stopped(TopNScan { remaining: budget, top_n: done as usize, stopped: true }, tokens.drop_first());
    } else {
        assert(ts.drop_first() =~= tokens.drop_first().map_values(|t: nat| t as int));
        lemma_scan_fit((budget - tokens[0]) as u64, done + 1, tokens.drop_first());
    }
}

proof fn lemma_scan_stopped(s: TopNScan, tokens: Seq<nat>)
    requires
        s.stopped,
    ensures
        scan_all(s, tokens) == s,
    decreases tokens.len(),
{
    if tokens.len() > 0 {
        lemma_scan_stopped(scan_step(s, tokens[0]), tokens.drop_first());
    }
}

// ── Context builders ──────────────────────────────────────────────────────

/// Each file's diff followed by a line feed.
pub open spec fn direct_context(fs: Seq<FileDiffView>) -> Seq<char>
    decreases fs.len(),
{
    if fs.len() == 0 {
        seq![]
    } else {
        direct_context(fs.drop_last()) + fs.last().content + seq!['\n']
    }
}

/// Build a direct diff string from the sorted file list.
/// Only used by `Strategy::Direct` (guaranteed to fit).
pub fn build_direct_context(files: &[FileDiff]) -> (r: String)
    ensures
        r@ == direct_context(diff_views(files@)),
{
    let mut v: Vec<char> = Vec::new();
    let n = files.len();
    for i in 0..n
        invariant
            n == files@.len(),
            v@ == direct_context(diff_views(files@).take(i as int)),
    {
        push_str(&mut v, files[i].content.as_str());
        v.push('\n');
        proof {
            let fs = diff_views(files@);
            assert(fs.take(i + 1).drop_last() =~= fs.take(i as int));
            assert(fs.take(i + 1).last() == files@[i as int]@);
        }
    }
    assert(diff_views(files@).take(n as int) =~= diff_views(files@));
    string_from(v.as_slice())
}

/// The context for `Direct`: the stat, then the whole diff.
pub open spec fn direct_prompt_context(stat: Seq<char>, fs: Seq<FileDiffView>) -> Seq<char> {
    "=== Stat ===\n"@ + stat + "\n=== Diff ===\n"@ + direct_context(fs)
}

/// The context for `Direct`: the stat, then the whole diff.
pub fn build_direct_prompt_context(stat: &str, files: &[FileDiff]) -> (r: String)
    ensures
        r@ == direct_prompt_context(stat@, diff_views(files@)),
{
    let body = build_direct_context(files);
    let mut v: Vec<char> = Vec::new();
    push_str(&mut v, "=== Stat ===\n");
    push_str(&mut v, stat);
    push_str(&mut v, "\n=== Diff ===\n");
    push_str(&mut v, body.as_str());
    string_from(v.as_slice())
}

/// One `• path:` entry per summary, in key order.
pub open spec fn summary_entries(ps: Seq<(Seq<char>, String)>) -> Seq<char>
    decreases ps.len(),
{
    if ps.len() == 0 {
        seq![]
    } else {
        summary_entries(ps.drop_last()) + "• "@ + ps.last().0 + ":\n  "@ + ps.last().1@
            + "\n\n"@
    }
}

/// Build a combined context from per-file summaries.
/// Each summary is a compact prose description generated by the model.
pub fn build_summary_context(summaries: &StrMap<String>) -> (r: String)
    ensures
        r@ == "Per-file change summaries:\n\n"@ + summary_entries(summaries.pairs()),
{
    let mut v: Vec<char> = Vec::new();
    push_str(&mut v, "Per-file change summaries:\n\n");
    let ghost head = v@;
    let n = summaries.len();
    for i in 0..n
        invariant
            n == summaries.pairs().len(),
            v@ == head + summary_entries(summaries.pairs().take(i as int)),
    {
        push_str(&mut v, "• ");
        push_str(&mut v, summaries.key_at(i).as_str());
        push_str(&mut v, ":\n  ");
        push_str(&mut v, summaries.value_at(i).as_str());
        push_str(&mut v, "\n\n");
        proof {
            let ps = summaries.pairs();
            assert(ps.take(i + 1).drop_last() =~= ps.take(i as int));
            assert(ps.take(i + 1).last() == ps[i as int]);
        }
    }
    assert(summaries.pairs().take(n as int) =~= summaries.pairs());
    string_from(v.as_slice())
}

/// The stat-only context: the full stat, the diffs of the first `top_n`
/// files, and a note on how many were left out.
pub open spec fn stat_context(stat: Seq<char>, fs: Seq<FileDiffView>, top_n: nat) -> Seq<char> {
    let shown = if top_n < fs.len() {
        top_n as int
    } else {
        fs.len() as int
    };
    let head = "=== Stat (all changed files) ===\n"@ + stat + "\n\n"@
        + "=== Full diff (highest-priority files only) ===\n"@ + direct_context(fs.take(shown));
    if fs.len() > top_n {
        head + "\n["@ + decimal((fs.len() - top_n) as nat)
            + " lower-priority file(s) omitted — visible in --stat above]\n"@
    } else {
        head
    }
}

/// Build a stat-only context: full --stat + top-N file diffs.
pub fn build_stat_context(stat: &str, files: &[FileDiff], top_n: usize) -> (r: String)
    ensures
        r@ == stat_context(stat@, diff_views(files@), top_n as nat),
{
    let mut v: Vec<char> = Vec::new();
    push_str(&mut v, "=== Stat (all changed files) ===\n");
    push_str(&mut v, stat);
    push_str(&mut v, "\n\n");
    push_str(&mut v, "=== Full diff (highest-priority files only) ===\n");
    let n = files.len();
    let shown = if top_n < n {
        top_n
    } else {
        n
    };
    let ghost head = v@;
    let ghost fs = diff_views(files@);
    for i in 0..shown
        invariant
            shown <= n == files@.len(),
            fs == diff_views(files@),
            v@ == head + direct_context(fs.take(i as int)),
    {
        push_str(&mut v, files[i].content.as_str());
        v.push('\n');
        proof {
            assert(fs.take(i + 1).drop_last() =~= fs.take(i as int));
            assert(fs.take(i + 1).last() == files@[i as int]@);
        }
    }
    let skipped = n - shown;
    if n > top_n {
        push_str(&mut v, "\n[");
        push_decimal(&mut v, skipped as u64);
        push_str(&mut v, " lower-priority file(s) omitted — visible in --stat above]\n");
    }
    string_from(v.as_slice())
}

/// The context for `Summarize`: the stat, then the summaries.
pub fn build_summarized_prompt_context(stat: &str, summaries: &str) -> (r: String)
    ensures
        r@ == "=== Stat ===\n"@ + stat@ + "\n\n"@ + summaries@,
{
    let mut v: Vec<char> = Vec::new();
    push_str(&mut v, "=== Stat ===\n");
    push_str(&mut v, stat);
    push_str(&mut v, "\n\n");
    push_str(&mut v, summaries);
    string_from(v.as_slice())
}

/// How many tokens of a file's diff go to its summary call: none are cut
/// when the diff has at most half the model's context, else half of it.
pub open spec fn summary_cut(token_count: nat, context_len: u64) -> Option<usize> {
    if token_count > ((context_len / 2) as usize) {
        Some((context_len / 2) as usize)
    } else {
        None
    }
}

/// Where to cut a file's diff before summarizing it.
pub fn summary_token_limit(token_count: usize, context_len: u64) -> (r: Option<usize>)
    ensures
        r == summary_cut(token_count as nat, context_len),
{
    let half = (context_len / 2) as usize;
    if token_count > half {
        Some(half)
    } else {
        None
    }
}

/// A cut diff, marked as such.
pub fn mark_truncated(text: &str) -> (r: String)
    ensures
        r@ == text@ + "\n[... truncated ...]"@,
{
    let mut v: Vec<char> = Vec::new();
    push_str(&mut v, text);
    push_str(&mut v, "\n[... truncated ...]");
    string_from(v.as_slice())
}

/// What stands for a summary that could not be made.
pub fn failed_summary() -> (r: String)
    ensures
        r@ == "(summary failed — see stat for details)"@,
{
    let v = chars_of("(summary failed — see stat for details)");
    string_from(v.as_slice())
}

} // verus!

verus! {

// ── Laws of the ordering ──────────────────────────────────────────────────

/// Every file gets one of six priorities, 90 being the highest.
pub proof fn lemma_priority_values(path: Seq<char>)
    ensures
        priority_of(path) == 0 || priority_of(path) == 20 || priority_of(path) == 40
            || priority_of(path) == 50 || priority_of(path) == 75 || priority_of(path) == 90,
{
}

proof fn lemma_filter_all<A>(s: Seq<A>, p: spec_fn(A) -> bool)
    requires
        forall|i: int| 0 <= i < s.len() ==> p(s[i]),
    ensures
        s.filter(p) == s,
    decreases s.len(),
{
    reveal(Seq::filter);
    if s.len() > 0 {
        lemma_filter_all(s.drop_last(), p);
        assert(s.drop_last().push(s.last()) =~= s);
    }
}

pub(crate) proof fn lemma_filter_none<A>(s: Seq<A>, p: spec_fn(A) -> bool)
    requires
        forall|i: int| 0 <= i < s.len() ==> !p(s[i]),
    ensures
        s.filter(p) == Seq::<A>::empty(),
    decreases s.len(),
{
    reveal(Seq::filter);
    if s.len() > 0 {
        lemma_filter_none(s.drop_last(), p);
    }
}

proof fn lemma_filter_split<A>(s: Seq<A>, p: spec_fn(A) -> bool, q: spec_fn(A) -> bool, r: spec_fn(A) -> bool)
    requires
        forall|x: A| #[trigger] r(x) == (p(x) || q(x)),
        forall|x: A| !(#[trigger] p(x) && q(x)),
    ensures
        s.filter(r).to_multiset() =~= s.filter(p).to_multiset().add(s.filter(q).to_multiset()),
    decreases s.len(),
{
    broadcast use vstd::multiset::group_multiset_axioms;
    broadcast use vstd::seq_lib::group_to_multiset_ensures;

    reveal(Seq::filter);
    if s.len() == 0 {
        assert(s.filter(r).to_multiset() =~= vstd::multiset::Multiset::empty());
        assert(s.filter(p).to_multiset() =~= vstd::multiset::Multiset::empty());
        assert(s.filter(q).to_multiset() =~= vstd::multiset::Multiset::empty());
    } else {
        lemma_filter_split(s.drop_last(), p, q, r);
    }
}

/// The files of `priority_levels(fs, p)` have priority at most `p`, and
/// no file is followed by one of higher priority.
proof fn lemma_levels_sorted(fs: Seq<FileDiffView>, p: int)
    ensures
        forall|i: int|
            0 <= i < priority_levels(fs, p).len() ==> #[trigger] priority_levels(fs, p)[i].priority
                <= p,
        forall|i: int, j: int|
            0 <= i < j < priority_levels(fs, p).len() ==> #[trigger] priority_levels(fs, p)[i].priority
                >= #[trigger] priority_levels(fs, p)[j].priority,
    decreases p + 1,
{
    if p >= 0 {
        lemma_levels_sorted(fs, p - 1);
        let pred = |f: FileDiffView| f.priority == p;
        let f = fs.filter(pred);
        let rest = priority_levels(fs, p - 1);
        let all = priority_levels(fs, p);
        assert(all == f + rest);
        assert forall|k: int| 0 <= k < f.len() implies #[trigger] f[k].priority == p by {
            fs.lemma_filter_pred(pred, k);
        }
        assert forall|i: int| 0 <= i < all.len() implies #[trigger] all[i].priority <= p by {
            if i < f.len() {
                assert(all[i] == f[i]);
            } else {
                assert(all[i] == rest[i - f.len()]);
            }
        }
        assert forall|i: int, j: int| 0 <= i < j < all.len() implies #[trigger] all[i].priority
            >= #[trigger] all[j].priority by {
            if j < f.len() {
                assert(all[i] == f[i] && all[j] == f[j]);
            } else if i < f.len() {
                assert(all[i] == f[i] && all[j] == rest[j - f.len()]);
            } else {
                assert(all[i] == rest[i - f.len()] && all[j] == rest[j - f.len()]);
            }
        }
    }
}

/// Sorting by priority puts no file before one of higher priority.
pub proof fn lemma_by_priority_sorted(fs: Seq<FileDiffView>)
    ensures
        forall|i: int, j: int|
            0 <= i < j < by_priority(fs).len() ==> #[trigger] by_priority(fs)[i].priority
                >= #[trigger] by_priority(fs)[j].priority,
{
    lemma_levels_sorted(fs, 255);
}

proof fn lemma_levels_multiset(fs: Seq<FileDiffView>, p: int)
    requires
        p <= 255,
    ensures
        priority_levels(fs, p).to_multiset() =~= fs.filter(
            |f: FileDiffView| f.priority <= p,
        ).to_multiset(),
    decreases p + 1,
{
    broadcast use vstd::multiset::group_multiset_axioms;
    broadcast use vstd::seq_lib::lemma_multiset_commutative;

    if p < 0 {
        lemma_filter_none(fs, |f: FileDiffView| f.priority <= p);
        assert(priority_levels(fs, p) =~= Seq::<FileDiffView>::empty());
    } else {
        lemma_levels_multiset(fs, p - 1);
        lemma_filter_split(
            fs,
            |f: FileDiffView| f.priority == p,
            |f: FileDiffView| f.priority <= p - 1,
            |f: FileDiffView| f.priority <= p,
        );
    }
}

/// Sorting by priority keeps every file, each as often as before.
pub proof fn lemma_by_priority_permutes(fs: Seq<FileDiffView>)
    ensures
        by_priority(fs).to_multiset() =~= fs.to_multiset(),
{
    lemma_levels_multiset(fs, 255);
    lemma_filter_all(fs, |f: FileDiffView| f.priority <= 255);
}

proof fn lemma_levels_stable(fs: Seq<FileDiffView>, p: int, q: u8)
    ensures
        priority_levels(fs, p).filter(|f: FileDiffView| f.priority == q) == if q <= p {
            fs.filter(|f: FileDiffView| f.priority == q)
        } else {
            Seq::<FileDiffView>::empty()
        },
    decreases p + 1,
{
    let is_q = |f: FileDiffView| f.priority == q;
    if p < 0 {
        assert(priority_levels(fs, p) =~= Seq::<FileDiffView>::empty());
        lemma_filter_none(priority_levels(fs, p), is_q);
    } else {
        lemma_levels_stable(fs, p - 1, q);
        let is_p = |f: FileDiffView| f.priority == p;
        let f = fs.filter(is_p);
        assert forall|k: int| 0 <= k < f.len() implies #[trigger] f[k].priority == p by {
            fs.lemma_filter_pred(is_p, k);
        }
        assert(priority_levels(fs, p) == f + priority_levels(fs, p - 1));
        Seq::filter_distributes_over_add(f, priority_levels(fs, p - 1), is_q);
        if q == p {
            lemma_filter_all(f, is_q);
            assert(f =~= fs.filter(is_q)) by {
                assert(is_p =~= is_q);
            }
            assert(f.filter(is_q) + Seq::<FileDiffView>::empty() =~= f.filter(is_q));
        } else {
            lemma_filter_none(f, is_q);
            assert(Seq::<FileDiffView>::empty() + priority_levels(fs, p - 1).filter(is_q)
                =~= priority_levels(fs, p - 1).filter(is_q));
        }
    }
}

/// Sorting by priority keeps the files of each priority in their order.
pub proof fn lemma_by_priority_stable(fs: Seq<FileDiffView>, q: u8)
    ensures
        by_priority(fs).filter(|f: FileDiffView| f.priority == q) == fs.filter(
            |f: FileDiffView| f.priority == q,
        ),
{
    lemma_levels_stable(fs, 255, q);
}


// ── Laws of scoring and strategy ──────────────────────────────────────────

/// A source file (an allowed extension, neither a lock or sum file nor a
/// test) with a `src` or `lib` component anywhere in its path scores 90.
pub proof fn lemma_src_component_scores_ninety(path: Seq<char>, i: int)
    requires
        0 <= i < components(path).len(),
        components(path)[i] == "src"@ || components(path)[i] == "lib"@,
        !low_priority_names().contains(name_of(path)),
        !looks_like_test(path),
        high_priority_ext().contains(lowercase(extension(path))),
    ensures
        priority_of(path) == 90,
{
    assert(components(path).contains(components(path)[i]));
}

/// A file scores 90 only when it is a source file with a `src` or `lib`
/// component somewhere in its path.
pub proof fn lemma_ninety_needs_src_component(path: Seq<char>)
    requires
        priority_of(path) == 90,
    ensures
        high_priority_ext().contains(lowercase(extension(path))),
        exists|i: int|
            0 <= i < components(path).len() && (#[trigger] components(path)[i] == "src"@
                || components(path)[i] == "lib"@),
{
    let cs = components(path);
    if cs.contains("src"@) {
        let i = choose|i: int| 0 <= i < cs.len() && cs[i] == "src"@;
        assert(cs[i] == "src"@);
    } else {
        assert(cs.contains("lib"@));
        let i = choose|i: int| 0 <= i < cs.len() && cs[i] == "lib"@;
        assert(cs[i] == "lib"@);
    }
}

/// A commit prompt that fits the context is always sent directly, however
/// many files the diff has.
pub proof fn lemma_fitting_prompt_is_direct(prompt_tokens: nat, budget: nat, file_count: nat)
    requires
        prompt_tokens < budget,
    ensures
        first_choice(prompt_tokens, budget, file_count) == Some(Strategy::Direct),
{
}

/// When the prompt does not fit, fewer than twenty files are summarized
/// and twenty or more are counted for `StatOnly`; `Direct` is chosen only
/// when the prompt fits.
pub proof fn lemma_strategy_when_prompt_too_long(prompt_tokens: nat, budget: nat, file_count: nat)
    ensures
        prompt_tokens >= budget && file_count < 20 ==> first_choice(
            prompt_tokens,
            budget,
            file_count,
        ) == Some(Strategy::Summarize),
        prompt_tokens >= budget && file_count >= 20 ==> first_choice(
            prompt_tokens,
            budget,
            file_count,
        ) is None,
        first_choice(prompt_tokens, budget, file_count) == Some(Strategy::Direct) ==> prompt_tokens
            < budget,
{
}

// ── Law of parsing ────────────────────────────────────────────────────────

/// Whether a line starts a file's diff.
pub open spec fn is_diff_header(l: Seq<char>) -> bool {
    starts_with(l, "diff --git "@)
}

/// The lines `a..b` of `ls` are one file's section: a header at `a`, no
/// other header before `b`, and `b` the next header or the end.
pub open spec fn is_section(ls: Seq<Seq<char>>, a: int, b: int) -> bool {
    &&& 0 <= a < b <= ls.len()
    &&& is_diff_header(ls[a])
    &&& forall|m: int| a < m < b ==> !is_diff_header(#[trigger] ls[m])
    &&& b == ls.len() || is_diff_header(ls[b])
}

/// A file diff is one section of `ls`, verbatim: its content is the
/// section's lines joined with line feeds, its path is the one its header
/// names, and its priority is that path's.
pub open spec fn from_section(ls: Seq<Seq<char>>, f: FileDiffView) -> bool {
    exists|a: int, b: int|
        #[trigger] is_section(ls, a, b) && f.content == join(ls.subrange(a, b), seq!['\n'])
            && f.path == header_path(ls[a]) && f.priority == priority_of(f.path)
}

proof fn lemma_parse_prefix(ls: Seq<Seq<char>>, n: int)
    requires
        0 <= n <= ls.len(),
    ensures
        forall|i: int|
            0 <= i < parse_lines(ls.take(n)).files.len() ==> from_section(
                ls,
                #[trigger] parse_lines(ls.take(n)).files[i],
            ),
        parse_lines(ls.take(n)).path.len() > 0 ==> exists|a: int|
            0 <= a < n && is_diff_header(#[trigger] ls[a]) && (forall|m: int|
                a < m < n ==> !is_diff_header(#[trigger] ls[m])) && parse_lines(ls.take(n)).lines
                == ls.subrange(a, n) && parse_lines(ls.take(n)).path == header_path(ls[a]),
    decreases n,
{
    if n == 0 {
        assert(ls.take(0) =~= Seq::<Seq<char>>::empty());
    } else {
        lemma_parse_prefix(ls, n - 1);
        let pre = ls.take(n - 1);
        assert(ls.take(n).drop_last() =~= pre);
        assert(ls.take(n).last() == ls[n - 1]);
        let st = parse_lines(pre);
        let line = ls[n - 1];
        let st2 = parse_lines(ls.take(n));
        assert(st2 == parse_step(st, line));
        if is_diff_header(line) {
            if st.path.len() > 0 {
                let a = choose|a: int|
                    0 <= a < n - 1 && is_diff_header(#[trigger] ls[a]) && (forall|m: int|
                        a < m < n - 1 ==> !is_diff_header(#[trigger] ls[m])) && st.lines
                        == ls.subrange(a, n - 1) && st.path == header_path(ls[a]);
                assert(is_section(ls, a, n - 1));
                let c = chunk(st.path, st.lines);
                assert(from_section(ls, c));
                assert forall|i: int| 0 <= i < st2.files.len() implies from_section(
                    ls,
                    #[trigger] st2.files[i],
                ) by {
                    if i < st.files.len() {
                        assert(st2.files[i] == st.files[i]);
                    } else {
                        assert(st2.files[i] == c);
                    }
                }
            }
            if st2.path.len() > 0 {
                assert(st2.lines =~= ls.subrange(n - 1, n));
            }
        } else {
            if st2.path.len() > 0 {
                let a = choose|a: int|
                    0 <= a < n - 1 && is_diff_header(#[trigger] ls[a]) && (forall|m: int|
                        a < m < n - 1 ==> !is_diff_header(#[trigger] ls[m])) && st.lines
                        == ls.subrange(a, n - 1) && st.path == header_path(ls[a]);
                assert(st2.lines =~= ls.subrange(a, n));
                assert(forall|m: int| a < m < n ==> !is_diff_header(#[trigger] ls[m]));
            }
        }
    }
}

/// Every file that parsing a raw diff gives (in the priority order that
/// `parse_diff` returns) is one file's section of the diff, verbatim: its
/// content is the raw lines from its `diff --git` header up to the next
/// header or the end, joined with line feeds, every line kept as it was.
pub proof fn lemma_chunks_are_sections(raw: Seq<char>)
    ensures
        forall|i: int|
            0 <= i < by_priority(diff_chunks(raw)).len() ==> from_section(
                lines(raw),
                #[trigger] by_priority(diff_chunks(raw))[i],
            ),
{
    broadcast use vstd::seq_lib::group_to_multiset_ensures;

    let ls = lines(raw);
    lemma_parse_prefix(ls, ls.len() as int);
    assert(ls.take(ls.len() as int) =~= ls);
    let st = parse_lines(ls);
    let fs = diff_chunks(raw);
    assert forall|i: int| 0 <= i < fs.len() implies from_section(ls, #[trigger] fs[i]) by {
        if i < st.files.len() {
            assert(fs[i] == st.files[i]);
        } else {
            let a = choose|a: int|
                0 <= a < ls.len() && is_diff_header(#[trigger] ls[a]) && (forall|m: int|
                    a < m < ls.len() ==> !is_diff_header(#[trigger] ls[m])) && st.lines
                    == ls.subrange(a, ls.len() as int) && st.path == header_path(ls[a]);
            assert(is_section(ls, a, ls.len() as int));
            assert(fs[i] == chunk(st.path, st.lines));
        }
    }
    lemma_by_priority_permutes(fs);
    let bp = by_priority(fs);
    assert forall|i: int| 0 <= i < bp.len() implies from_section(ls, #[trigger] bp[i]) by {
        assert(bp.contains(bp[i]));
        assert(bp.to_multiset().count(bp[i]) > 0);
        assert(fs.contains(bp[i]));
        let j = choose|j: int| 0 <= j < fs.len() && fs[j] == bp[i];
        assert(from_section(ls, fs[j]));
    }
}
} // verus!
