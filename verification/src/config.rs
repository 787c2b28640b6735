//! Configuration: scope definitions, the settings cascade (defaults, then
//! user file, then project file, then command line), validation of the
//! resolved settings, and the line that stores the encrypted API key.
use vstd::prelude::*;
use crate::crypto::{decrypt, opened};
use crate::strmap::{StrMap, insert_sorted};
use crate::text::{
    chars_of, ends_with, is_blank, join, join_with, lemma_trim_end_blank, lines, push_all,
    push_str, split_lines, starts_with, string_from, trim, trim_end, trim_start, trimmed, views,
    trim_bounds, copy_range, line_end, strip_cr,
};

verus! {

/// The views of a sequence of strings.
pub open spec fn string_views(v: Seq<String>) -> Seq<Seq<char>> {
    v.map_values(|s: String| s@)
}

// ── Scope definition ──────────────────────────────────────────────────────

/// A single named scope with optional glob patterns to auto-detect it.
///
/// TOML forms supported:
///
///   [scopes.api]                          # patterns only
///   paths = ["src/api/**", "src/routes/**"]
///
///   [scopes.auth]                         # full form
///   paths = ["src/auth/**"]
///
///   [scopes]                              # shorthand: bare string list
///   release = []                          # no paths → manual-only scope
#[derive(Debug, Clone)]
pub enum ScopeEntry {
    /// Full form: `{ paths = [...] }`
    Full { paths: Option<Vec<String>> },
    /// Shorthand: just a list of paths `["src/api/**"]`
    PathsOnly(Vec<String>),
}

/// The glob patterns of a scope entry (none when the full form omits them).
pub open spec fn scope_patterns(e: ScopeEntry) -> Seq<Seq<char>> {
    match e {
        ScopeEntry::Full { paths: Some(v) } => string_views(v@),
        ScopeEntry::Full { paths: None } => seq![],
        ScopeEntry::PathsOnly(v) => string_views(v@),
    }
}

impl ScopeEntry {
    /// The glob patterns of this scope.
    pub fn paths(&self) -> (r: &[String])
        ensures
            string_views(r@) == scope_patterns(*self),
    {
        match self {
            ScopeEntry::Full { paths: Some(v) } => v.as_slice(),
            ScopeEntry::Full { paths: None } => {
                let r: &[String] = &[];
                assert(string_views(r@) =~= Seq::<Seq<char>>::empty());
                r
            },
            ScopeEntry::PathsOnly(v) => v.as_slice(),
        }
    }
}

// ── Settings read from one TOML file ──────────────────────────────────────

/// The settings one config file gives; absent ones leave earlier values.
pub struct FileConfig {
    /// llama-swap URL
    pub endpoint: Option<String>,
    /// Model name
    pub model: Option<String>,
    /// An upper bound for the number of tokens that can be generated for a
    /// completion, including visible output tokens and reasoning tokens.
    pub max_completion_tokens: Option<u64>,
    /// Patterns for excluding files
    pub exclude_patterns: Option<Vec<String>>,
    /// `[scopes]` table: scope name → entry
    pub scopes: Option<StrMap<ScopeEntry>>,
    /// Encrypted API key for llama-swap authentication
    pub api_key_encrypted: Option<String>,
}

// ── Resolved Config ───────────────────────────────────────────────────────

pub struct Config {
    /// LLM name
    pub model: String,
    /// llama-swap base URL
    pub endpoint: String,
    /// An upper bound for the number of tokens that can be generated for a
    /// completion, including visible output tokens and reasoning tokens.
    pub max_completion_tokens: u64,
    /// Excluded file patterns
    pub exclude_patterns: Vec<String>,
    /// All scopes defined in `.gac.toml`, keyed by name.
    pub scopes: StrMap<ScopeEntry>,
    /// Decrypted API key for llama-swap authentication
    pub api_key: Option<String>,
}

/// The files excluded from the diff unless the config says otherwise.
pub open spec fn default_exclude_patterns() -> Seq<Seq<char>> {
    seq![
        "package-lock.json"@,
        "yarn.lock"@,
        "pnpm-lock.yaml"@,
        "bun.lockb"@,
        "Cargo.lock"@,
        "poetry.lock"@,
        "*.lock"@,
    ]
}

pub fn default_excludes() -> (r: Vec<String>)
    ensures
        string_views(r@) == default_exclude_patterns(),
{
    let words = [
        "package-lock.json",
        "yarn.lock",
        "pnpm-lock.yaml",
        "bun.lockb",
        "Cargo.lock",
        "poetry.lock",
        "*.lock",
    ];
    let mut r: Vec<String> = Vec::new();
    for i in 0..7
        invariant
            string_views(r@) == string_views_of_strs(words@).take(i as int),
    {
        let ghost before = string_views(r@);
        let cs = chars_of(words[i]);
        r.push(string_from(cs.as_slice()));
        assert(string_views(r@) =~= before.push(words@[i as int]@));
        assert(string_views_of_strs(words@).take(i + 1) =~= string_views_of_strs(words@).take(
            i as int,
        ).push(words@[i as int]@));
    }
    assert(string_views_of_strs(words@).take(7) =~= default_exclude_patterns());
    r
}

/// The views of a sequence of string slices.
pub open spec fn string_views_of_strs(v: Seq<&str>) -> Seq<Seq<char>> {
    v.map_values(|s: &str| s@)
}

impl Default for Config {
    fn default() -> (r: Self)
        ensures
            r.model@ == "Gemma-4:E4B-QAT"@,
            r.endpoint@ == "http://localhost:11438"@,
            r.max_completion_tokens == 4096,
            string_views(r.exclude_patterns@) == default_exclude_patterns(),
            r.scopes.pairs().len() == 0,
            r.api_key is None,
    {
        let model = chars_of("Gemma-4:E4B-QAT");
        let endpoint = chars_of("http://localhost:11438");
        Config {
            model: string_from(model.as_slice()),
            endpoint: string_from(endpoint.as_slice()),
            max_completion_tokens: 4096,
            exclude_patterns: default_excludes(),
            scopes: StrMap::new(),
            api_key: None,
        }
    }
}

/// Why a resolved configuration is unusable.
#[derive(Debug, Clone, PartialEq, Eq)]
pub enum ConfigError {
    /// The model name is empty.
    EmptyModel,
    /// `max_completion_tokens` is 0.
    ZeroMaxCompletionTokens,
    /// The (trimmed) endpoint does not start with `http://` or `https://`.
    MissingScheme(String),
    /// The (trimmed) endpoint ends with `/`.
    TrailingSlash(String),
}

/// The model of a [`ConfigError`].
pub enum ConfigProblem {
    EmptyModel,
    ZeroMaxCompletionTokens,
    MissingScheme(Seq<char>),
    TrailingSlash(Seq<char>),
}

impl View for ConfigError {
    type V = ConfigProblem;

    open spec fn view(&self) -> ConfigProblem {
        match self {
            ConfigError::EmptyModel => ConfigProblem::EmptyModel,
            ConfigError::ZeroMaxCompletionTokens => ConfigProblem::ZeroMaxCompletionTokens,
            ConfigError::MissingScheme(e) => ConfigProblem::MissingScheme(e@),
            ConfigError::TrailingSlash(e) => ConfigProblem::TrailingSlash(e@),
        }
    }
}

/// The first problem with a configuration, checked in this order: model,
/// token limit, endpoint scheme, endpoint trailing slash.
pub open spec fn config_problem(model: Seq<char>, max_tokens: u64, endpoint: Seq<char>) -> Option<
    ConfigProblem,
> {
    let ep = trim(endpoint);
    if model.len() == 0 {
        Some(ConfigProblem::EmptyModel)
    } else if max_tokens == 0 {
        Some(ConfigProblem::ZeroMaxCompletionTokens)
    } else if !starts_with(ep, "http://"@) && !starts_with(ep, "https://"@) {
        Some(ConfigProblem::MissingScheme(ep))
    } else if ends_with(ep, seq!['/']) {
        Some(ConfigProblem::TrailingSlash(ep))
    } else {
        None
    }
}

pub open spec fn config_problem_text(p: ConfigProblem) -> Seq<char> {
    match p {
        ConfigProblem::EmptyModel => "model name is empty — set it in .gac.toml or via --model"@,
        ConfigProblem::ZeroMaxCompletionTokens => "max_completion_tokens must be > 0 (got 0)"@,
        ConfigProblem::MissingScheme(e) => "endpoint '"@ + e + "' must start with http:// or https://"@,
        ConfigProblem::TrailingSlash(e) => "endpoint '"@ + e + "' has a trailing slash — remove it"@,
    }
}

impl ConfigError {
    /// The explanation shown to the user.
    pub fn message(&self) -> (r: String)
        ensures
            r@ == config_problem_text(self@),
    {
        let mut v: Vec<char> = Vec::new();
        match self {
            ConfigError::EmptyModel => push_str(
                &mut v,
                "model name is empty — set it in .gac.toml or via --model",
            ),
            ConfigError::ZeroMaxCompletionTokens => push_str(
                &mut v,
                "max_completion_tokens must be > 0 (got 0)",
            ),
            ConfigError::MissingScheme(e) => {
                push_str(&mut v, "endpoint '");
                push_str(&mut v, e.as_str());
                push_str(&mut v, "' must start with http:// or https://");
            },
            ConfigError::TrailingSlash(e) => {
                push_str(&mut v, "endpoint '");
                push_str(&mut v, e.as_str());
                push_str(&mut v, "' has a trailing slash — remove it");
            },
        }
        string_from(v.as_slice())
    }
}

/// Whether `p` starts `s`.
fn has_prefix(s: &[char], p: &str) -> (r: bool)
    ensures
        r == starts_with(s@, p@),
{
    let pv = chars_of(p);
    if pv.len() > s.len() {
        return false;
    }
    let r = crate::text::slice_starts_with(s, 0, pv.as_slice());
    assert(s@.take(pv@.len() as int) =~= s@.subrange(0, pv@.len() as int));
    r
}

impl Config {
    pub fn apply_cli_overrides(&mut self, model: Option<String>)
        ensures
            match model {
                Some(m) => final(self).model == m,
                None => final(self).model == old(self).model,
            },
            final(self).endpoint == old(self).endpoint,
            final(self).max_completion_tokens == old(self).max_completion_tokens,
            final(self).exclude_patterns == old(self).exclude_patterns,
            final(self).scopes == old(self).scopes,
            final(self).api_key == old(self).api_key,
    {
        if let Some(m) = model {
            self.model = m;
        }
    }

    /// Validate the resolved config. Call after loading and applying CLI
    /// overrides.
    pub fn validate(&self) -> (r: Result<(), ConfigError>)
        ensures
            match r {
                Ok(()) => config_problem(self.model@, self.max_completion_tokens, self.endpoint@)
                    is None,
                Err(e) => config_problem(self.model@, self.max_completion_tokens, self.endpoint@)
                    == Some(e@),
            },
    {
        if self.model.as_str().is_empty() {
            return Err(ConfigError::EmptyModel);
        }
        if self.max_completion_tokens == 0 {
            return Err(ConfigError::ZeroMaxCompletionTokens);
        }
        let raw = chars_of(self.endpoint.as_str());
        let ep = trimmed(raw.as_slice());
        if !has_prefix(ep.as_slice(), "http://") && !has_prefix(ep.as_slice(), "https://") {
            return Err(ConfigError::MissingScheme(string_from(ep.as_slice())));
        }
        let n = ep.len();
        if n > 0 && ep[n - 1] == '/' {
            assert(ep@.skip(n - 1) =~= seq!['/']);
            return Err(ConfigError::TrailingSlash(string_from(ep.as_slice())));
        }
        proof {
            if n > 0 {
                assert(ep@.skip(n - 1)[0] != '/');
            }
        }
        Ok(())
    }

    /// Applies the settings of one config file over this configuration:
    /// each setting the file gives replaces the current one (the file's
    /// scopes replace all scopes, so no scope bleeds across projects), and
    /// the encrypted API key replaces the current key only when it opens
    /// under `password`.
    pub fn merge_file(&mut self, file: FileConfig, password: &str)
        ensures
            final(self).model@ == match file.model {
                Some(m) => m@,
                None => old(self).model@,
            },
            final(self).endpoint@ == match file.endpoint {
                Some(e) => e@,
                None => old(self).endpoint@,
            },
            final(self).max_completion_tokens == match file.max_completion_tokens {
                Some(t) => t,
                None => old(self).max_completion_tokens,
            },
            string_views(final(self).exclude_patterns@) == match file.exclude_patterns {
                Some(v) => string_views(v@),
                None => string_views(old(self).exclude_patterns@),
            },
            final(self).scopes.pairs() == match file.scopes {
                Some(s) => s.pairs(),
                None => old(self).scopes.pairs(),
            },
            match file.api_key_encrypted {
                Some(enc) => match opened(password@, enc@) {
                    Ok(k) => final(self).api_key matches Some(key) && key@ == k,
                    Err(_) => final(self).api_key == old(self).api_key,
                },
                None => final(self).api_key == old(self).api_key,
            },
    {
        let FileConfig {
            endpoint,
            model,
            max_completion_tokens,
            exclude_patterns,
            scopes,
            api_key_encrypted,
        } = file;
        if let Some(m) = model {
            self.model = m;
        }
        if let Some(e) = endpoint {
            self.endpoint = e;
        }
        if let Some(t) = max_completion_tokens {
            self.max_completion_tokens = t;
        }
        if let Some(v) = exclude_patterns {
            self.exclude_patterns = v;
        }
        if let Some(s) = scopes {
            self.scopes = s;
        }
        if let Some(enc) = api_key_encrypted {
            if let Ok(key) = decrypt(password, enc.as_str()) {
                self.api_key = Some(key);
            }
        }
    }
}

// ── The settings cascade ──────────────────────────────────────────────────

/// The later of two settings: the one a file gives, else the earlier one.
pub open spec fn later<T>(given: Option<T>, earlier: T) -> T {
    match given {
        Some(v) => v,
        None => earlier,
    }
}

/// The model a config file gives, if any.
pub open spec fn model_in(f: Option<FileConfig>) -> Option<Seq<char>> {
    match f {
        Some(c) => match c.model {
            Some(m) => Some(m@),
            None => None,
        },
        None => None,
    }
}

/// The endpoint a config file gives, if any.
pub open spec fn endpoint_in(f: Option<FileConfig>) -> Option<Seq<char>> {
    match f {
        Some(c) => match c.endpoint {
            Some(e) => Some(e@),
            None => None,
        },
        None => None,
    }
}

/// The token limit a config file gives, if any.
pub open spec fn tokens_in(f: Option<FileConfig>) -> Option<u64> {
    match f {
        Some(c) => c.max_completion_tokens,
        None => None,
    }
}

/// The exclude patterns a config file gives, if any.
pub open spec fn excludes_in(f: Option<FileConfig>) -> Option<Seq<Seq<char>>> {
    match f {
        Some(c) => match c.exclude_patterns {
            Some(v) => Some(string_views(v@)),
            None => None,
        },
        None => None,
    }
}

/// The scopes a config file gives, if any.
pub open spec fn scopes_in(f: Option<FileConfig>) -> Option<Seq<(Seq<char>, ScopeEntry)>> {
    match f {
        Some(c) => match c.scopes {
            Some(m) => Some(m.pairs()),
            None => None,
        },
        None => None,
    }
}

/// The API key after a config file: the key its encrypted field opens to
/// under `password`, else the earlier key.
pub open spec fn key_after(f: Option<FileConfig>, password: Seq<char>, earlier: Option<Seq<char>>) -> Option<
    Seq<char>,
> {
    match f {
        Some(c) => match c.api_key_encrypted {
            Some(enc) => match opened(password, enc@) {
                Ok(k) => Some(k),
                Err(_) => earlier,
            },
            None => earlier,
        },
        None => earlier,
    }
}

/// The text of an optional key.
pub open spec fn key_view(k: Option<String>) -> Option<Seq<char>> {
    match k {
        Some(s) => Some(s@),
        None => None,
    }
}

impl Config {
    /// The configuration of a run: the built-in defaults, then the user's
    /// config file, then the project's, each setting a later file gives
    /// replacing the earlier one.
    pub fn from_files(user: Option<FileConfig>, project: Option<FileConfig>, password: &str) -> (r:
        Config)
        ensures
            r.model@ == later(model_in(project), later(model_in(user), "Gemma-4:E4B-QAT"@)),
            r.endpoint@ == later(
                endpoint_in(project),
                later(endpoint_in(user), "http://localhost:11438"@),
            ),
            r.max_completion_tokens == later(tokens_in(project), later(tokens_in(user), 4096u64)),
            string_views(r.exclude_patterns@) == later(
                excludes_in(project),
                later(excludes_in(user), default_exclude_patterns()),
            ),
            r.scopes.pairs() == later(
                scopes_in(project),
                later(scopes_in(user), Seq::<(Seq<char>, ScopeEntry)>::empty()),
            ),
            key_view(r.api_key) == key_after(project, password@, key_after(user, password@, None)),
    {
        let mut c = Config::default();
        assert(c.scopes.pairs() =~= Seq::<(Seq<char>, ScopeEntry)>::empty());
        if let Some(u) = user {
            c.merge_file(u, password);
        }
        if let Some(p) = project {
            c.merge_file(p, password);
        }
        c
    }
}

// ── Saving the encrypted key ──────────────────────────────────────────────

/// Whether a config line sets `api_key_encrypted`.
pub open spec fn sets_api_key(line: Seq<char>) -> bool {
    starts_with(trim_start(line), "api_key_encrypted"@)
}

/// The index of the first line that sets `api_key_encrypted`, or the
/// number of lines when none does.
pub open spec fn first_key_index(ls: Seq<Seq<char>>) -> int
    decreases ls.len(),
{
    if ls.len() == 0 {
        0
    } else if sets_api_key(ls[0]) {
        0
    } else {
        1 + first_key_index(ls.drop_first())
    }
}

/// The line that stores the encrypted key.
pub open spec fn api_key_line(encrypted: Seq<char>) -> Seq<char> {
    "api_key_encrypted = \""@ + encrypted + "\""@
}

/// The lines of a config file whose first key line is replaced by the
/// new one; any later key lines are dropped, all other lines stay.
pub open spec fn replaced_key_lines(ls: Seq<Seq<char>>, encrypted: Seq<char>) -> Seq<Seq<char>> {
    let k = first_key_index(ls);
    ls.take(k).push(api_key_line(encrypted)) + ls.skip(k + 1).filter(
        |l: Seq<char>| !sets_api_key(l),
    )
}

/// A config file's text with its `api_key_encrypted` line replaced in
/// place by the new one; when there is none, a commented
/// `api_key_encrypted = "<encrypted>"` line is appended at the end.
pub open spec fn with_api_key_line(content: Seq<char>, encrypted: Seq<char>) -> Seq<char> {
    let ls = lines(content);
    if first_key_index(ls) < ls.len() {
        join(replaced_key_lines(ls, encrypted), seq!['\n']) + seq!['\n']
    } else {
        trim_end(join(ls, seq!['\n']))
            + "\n\n# API key for llama-swap authentication (auto-encrypted)\napi_key_encrypted = \""@
            + encrypted + "\"\n"@
    }
}

proof fn lemma_first_key_index(ls: Seq<Seq<char>>)
    ensures
        0 <= first_key_index(ls) <= ls.len(),
        first_key_index(ls) < ls.len() ==> sets_api_key(ls[first_key_index(ls)]),
        forall|j: int| 0 <= j < first_key_index(ls) ==> !sets_api_key(#[trigger] ls[j]),
    decreases ls.len(),
{
    if ls.len() > 0 && !sets_api_key(ls[0]) {
        lemma_first_key_index(ls.drop_first());
        assert forall|j: int| 0 <= j < first_key_index(ls) implies !sets_api_key(#[trigger] ls[j]) by {
            if j > 0 {
                assert(ls[j] == ls.drop_first()[j - 1]);
            }
        }
    }
}

proof fn lemma_first_key_index_at(ls: Seq<Seq<char>>, i: int)
    requires
        0 <= i <= ls.len(),
        i < ls.len() ==> sets_api_key(ls[i]),
        forall|j: int| 0 <= j < i ==> !sets_api_key(#[trigger] ls[j]),
    ensures
        first_key_index(ls) == i,
    decreases i,
{
    if i > 0 {
        assert forall|j: int| 0 <= j < i - 1 implies !sets_api_key(#[trigger] ls.drop_first()[j]) by {
            assert(ls.drop_first()[j] == ls[j + 1]);
        }
        lemma_first_key_index_at(ls.drop_first(), i - 1);
    }
}

/// Whether a line sets `api_key_encrypted`.
fn line_sets_key(line: &Vec<char>) -> (r: bool)
    ensures
        r == sets_api_key(line@),
{
    let mut start: usize = 0;
    while start < line.len() && crate::text::is_whitespace(line[start])
        invariant
            start <= line@.len(),
            forall|j: int| 0 <= j < start ==> crate::text::is_ws(#[trigger] line@[j]),
        decreases line@.len() - start,
    {
        start = start + 1;
    }
    let rest = copy_range(line.as_slice(), start, line.len());
    proof {
        crate::text::lemma_trim_start_skip(line@, start as int);
        if start < line@.len() {
            assert(!crate::text::is_ws(line@.skip(start as int)[0]));
        }
        assert(rest@ =~= line@.skip(start as int));
        assert(trim_start(line@) == rest@);
    }
    has_prefix(rest.as_slice(), "api_key_encrypted")
}

/// Write or replace the `api_key_encrypted` field in the text of a TOML
/// config file: replaces the line that sets it, or appends it at the end
/// when no line does.
pub fn with_encrypted_api_key(content: &str, encrypted: &str) -> (r: String)
    ensures
        r@ == with_api_key_line(content@, encrypted@),
{
    let cs = chars_of(content);
    let ls = split_lines(cs.as_slice());
    let ghost lv = views(ls@);
    let n = ls.len();
    let mut k: usize = 0;
    while k < n && !line_sets_key(&ls[k])
        invariant
            k <= n == ls@.len(),
            lv == views(ls@),
            forall|j: int| 0 <= j < k ==> !sets_api_key(#[trigger] lv[j]),
        decreases n - k,
    {
        assert(lv[k as int] == ls@[k as int]@);
        k = k + 1;
    }
    proof {
        if k < n {
            assert(lv[k as int] == ls@[k as int]@);
        }
        lemma_first_key_index_at(lv, k as int);
    }
    let nl = ['\n'];
    assert(nl@ =~= seq!['\n']);
    if k == n {
        let joined = join_with(&ls, &nl);
        let (_a, end) = trim_end_bound(joined.as_slice());
        let mut out = copy_range(joined.as_slice(), 0, end);
        push_str(
            &mut out,
            "\n\n# API key for llama-swap authentication (auto-encrypted)\napi_key_encrypted = \"",
        );
        push_str(&mut out, encrypted);
        push_str(&mut out, "\"\n");
        return string_from(out.as_slice());
    }
    let mut out_lines: Vec<Vec<char>> = Vec::new();
    for i in 0..k
        invariant
            k < n == ls@.len(),
            lv == views(ls@),
            views(out_lines@) == lv.take(i as int),
    {
        let ghost before = views(out_lines@);
        out_lines.push(copy_range(ls[i].as_slice(), 0, ls[i].len()));
        assert(ls@[i as int]@.subrange(0, ls@[i as int]@.len() as int) =~= ls@[i as int]@);
        assert(views(out_lines@) =~= before.push(lv[i as int]));
        assert(lv.take(i + 1) =~= lv.take(i as int).push(lv[i as int]));
    }
    let mut key: Vec<char> = Vec::new();
    push_str(&mut key, "api_key_encrypted = \"");
    push_str(&mut key, encrypted);
    push_str(&mut key, "\"");
    let ghost head = views(out_lines@).push(key@);
    out_lines.push(key);
    assert(views(out_lines@) =~= head);
    let mut j: usize = k + 1;
    assert(lv.subrange(k + 1, k + 1) =~= Seq::<Seq<char>>::empty());
    while j < n
        invariant
            k < j <= n == ls@.len(),
            lv == views(ls@),
            views(out_lines@) == head + lv.subrange(k + 1, j as int).filter(
                |l: Seq<char>| !sets_api_key(l),
            ),
        decreases n - j,
    {
        let ghost before = views(out_lines@);
        let sets = line_sets_key(&ls[j]);
        assert(lv[j as int] == ls@[j as int]@);
        if !sets {
            out_lines.push(copy_range(ls[j].as_slice(), 0, ls[j].len()));
            assert(ls@[j as int]@.subrange(0, ls@[j as int]@.len() as int) =~= ls@[j as int]@);
            assert(views(out_lines@) =~= before.push(lv[j as int]));
        }
        proof {
            reveal_with_fuel(Seq::<_>::filter, 1);
            assert(lv.subrange(k + 1, j + 1).drop_last() =~= lv.subrange(k + 1, j as int));
            assert(lv.subrange(k + 1, j + 1).last() == lv[j as int]);
        }
        j = j + 1;
    }
    assert(lv.subrange(k + 1, n as int) =~= lv.skip(k + 1));
    assert(views(out_lines@) =~= replaced_key_lines(lv, encrypted@));
    let mut out = join_with(&out_lines, &nl);
    out.push('\n');
    string_from(out.as_slice())
}

/// The end of `s` without its trailing whitespace.
fn trim_end_bound(s: &[char]) -> (r: (usize, usize))
    ensures
        r.1 <= s@.len(),
        s@.take(r.1 as int) == trim_end(s@),
{
    let n = s.len();
    let mut j: usize = n;
    while j > 0 && crate::text::is_whitespace(s[j - 1])
        invariant
            j <= n == s@.len(),
            forall|k: int| j <= k < n ==> crate::text::is_ws(#[trigger] s@[k]),
        decreases j,
    {
        j = j - 1;
    }
    proof {
        crate::text::lemma_trim_end_take(s@, j as int);
        if j > 0 {
            assert(s@.take(j as int).last() == s@[j - 1]);
        }
        assert(trim_end(s@.take(j as int)) == s@.take(j as int));
    }
    (0, j)
}

} // verus!

verus! {

/// The built-in defaults pass validation.
pub proof fn lemma_default_config_valid()
    ensures
        config_problem("Gemma-4:E4B-QAT"@, 4096, "http://localhost:11438"@) is None,
{
    reveal_strlit("Gemma-4:E4B-QAT");
    reveal_strlit("http://localhost:11438");
    reveal_strlit("http://");
    let ep = "http://localhost:11438"@;
    assert(!crate::text::is_ws(ep[0]));
    assert(trim_start(ep) == ep);
    assert(!crate::text::is_ws(ep.last()));
    assert(trim_end(ep) == ep);
    assert(ep.take(7) =~= "http://"@);
    assert(ep.skip(ep.len() - 1) =~= seq!['8']);
    assert(seq!['8'] != seq!['/']) by {
        assert(seq!['8'][0] != seq!['/'][0]);
    }
}

/// The lines of `p`, a line feed, `y` and a line feed end with `y`, when
/// `y` is a non-empty line that does not end with a carriage return.
proof fn lemma_last_line(p: Seq<char>, y: Seq<char>)
    requires
        y.len() > 0,
        y.last() != '\r',
        forall|i: int| 0 <= i < y.len() ==> y[i] != '\n',
    ensures
        lines(p + seq!['\n'] + y + seq!['\n']).len() > 0,
        lines(p + seq!['\n'] + y + seq!['\n']).last() == y,
    decreases p.len(),
{
    let s = p + seq!['\n'] + y + seq!['\n'];
    crate::text::lemma_line_end(p);
    let k = line_end(p);
    if k < p.len() {
        assert(s[k] == '\n');
        assert forall|j: int| 0 <= j < k implies s[j] != '\n' by {
            assert(s[j] == p[j]);
        }
        crate::text::lemma_line_end_at(s, k);
        assert(s.skip(k + 1) =~= p.skip(k + 1) + seq!['\n'] + y + seq!['\n']);
        lemma_last_line(p.skip(k + 1), y);
    } else {
        assert(s[k] == '\n');
        assert forall|j: int| 0 <= j < k implies s[j] != '\n' by {
            assert(s[j] == p[j]);
        }
        crate::text::lemma_line_end_at(s, k);
        let t = s.skip(k + 1);
        assert(t =~= y + seq!['\n']);
        assert forall|j: int| 0 <= j < y.len() implies t[j] != '\n' by {
            assert(t[j] == y[j]);
        }
        crate::text::lemma_line_end_at(t, y.len() as int);
        assert(t.take(y.len() as int) =~= y);
        assert(strip_cr(t.take(y.len() as int)) == y);
        assert(t.skip(y.len() as int + 1) =~= Seq::<char>::empty());
        assert(lines(t.skip(y.len() as int + 1)) =~= Seq::<Seq<char>>::empty());
        assert(lines(t) =~= seq![y]);
    }
}

/// When no line of the config file sets the key, saving appends it: the
/// last line of the saved text sets the encrypted key (when the encrypted
/// text holds no line break).
pub proof fn lemma_appended_key_is_last_line(content: Seq<char>, encrypted: Seq<char>)
    requires
        first_key_index(lines(content)) >= lines(content).len(),
        forall|i: int| 0 <= i < encrypted.len() ==> encrypted[i] != '\n' && encrypted[i] != '\r',
    ensures
        lines(with_api_key_line(content, encrypted)).len() > 0,
        lines(with_api_key_line(content, encrypted)).last() == api_key_line(encrypted),
{
    reveal_strlit("\n\n# API key for llama-swap authentication (auto-encrypted)\napi_key_encrypted = \"");
    reveal_strlit("\"\n");
    reveal_strlit("api_key_encrypted = \"");
    reveal_strlit("\"");
    let head = trim_end(join(lines(content), seq!['\n']));
    let comment = "\n\n# API key for llama-swap authentication (auto-encrypted)"@;
    reveal_strlit("\n\n# API key for llama-swap authentication (auto-encrypted)");
    let prefix = "api_key_encrypted = \""@;
    let lit = "\n\n# API key for llama-swap authentication (auto-encrypted)\napi_key_encrypted = \""@;
    assert(lit =~= comment + seq!['\n'] + prefix);
    assert("\"\n"@ =~= "\""@ + seq!['\n']);
    let y = api_key_line(encrypted);
    assert forall|i: int| 0 <= i < y.len() implies y[i] != '\n' by {
        if i >= 21 && i < 21 + encrypted.len() {
            assert(y[i] == encrypted[i - 21]);
        }
    }
    assert(with_api_key_line(content, encrypted) =~= (head + comment) + seq!['\n'] + y + seq![
        '\n',
    ]);
    lemma_last_line(head + comment, y);
}

/// When a line of the config file sets the key, saving replaces that line
/// in place: the lines before it are kept, it becomes the new key line,
/// the lines after it are kept but for further key lines, and the new
/// line is the only one that sets the key.
pub proof fn lemma_saved_key_replaces_line(content: Seq<char>, encrypted: Seq<char>)
    requires
        first_key_index(lines(content)) < lines(content).len(),
    ensures
        ({
            let ls = lines(content);
            let k = first_key_index(ls);
            let out = replaced_key_lines(ls, encrypted);
            &&& with_api_key_line(content, encrypted) == join(out, seq!['\n']) + seq!['\n']
            &&& out.take(k) == ls.take(k)
            &&& out[k] == api_key_line(encrypted)
            &&& out.skip(k + 1) == ls.skip(k + 1).filter(|l: Seq<char>| !sets_api_key(l))
            &&& out.filter(|l: Seq<char>| sets_api_key(l)) == seq![api_key_line(encrypted)]
        }),
{
    let ls = lines(content);
    let k = first_key_index(ls);
    lemma_first_key_index(ls);
    let key = api_key_line(encrypted);
    let sets = |l: Seq<char>| sets_api_key(l);
    let unsets = |l: Seq<char>| !sets_api_key(l);
    let a = ls.take(k);
    let b = ls.skip(k + 1).filter(unsets);
    let out = replaced_key_lines(ls, encrypted);
    assert(out == a.push(key) + b);
    assert(out.take(k) =~= a);
    assert(out.skip(k + 1) =~= b);
    reveal_strlit("api_key_encrypted = \"");
    reveal_strlit("api_key_encrypted");
    reveal_strlit("\"");
    assert(!crate::text::is_ws(key[0]));
    assert(trim_start(key) == key);
    assert(key.take(17) =~= "api_key_encrypted"@);
    assert(sets_api_key(key));
    crate::diff::lemma_filter_none(a, sets);
    assert forall|i: int| 0 <= i < b.len() implies !sets(#[trigger] b[i]) by {
        ls.skip(k + 1).lemma_filter_pred(unsets, i);
    }
    crate::diff::lemma_filter_none(b, sets);
    Seq::filter_distributes_over_add(a.push(key), b, sets);
    reveal_with_fuel(Seq::<_>::filter, 1);
    assert(a.push(key).drop_last() =~= a);
    assert(a.push(key).filter(sets) =~= seq![key]);
    assert(out.filter(sets) =~= seq![key] + Seq::<Seq<char>>::empty());
}

} // verus!
