//! Conventional Commits checks on generated messages, and the automatic
//! repair of the most common slips (capitalised subject, trailing period,
//! stray characters in the type).
use vstd::prelude::*;
use vstd::utf8::*;
use crate::casing::{is_alphanumeric_char, is_uppercase_char, lowercase, lowercase_char, to_lowercase_char};
use crate::text::{
    chars_of, copy_range, decimal, ends_with, find, find_in, first_line, join, join_with, lemma_find_from,
    lemma_lines_nonempty, lines, occurs_at, push_all, push_decimal, push_str, slice_starts_with, split_lines,
    starts_with, string_from, trim, trimmed, views, line_end, lemma_line_end, lemma_join_lines,
    is_ws, strip_cr, trim_start, lemma_trim_start_blank, lemma_trim_end_blank,
};

verus! {

/// Pattern for a whole subject line: `type(scope): subject`.
pub const CONVENTIONAL_HEADER: &'static str = r"^(feat|fix|docs|style|refactor|perf|test|build|ci|chore|revert)(\([^)]+\))?: .{1,120}$";

/// Pattern for the part of a subject line before `": "`.
pub const TYPE_WITH_SCOPE: &'static str = r"^(feat|fix|docs|style|refactor|perf|test|build|ci|chore|revert)(\([^)]+\))?$";

/// The commit types that Conventional Commits allows, in the order they are listed.
pub open spec fn commit_types() -> Seq<Seq<char>> {
    seq![
        "feat"@,
        "fix"@,
        "docs"@,
        "style"@,
        "refactor"@,
        "perf"@,
        "test"@,
        "build"@,
        "ci"@,
        "chore"@,
        "revert"@,
    ]
}

/// A parenthesised scope: `(`, at least one character other than `)`, `)`.
pub open spec fn is_scope(x: Seq<char>) -> bool {
    &&& x.len() >= 3
    &&& x[0] == '('
    &&& x.last() == ')'
    &&& forall|i: int| 1 <= i < x.len() - 1 ==> x[i] != ')'
}

/// A commit type, optionally followed by a scope, and nothing else.
pub open spec fn is_type_with_scope(t: Seq<char>) -> bool {
    exists|k: int|
        0 < k <= t.len() && commit_types().contains(#[trigger] t.take(k)) && (k == t.len()
            || is_scope(t.skip(k)))
}

/// A subject of one to 120 characters, none of them a line feed.
pub open spec fn is_subject(s: Seq<char>) -> bool {
    1 <= s.len() <= 120 && forall|i: int| 0 <= i < s.len() ==> s[i] != '\n'
}

/// The whole of `line` is `type(scope): subject` with an optional scope.
pub open spec fn is_conventional_header(line: Seq<char>) -> bool {
    exists|k: int|
        0 < k <= line.len() && is_type_with_scope(#[trigger] line.take(k)) && starts_with(
            line.skip(k),
            seq![':', ' '],
        ) && is_subject(line.skip(k + 2))
}

/// Runs one of the two patterns above over `haystack` with the `regex`
/// crate (`Regex::new` then `Regex::is_match`). By the regex syntax the
/// first pattern matches exactly the conventional headers and the second
/// exactly a type with an optional scope (anchored at both ends, `.` being
/// any character but a line feed, counts being in characters). Both
/// patterns compile, so the failure arm is never taken.
#[verifier::external_body]
fn regex_is_match(pattern: &str, haystack: &str) -> (r: bool)
    requires
        pattern@ == CONVENTIONAL_HEADER@ || pattern@ == TYPE_WITH_SCOPE@,
    ensures
        pattern@ == CONVENTIONAL_HEADER@ ==> r == is_conventional_header(haystack@),
        pattern@ == TYPE_WITH_SCOPE@ ==> r == is_type_with_scope(haystack@),
{
    match regex::Regex::new(pattern) {
        Ok(re) => re.is_match(haystack),
        Err(_) => false,
    }
}

/// Why a commit message is not a conventional commit.
#[derive(Debug, Clone, PartialEq, Eq)]
pub enum CommitMessageError {
    /// Nothing but whitespace.
    Empty,
    /// The subject line has no `": "`.
    MissingSeparator,
    /// The text before `": "` is not a type with an optional scope.
    InvalidType(String),
    /// The text after `": "` is longer than 120 bytes; holds its byte length.
    SubjectTooLong(usize),
    /// Anything else that keeps the subject line from matching.
    Malformed(String),
    /// The subject line ends with a period.
    TrailingPeriod,
}

/// The model of [`CommitMessageError`].
pub enum Rejection {
    Empty,
    MissingSeparator,
    InvalidType(Seq<char>),
    SubjectTooLong(nat),
    Malformed(Seq<char>),
    TrailingPeriod,
}

impl View for CommitMessageError {
    type V = Rejection;

    open spec fn view(&self) -> Rejection {
        match self {
            CommitMessageError::Empty => Rejection::Empty,
            CommitMessageError::MissingSeparator => Rejection::MissingSeparator,
            CommitMessageError::InvalidType(t) => Rejection::InvalidType(t@),
            CommitMessageError::SubjectTooLong(n) => Rejection::SubjectTooLong(*n as nat),
            CommitMessageError::Malformed(l) => Rejection::Malformed(l@),
            CommitMessageError::TrailingPeriod => Rejection::TrailingPeriod,
        }
    }
}

/// The length in bytes of the UTF-8 encoding of `s`, as `str::len` gives it.
pub open spec fn byte_len(s: Seq<char>) -> usize {
    encode_utf8(s).len() as usize
}

/// The verdict on a commit message: which check it fails first, if any.
pub open spec fn check_commit_message(message: Seq<char>) -> Result<(), Rejection> {
    let t = trim(message);
    if t.len() == 0 {
        Err(Rejection::Empty)
    } else {
        let line = first_line(t);
        if !is_conventional_header(line) {
            match find(line, seq![':', ' ']) {
                None => Err(Rejection::MissingSeparator),
                Some(k) => {
                    let ty = line.take(k);
                    let subject = line.skip(k + 2);
                    if !is_type_with_scope(ty) {
                        Err(Rejection::InvalidType(ty))
                    } else if byte_len(subject) > 120 {
                        Err(Rejection::SubjectTooLong(byte_len(subject) as nat))
                    } else {
                        Err(Rejection::Malformed(line))
                    }
                },
            }
        } else if ends_with(line, seq!['.']) {
            Err(Rejection::TrailingPeriod)
        } else {
            Ok(())
        }
    }
}

/// The text shown for a rejection.
pub open spec fn rejection_text(r: Rejection) -> Seq<char> {
    match r {
        Rejection::Empty => "Empty commit message"@,
        Rejection::MissingSeparator => "Missing ': ' separator. Expected format: type(scope): subject"@,
        Rejection::InvalidType(t) => "Invalid type '"@ + t
            + "'. Allowed: feat, fix, docs, style, refactor, perf, test, build, ci, chore, revert"@,
        Rejection::SubjectTooLong(n) => "Subject line too long ("@ + decimal(n)
            + " chars, max 120)"@,
        Rejection::Malformed(l) => "Does not match conventional commit format. Got: '"@ + l
            + "'"@,
        Rejection::TrailingPeriod => "Subject line should not end with a period"@,
    }
}

impl CommitMessageError {
    /// The explanation shown to the user and handed back to the model.
    pub fn message(&self) -> (r: String)
        ensures
            r@ == rejection_text(self@),
    {
        let mut v: Vec<char> = Vec::new();
        match self {
            CommitMessageError::Empty => push_str(&mut v, "Empty commit message"),
            CommitMessageError::MissingSeparator => push_str(
                &mut v,
                "Missing ': ' separator. Expected format: type(scope): subject",
            ),
            CommitMessageError::InvalidType(t) => {
                push_str(&mut v, "Invalid type '");
                push_str(&mut v, t.as_str());
                push_str(
                    &mut v,
                    "'. Allowed: feat, fix, docs, style, refactor, perf, test, build, ci, chore, revert",
                );
            },
            CommitMessageError::SubjectTooLong(n) => {
                push_str(&mut v, "Subject line too long (");
                push_decimal(&mut v, *n as u64);
                push_str(&mut v, " chars, max 120)");
            },
            CommitMessageError::Malformed(l) => {
                push_str(&mut v, "Does not match conventional commit format. Got: '");
                push_str(&mut v, l.as_str());
                push_str(&mut v, "'");
            },
            CommitMessageError::TrailingPeriod => push_str(
                &mut v,
                "Subject line should not end with a period",
            ),
        }
        string_from(v.as_slice())
    }
}

/// Validates that a commit message conforms to the Conventional Commits
/// specification: its first non-blank line must be `type(scope): subject`
/// with an allowed type, an optional scope, a subject of at most 120
/// characters, and no trailing period.
pub fn validate_conventional_commit(message: &str) -> (r: Result<(), CommitMessageError>)
    ensures
        match r {
            Ok(()) => check_commit_message(message@) is Ok,
            Err(e) => check_commit_message(message@) == Err::<(), Rejection>(e@),
        },
{
    let m = chars_of(message);
    let t = trimmed(m.as_slice());
    if t.len() == 0 {
        return Err(CommitMessageError::Empty);
    }
    let ls = split_lines(t.as_slice());
    proof {
        lemma_lines_nonempty(t@);
    }
    let line: &Vec<char> = &ls[0];
    assert(line@ == first_line(t@));
    let line_s = string_from(line.as_slice());
    if !regex_is_match(CONVENTIONAL_HEADER, line_s.as_str()) {
        let sep = [':', ' '];
        assert(sep@ =~= seq![':', ' ']);
        match find_in(line.as_slice(), &sep) {
            None => {
                return Err(CommitMessageError::MissingSeparator);
            },
            Some(k) => {
                proof {
                    lemma_find_from(line@, seq![':', ' '], 0);
                }
                let ty = copy_range(line.as_slice(), 0, k);
                let subject = copy_range(line.as_slice(), k + 2, line.len());
                assert(ty@ =~= line@.take(k as int));
                assert(subject@ =~= line@.skip(k + 2));
                let ty_s = string_from(ty.as_slice());
                if !regex_is_match(TYPE_WITH_SCOPE, ty_s.as_str()) {
                    return Err(CommitMessageError::InvalidType(ty_s));
                }
                let subject_s = string_from(subject.as_slice());
                let n = subject_s.as_str().len();
                if n > 120 {
                    return Err(CommitMessageError::SubjectTooLong(n));
                }
                return Err(CommitMessageError::Malformed(line_s));
            },
        }
    }
    let len = line.len();
    if len > 0 && line[len - 1] == '.' {
        assert(line@.skip(len - 1) =~= seq!['.']);
        return Err(CommitMessageError::TrailingPeriod);
    }
    proof {
        if len > 0 {
            assert(line@.skip(len - 1)[0] != '.');
            assert(line@.skip(len - 1) != seq!['.']);
        }
    }
    Ok(())
}

// ── Auto-fix ──────────────────────────────────────────────────────────────

/// Characters kept in a cleaned type: alphanumerics and `(`, `)`, `-`.
pub open spec fn keep_in_type(c: char) -> bool {
    is_alphanumeric_char(c) || c == '(' || c == ')' || c == '-'
}

/// The part of `s` before its first `(` (all of `s` when it has none).
pub open spec fn before_paren(s: Seq<char>) -> Seq<char> {
    match find(s, seq!['(']) {
        Some(k) => s.take(k),
        None => s,
    }
}

/// The subject with its first character lowercased when it is uppercase.
pub open spec fn decapitalized(subject: Seq<char>) -> Seq<char> {
    if subject.len() > 0 && is_uppercase_char(subject[0]) {
        lowercase_char(subject[0]) + subject.drop_first()
    } else {
        subject
    }
}

/// `s` without one trailing period.
pub open spec fn without_period(s: Seq<char>) -> Seq<char> {
    if s.len() > 0 && s.last() == '.' {
        s.drop_last()
    } else {
        s
    }
}

/// What the repair makes of a message: when the first line has `": "` and
/// the text before it, lowercased and stripped of all but alphanumerics
/// and `()-`, starts with an allowed type, the first line becomes that
/// cleaned type, `": "`, and the subject with a lowercase first letter and
/// no trailing period; the other lines follow unchanged. Otherwise the
/// message is returned as it is.
pub open spec fn repaired(message: Seq<char>) -> Seq<char> {
    let t = trim(message);
    let line = first_line(t);
    match find(line, seq![':', ' ']) {
        Some(k) => {
            let cleaned = lowercase(trim(line.take(k))).filter(|c: char| keep_in_type(c));
            if commit_types().contains(before_paren(cleaned)) {
                let head = cleaned + seq![':', ' '] + without_period(
                    decapitalized(line.skip(k + 2)),
                );
                let rest = lines(t).skip(1);
                if rest.len() > 0 {
                    head + seq!['\n'] + join(rest, seq!['\n'])
                } else {
                    head
                }
            } else {
                message
            }
        },
        None => message,
    }
}

/// A repair keeps the message's body as it is, blank lines included: when
/// the repair changes a message (one without carriage returns) whose
/// trimmed text has more than one line, the repaired text ends with all of
/// the trimmed text from its first line feed on.
pub proof fn lemma_repair_keeps_body(m: Seq<char>)
    requires
        forall|i: int| 0 <= i < m.len() ==> m[i] != '\r',
    ensures
        ({
            let t = trim(m);
            let k = line_end(t);
            repaired(m) != m && k < t.len() ==> ends_with(repaired(m), t.skip(k))
        }),
{
    let t = trim(m);
    let k = line_end(t);
    let ts = trim_start(m);
    lemma_trim_start_blank(m);
    lemma_trim_end_blank(ts);
    assert forall|i: int| 0 <= i < t.len() implies t[i] != '\r' by {
        assert(t[i] == ts[i]);
        assert(ts[i] == m[i + (m.len() - ts.len())]);
    }
    lemma_line_end(t);
    if repaired(m) != m && k < t.len() {
        let r = t.skip(k + 1);
        assert(t[k] == '\n');
        assert(!is_ws(t.last()));
        assert(k != t.len() - 1);
        assert(r.last() == t.last());
        lemma_join_lines(r);
        lemma_lines_nonempty(r);
        assert(lines(t) == seq![strip_cr(t.take(k))] + lines(r));
        assert(lines(t).skip(1) =~= lines(r));
        let line = first_line(t);
        let f = find(line, seq![':', ' ']);
        assert(f is Some);
        let k2 = f->0;
        let cleaned = lowercase(trim(line.take(k2))).filter(|c: char| keep_in_type(c));
        assert(commit_types().contains(before_paren(cleaned)));
        let head = cleaned + seq![':', ' '] + without_period(decapitalized(line.skip(k2 + 2)));
        assert(repaired(m) == head + seq!['\n'] + join(lines(t).skip(1), seq!['\n']));
        assert(repaired(m) == head + seq!['\n'] + r);
        assert(t.skip(k) =~= seq!['\n'] + r);
        assert(repaired(m).skip(repaired(m).len() - t.skip(k).len()) =~= t.skip(k));
    }
}

/// Keeps the characters of `s` that may stand in a cleaned type.
fn keep_type_chars(s: &[char]) -> (r: Vec<char>)
    ensures
        r@ == s@.filter(|c: char| keep_in_type(c)),
{
    let mut r: Vec<char> = Vec::new();
    let n = s.len();
    for i in 0..n
        invariant
            n == s@.len(),
            r@ == s@.take(i as int).filter(|c: char| keep_in_type(c)),
    {
        let c = s[i];
        let keep = c.is_alphanumeric() || c == '(' || c == ')' || c == '-';
        if keep {
            r.push(c);
        }
        proof {
            reveal_with_fuel(Seq::<_>::filter, 1);
            assert(s@.take(i + 1).drop_last() =~= s@.take(i as int));
        }
    }
    assert(s@.take(n as int) =~= s@);
    r
}

/// Whether `s` is one of the allowed commit types.
fn is_commit_type(s: &[char]) -> (r: bool)
    ensures
        r == commit_types().contains(s@),
{
    let types = [
        "feat",
        "fix",
        "docs",
        "style",
        "refactor",
        "perf",
        "test",
        "build",
        "ci",
        "chore",
        "revert",
    ];
    let ghost tv = commit_types();
    assert(tv.len() == 11);
    let mut i: usize = 0;
    while i < 11
        invariant
            i <= 11,
            tv == commit_types(),
            forall|j: int| 0 <= j < 11 ==> #[trigger] types@[j]@ == tv[j],
            forall|j: int| 0 <= j < i ==> tv[j] != s@,
        decreases 11 - i,
    {
        let w = chars_of(types[i]);
        if s.len() == w.len() && slice_starts_with(s, 0, w.as_slice()) {
            assert(s@ =~= w@);
            assert(tv[i as int] == s@);
            return true;
        }
        proof {
            if tv[i as int] == s@ {
                assert(s@.subrange(0, w@.len() as int) =~= s@);
            }
        }
        i = i + 1;
    }
    proof {
        if tv.contains(s@) {
            let j = choose|j: int| 0 <= j < tv.len() && tv[j] == s@;
            assert(tv[j] != s@);
        }
    }
    false
}

/// Attempts to fix common conventional commit format issues.
///
/// Returns the corrected message, or the message unchanged if no fix is
/// possible.
pub fn try_fix_commit_message(message: &str) -> (r: String)
    ensures
        r@ == repaired(message@),
{
    let m = chars_of(message);
    let t = trimmed(m.as_slice());
    let ls = split_lines(t.as_slice());
    let empty: Vec<char> = Vec::new();
    let line: &Vec<char> = if ls.len() > 0 {
        &ls[0]
    } else {
        &empty
    };
    assert(line@ == first_line(t@));
    let sep = [':', ' '];
    assert(sep@ =~= seq![':', ' ']);
    if let Some(k) = find_in(line.as_slice(), &sep) {
        proof {
            lemma_find_from(line@, seq![':', ' '], 0);
        }
        assert(occurs_at(line@, seq![':', ' '], k as int));
        assert(k + 2 <= line@.len());
        let ty = copy_range(line.as_slice(), 0, k);
        let subject = copy_range(line.as_slice(), k + 2, line.len());
        assert(ty@ =~= line@.take(k as int));
        assert(subject@ =~= line@.skip(k + 2));
        let ty_trim = trimmed(ty.as_slice());
        let ty_trim_s = string_from(ty_trim.as_slice());
        let lower = ty_trim_s.as_str().to_lowercase();
        let lower_v = chars_of(lower.as_str());
        let cleaned = keep_type_chars(lower_v.as_slice());
        let paren = ['('];
        assert(paren@ =~= seq!['(']);
        let base = match find_in(cleaned.as_slice(), &paren) {
            Some(p) => {
                proof {
                    lemma_find_from(cleaned@, seq!['('], 0);
                }
                copy_range(cleaned.as_slice(), 0, p)
            },
            None => copy_range(cleaned.as_slice(), 0, cleaned.len()),
        };
        assert(cleaned@.subrange(0, cleaned@.len() as int) =~= cleaned@);
        assert(base@ == before_paren(cleaned@));
        if is_commit_type(base.as_slice()) {
            let mut fixed: Vec<char> = Vec::new();
            if subject.len() > 0 && subject[0].is_uppercase() {
                let low = to_lowercase_char(subject[0]);
                push_str(&mut fixed, low.as_str());
                let tail = copy_range(subject.as_slice(), 1, subject.len());
                push_all(&mut fixed, tail.as_slice());
                assert(tail@ =~= subject@.drop_first());
            } else {
                push_all(&mut fixed, subject.as_slice());
                assert(fixed@ =~= subject@);
            }
            assert(fixed@ == decapitalized(subject@));
            let flen = fixed.len();
            let fixed2 = if flen > 0 && fixed[flen - 1] == '.' {
                copy_range(fixed.as_slice(), 0, flen - 1)
            } else {
                copy_range(fixed.as_slice(), 0, flen)
            };
            assert(fixed@.subrange(0, flen as int) =~= fixed@);
            assert(fixed@.len() > 0 ==> fixed@.subrange(0, flen - 1) =~= fixed@.drop_last());
            assert(fixed2@ == without_period(fixed@));
            let mut result: Vec<char> = Vec::new();
            push_all(&mut result, cleaned.as_slice());
            push_all(&mut result, &sep);
            push_all(&mut result, fixed2.as_slice());
            let ghost head = result@;
            let nl = ls.len();
            if nl > 1 {
                let mut rest: Vec<Vec<char>> = Vec::new();
                let mut i: usize = 1;
                while i < nl
                    invariant
                        1 <= i <= nl == ls@.len(),
                        views(rest@) =~= views(ls@).subrange(1, i as int),
                    decreases nl - i,
                {
                    let ghost before = views(rest@);
                    rest.push(copy_range(ls[i].as_slice(), 0, ls[i].len()));
                    assert(ls[i as int]@.subrange(0, ls[i as int]@.len() as int) =~= ls[
                        i as int]@);
                    assert(views(rest@) =~= before.push(ls[i as int]@));
                    i = i + 1;
                }
                let nlsep = ['\n'];
                let joined = join_with(&rest, &nlsep);
                result.push('\n');
                push_all(&mut result, joined.as_slice());
                proof {
                    assert(nlsep@ =~= seq!['\n']);
                    assert(views(ls@).subrange(1, nl as int) =~= lines(t@).skip(1));
                    assert(result@ =~= head + seq!['\n'] + join(lines(t@).skip(1), seq!['\n']));
                }
            } else {
                assert(lines(t@).skip(1).len() == 0);
            }
            return string_from(result.as_slice());
        }
    }
    string_from(m.as_slice())
}

} // verus!

verus! {

// ── What to do with a generated message ───────────────────────────────────

/// Regenerations allowed after a message fails validation.
pub const MAX_VALIDATION_RETRIES: usize = 2;

/// The next step after a message has been generated.
#[derive(Debug)]
pub enum NextStep {
    /// The message is a conventional commit: offer it.
    Accept,
    /// Generate again, telling the model why the message was refused.
    Retry(CommitMessageError),
    /// Retries are spent: offer this message (the repaired one when the
    /// repair passes validation, the original otherwise); `repaired` says
    /// which, `reason` why the original was refused.
    Settle { message: String, repaired: bool, reason: CommitMessageError },
}

/// Decides what to do with a generated message after `retries_done`
/// regenerations.
pub fn next_step(message: &str, retries_done: usize) -> (r: NextStep)
    ensures
        match r {
            NextStep::Accept => check_commit_message(message@) is Ok,
            NextStep::Retry(e) => retries_done < MAX_VALIDATION_RETRIES && check_commit_message(
                message@,
            ) == Err::<(), Rejection>(e@),
            NextStep::Settle { message: m, repaired: fixed, reason } => {
                &&& retries_done >= MAX_VALIDATION_RETRIES
                &&& check_commit_message(message@) == Err::<(), Rejection>(reason@)
                &&& fixed == (check_commit_message(repaired(message@)) is Ok)
                &&& m@ == if fixed {
                    repaired(message@)
                } else {
                    message@
                }
            },
        },
{
    match validate_conventional_commit(message) {
        Ok(()) => NextStep::Accept,
        Err(reason) => {
            if retries_done < MAX_VALIDATION_RETRIES {
                NextStep::Retry(reason)
            } else {
                let fixed = try_fix_commit_message(message);
                let ok = validate_conventional_commit(fixed.as_str()).is_ok();
                if ok {
                    NextStep::Settle { message: fixed, repaired: true, reason }
                } else {
                    let cs = chars_of(message);
                    NextStep::Settle { message: string_from(cs.as_slice()), repaired: false, reason }
                }
            }
        },
    }
}

} // verus!
