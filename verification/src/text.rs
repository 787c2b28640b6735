//! Character-sequence helpers shared by the whole library: whitespace and
//! trimming as `str::trim` does it, line splitting as `str::lines` does it,
//! prefixes, substring search, joining and decimal rendering.
use vstd::prelude::*;

verus! {

/// `String::push` appends one character to the end of the string.
pub assume_specification[ String::push ](s: &mut String, ch: char)
    ensures
        final(s)@ == old(s)@.push(ch),
;

// ── Whitespace and trimming ────────────────────────────────────────────────

/// The Unicode `White_Space` property, which `char::is_whitespace` tests.
pub open spec fn is_ws(c: char) -> bool {
    ||| ('\u{9}' <= c && c <= '\u{d}')
    ||| c == ' '
    ||| c == '\u{85}'
    ||| c == '\u{a0}'
    ||| c == '\u{1680}'
    ||| ('\u{2000}' <= c && c <= '\u{200a}')
    ||| c == '\u{2028}'
    ||| c == '\u{2029}'
    ||| c == '\u{202f}'
    ||| c == '\u{205f}'
    ||| c == '\u{3000}'
}

pub fn is_whitespace(c: char) -> (r: bool)
    ensures
        r == is_ws(c),
{
    ('\u{9}' <= c && c <= '\u{d}') || c == ' ' || c == '\u{85}' || c == '\u{a0}' || c
        == '\u{1680}' || ('\u{2000}' <= c && c <= '\u{200a}') || c == '\u{2028}' || c
        == '\u{2029}' || c == '\u{202f}' || c == '\u{205f}' || c == '\u{3000}'
}

/// `s` without its leading whitespace.
pub open spec fn trim_start(s: Seq<char>) -> Seq<char>
    decreases s.len(),
{
    if s.len() > 0 && is_ws(s[0]) {
        trim_start(s.drop_first())
    } else {
        s
    }
}

/// `s` without its trailing whitespace.
pub open spec fn trim_end(s: Seq<char>) -> Seq<char>
    decreases s.len(),
{
    if s.len() > 0 && is_ws(s.last()) {
        trim_end(s.drop_last())
    } else {
        s
    }
}

/// `s` without leading and trailing whitespace (what `str::trim` returns).
pub open spec fn trim(s: Seq<char>) -> Seq<char> {
    trim_end(trim_start(s))
}

/// Whether `s` holds whitespace only.
pub open spec fn is_blank(s: Seq<char>) -> bool {
    forall|i: int| 0 <= i < s.len() ==> is_ws(#[trigger] s[i])
}

pub proof fn lemma_trim_start_skip(s: Seq<char>, i: int)
    requires
        0 <= i <= s.len(),
        forall|j: int| 0 <= j < i ==> is_ws(#[trigger] s[j]),
    ensures
        trim_start(s) == trim_start(s.skip(i)),
    decreases i,
{
    if i > 0 {
        assert(s.drop_first().skip(i - 1) =~= s.skip(i));
        lemma_trim_start_skip(s.drop_first(), i - 1);
    } else {
        assert(s.skip(0) =~= s);
    }
}

pub proof fn lemma_trim_end_take(s: Seq<char>, j: int)
    requires
        0 <= j <= s.len(),
        forall|k: int| j <= k < s.len() ==> is_ws(#[trigger] s[k]),
    ensures
        trim_end(s) == trim_end(s.take(j)),
    decreases s.len() - j,
{
    if j < s.len() {
        assert(s.drop_last().take(j) =~= s.take(j));
        lemma_trim_end_take(s.drop_last(), j);
    } else {
        assert(s.take(j) =~= s);
    }
}

pub proof fn lemma_trim_start_blank(s: Seq<char>)
    ensures
        trim_start(s).len() == 0 <==> is_blank(s),
        trim_start(s).len() > 0 ==> !is_ws(trim_start(s)[0]),
        trim_start(s).len() <= s.len(),
        trim_start(s) =~= s.skip(s.len() - trim_start(s).len()),
    decreases s.len(),
{
    if s.len() > 0 && is_ws(s[0]) {
        lemma_trim_start_blank(s.drop_first());
        if is_blank(s.drop_first()) {
            assert forall|i: int| 0 <= i < s.len() implies is_ws(#[trigger] s[i]) by {
                if i > 0 {
                    assert(s[i] == s.drop_first()[i - 1]);
                }
            }
        }
        if is_blank(s) {
            assert forall|i: int| 0 <= i < s.len() - 1 implies is_ws(
                #[trigger] s.drop_first()[i],
            ) by {
                assert(s.drop_first()[i] == s[i + 1]);
            }
        }
        assert(s.drop_first().skip(s.drop_first().len() - trim_start(s).len()) =~= s.skip(
            s.len() - trim_start(s).len(),
        ));
    } else {
        assert(s.skip(0) =~= s);
        if s.len() > 0 {
            assert(!is_ws(s[0]));
        }
    }
}

pub proof fn lemma_trim_end_blank(s: Seq<char>)
    ensures
        trim_end(s).len() == 0 <==> is_blank(s),
        trim_end(s).len() > 0 ==> !is_ws(trim_end(s).last()),
        trim_end(s).len() <= s.len(),
        trim_end(s) =~= s.take(trim_end(s).len() as int),
    decreases s.len(),
{
    if s.len() > 0 && is_ws(s.last()) {
        lemma_trim_end_blank(s.drop_last());
        if is_blank(s.drop_last()) {
            assert forall|i: int| 0 <= i < s.len() implies is_ws(#[trigger] s[i]) by {
                if i < s.len() - 1 {
                    assert(s[i] == s.drop_last()[i]);
                }
            }
        }
        if is_blank(s) {
            assert forall|i: int| 0 <= i < s.len() - 1 implies is_ws(
                #[trigger] s.drop_last()[i],
            ) by {
                assert(s.drop_last()[i] == s[i]);
            }
        }
        assert(s.drop_last().take(trim_end(s).len() as int) =~= s.take(
            trim_end(s).len() as int,
        ));
    } else {
        assert(s.take(s.len() as int) =~= s);
    }
}

/// The bounds `(start, end)` of the trimmed part of `s`.
pub fn trim_bounds(s: &[char]) -> (r: (usize, usize))
    ensures
        r.0 <= r.1 <= s@.len(),
        s@.subrange(r.0 as int, r.1 as int) == trim(s@),
{
    let n = s.len();
    let mut i: usize = 0;
    while i < n && is_whitespace(s[i])
        invariant
            i <= n == s@.len(),
            forall|j: int| 0 <= j < i ==> is_ws(#[trigger] s@[j]),
        decreases n - i,
    {
        i = i + 1;
    }
    proof {
        lemma_trim_start_skip(s@, i as int);
        if i < n {
            assert(!is_ws(s@.skip(i as int)[0]));
        }
        assert(trim_start(s@.skip(i as int)) == s@.skip(i as int));
    }
    let mut j: usize = n;
    while j > i && is_whitespace(s[j - 1])
        invariant
            i <= j <= n == s@.len(),
            forall|k: int| j <= k < n ==> is_ws(#[trigger] s@[k]),
        decreases j,
    {
        j = j - 1;
    }
    proof {
        let t = s@.skip(i as int);
        assert forall|k: int| j - i <= k < t.len() implies is_ws(#[trigger] t[k]) by {
            assert(t[k] == s@[k + i]);
        }
        lemma_trim_end_take(t, j - i);
        assert(t.take(j - i) =~= s@.subrange(i as int, j as int));
        let u = s@.subrange(i as int, j as int);
        if j > i {
            assert(u.last() == s@[j - 1]);
        }
        assert(trim_end(u) == u);
    }
    (i, j)
}

// ── Copies between strings, vectors and slices ────────────────────────────

/// Copies the characters of a string slice into a vector.
pub fn chars_of(s: &str) -> (v: Vec<char>)
    ensures
        v@ == s@,
{
    let mut v: Vec<char> = Vec::new();
    for c in it: s.chars()
        invariant
            v@ == it.seq().take(it.index() as int),
            it.seq() == s@,
    {
        v.push(c);
    }
    v
}

/// Builds a `String` from a run of characters.
pub fn string_from(v: &[char]) -> (s: String)
    ensures
        s@ == v@,
{
    let mut s = String::new();
    let n = v.len();
    for i in 0..n
        invariant
            n == v@.len(),
            s@ == v@.take(i as int),
    {
        s.push(v[i]);
        assert(v@.take(i + 1) =~= v@.take(i as int).push(v@[i as int]));
    }
    assert(v@.take(n as int) =~= v@);
    s
}

/// A copy of `s[from..to]`.
pub fn copy_range(s: &[char], from: usize, to: usize) -> (v: Vec<char>)
    requires
        from <= to <= s@.len(),
    ensures
        v@ == s@.subrange(from as int, to as int),
{
    let mut v: Vec<char> = Vec::new();
    let mut i = from;
    while i < to
        invariant
            from <= i <= to <= s@.len(),
            v@ == s@.subrange(from as int, i as int),
        decreases to - i,
    {
        v.push(s[i]);
        assert(s@.subrange(from as int, i + 1) =~= s@.subrange(from as int, i as int).push(
            s@[i as int],
        ));
        i = i + 1;
    }
    v
}

/// Appends a run of characters to a vector.
pub fn push_all(v: &mut Vec<char>, s: &[char])
    ensures
        final(v)@ == old(v)@ + s@,
{
    let n = s.len();
    for i in 0..n
        invariant
            n == s@.len(),
            v@ == old(v)@ + s@.take(i as int),
    {
        v.push(s[i]);
        assert(s@.take(i + 1) =~= s@.take(i as int).push(s@[i as int]));
        assert(old(v)@ + s@.take(i + 1) =~= (old(v)@ + s@.take(i as int)).push(s@[i as int]));
    }
    assert(s@.take(n as int) =~= s@);
}

/// Appends the characters of a string slice to a vector.
pub fn push_str(v: &mut Vec<char>, s: &str)
    ensures
        final(v)@ == old(v)@ + s@,
{
    let cs = chars_of(s);
    push_all(v, cs.as_slice());
}

/// A trimmed copy of `s`.
pub fn trimmed(s: &[char]) -> (v: Vec<char>)
    ensures
        v@ == trim(s@),
{
    let (a, b) = trim_bounds(s);
    copy_range(s, a, b)
}

// ── Prefixes, suffixes and search ─────────────────────────────────────────

pub open spec fn starts_with(s: Seq<char>, p: Seq<char>) -> bool {
    p.len() <= s.len() && s.take(p.len() as int) == p
}

pub open spec fn ends_with(s: Seq<char>, p: Seq<char>) -> bool {
    p.len() <= s.len() && s.skip(s.len() - p.len()) == p
}

/// Whether `p` occurs in `s` at position `i`.
pub open spec fn occurs_at(s: Seq<char>, p: Seq<char>, i: int) -> bool {
    0 <= i && i + p.len() <= s.len() && s.subrange(i, i + p.len()) == p
}

/// The first position at or after `i` where `p` occurs in `s`.
pub open spec fn find_from(s: Seq<char>, p: Seq<char>, i: int) -> Option<int>
    decreases s.len() + 1 - i,
{
    if i < 0 || i + p.len() > s.len() {
        None
    } else if occurs_at(s, p, i) {
        Some(i)
    } else {
        find_from(s, p, i + 1)
    }
}

/// The first position where `p` occurs in `s` (what `str::find` locates).
pub open spec fn find(s: Seq<char>, p: Seq<char>) -> Option<int> {
    find_from(s, p, 0)
}

pub proof fn lemma_find_from(s: Seq<char>, p: Seq<char>, i: int)
    requires
        0 <= i,
    ensures
        find_from(s, p, i) matches Some(k) ==> i <= k && occurs_at(s, p, k) && forall|j: int|
            i <= j < k ==> !occurs_at(s, p, j),
        find_from(s, p, i) is None ==> forall|j: int| i <= j ==> !occurs_at(s, p, j),
    decreases s.len() + 1 - i,
{
    if i + p.len() > s.len() {
    } else if occurs_at(s, p, i) {
    } else {
        lemma_find_from(s, p, i + 1);
    }
}

pub fn slice_starts_with(s: &[char], at: usize, p: &[char]) -> (r: bool)
    requires
        at <= s@.len(),
    ensures
        r == occurs_at(s@, p@, at as int),
{
    if p.len() > s.len() - at {
        return false;
    }
    let n = p.len();
    let len = s.len();
    let mut k: usize = 0;
    while k < n
        invariant
            k <= n == p@.len(),
            len == s@.len(),
            at + n <= s@.len(),
            forall|m: int| 0 <= m < k ==> s@[at + m] == p@[m],
        decreases n - k,
    {
        assert(at + k < s@.len());
        if s[at + k] != p[k] {
            assert(s@.subrange(at as int, at + n)[k as int] != p@[k as int]);
            return false;
        }
        k = k + 1;
    }
    assert(s@.subrange(at as int, at + n) =~= p@);
    true
}

/// Finds the first occurrence of `p` in `s`.
pub fn find_in(s: &[char], p: &[char]) -> (r: Option<usize>)
    ensures
        r matches Some(k) ==> find(s@, p@) == Some(k as int),
        r is None ==> find(s@, p@) is None,
{
    let n = s.len();
    let mut i: usize = 0;
    while i < n
        invariant
            i <= n == s@.len(),
            find(s@, p@) == find_from(s@, p@, i as int),
        decreases n - i,
    {
        if slice_starts_with(s, i, p) {
            return Some(i);
        }
        i = i + 1;
    }
    if slice_starts_with(s, n, p) {
        return Some(n);
    }
    proof {
        assert(find_from(s@, p@, n + 1) is None);
        assert(find_from(s@, p@, n as int) is None);
    }
    None
}

// ── Lines ─────────────────────────────────────────────────────────────────

/// Index of the first `'\n'` in `s`, or `s.len()` when there is none.
pub open spec fn line_end(s: Seq<char>) -> int
    decreases s.len(),
{
    if s.len() == 0 {
        0
    } else if s[0] == '\n' {
        0
    } else {
        1 + line_end(s.drop_first())
    }
}

/// One carriage return removed from the end of a line, if it has one.
pub open spec fn strip_cr(l: Seq<char>) -> Seq<char> {
    if l.len() > 0 && l.last() == '\r' {
        l.drop_last()
    } else {
        l
    }
}

/// The lines of `s`, as `str::lines` yields them: split at `'\n'`, a `'\r'`
/// before the `'\n'` dropped, and no empty line after a final `'\n'`.
pub open spec fn lines(s: Seq<char>) -> Seq<Seq<char>>
    decreases s.len(),
{
    if s.len() == 0 {
        seq![]
    } else {
        let k = line_end(s);
        if 0 <= k < s.len() {
            seq![strip_cr(s.take(k))] + lines(s.skip(k + 1))
        } else {
            seq![s]
        }
    }
}

/// The first line of `s`, or the empty sequence when `s` has none.
pub open spec fn first_line(s: Seq<char>) -> Seq<char> {
    if lines(s).len() > 0 {
        lines(s)[0]
    } else {
        seq![]
    }
}

pub proof fn lemma_line_end(s: Seq<char>)
    ensures
        0 <= line_end(s) <= s.len(),
        line_end(s) < s.len() ==> s[line_end(s)] == '\n',
        forall|j: int| 0 <= j < line_end(s) ==> s[j] != '\n',
    decreases s.len(),
{
    if s.len() > 0 && s[0] != '\n' {
        lemma_line_end(s.drop_first());
        assert forall|j: int| 0 <= j < line_end(s) implies s[j] != '\n' by {
            if j > 0 {
                assert(s[j] == s.drop_first()[j - 1]);
            }
        }
    }
}

pub proof fn lemma_line_end_at(s: Seq<char>, k: int)
    requires
        0 <= k <= s.len(),
        k < s.len() ==> s[k] == '\n',
        forall|j: int| 0 <= j < k ==> s[j] != '\n',
    ensures
        line_end(s) == k,
    decreases k,
{
    if k > 0 {
        assert forall|j: int| 0 <= j < k - 1 implies s.drop_first()[j] != '\n' by {
            assert(s.drop_first()[j] == s[j + 1]);
        }
        lemma_line_end_at(s.drop_first(), k - 1);
    }
}

pub proof fn lemma_lines_nonempty(s: Seq<char>)
    requires
        s.len() > 0,
    ensures
        lines(s).len() > 0,
{
    lemma_line_end(s);
}

/// Index of the first `'\n'` at or after `from`, or `s.len()`.
pub fn line_end_from(s: &[char], from: usize) -> (k: usize)
    requires
        from <= s@.len(),
    ensures
        from <= k <= s@.len(),
        k - from == line_end(s@.skip(from as int)),
{
    let n = s.len();
    let mut k = from;
    while k < n && s[k] != '\n'
        invariant
            from <= k <= n == s@.len(),
            forall|j: int| from <= j < k ==> s@[j] != '\n',
        decreases n - k,
    {
        k = k + 1;
    }
    proof {
        let t = s@.skip(from as int);
        assert forall|j: int| 0 <= j < k - from implies t[j] != '\n' by {
            assert(t[j] == s@[j + from]);
        }
        if k < n {
            assert(t[k - from] == s@[k as int]);
        }
        lemma_line_end_at(t, k - from);
    }
    k
}

/// The lines of `s` (see [`lines`]).
pub fn split_lines(s: &[char]) -> (r: Vec<Vec<char>>)
    ensures
        views(r@) == lines(s@),
{
    let n = s.len();
    let mut r: Vec<Vec<char>> = Vec::new();
    let mut pos: usize = 0;
    assert(s@.skip(0) =~= s@);
    while pos < n
        invariant
            pos <= n == s@.len(),
            views(r@) + lines(s@.skip(pos as int)) == lines(s@),
        decreases n - pos,
    {
        let k = line_end_from(s, pos);
        let ghost t = s@.skip(pos as int);
        if k < n {
            let mut end = k;
            if end > pos && s[end - 1] == '\r' {
                end = end - 1;
            }
            let line = copy_range(s, pos, end);
            proof {
                assert(t.take(k - pos) =~= s@.subrange(pos as int, k as int));
                assert(strip_cr(t.take(k - pos)) =~= line@);
                assert(t.skip(k - pos + 1) =~= s@.skip(k + 1));
                assert(lines(t) == seq![line@] + lines(s@.skip(k + 1)));
            }
            let ghost before = views(r@);
            r.push(line);
            assert(views(r@) =~= before.push(line@));
            pos = k + 1;
        } else {
            let line = copy_range(s, pos, n);
            proof {
                assert(t =~= line@);
                assert(lines(t) == seq![line@]);
                assert(s@.skip(n as int).len() == 0);
                assert(lines(s@.skip(n as int)) =~= Seq::<Seq<char>>::empty());
            }
            let ghost before = views(r@);
            r.push(line);
            assert(views(r@) =~= before.push(line@));
            pos = n;
        }
    }
    proof {
        assert(lines(s@.skip(n as int)) =~= Seq::<Seq<char>>::empty());
        assert(views(r@) + Seq::<Seq<char>>::empty() =~= views(r@));
    }
    r
}

/// The character sequences held by a sequence of vectors.
pub open spec fn views(v: Seq<Vec<char>>) -> Seq<Seq<char>> {
    v.map_values(|x: Vec<char>| x@)
}

// ── Joining ───────────────────────────────────────────────────────────────

/// The elements of `ls` with `sep` between each two (what `join` builds).
pub open spec fn join(ls: Seq<Seq<char>>, sep: Seq<char>) -> Seq<char>
    decreases ls.len(),
{
    if ls.len() == 0 {
        seq![]
    } else if ls.len() == 1 {
        ls[0]
    } else {
        join(ls.drop_last(), sep) + sep + ls.last()
    }
}

/// Joining `x` in front of a non-empty run of elements puts one separator
/// between `x` and the join of the rest.
pub proof fn lemma_join_prepend(x: Seq<char>, ls: Seq<Seq<char>>, sep: Seq<char>)
    requires
        ls.len() > 0,
    ensures
        join(seq![x] + ls, sep) == x + sep + join(ls, sep),
    decreases ls.len(),
{
    let all = seq![x] + ls;
    assert(all.drop_last() =~= seq![x] + ls.drop_last());
    assert(all.last() == ls.last());
    if ls.len() == 1 {
        assert(all.drop_last() =~= seq![x]);
        assert(join(all.drop_last(), sep) == x);
    } else {
        lemma_join_prepend(x, ls.drop_last(), sep);
        assert(x + sep + join(ls.drop_last(), sep) + sep + ls.last() =~= x + sep + (join(
            ls.drop_last(),
            sep,
        ) + sep + ls.last()));
    }
}

/// Splitting a text without carriage returns and without a final line
/// feed into its lines and joining them with line feeds gives it back.
pub proof fn lemma_join_lines(s: Seq<char>)
    requires
        forall|i: int| 0 <= i < s.len() ==> s[i] != '\r',
        s.len() == 0 || s.last() != '\n',
    ensures
        join(lines(s), seq!['\n']) == s,
    decreases s.len(),
{
    if s.len() > 0 {
        lemma_line_end(s);
        let k = line_end(s);
        if k < s.len() {
            let r = s.skip(k + 1);
            assert(k != s.len() - 1);
            assert(r.last() == s.last());
            lemma_join_lines(r);
            lemma_lines_nonempty(r);
            if k > 0 {
                assert(s.take(k).last() == s[k - 1]);
            }
            assert(strip_cr(s.take(k)) == s.take(k));
            assert(lines(s) == seq![s.take(k)] + lines(r));
            lemma_join_prepend(s.take(k), lines(r), seq!['\n']);
            assert(s =~= s.take(k) + seq!['\n'] + r);
        } else {
            assert(lines(s) == seq![s]);
        }
    }
}

/// Joins the lines of `ls` with `sep`.
pub fn join_with(ls: &Vec<Vec<char>>, sep: &[char]) -> (r: Vec<char>)
    ensures
        r@ == join(views(ls@), sep@),
{
    let mut r: Vec<char> = Vec::new();
    let n = ls.len();
    for i in 0..n
        invariant
            n == ls@.len(),
            r@ == join(views(ls@).take(i as int), sep@),
    {
        let ghost pre = views(ls@).take(i as int);
        if i > 0 {
            push_all(&mut r, sep);
        }
        push_all(&mut r, ls[i].as_slice());
        proof {
            let now = views(ls@).take(i + 1);
            assert(now.drop_last() =~= pre);
            assert(now.last() == ls[i as int]@);
            if i == 0 {
                assert(pre.len() == 0);
                assert(r@ =~= now[0]);
            }
        }
    }
    assert(views(ls@).take(n as int) =~= views(ls@));
    r
}

// ── Decimal numbers ───────────────────────────────────────────────────────

/// The decimal digit for `d`, which is below ten.
pub open spec fn digit(d: nat) -> char {
    ((d + 48) as u8) as char
}

/// The decimal rendering of `n`, without leading zeros.
pub open spec fn decimal(n: nat) -> Seq<char>
    decreases n,
{
    if n < 10 {
        seq![digit(n)]
    } else {
        decimal(n / 10).push(digit(n % 10))
    }
}

/// Appends the decimal rendering of `n`.
pub fn push_decimal(v: &mut Vec<char>, n: u64)
    ensures
        final(v)@ == old(v)@ + decimal(n as nat),
    decreases n,
{
    if n >= 10 {
        push_decimal(v, n / 10);
    }
    let d = (n % 10) as u8;
    let c = (d + 48u8) as char;
    v.push(c);
    proof {
        if n >= 10 {
            assert(old(v)@ + decimal(n as nat) =~= old(v)@ + decimal((n / 10) as nat) + seq![c]);
        } else {
            assert(old(v)@ + decimal(n as nat) =~= old(v)@.push(c));
        }
    }
}

} // verus!

verus! {

// ── Ordering of character sequences ───────────────────────────────────────

/// Lexicographic order on character sequences by code point, which is the
/// order `String`'s `Ord` gives (UTF-8 preserves code point order).
pub open spec fn lex_lt(a: Seq<char>, b: Seq<char>) -> bool
    decreases a.len(),
{
    if a.len() == 0 {
        b.len() > 0
    } else if b.len() == 0 {
        false
    } else if a[0] < b[0] {
        true
    } else if a[0] == b[0] {
        lex_lt(a.drop_first(), b.drop_first())
    } else {
        false
    }
}

pub proof fn lemma_lex_irreflexive(a: Seq<char>)
    ensures
        !lex_lt(a, a),
    decreases a.len(),
{
    if a.len() > 0 {
        lemma_lex_irreflexive(a.drop_first());
    }
}

pub proof fn lemma_lex_transitive(a: Seq<char>, b: Seq<char>, c: Seq<char>)
    requires
        lex_lt(a, b),
        lex_lt(b, c),
    ensures
        lex_lt(a, c),
    decreases a.len(),
{
    if a.len() > 0 && b.len() > 0 && c.len() > 0 && a[0] == b[0] && b[0] == c[0] {
        lemma_lex_transitive(a.drop_first(), b.drop_first(), c.drop_first());
    }
}

pub proof fn lemma_lex_total(a: Seq<char>, b: Seq<char>)
    ensures
        a == b || lex_lt(a, b) || lex_lt(b, a),
    decreases a.len(),
{
    if a.len() > 0 && b.len() > 0 && a[0] == b[0] {
        lemma_lex_total(a.drop_first(), b.drop_first());
        if a.drop_first() == b.drop_first() {
            assert(a =~= seq![a[0]] + a.drop_first());
            assert(b =~= seq![b[0]] + b.drop_first());
        }
    } else if a.len() == 0 && b.len() == 0 {
        assert(a =~= b);
    }
}

pub proof fn lemma_lex_asymmetric(a: Seq<char>, b: Seq<char>)
    requires
        lex_lt(a, b),
    ensures
        !lex_lt(b, a),
        a != b,
{
    lemma_lex_irreflexive(a);
    if lex_lt(b, a) {
        lemma_lex_transitive(a, b, a);
    }
}

/// Whether `a` sorts before `b`.
pub fn lex_less(a: &[char], b: &[char]) -> (r: bool)
    ensures
        r == lex_lt(a@, b@),
{
    let na = a.len();
    let nb = b.len();
    let mut i: usize = 0;
    assert(a@.skip(0) =~= a@);
    assert(b@.skip(0) =~= b@);
    while i < na && i < nb && a[i] == b[i]
        invariant
            i <= na == a@.len(),
            i <= nb == b@.len(),
            lex_lt(a@, b@) == lex_lt(a@.skip(i as int), b@.skip(i as int)),
        decreases na - i,
    {
        assert(a@.skip(i as int).drop_first() =~= a@.skip(i + 1));
        assert(b@.skip(i as int).drop_first() =~= b@.skip(i + 1));
        i = i + 1;
    }
    if i == na {
        i < nb
    } else if i == nb {
        false
    } else {
        a[i] < b[i]
    }
}

/// Whether two runs of characters are equal.
pub fn same_chars(a: &[char], b: &[char]) -> (r: bool)
    ensures
        r == (a@ == b@),
{
    if a.len() != b.len() {
        return false;
    }
    let r = slice_starts_with(a, 0, b);
    assert(a@.subrange(0, b@.len() as int) =~= a@);
    r
}

/// The views of a sequence of string slices.
pub open spec fn word_views(words: Seq<&str>) -> Seq<Seq<char>> {
    words.map_values(|w: &str| w@)
}

/// Whether `s` is one of `words`.
pub fn is_one_of(words: &[&str], s: &[char]) -> (r: bool)
    ensures
        r == word_views(words@).contains(s@),
{
    let n = words.len();
    let mut i: usize = 0;
    while i < n
        invariant
            i <= n == words@.len(),
            forall|j: int| 0 <= j < i ==> word_views(words@)[j] != s@,
        decreases n - i,
    {
        let w = chars_of(words[i]);
        if same_chars(s, w.as_slice()) {
            assert(word_views(words@)[i as int] == s@);
            return true;
        }
        i = i + 1;
    }
    false
}

} // verus!

verus! {

// ── Splitting at separator characters ─────────────────────────────────────

/// The separator classes that text is split at.
#[derive(Clone, Copy)]
pub enum Separator {
    /// `/` or `\`, the path separators of Unix and Windows.
    Path,
    /// Any Unicode whitespace.
    Whitespace,
}

pub open spec fn separates(kind: Separator, c: char) -> bool {
    match kind {
        Separator::Path => c == '/' || c == '\\',
        Separator::Whitespace => is_ws(c),
    }
}

pub fn is_separator(kind: Separator, c: char) -> (r: bool)
    ensures
        r == separates(kind, c),
{
    match kind {
        Separator::Path => c == '/' || c == '\\',
        Separator::Whitespace => is_whitespace(c),
    }
}

/// Index of the first separator in `s`, or `s.len()`.
pub open spec fn piece_end(s: Seq<char>, kind: Separator) -> int
    decreases s.len(),
{
    if s.len() == 0 {
        0
    } else if separates(kind, s[0]) {
        0
    } else {
        1 + piece_end(s.drop_first(), kind)
    }
}

/// The pieces of `s` between separators, empty pieces included (what
/// `str::split` with a character predicate yields).
pub open spec fn pieces(s: Seq<char>, kind: Separator) -> Seq<Seq<char>>
    decreases s.len(),
{
    let k = piece_end(s, kind);
    if 0 <= k < s.len() {
        seq![s.take(k)] + pieces(s.skip(k + 1), kind)
    } else {
        seq![s]
    }
}

/// The non-empty pieces of `s` between whitespace (what
/// `str::split_whitespace` yields).
pub open spec fn words(s: Seq<char>) -> Seq<Seq<char>> {
    pieces(s, Separator::Whitespace).filter(|w: Seq<char>| w.len() > 0)
}

pub proof fn lemma_piece_end_at(s: Seq<char>, kind: Separator, k: int)
    requires
        0 <= k <= s.len(),
        k < s.len() ==> separates(kind, s[k]),
        forall|j: int| 0 <= j < k ==> !separates(kind, s[j]),
    ensures
        piece_end(s, kind) == k,
    decreases k,
{
    if k > 0 {
        assert forall|j: int| 0 <= j < k - 1 implies !separates(kind, s.drop_first()[j]) by {
            assert(s.drop_first()[j] == s[j + 1]);
        }
        lemma_piece_end_at(s.drop_first(), kind, k - 1);
    }
}

/// The pieces of `s` between separators of the given class.
pub fn split_pieces(s: &[char], kind: Separator) -> (r: Vec<Vec<char>>)
    ensures
        views(r@) == pieces(s@, kind),
{
    let n = s.len();
    let mut r: Vec<Vec<char>> = Vec::new();
    let mut pos: usize = 0;
    assert(s@.skip(0) =~= s@);
    loop
        invariant
            pos <= n == s@.len(),
            views(r@) + pieces(s@.skip(pos as int), kind) == pieces(s@, kind),
        decreases n - pos,
    {
        let ghost t = s@.skip(pos as int);
        let mut k = pos;
        while k < n && !is_separator(kind, s[k])
            invariant
                pos <= k <= n == s@.len(),
                forall|j: int| pos <= j < k ==> !separates(kind, #[trigger] s@[j]),
            decreases n - k,
        {
            k = k + 1;
        }
        proof {
            assert forall|j: int| 0 <= j < k - pos implies !separates(kind, t[j]) by {
                assert(t[j] == s@[j + pos]);
            }
            if k < n {
                assert(t[k - pos] == s@[k as int]);
            }
            lemma_piece_end_at(t, kind, k - pos);
        }
        let piece = copy_range(s, pos, k);
        let ghost before = views(r@);
        r.push(piece);
        assert(views(r@) =~= before.push(piece@));
        if k < n {
            proof {
                assert(t.take(k - pos) =~= piece@);
                assert(t.skip(k - pos + 1) =~= s@.skip(k + 1));
                assert(pieces(t, kind) == seq![piece@] + pieces(s@.skip(k + 1), kind));
                assert(before + pieces(t, kind) =~= views(r@) + pieces(s@.skip(k + 1), kind));
            }
            pos = k + 1;
        } else {
            proof {
                assert(t =~= piece@);
                assert(pieces(t, kind) == seq![piece@]);
                assert(before + pieces(t, kind) =~= views(r@));
            }
            return r;
        }
    }
}

/// The non-empty pieces of `s` between whitespace.
pub fn split_words(s: &[char]) -> (r: Vec<Vec<char>>)
    ensures
        views(r@) == words(s@),
{
    let ps = split_pieces(s, Separator::Whitespace);
    let mut r: Vec<Vec<char>> = Vec::new();
    let n = ps.len();
    for i in 0..n
        invariant
            n == ps@.len(),
            views(ps@) == pieces(s@, Separator::Whitespace),
            views(r@) == views(ps@).take(i as int).filter(|w: Seq<char>| w.len() > 0),
    {
        let ghost before = views(r@);
        if ps[i].len() > 0 {
            r.push(copy_range(ps[i].as_slice(), 0, ps[i].len()));
            assert(ps[i as int]@.subrange(0, ps[i as int]@.len() as int) =~= ps[i as int]@);
            assert(views(r@) =~= before.push(ps[i as int]@));
        }
        proof {
            reveal_with_fuel(Seq::<_>::filter, 1);
            assert(views(ps@).take(i + 1).drop_last() =~= views(ps@).take(i as int));
        }
    }
    assert(views(ps@).take(n as int) =~= views(ps@));
    r
}

/// `s` with every leading copy of `p` removed (what `trim_start_matches`
/// does with a string pattern).
pub open spec fn strip_leading(s: Seq<char>, p: Seq<char>) -> Seq<char>
    decreases s.len(),
{
    if p.len() > 0 && starts_with(s, p) {
        strip_leading(s.skip(p.len() as int), p)
    } else {
        s
    }
}

pub fn strip_leading_copies(s: &[char], p: &[char]) -> (r: Vec<char>)
    ensures
        r@ == strip_leading(s@, p@),
{
    let n = s.len();
    let mut i: usize = 0;
    assert(s@.skip(0) =~= s@);
    if p.len() > 0 {
        while i <= n && slice_starts_with(s, i, p)
            invariant
                i <= n == s@.len(),
                p@.len() > 0,
                strip_leading(s@, p@) == strip_leading(s@.skip(i as int), p@),
            decreases n - i,
        {
            proof {
                assert(s@.skip(i as int).take(p@.len() as int) =~= s@.subrange(
                    i as int,
                    i + p@.len(),
                ));
                assert(s@.skip(i as int).skip(p@.len() as int) =~= s@.skip(i + p@.len()));
            }
            i = i + p.len();
        }
        proof {
            if i <= n {
                assert(s@.skip(i as int).take(p@.len() as int) =~= s@.subrange(
                    i as int,
                    i + p@.len(),
                ) || p@.len() > s@.skip(i as int).len());
            }
        }
    }
    copy_range(s, i, n)
}

} // verus!
