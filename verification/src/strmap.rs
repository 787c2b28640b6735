//! A map from strings to values that keeps its keys in sorted order, so
//! that walking it is deterministic.
use vstd::prelude::*;
use crate::text::{chars_of, lemma_lex_asymmetric, lemma_lex_total, lemma_lex_transitive, lex_less, lex_lt, same_chars};

verus! {

/// The keys of `ps`, each before the next in lexicographic order.
pub open spec fn strictly_sorted<V>(ps: Seq<(Seq<char>, V)>) -> bool {
    forall|i: int, j: int| 0 <= i < j < ps.len() ==> lex_lt(#[trigger] ps[i].0, #[trigger] ps[j].0)
}

/// The value stored under `k`, if any.
pub open spec fn lookup<V>(ps: Seq<(Seq<char>, V)>, k: Seq<char>) -> Option<V>
    decreases ps.len(),
{
    if ps.len() == 0 {
        None
    } else if ps[0].0 == k {
        Some(ps[0].1)
    } else {
        lookup(ps.drop_first(), k)
    }
}

/// `ps` with the value under `k` set to `v`: replaced when `k` is present,
/// otherwise inserted where it keeps the keys sorted.
pub open spec fn insert_sorted<V>(ps: Seq<(Seq<char>, V)>, k: Seq<char>, v: V) -> Seq<
    (Seq<char>, V),
>
    decreases ps.len(),
{
    if ps.len() == 0 {
        seq![(k, v)]
    } else if ps[0].0 == k {
        seq![(k, v)] + ps.drop_first()
    } else if lex_lt(k, ps[0].0) {
        seq![(k, v)] + ps
    } else {
        seq![ps[0]] + insert_sorted(ps.drop_first(), k, v)
    }
}

/// The keys of `ps`, in order.
pub open spec fn keys_of<V>(ps: Seq<(Seq<char>, V)>) -> Seq<Seq<char>> {
    ps.map_values(|p: (Seq<char>, V)| p.0)
}

/// A map from strings to values whose entries are kept sorted by key.
pub struct StrMap<V> {
    entries: Vec<(String, V)>,
}

impl<V> StrMap<V> {
    /// The entries, sorted by key.
    pub closed spec fn pairs(&self) -> Seq<(Seq<char>, V)> {
        self.entries@.map_values(|e: (String, V)| (e.0@, e.1))
    }

    #[verifier::type_invariant]
    closed spec fn keys_sorted(&self) -> bool {
        strictly_sorted(self.pairs())
    }

    /// An empty map.
    pub fn new() -> (m: Self)
        ensures
            m.pairs() == Seq::<(Seq<char>, V)>::empty(),
    {
        let m = StrMap { entries: Vec::new() };
        assert(m.pairs() =~= Seq::<(Seq<char>, V)>::empty());
        m
    }

    /// The number of entries; the entries are sorted by key, no key twice.
    pub fn len(&self) -> (n: usize)
        ensures
            n == self.pairs().len(),
            strictly_sorted(self.pairs()),
    {
        proof {
            use_type_invariant(self);
        }
        self.entries.len()
    }

    /// Whether the map has no entries.
    pub fn is_empty(&self) -> (b: bool)
        ensures
            b == (self.pairs().len() == 0),
    {
        self.entries.len() == 0
    }

    /// The key of the `i`-th entry in key order.
    pub fn key_at(&self, i: usize) -> (k: &String)
        requires
            i < self.pairs().len(),
        ensures
            k@ == self.pairs()[i as int].0,
    {
        &self.entries[i].0
    }

    /// The value of the `i`-th entry in key order.
    pub fn value_at(&self, i: usize) -> (v: &V)
        requires
            i < self.pairs().len(),
        ensures
            *v == self.pairs()[i as int].1,
    {
        &self.entries[i].1
    }

    /// The value stored under `key`, if any.
    pub fn get(&self, key: &str) -> (r: Option<&V>)
        ensures
            match r {
                Some(v) => lookup(self.pairs(), key@) == Some(*v),
                None => lookup(self.pairs(), key@) is None,
            },
    {
        let k = chars_of(key);
        let n = self.entries.len();
        let mut i: usize = 0;
        assert(self.pairs().skip(0) =~= self.pairs());
        while i < n
            invariant
                i <= n == self.entries@.len(),
                self.pairs().len() == n,
                lookup(self.pairs(), k@) == lookup(self.pairs().skip(i as int), k@),
                k@ == key@,
            decreases n - i,
        {
            let ek = chars_of(self.entries[i].0.as_str());
            let ghost rest = self.pairs().skip(i as int);
            assert(rest[0] == self.pairs()[i as int]);
            assert(self.pairs()[i as int] == (self.entries@[i as int].0@, self.entries@[i as int].1));
            if same_chars(ek.as_slice(), k.as_slice()) {
                assert(lookup(rest, k@) == Some(rest[0].1));
                return Some(&self.entries[i].1);
            }
            assert(rest.drop_first() =~= self.pairs().skip(i + 1));
            i = i + 1;
        }
        None
    }

    /// Whether the key of the `i`-th entry sorts before `k`.
    fn key_before(&self, i: usize, k: &[char]) -> (r: bool)
        requires
            i < self.pairs().len(),
        ensures
            r == lex_lt(self.pairs()[i as int].0, k@),
    {
        let ek = chars_of(self.entries[i].0.as_str());
        lex_less(ek.as_slice(), k)
    }

    /// Sets the value under `key`, replacing any value it had.
    pub fn insert(&mut self, key: String, value: V)
        ensures
            final(self).pairs() == insert_sorted(old(self).pairs(), key@, value),
            strictly_sorted(final(self).pairs()),
    {
        proof {
            use_type_invariant(&*self);
        }
        let k = chars_of(key.as_str());
        let n = self.entries.len();
        let mut i: usize = 0;
        while i < n && self.key_before(i, k.as_slice())
            invariant
                i <= n == self.entries@.len(),
                self.pairs().len() == n,
                strictly_sorted(self.pairs()),
                forall|j: int| 0 <= j < i ==> lex_lt(#[trigger] self.pairs()[j].0, k@),
            decreases n - i,
        {
            i = i + 1;
        }
        let ghost ps = self.pairs();
        proof {
            lemma_insert_split(ps, k@, value, i as int);
        }
        let found = if i < n {
            let ek = chars_of(self.entries[i].0.as_str());
            same_chars(ek.as_slice(), k.as_slice())
        } else {
            false
        };
        let mut es: Vec<(String, V)> = Vec::new();
        std::mem::swap(&mut es, &mut self.entries);
        assert(es@.map_values(|e: (String, V)| (e.0@, e.1)) == ps);
        if found {
            es.set(i, (key, value));
            assert(es@.map_values(|e: (String, V)| (e.0@, e.1)) =~= ps.update(i as int, (k@, value)));
        } else {
            es.insert(i, (key, value));
            assert(es@.map_values(|e: (String, V)| (e.0@, e.1)) =~= ps.insert(i as int, (k@, value)));
        }
        self.entries = es;
    }
}

/// Where insertion lands, given that the first `i` keys sort before `k`
/// and the key at `i` (if any) does not.
proof fn lemma_insert_split<V>(ps: Seq<(Seq<char>, V)>, k: Seq<char>, v: V, i: int)
    requires
        0 <= i <= ps.len(),
        strictly_sorted(ps),
        forall|j: int| 0 <= j < i ==> lex_lt(#[trigger] ps[j].0, k),
        i < ps.len() ==> !lex_lt(ps[i].0, k),
    ensures
        i < ps.len() && ps[i].0 == k ==> insert_sorted(ps, k, v) == ps.update(i, (k, v)),
        !(i < ps.len() && ps[i].0 == k) ==> insert_sorted(ps, k, v) == ps.insert(i, (k, v)),
        strictly_sorted(insert_sorted(ps, k, v)),
    decreases i,
{
    if i == 0 {
        if ps.len() == 0 {
            assert(ps.insert(0, (k, v)) =~= seq![(k, v)]);
        } else if ps[0].0 == k {
            assert(ps.update(0, (k, v)) =~= seq![(k, v)] + ps.drop_first());
        } else {
            lemma_lex_total(ps[0].0, k);
            assert(ps.insert(0, (k, v)) =~= seq![(k, v)] + ps);
            let r = insert_sorted(ps, k, v);
            assert forall|a: int, b: int| 0 <= a < b < r.len() implies lex_lt(
                #[trigger] r[a].0,
                #[trigger] r[b].0,
            ) by {
                if a == 0 {
                    if b > 1 {
                        assert(lex_lt(ps[0].0, ps[b - 1].0));
                        lemma_lex_transitive(k, ps[0].0, ps[b - 1].0);
                    }
                } else {
                    assert(r[a] == ps[a - 1] && r[b] == ps[b - 1]);
                }
            }
        }
        if ps.len() > 0 && ps[0].0 == k {
            let r = insert_sorted(ps, k, v);
            assert forall|a: int, b: int| 0 <= a < b < r.len() implies lex_lt(
                #[trigger] r[a].0,
                #[trigger] r[b].0,
            ) by {
                assert(r[a].0 == ps[a].0 && r[b].0 == ps[b].0);
            }
        }
    } else {
        let t = ps.drop_first();
        assert forall|a: int, b: int| 0 <= a < b < t.len() implies lex_lt(
            #[trigger] t[a].0,
            #[trigger] t[b].0,
        ) by {
            assert(t[a] == ps[a + 1] && t[b] == ps[b + 1]);
        }
        assert(lex_lt(ps[0].0, k));
        lemma_lex_asymmetric(ps[0].0, k);
        lemma_insert_split(t, k, v, i - 1);
        let r = insert_sorted(ps, k, v);
        let rt = insert_sorted(t, k, v);
        assert(r == seq![ps[0]] + rt);
        if i < ps.len() && ps[i].0 == k {
            assert(ps.update(i, (k, v)) =~= seq![ps[0]] + t.update(i - 1, (k, v)));
        } else {
            assert(ps.insert(i, (k, v)) =~= seq![ps[0]] + t.insert(i - 1, (k, v)));
        }
        assert forall|a: int, b: int| 0 <= a < b < r.len() implies lex_lt(
            #[trigger] r[a].0,
            #[trigger] r[b].0,
        ) by {
            if a == 0 {
                assert(r[b] == rt[b - 1]);
                let x = rt[b - 1].0;
                // every key of rt is a key of t or k, all after ps[0]
                if i < ps.len() && ps[i].0 == k {
                    assert(rt == t.update(i - 1, (k, v)));
                    if b - 1 == i - 1 {
                    } else {
                        assert(x == t[b - 1].0 && t[b - 1] == ps[b]);
                    }
                } else {
                    assert(rt == t.insert(i - 1, (k, v)));
                    if b - 1 < i - 1 {
                        assert(x == t[b - 1].0 && t[b - 1] == ps[b]);
                    } else if b - 1 == i - 1 {
                    } else {
                        assert(x == t[b - 2].0 && t[b - 2] == ps[b - 1]);
                    }
                }
            } else {
                assert(r[a] == rt[a - 1] && r[b] == rt[b - 1]);
            }
        }
    }
}

/// After setting `k` to `v`, reading `k` gives `v`, and reading any other
/// key gives what it gave before.
pub proof fn lemma_lookup_insert<V>(ps: Seq<(Seq<char>, V)>, k: Seq<char>, v: V, other: Seq<char>)
    ensures
        lookup(insert_sorted(ps, k, v), k) == Some(v),
        other != k ==> lookup(insert_sorted(ps, k, v), other) == lookup(ps, other),
    decreases ps.len(),
{
    let r = insert_sorted(ps, k, v);
    if ps.len() == 0 {
        assert(r.drop_first() =~= Seq::<(Seq<char>, V)>::empty());
        if other != k {
            assert(lookup(r, other) == lookup(r.drop_first(), other));
        }
    } else if ps[0].0 == k {
        assert(r.drop_first() =~= ps.drop_first());
        if other != k {
            assert(lookup(r, other) == lookup(r.drop_first(), other));
            assert(lookup(ps, other) == lookup(ps.drop_first(), other));
        }
    } else if lex_lt(k, ps[0].0) {
        assert(r.drop_first() =~= ps);
        if other != k {
            assert(lookup(r, other) == lookup(r.drop_first(), other));
        }
    } else {
        lemma_lookup_insert(ps.drop_first(), k, v, other);
        assert(r.drop_first() =~= insert_sorted(ps.drop_first(), k, v));
        assert(r[0] == ps[0]);
    }
}

} // verus!
