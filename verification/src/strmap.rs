//! A map from strings to values that keeps its entries ordered by key,
//! each key once: the ordered-map semantics the lowering seeds rely on
//! (iteration in key order, a later insert replacing an earlier value).
use vstd::prelude::*;

use crate::text::str_eq;
use crate::text_order::{lemma_seq_lt_irreflexive, lemma_seq_lt_transitive, lemma_seq_lt_trichotomy, seq_lt, str_lt};

verus! {

/// The keys of `s` strictly increase.
pub open spec fn keys_sorted<V>(s: Seq<(Seq<char>, V)>) -> bool {
    forall|i: int, j: int| 0 <= i < j < s.len() ==> seq_lt(#[trigger] s[i].0, #[trigger] s[j].0)
}

/// Some entry of `s` has key `k`.
pub open spec fn has_key<V>(s: Seq<(Seq<char>, V)>, k: Seq<char>) -> bool {
    exists|i: int| 0 <= i < s.len() && (#[trigger] s[i]).0 == k
}

/// The value of key `k` in `s`, if any.
pub open spec fn lookup<V>(s: Seq<(Seq<char>, V)>, k: Seq<char>) -> Option<V> {
    if has_key(s, k) {
        Some(s[choose|i: int| 0 <= i < s.len() && (#[trigger] s[i]).0 == k].1)
    } else {
        None
    }
}

/// The values of `s`, in key order.
pub open spec fn values_of<V>(s: Seq<(Seq<char>, V)>) -> Seq<V> {
    s.map_values(|e: (Seq<char>, V)| e.1)
}

/// The value of key `k` in a map of strings, as characters.
pub open spec fn str_lookup(s: Seq<(Seq<char>, String)>, k: Seq<char>) -> Option<Seq<char>> {
    match lookup(s, k) {
        Some(v) => Some(v@),
        None => None,
    }
}

/// The value `overlay` gives `k`, else the one `base` gives it: what
/// extending `base` with `overlay` yields.
pub open spec fn overlaid<V>(base: Seq<(Seq<char>, V)>, overlay: Seq<(Seq<char>, V)>, k: Seq<char>) -> Option<V> {
    if has_key(overlay, k) {
        lookup(overlay, k)
    } else {
        lookup(base, k)
    }
}

/// In a sorted listing the entry at `i` is the one `lookup` finds.
pub proof fn lemma_lookup_at<V>(s: Seq<(Seq<char>, V)>, i: int)
    requires
        keys_sorted(s),
        0 <= i < s.len(),
    ensures
        lookup(s, s[i].0) == Some(s[i].1),
{
    let k = s[i].0;
    assert(has_key(s, k));
    let c = choose|c: int| 0 <= c < s.len() && (#[trigger] s[c]).0 == k;
    assert(0 <= c < s.len() && s[c].0 == k);
    lemma_seq_lt_irreflexive(k);
    if c < i {
        assert(seq_lt(s[c].0, s[i].0));
    } else if c > i {
        assert(seq_lt(s[i].0, s[c].0));
    }
    assert(c == i);
    assert(lookup(s, k) == Some(s[c].1));
}

/// Two sorted listings that agree on every key are equal.
pub proof fn lemma_sorted_lookup_unique<V>(a: Seq<(Seq<char>, V)>, b: Seq<(Seq<char>, V)>)
    requires
        keys_sorted(a),
        keys_sorted(b),
        forall|k: Seq<char>| lookup(a, k) == lookup(b, k),
    ensures
        a == b,
    decreases a.len() + b.len(),
{
    if a.len() == 0 || b.len() == 0 {
        if a.len() > 0 {
            lemma_lookup_at(a, 0);
            assert(lookup(b, a[0].0) is None);
        }
        if b.len() > 0 {
            lemma_lookup_at(b, 0);
            assert(lookup(a, b[0].0) is None);
        }
        assert(a =~= b);
    } else {
        lemma_lookup_at(a, 0);
        lemma_lookup_at(b, 0);
        let ka = a[0].0;
        let kb = b[0].0;
        // The least keys agree: each list's first key is in the other, where
        // it cannot precede that list's own first key.
        assert(has_key(b, ka));
        let jb = choose|j: int| 0 <= j < b.len() && (#[trigger] b[j]).0 == ka;
        assert(has_key(a, kb));
        let ja = choose|j: int| 0 <= j < a.len() && (#[trigger] a[j]).0 == kb;
        lemma_seq_lt_trichotomy(ka, kb);
        if ka != kb {
            if seq_lt(ka, kb) {
                if jb > 0 {
                    assert(seq_lt(b[0].0, b[jb].0));
                }
            } else {
                if ja > 0 {
                    assert(seq_lt(a[0].0, a[ja].0));
                }
            }
        }
        assert(ka == kb);
        let ta = a.drop_first();
        let tb = b.drop_first();
        assert forall|k: Seq<char>| lookup(ta, k) == lookup(tb, k) by {
            if k == ka {
                assert forall|j: int| 0 <= j < ta.len() implies (#[trigger] ta[j]).0 != k by {
                    assert(seq_lt(a[0].0, a[j + 1].0));
                    lemma_seq_lt_irreflexive(k);
                }
                assert forall|j: int| 0 <= j < tb.len() implies (#[trigger] tb[j]).0 != k by {
                    assert(seq_lt(b[0].0, b[j + 1].0));
                    lemma_seq_lt_irreflexive(k);
                }
            } else {
                if has_key(ta, k) {
                    let j = choose|j: int| 0 <= j < ta.len() && (#[trigger] ta[j]).0 == k;
                    assert(a[j + 1] == ta[j]);
                    lemma_lookup_at(a, j + 1);
                    lemma_lookup_at(ta, j);
                }
                if has_key(tb, k) {
                    let j = choose|j: int| 0 <= j < tb.len() && (#[trigger] tb[j]).0 == k;
                    assert(b[j + 1] == tb[j]);
                    lemma_lookup_at(b, j + 1);
                    lemma_lookup_at(tb, j);
                }
                if has_key(a, k) {
                    let j = choose|j: int| 0 <= j < a.len() && (#[trigger] a[j]).0 == k;
                    assert(j > 0);
                    assert(ta[j - 1] == a[j]);
                }
                if has_key(b, k) {
                    let j = choose|j: int| 0 <= j < b.len() && (#[trigger] b[j]).0 == k;
                    assert(j > 0);
                    assert(tb[j - 1] == b[j]);
                }
            }
        }
        assert(keys_sorted(ta)) by {
            assert forall|i: int, j: int| 0 <= i < j < ta.len() implies seq_lt(
                #[trigger] ta[i].0,
                #[trigger] ta[j].0,
            ) by {
                assert(seq_lt(a[i + 1].0, a[j + 1].0));
            }
        }
        assert(keys_sorted(tb)) by {
            assert forall|i: int, j: int| 0 <= i < j < tb.len() implies seq_lt(
                #[trigger] tb[i].0,
                #[trigger] tb[j].0,
            ) by {
                assert(seq_lt(b[i + 1].0, b[j + 1].0));
            }
        }
        lemma_sorted_lookup_unique(ta, tb);
        assert(a =~= seq![a[0]] + ta);
        assert(b =~= seq![b[0]] + tb);
    }
}

/// An ordered set of strings: the keys of a map whose values carry nothing.
pub type StrSet = StrMap<()>;

/// An ordered map from strings to values.
#[derive(Debug)]
pub struct StrMap<V> {
    entries: Vec<(String, V)>,
}

impl<V> View for StrMap<V> {
    type V = Seq<(Seq<char>, V)>;

    closed spec fn view(&self) -> Seq<(Seq<char>, V)> {
        self.entries@.map_values(|e: (String, V)| (e.0@, e.1))
    }
}

impl<V: Clone> Clone for StrMap<V> {
    /// A copy with the same keys, in the same order, and each value cloned.
    fn clone(&self) -> (r: Self)
        ensures
            r@.len() == self@.len(),
            forall|i: int| 0 <= i < self@.len() ==> (#[trigger] r@[i]).0 == self@[i].0 && cloned(
                self@[i].1,
                r@[i].1,
            ),
    {
        proof {
            use_type_invariant(self);
        }
        let mut es: Vec<(String, V)> = Vec::new();
        let n = self.entries.len();
        let mut i: usize = 0;
        while i < n
            invariant
                n == self@.len(),
                i <= n,
                keys_sorted(self@),
                es@.len() == i,
                forall|j: int| 0 <= j < i ==> (#[trigger] es@[j]).0@ == self@[j].0 && cloned(
                    self@[j].1,
                    es@[j].1,
                ),
            decreases n - i,
        {
            let k = self.entries[i].0.clone();
            let v = self.entries[i].1.clone();
            es.push((k, v));
            i = i + 1;
        }
        let r = StrMap { entries: es };
        assert forall|j: int| 0 <= j < self@.len() implies (#[trigger] r@[j]).0 == self@[j].0 by {}
        r
    }
}

impl<V> Default for StrMap<V> {
    fn default() -> (m: Self)
        ensures
            m@ == Seq::<(Seq<char>, V)>::empty(),
    {
        StrMap::new()
    }
}

impl<V> StrMap<V> {
    /// The entries are kept in strictly increasing key order.
    #[verifier::type_invariant]
    pub open spec fn sorted(self) -> bool {
        keys_sorted(self@)
    }

    /// An empty map.
    pub fn new() -> (m: Self)
        ensures
            m@ == Seq::<(Seq<char>, V)>::empty(),
    {
        let m = StrMap { entries: Vec::new() };
        assert(m@ =~= Seq::<(Seq<char>, V)>::empty());
        m
    }

    /// The number of entries.
    pub fn len(&self) -> (n: usize)
        ensures
            n == self@.len(),
            keys_sorted(self@),
    {
        proof {
            use_type_invariant(self);
        }
        self.entries.len()
    }

    /// The key of the `i`-th entry in key order.
    pub fn key_at(&self, i: usize) -> (k: &String)
        requires
            i < self@.len(),
        ensures
            k@ == self@[i as int].0,
    {
        &self.entries[i].0
    }

    /// The value of the `i`-th entry in key order.
    pub fn value_at(&self, i: usize) -> (v: &V)
        requires
            i < self@.len(),
        ensures
            *v == self@[i as int].1,
    {
        &self.entries[i].1
    }

    /// The position of key `k`, if present.
    fn position(&self, k: &str) -> (r: Option<usize>)
        ensures
            match r {
                Some(i) => i < self@.len() && self@[i as int].0 == k@,
                None => !has_key(self@, k@),
            },
    {
        let n = self.entries.len();
        let mut i: usize = 0;
        while i < n
            invariant
                n == self@.len(),
                i <= n,
                forall|j: int| 0 <= j < i ==> (#[trigger] self@[j]).0 != k@,
            decreases n - i,
        {
            if str_eq(self.entries[i].0.as_str(), k) {
                return Some(i);
            }
            i = i + 1;
        }
        None
    }

    /// The value of key `k`, if present.
    pub fn get(&self, k: &str) -> (r: Option<&V>)
        ensures
            match r {
                Some(v) => lookup(self@, k@) == Some(*v),
                None => lookup(self@, k@) is None,
            },
    {
        proof {
            use_type_invariant(self);
        }
        match self.position(k) {
            Some(i) => {
                proof {
                    lemma_lookup_at(self@, i as int);
                }
                Some(&self.entries[i].1)
            },
            None => None,
        }
    }

    /// Whether key `k` is present.
    pub fn contains_key(&self, k: &str) -> (r: bool)
        ensures
            r == has_key(self@, k@),
    {
        self.position(k).is_some()
    }

    /// Sets the value of key `k`, keeping the key order; gives back the value
    /// it replaces.
    pub fn insert(&mut self, k: String, v: V) -> (r: Option<V>)
        ensures
            forall|q: Seq<char>| #[trigger]
                lookup(final(self)@, q) == if q == k@ {
                    Some(v)
                } else {
                    lookup(old(self)@, q)
                },
            r == lookup(old(self)@, k@),
            keys_sorted(final(self)@),
    {
        proof {
            use_type_invariant(&*self);
        }
        let ghost s0 = self@;
        let mut es: Vec<(String, V)> = Vec::new();
        std::mem::swap(&mut es, &mut self.entries);
        assert(es@.map_values(|e: (String, V)| (e.0@, e.1)) == s0);
        let n = es.len();
        let mut i: usize = 0;
        while i < n && str_lt(es[i].0.as_str(), k.as_str())
            invariant
                n == es@.len(),
                i <= n,
                es@.map_values(|e: (String, V)| (e.0@, e.1)) == s0,
                forall|j: int| 0 <= j < i ==> seq_lt((#[trigger] s0[j]).0, k@),
            decreases n - i,
        {
            i = i + 1;
        }
        // Every key before `i` is smaller than `k`; the key at `i`, if any, is
        // not.
        if i < n && str_eq(es[i].0.as_str(), k.as_str()) {
            let old_entry = es.remove(i);
            es.insert(i, (k, v));
            let ghost s1 = es@.map_values(|e: (String, V)| (e.0@, e.1));
            proof {
                lemma_lookup_at(s0, i as int);
                assert(s1 =~= s0.update(i as int, (k@, v)));
                assert(keys_sorted(s1)) by {
                    assert forall|a: int, b: int| 0 <= a < b < s1.len() implies seq_lt(
                        #[trigger] s1[a].0,
                        #[trigger] s1[b].0,
                    ) by {
                        assert(seq_lt(s0[a].0, s0[b].0));
                    }
                }
                assert forall|q: Seq<char>| #[trigger]
                    lookup(s1, q) == if q == k@ {
                        Some(v)
                    } else {
                        lookup(s0, q)
                    } by {
                    lemma_lookup_at(s1, i as int);
                    if q != k@ {
                        if has_key(s0, q) {
                            let j = choose|j: int| 0 <= j < s0.len() && (#[trigger] s0[j]).0 == q;
                            lemma_lookup_at(s0, j);
                            lemma_lookup_at(s1, j);
                        }
                        if has_key(s1, q) {
                            let j = choose|j: int| 0 <= j < s1.len() && (#[trigger] s1[j]).0 == q;
                            assert(s0[j] == s1[j]);
                        }
                    }
                }
            }
            self.entries = es;
            Some(old_entry.1)
        } else {
            let ghost kv = k@;
            es.insert(i, (k, v));
            let ghost s1 = es@.map_values(|e: (String, V)| (e.0@, e.1));
            proof {
                assert(s1 =~= s0.insert(i as int, (kv, v)));
                if i < n {
                    lemma_seq_lt_trichotomy(s0[i as int].0, kv);
                }
                assert(!has_key(s0, kv)) by {
                    if has_key(s0, kv) {
                        let j = choose|j: int| 0 <= j < s0.len() && (#[trigger] s0[j]).0 == kv;
                        lemma_seq_lt_irreflexive(kv);
                        if j > i {
                            assert(seq_lt(s0[i as int].0, s0[j].0));
                            lemma_seq_lt_trichotomy(s0[i as int].0, kv);
                        }
                    }
                }
                assert(keys_sorted(s1)) by {
                    assert forall|a: int, b: int| 0 <= a < b < s1.len() implies seq_lt(
                        #[trigger] s1[a].0,
                        #[trigger] s1[b].0,
                    ) by {
                        if b == i {
                            assert(seq_lt(s0[a].0, kv));
                        } else if a == i {
                            // s1[b] == s0[b - 1], which is at or after s0[i] > kv.
                            if b - 1 > i {
                                assert(seq_lt(s0[i as int].0, s0[b - 1].0));
                                lemma_seq_lt_transitive(kv, s0[i as int].0, s0[b - 1].0);
                            }
                        } else if a < i && b > i {
                            assert(seq_lt(s0[a].0, s0[b - 1].0));
                        } else if a > i {
                            assert(seq_lt(s0[a - 1].0, s0[b - 1].0));
                        } else {
                            assert(seq_lt(s0[a].0, s0[b].0));
                        }
                    }
                }
                assert forall|q: Seq<char>| #[trigger]
                    lookup(s1, q) == if q == kv {
                        Some(v)
                    } else {
                        lookup(s0, q)
                    } by {
                    lemma_lookup_at(s1, i as int);
                    if q != kv {
                        if has_key(s0, q) {
                            let j = choose|j: int| 0 <= j < s0.len() && (#[trigger] s0[j]).0 == q;
                            lemma_lookup_at(s0, j);
                            if j < i {
                                lemma_lookup_at(s1, j);
                            } else {
                                assert(s1[j + 1] == s0[j]);
                                lemma_lookup_at(s1, j + 1);
                            }
                        }
                        if has_key(s1, q) {
                            let j = choose|j: int| 0 <= j < s1.len() && (#[trigger] s1[j]).0 == q;
                            if j < i {
                                assert(s0[j] == s1[j]);
                            } else {
                                assert(j != i);
                                assert(s0[j - 1] == s1[j]);
                            }
                        }
                    }
                }
            }
            self.entries = es;
            None
        }
    }

    /// Removes key `k`, keeping the key order; gives back its value.
    pub fn remove(&mut self, k: &str) -> (r: Option<V>)
        ensures
            forall|q: Seq<char>| #[trigger]
                lookup(final(self)@, q) == if q == k@ {
                    None
                } else {
                    lookup(old(self)@, q)
                },
            r == lookup(old(self)@, k@),
            keys_sorted(final(self)@),
    {
        proof {
            use_type_invariant(&*self);
        }
        let ghost s0 = self@;
        match self.position(k) {
            None => None,
            Some(i) => {
                let mut es: Vec<(String, V)> = Vec::new();
                std::mem::swap(&mut es, &mut self.entries);
                assert(es@.map_values(|e: (String, V)| (e.0@, e.1)) == s0);
                let old_entry = es.remove(i);
                let ghost s1 = es@.map_values(|e: (String, V)| (e.0@, e.1));
                proof {
                    lemma_lookup_at(s0, i as int);
                    assert(s1 =~= s0.remove(i as int));
                    assert(keys_sorted(s1)) by {
                        assert forall|a: int, b: int| 0 <= a < b < s1.len() implies seq_lt(
                            #[trigger] s1[a].0,
                            #[trigger] s1[b].0,
                        ) by {
                            if a < i && b >= i {
                                assert(seq_lt(s0[a].0, s0[b + 1].0));
                            } else if a >= i {
                                assert(seq_lt(s0[a + 1].0, s0[b + 1].0));
                            } else {
                                assert(seq_lt(s0[a].0, s0[b].0));
                            }
                        }
                    }
                    assert forall|q: Seq<char>| #[trigger]
                        lookup(s1, q) == if q == k@ {
                            None
                        } else {
                            lookup(s0, q)
                        } by {
                        if q == k@ {
                            if has_key(s1, q) {
                                let j = choose|j: int| 0 <= j < s1.len() && (#[trigger] s1[j]).0 == q;
                                lemma_seq_lt_irreflexive(q);
                                if j < i {
                                    assert(s1[j] == s0[j]);
                                    assert(seq_lt(s0[j].0, s0[i as int].0));
                                } else {
                                    assert(s1[j] == s0[j + 1]);
                                    assert(seq_lt(s0[i as int].0, s0[j + 1].0));
                                }
                            }
                        } else {
                            if has_key(s0, q) {
                                let j = choose|j: int| 0 <= j < s0.len() && (#[trigger] s0[j]).0 == q;
                                lemma_lookup_at(s0, j);
                                if j < i {
                                    assert(s1[j] == s0[j]);
                                    lemma_lookup_at(s1, j);
                                } else {
                                    assert(j != i);
                                    assert(s1[j - 1] == s0[j]);
                                    lemma_lookup_at(s1, j - 1);
                                }
                            }
                            if has_key(s1, q) {
                                let j = choose|j: int| 0 <= j < s1.len() && (#[trigger] s1[j]).0 == q;
                                if j < i {
                                    assert(s0[j] == s1[j]);
                                } else {
                                    assert(s0[j + 1] == s1[j]);
                                }
                            }
                        }
                    }
                }
                self.entries = es;
                Some(old_entry.1)
            },
        }
    }

    /// Inserts every entry of `other`, in its key order, so that its values
    /// win over those already present.
    pub fn extend(&mut self, other: StrMap<V>)
        ensures
            forall|q: Seq<char>| #[trigger]
                lookup(final(self)@, q) == if has_key(other@, q) {
                    lookup(other@, q)
                } else {
                    lookup(old(self)@, q)
                },
            keys_sorted(final(self)@),
    {
        proof {
            use_type_invariant(&other);
            use_type_invariant(&*self);
        }
        let ghost s0 = self@;
        let ghost o = other@;
        let mut rest = other.entries;
        // Taking entries from the back keeps the remaining ones a prefix of
        // `other`; each key occurs once, so the order of insertion does not
        // matter.
        while rest.len() > 0
            invariant
                o == other@,
                keys_sorted(o),
                rest@.map_values(|e: (String, V)| (e.0@, e.1)) == o.subrange(0, rest@.len() as int),
                rest@.len() <= o.len(),
                keys_sorted(self@),
                forall|q: Seq<char>| #[trigger]
                    lookup(self@, q) == if has_key(o.subrange(rest@.len() as int, o.len() as int), q) {
                        lookup(o, q)
                    } else {
                        lookup(s0, q)
                    },
            decreases rest@.len(),
        {
            let ghost before = self@;
            let ghost n = rest@.len() as int;
            let ghost old_rest = rest@;
            let (k, v) = rest.pop().unwrap();
            proof {
                assert(rest@ =~= old_rest.drop_last());
                assert(rest@.map_values(|e: (String, V)| (e.0@, e.1)) =~= o.subrange(0, n - 1));
                assert(old_rest.map_values(|e: (String, V)| (e.0@, e.1))[n - 1] == o[n - 1]);
                assert(o[n - 1] == (k@, v));
                lemma_lookup_at(o, n - 1);
            }
            let ghost kv = k@;
            self.insert(k, v);
            proof {
                let tail0 = o.subrange(n, o.len() as int);
                let tail1 = o.subrange(n - 1, o.len() as int);
                assert forall|q: Seq<char>| #[trigger]
                    lookup(self@, q) == if has_key(tail1, q) {
                        lookup(o, q)
                    } else {
                        lookup(s0, q)
                    } by {
                    if q == kv {
                        assert(tail1[0] == o[n - 1]);
                    } else {
                        if has_key(tail1, q) {
                            let j = choose|j: int| 0 <= j < tail1.len() && (#[trigger] tail1[j]).0 == q;
                            assert(j > 0);
                            assert(tail0[j - 1] == tail1[j]);
                        }
                        if has_key(tail0, q) {
                            let j = choose|j: int| 0 <= j < tail0.len() && (#[trigger] tail0[j]).0 == q;
                            assert(tail1[j + 1] == tail0[j]);
                        }
                    }
                }
            }
        }
        proof {
            assert(o.subrange(0, o.len() as int) =~= o);
        }
    }

    /// The values, in key order.
    pub fn into_values(self) -> (vs: Vec<V>)
        ensures
            vs@ == values_of(self@),
            keys_sorted(self@),
    {
        proof {
            use_type_invariant(&self);
        }
        let ghost s = self@;
        let mut es = self.entries;
        let mut vs: Vec<V> = Vec::new();
        let mut rev: Vec<V> = Vec::new();
        while es.len() > 0
            invariant
                es@.len() <= s.len(),
                es@.map_values(|e: (String, V)| (e.0@, e.1)) == s.subrange(0, es@.len() as int),
                rev@.len() == s.len() - es@.len(),
                forall|j: int| 0 <= j < rev@.len() ==> #[trigger] rev@[j] == s[s.len() - 1 - j].1,
            decreases es@.len(),
        {
            let ghost n = es@.len() as int;
            let ghost old_es = es@;
            let e = es.pop().unwrap();
            proof {
                assert(es@ =~= old_es.drop_last());
                assert(es@.map_values(|e: (String, V)| (e.0@, e.1)) =~= s.subrange(0, n - 1));
                assert(old_es.map_values(|e: (String, V)| (e.0@, e.1))[n - 1] == s[n - 1]);
                assert(e.1 == s[n - 1].1);
            }
            rev.push(e.1);
        }
        while rev.len() > 0
            invariant
                rev@.len() + vs@.len() == s.len(),
                forall|j: int| 0 <= j < rev@.len() ==> #[trigger] rev@[j] == s[s.len() - 1 - j].1,
                forall|j: int| 0 <= j < vs@.len() ==> #[trigger] vs@[j] == s[j].1,
            decreases rev@.len(),
        {
            let v = rev.pop().unwrap();
            vs.push(v);
        }
        assert(vs@ =~= values_of(s));
        vs
    }
}


impl StrMap<String> {
    /// A copy of this map of strings.
    pub fn copy(&self) -> (r: Self)
        ensures
            r@ == self@,
    {
        let r = self.clone();
        assert forall|i: int| 0 <= i < self@.len() implies (#[trigger] r@[i]) == self@[i] by {
            assert(cloned(self@[i].1, r@[i].1));
        }
        assert(r@ =~= self@);
        r
    }
}

} // verus!
