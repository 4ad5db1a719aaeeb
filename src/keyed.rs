//! An order-normalising map from string keys to values: the entries are kept
//! sorted by key (code-point order, the order of `String`'s `Ord`), so that two
//! maps with the same contents hold the same entries in the same order,
//! whatever order the keys were inserted in.
use vstd::prelude::*;
use crate::text::chars_of;

verus! {

/// Strict lexicographic order on character sequences, by code point.
pub open spec fn key_lt(a: Seq<char>, b: Seq<char>) -> bool
    decreases a.len(),
{
    if a.len() == 0 {
        b.len() > 0
    } else if b.len() == 0 {
        false
    } else if a[0] != b[0] {
        (a[0] as u32) < (b[0] as u32)
    } else {
        key_lt(a.drop_first(), b.drop_first())
    }
}

pub proof fn lemma_key_lt_irreflexive(a: Seq<char>)
    ensures
        !key_lt(a, a),
    decreases a.len(),
{
    if a.len() > 0 {
        lemma_key_lt_irreflexive(a.drop_first());
    }
}

pub proof fn lemma_key_lt_transitive(a: Seq<char>, b: Seq<char>, c: Seq<char>)
    requires
        key_lt(a, b),
        key_lt(b, c),
    ensures
        key_lt(a, c),
    decreases a.len(),
{
    vstd::utf8::char_u32_cast(a[0], a[0] as u32);
    if a.len() > 0 && b.len() > 0 && c.len() > 0 && a[0] == b[0] && b[0] == c[0] {
        lemma_key_lt_transitive(a.drop_first(), b.drop_first(), c.drop_first());
    }
    if a.len() > 0 && b.len() > 0 && c.len() > 0 && a[0] != c[0] {
        if (a[0] as u32) == (c[0] as u32) {
            vstd::utf8::char_u32_cast(c[0], c[0] as u32);
        }
    }
}

pub proof fn lemma_key_lt_total(a: Seq<char>, b: Seq<char>)
    requires
        a != b,
    ensures
        key_lt(a, b) || key_lt(b, a),
    decreases a.len(),
{
    if a.len() > 0 && b.len() > 0 {
        if a[0] == b[0] {
            if a.drop_first() == b.drop_first() {
                assert(a =~= seq![a[0]] + a.drop_first());
                assert(b =~= seq![b[0]] + b.drop_first());
            }
            lemma_key_lt_total(a.drop_first(), b.drop_first());
        } else {
            if (a[0] as u32) == (b[0] as u32) {
                vstd::utf8::char_u32_cast(a[0], a[0] as u32);
                vstd::utf8::char_u32_cast(b[0], b[0] as u32);
            }
        }
    } else if a.len() == 0 && b.len() == 0 {
        assert(a =~= b);
    }
}

/// Compares two keys: negative, zero or positive as `a` sorts before, equal
/// to, or after `b`.
pub fn compare_keys(a: &str, b: &str) -> (r: i8)
    ensures
        r < 0 <==> key_lt(a@, b@),
        r == 0 <==> a@ == b@,
        r > 0 <==> key_lt(b@, a@),
{
    let x = chars_of(a);
    let y = chars_of(b);
    let mut i: usize = 0;
    while i < x.len() && i < y.len() && x[i] == y[i]
        invariant
            0 <= i <= x@.len(),
            i <= y@.len(),
            x@ == a@,
            y@ == b@,
            x@.subrange(0, i as int) == y@.subrange(0, i as int),
        decreases x@.len() - i,
    {
        assert(x@.subrange(0, i + 1) =~= x@.subrange(0, i as int).push(x@[i as int]));
        assert(y@.subrange(0, i + 1) =~= y@.subrange(0, i as int).push(y@[i as int]));
        i = i + 1;
    }
    let ghost ra = a@.subrange(i as int, a@.len() as int);
    let ghost rb = b@.subrange(i as int, b@.len() as int);
    proof {
        lemma_key_lt_after_common_prefix(x@, y@, i as int);
        lemma_key_lt_irreflexive(a@);
    }
    if i < x.len() && i < y.len() {
        let cx = x[i] as u32;
        let cy = y[i] as u32;
        assert(ra[0] == x@[i as int]);
        assert(rb[0] == y@[i as int]);
        assert(ra[0] != rb[0]);
        assert(a@ != b@) by {
            if a@ == b@ {
                assert(x@[i as int] == y@[i as int]);
            }
        }
        if cx < cy {
            -1
        } else {
            proof {
                if cx == cy {
                    vstd::utf8::char_u32_cast(x@[i as int], cx);
                    vstd::utf8::char_u32_cast(y@[i as int], cy);
                }
            }
            1
        }
    } else if x.len() < y.len() {
        assert(ra.len() == 0 && rb.len() > 0);
        assert(a@ != b@);
        -1
    } else if x.len() > y.len() {
        assert(rb.len() == 0 && ra.len() > 0);
        assert(a@ != b@);
        1
    } else {
        assert(x@ =~= x@.subrange(0, i as int));
        assert(y@ =~= y@.subrange(0, i as int));
        assert(ra.len() == 0 && rb.len() == 0);
        0
    }
}

/// Two sequences that agree on their first `i` characters compare as their
/// remainders from `i` on do.
pub proof fn lemma_key_lt_after_common_prefix(a: Seq<char>, b: Seq<char>, i: int)
    requires
        0 <= i <= a.len(),
        i <= b.len(),
        a.subrange(0, i) == b.subrange(0, i),
    ensures
        key_lt(a, b) == key_lt(a.subrange(i, a.len() as int), b.subrange(i, b.len() as int)),
        key_lt(b, a) == key_lt(b.subrange(i, b.len() as int), a.subrange(i, a.len() as int)),
    decreases i,
{
    if i > 0 {
        assert(a[0] == a.subrange(0, i)[0]);
        assert(b[0] == b.subrange(0, i)[0]);
        assert(a.drop_first().subrange(0, i - 1) =~= b.drop_first().subrange(0, i - 1)) by {
            assert forall|j: int| 0 <= j < i - 1 implies a.drop_first()[j] == b.drop_first()[j] by {
                assert(a.subrange(0, i)[j + 1] == a[j + 1]);
                assert(b.subrange(0, i)[j + 1] == b[j + 1]);
            }
        }
        lemma_key_lt_after_common_prefix(a.drop_first(), b.drop_first(), i - 1);
        assert(a.drop_first().subrange(i - 1, a.len() - 1) =~= a.subrange(i, a.len() as int));
        assert(b.drop_first().subrange(i - 1, b.len() - 1) =~= b.subrange(i, b.len() as int));
    } else {
        assert(a.subrange(0, a.len() as int) =~= a);
        assert(b.subrange(0, b.len() as int) =~= b);
    }
}

/// Strictly increasing by key.
pub open spec fn strictly_sorted<V>(s: Seq<(Seq<char>, V)>) -> bool {
    forall|i: int, j: int| 0 <= i < j < s.len() ==> #[trigger] key_lt(s[i].0, s[j].0)
}

/// Two strictly sorted sequences of pairs that hold the same pairs are equal.
pub proof fn lemma_sorted_pairs_equal<V>(s: Seq<(Seq<char>, V)>, t: Seq<(Seq<char>, V)>)
    requires
        strictly_sorted(s),
        strictly_sorted(t),
        forall|p: (Seq<char>, V)| s.contains(p) <==> t.contains(p),
    ensures
        s == t,
    decreases s.len(),
{
    if s.len() == 0 {
        if t.len() > 0 {
            assert(t.contains(t[0]));
        }
        assert(s =~= t);
    } else {
        assert(s.contains(s[0]));
        if t.len() == 0 {
            assert(false);
        }
        assert(t.contains(t[0]));
        let j = choose|j: int| 0 <= j < t.len() && t[j] == s[0];
        let i = choose|i: int| 0 <= i < s.len() && s[i] == t[0];
        lemma_key_lt_irreflexive(s[0].0);
        if j > 0 {
            assert(key_lt(t[0].0, t[j].0));
            if i > 0 {
                assert(key_lt(s[0].0, s[i].0));
                lemma_key_lt_transitive(s[0].0, t[0].0, s[0].0);
            }
        }
        assert(s[0] == t[0]);
        let s1 = s.drop_first();
        let t1 = t.drop_first();
        assert forall|p: (Seq<char>, V)| s1.contains(p) <==> t1.contains(p) by {
            if s1.contains(p) {
                let a = choose|a: int| 0 <= a < s1.len() && s1[a] == p;
                assert(s[a + 1] == p);
                assert(key_lt(s[0].0, s[a + 1].0));
                assert(t.contains(p));
                let b = choose|b: int| 0 <= b < t.len() && t[b] == p;
                if b == 0 {
                    assert(false);
                }
                assert(t1[b - 1] == p);
            }
            if t1.contains(p) {
                let a = choose|a: int| 0 <= a < t1.len() && t1[a] == p;
                assert(t[a + 1] == p);
                assert(key_lt(t[0].0, t[a + 1].0));
                assert(s.contains(p));
                let b = choose|b: int| 0 <= b < s.len() && s[b] == p;
                if b == 0 {
                    assert(false);
                }
                assert(s1[b - 1] == p);
            }
        }
        lemma_sorted_pairs_equal(s1, t1);
        assert(s =~= seq![s[0]] + s1);
        assert(t =~= seq![t[0]] + t1);
    }
}

/// A map from string keys to values whose entries are kept sorted by key.
#[derive(Clone, Debug)]
pub struct KeyedMap<V> {
    pub entries: Vec<(String, V)>,
}

impl<V: View> KeyedMap<V> {
    /// The key of the `i`-th entry.
    pub open spec fn key(&self, i: int) -> Seq<char> {
        self.entries@[i].0@
    }

    /// The value of the `i`-th entry.
    pub open spec fn value(&self, i: int) -> V::V {
        self.entries@[i].1@
    }

    /// The keys, in order.
    pub open spec fn keys(&self) -> Seq<Seq<char>> {
        self.entries@.map_values(|e: (String, V)| e.0@)
    }

    /// The entries as (key, value) pairs of their views, in order.
    pub open spec fn pairs(&self) -> Seq<(Seq<char>, V::V)> {
        self.entries@.map_values(|e: (String, V)| (e.0@, e.1@))
    }

    /// The entries are strictly increasing by key; in particular keys are unique.
    pub open spec fn wf(&self) -> bool {
        forall|i: int, j: int|
            0 <= i < j < self.entries@.len() ==> #[trigger] key_lt(self.key(i), self.key(j))
    }

    pub open spec fn has_key(&self, k: Seq<char>) -> bool {
        exists|i: int| 0 <= i < self.entries@.len() && self.key(i) == k
    }

    pub open spec fn index_of(&self, k: Seq<char>) -> int {
        choose|i: int| 0 <= i < self.entries@.len() && self.key(i) == k
    }

    pub proof fn lemma_unique(&self, i: int, j: int)
        requires
            self.wf(),
            0 <= i < self.entries@.len(),
            0 <= j < self.entries@.len(),
            self.key(i) == self.key(j),
        ensures
            i == j,
    {
        lemma_key_lt_irreflexive(self.key(i));
        if i < j {
            assert(key_lt(self.key(i), self.key(j)));
        } else if j < i {
            assert(key_lt(self.key(j), self.key(i)));
        }
    }

    /// The entry at `i` is what the map holds at its key.
    pub proof fn lemma_entry(&self, i: int)
        requires
            self.wf(),
            0 <= i < self.entries@.len(),
        ensures
            self@.contains_key(self.key(i)),
            self.index_of(self.key(i)) == i,
            self@[self.key(i)] == self.value(i),
    {
        assert(self.has_key(self.key(i)));
        let j = self.index_of(self.key(i));
        self.lemma_unique(i, j);
    }

    /// The pairs of a well-formed map are sorted, and are exactly the pairs
    /// its view holds.
    pub proof fn lemma_pairs(&self)
        requires
            self.wf(),
        ensures
            strictly_sorted(self.pairs()),
            forall|p: (Seq<char>, V::V)| self.pairs().contains(p) <==> (self@.contains_key(p.0) && self@[p.0] == p.1),
    {
        assert forall|i: int, j: int| 0 <= i < j < self.pairs().len() implies #[trigger] key_lt(self.pairs()[i].0, self.pairs()[j].0) by {
            assert(key_lt(self.key(i), self.key(j)));
        }
        assert forall|p: (Seq<char>, V::V)| self.pairs().contains(p) <==> (self@.contains_key(p.0) && self@[p.0] == p.1) by {
            if self.pairs().contains(p) {
                let i = choose|i: int| 0 <= i < self.pairs().len() && self.pairs()[i] == p;
                self.lemma_entry(i);
            }
            if self@.contains_key(p.0) && self@[p.0] == p.1 {
                let i = self.index_of(p.0);
                self.lemma_entry(i);
                assert(self.pairs()[i] == p);
            }
        }
    }

    /// Two well-formed maps with the same contents hold the same entries in
    /// the same order.
    pub proof fn lemma_same_view_same_pairs(&self, other: &Self)
        requires
            self.wf(),
            other.wf(),
            self@ == other@,
        ensures
            self.pairs() == other.pairs(),
    {
        self.lemma_pairs();
        other.lemma_pairs();
        lemma_sorted_pairs_equal(self.pairs(), other.pairs());
    }

    /// Setting the value of a key the map already holds changes its pairs at
    /// that key's position only.
    pub proof fn lemma_pairs_after_set(&self, other: &Self, k: Seq<char>, v: V::V)
        requires
            self.wf(),
            other.wf(),
            self@.contains_key(k),
            other@ == self@.insert(k, v),
        ensures
            0 <= self.index_of(k) < self.pairs().len(),
            self.pairs()[self.index_of(k)].0 == k,
            other.pairs() == self.pairs().update(self.index_of(k), (k, v)),
    {
        let i = self.index_of(k);
        self.lemma_entry(i);
        self.lemma_pairs();
        other.lemma_pairs();
        let z = self.pairs().update(i, (k, v));
        assert forall|a: int, b: int| 0 <= a < b < z.len() implies #[trigger] key_lt(z[a].0, z[b].0) by {
            assert(key_lt(self.pairs()[a].0, self.pairs()[b].0));
        }
        assert forall|p: (Seq<char>, V::V)| z.contains(p) <==> other.pairs().contains(p) by {
            if z.contains(p) {
                let j = choose|j: int| 0 <= j < z.len() && z[j] == p;
                if j != i {
                    assert(self.pairs().contains(p));
                    assert(p.0 != k) by {
                        if p.0 == k {
                            self.lemma_entry(j);
                            self.lemma_unique(i, j);
                        }
                    }
                }
            }
            if other.pairs().contains(p) {
                if p.0 == k {
                    assert(z[i] == p);
                } else {
                    assert(self.pairs().contains(p));
                    let j = choose|j: int| 0 <= j < self.pairs().len() && self.pairs()[j] == p;
                    assert(j != i);
                    assert(z[j] == p);
                }
            }
        }
        lemma_sorted_pairs_equal(z, other.pairs());
    }

    /// Two maps with the same keys in the same order are alike in
    /// well-formedness, and two well-formed maps with the same pairs have the
    /// same contents.
    pub proof fn lemma_same_pairs(&self, other: &Self)
        requires
            self.pairs() == other.pairs(),
        ensures
            self.wf() ==> other.wf(),
            self.wf() ==> self@ == other@,
    {
        assert(self.entries@.len() == self.pairs().len());
        assert(other.entries@.len() == other.pairs().len());
        assert forall|i: int| 0 <= i < self.entries@.len() implies self.key(i) == other.key(i)
            && self.value(i) == other.value(i) by {
            assert(self.pairs()[i] == other.pairs()[i]);
        }
        if self.wf() {
            assert forall|i: int, j: int| 0 <= i < j < other.entries@.len() implies #[trigger] key_lt(
                other.key(i),
                other.key(j),
            ) by {
                assert(key_lt(self.key(i), self.key(j)));
            }
            self.lemma_pairs();
            other.lemma_pairs();
            assert forall|k: Seq<char>| #[trigger] self@.contains_key(k) <==> other@.contains_key(k) by {
                if self@.contains_key(k) {
                    assert(self.pairs().contains((k, self@[k])));
                }
                if other@.contains_key(k) {
                    assert(other.pairs().contains((k, other@[k])));
                }
            }
            assert forall|k: Seq<char>| #[trigger] self@.contains_key(k) implies self@[k] == other@[k] by {
                assert(self.pairs().contains((k, self@[k])));
            }
            assert(self@ =~= other@);
        }
    }

    pub fn new() -> (r: Self)
        ensures
            r.wf(),
            r.entries@.len() == 0,
            r@ == Map::<Seq<char>, V::V>::empty(),
    {
        let r = KeyedMap { entries: Vec::new() };
        assert(r@ =~= Map::<Seq<char>, V::V>::empty());
        r
    }

    /// The number of entries.
    pub fn len(&self) -> (r: usize)
        ensures
            r == self.entries@.len(),
    {
        self.entries.len()
    }

    pub fn is_empty(&self) -> (r: bool)
        ensures
            r == (self.entries@.len() == 0),
    {
        self.entries.len() == 0
    }

    /// The position of the entry for `k`, if there is one.
    pub fn find(&self, k: &str) -> (r: Option<usize>)
        requires
            self.wf(),
        ensures
            r is None <==> !self@.contains_key(k@),
            r matches Some(i) ==> i < self.entries@.len() && self.key(i as int) == k@
                && self.index_of(k@) == i,
    {
        let mut i: usize = 0;
        while i < self.entries.len()
            invariant
                0 <= i <= self.entries@.len(),
                self.wf(),
                forall|j: int| 0 <= j < i ==> self.key(j) != k@,
            decreases self.entries@.len() - i,
        {
            if compare_keys(self.entries[i].0.as_str(), k) == 0 {
                proof {
                    self.lemma_entry(i as int);
                }
                return Some(i);
            }
            i = i + 1;
        }
        None
    }

    pub fn contains_key(&self, k: &str) -> (r: bool)
        requires
            self.wf(),
        ensures
            r == self@.contains_key(k@),
    {
        self.find(k).is_some()
    }

    pub fn get(&self, k: &str) -> (r: Option<&V>)
        requires
            self.wf(),
        ensures
            r is Some <==> self@.contains_key(k@),
            r matches Some(v) ==> v@ == self@[k@],
    {
        match self.find(k) {
            Some(i) => {
                proof {
                    self.lemma_entry(i as int);
                }
                Some(&self.entries[i].1)
            },
            None => None,
        }
    }

    /// Sets the value at `k`, replacing any earlier one.
    pub fn insert(&mut self, k: String, v: V)
        requires
            old(self).wf(),
        ensures
            final(self).wf(),
            final(self)@ == old(self)@.insert(k@, v@),
    {
        let ghost k_view = k@;
        let ghost v_view = v@;
        let mut i: usize = 0;
        let mut found = false;
        while !found && i < self.entries.len()
            invariant
                0 <= i <= self.entries@.len(),
                forall|j: int| 0 <= j < i ==> key_lt(#[trigger] self.key(j), k@),
                found ==> i < self.entries@.len() && !key_lt(self.key(i as int), k@),
            decreases self.entries@.len() - i + (if found { 0int } else { 1int }),
        {
            if compare_keys(self.entries[i].0.as_str(), k.as_str()) >= 0 {
                found = true;
            } else {
                i = i + 1;
            }
        }
        let ghost before = *self;
        if i < self.entries.len() && compare_keys(self.entries[i].0.as_str(), k.as_str()) == 0 {
            self.entries.set(i, (k, v));
            proof {
                assert forall|a: int, b: int| 0 <= a < b < self.entries@.len() implies
                    #[trigger] key_lt(self.key(a), self.key(b)) by {
                    assert(key_lt(before.key(a), before.key(b)));
                }
                self.lemma_view_after_set(before, i as int, k_view, v_view);
            }
        } else {
            self.entries.insert(i, (k, v));
            proof {
                self.lemma_sorted_after_insert(before, i as int);
                self.lemma_view_after_insert(before, i as int, k_view, v_view);
            }
        }
    }

    proof fn lemma_sorted_after_insert(&self, before: Self, i: int)
        requires
            before.wf(),
            0 <= i <= before.entries@.len(),
            self.entries@ == before.entries@.insert(i, self.entries@[i]),
            forall|j: int| 0 <= j < i ==> key_lt(#[trigger] before.key(j), self.key(i)),
            i < before.entries@.len() ==> !key_lt(before.key(i), self.key(i)),
            i < before.entries@.len() ==> before.key(i) != self.key(i),
        ensures
            self.wf(),
    {
        let k = self.key(i);
        before.entries@.insert_ensures(i, self.entries@[i]);
        assert forall|a: int, b: int| 0 <= a < b < self.entries@.len() implies
            #[trigger] key_lt(self.key(a), self.key(b)) by {
            if b < i {
                assert(key_lt(before.key(a), before.key(b)));
            } else if b == i {
                assert(self.key(a) == before.key(a));
            } else if a == i {
                lemma_key_lt_total(before.key(i), k);
                if b - 1 > i {
                    assert(key_lt(before.key(i), before.key(b - 1)));
                    lemma_key_lt_transitive(k, before.key(i), before.key(b - 1));
                }
            } else if a < i {
                assert(self.key(a) == before.key(a));
                assert(self.key(b) == before.key(b - 1));
                assert(key_lt(before.key(a), before.key(b - 1)));
            } else {
                assert(key_lt(before.key(a - 1), before.key(b - 1)));
            }
        }
    }

    proof fn lemma_view_after_set(&self, before: Self, i: int, k: Seq<char>, v: V::V)
        requires
            before.wf(),
            self.wf(),
            0 <= i < before.entries@.len(),
            self.entries@.len() == before.entries@.len(),
            before.key(i) == k,
            self.key(i) == k,
            self.value(i) == v,
            forall|j: int| 0 <= j < self.entries@.len() && j != i ==> self.entries@[j] == before.entries@[j],
        ensures
            self@ == before@.insert(k, v),
    {
        assert forall|q: Seq<char>| #[trigger] self@.contains_key(q) <==> before@.insert(k, v).contains_key(q) by {
            if self.has_key(q) {
                let j = self.index_of(q);
                if j != i {
                    assert(before.key(j) == q);
                }
            }
            if before.has_key(q) {
                let j = before.index_of(q);
                if j != i {
                    assert(self.key(j) == q);
                }
            }
        }
        assert forall|q: Seq<char>| #[trigger] self@.contains_key(q) implies self@[q] == before@.insert(k, v)[q] by {
            let j = self.index_of(q);
            self.lemma_entry(j);
            if q == k {
                self.lemma_unique(j, i);
            } else {
                assert(self.entries@[j] == before.entries@[j]);
                assert(before.key(j) == q);
                before.lemma_entry(j);
            }
        }
        assert(self@ =~= before@.insert(k, v));
    }

    proof fn lemma_view_after_insert(&self, before: Self, i: int, k: Seq<char>, v: V::V)
        requires
            before.wf(),
            self.wf(),
            0 <= i <= before.entries@.len(),
            self.entries@ == before.entries@.insert(i, self.entries@[i]),
            self.key(i) == k,
            self.value(i) == v,
        ensures
            self@ == before@.insert(k, v),
    {
        before.entries@.insert_ensures(i, self.entries@[i]);
        assert forall|q: Seq<char>| #[trigger] self@.contains_key(q) <==> before@.insert(k, v).contains_key(q) by {
            if self.has_key(q) {
                let j = self.index_of(q);
                if j < i {
                    assert(before.key(j) == q);
                } else if j > i {
                    assert(before.key(j - 1) == q);
                }
            }
            if before.has_key(q) {
                let j = before.index_of(q);
                if j < i {
                    assert(self.key(j) == q);
                } else {
                    assert(self.key(j + 1) == q);
                }
            }
        }
        assert forall|q: Seq<char>| #[trigger] self@.contains_key(q) implies self@[q] == before@.insert(k, v)[q] by {
            let j = self.index_of(q);
            self.lemma_entry(j);
            if q == k {
                self.lemma_unique(j, i);
            } else if j < i {
                assert(self.entries@[j] == before.entries@[j]);
                before.lemma_entry(j);
            } else {
                assert(self.entries@[j] == before.entries@[j - 1]);
                before.lemma_entry(j - 1);
            }
        }
        assert(self@ =~= before@.insert(k, v));
    }

    /// Removes the entry for `k`, returning its value if there was one.
    pub fn remove(&mut self, k: &str) -> (r: Option<V>)
        requires
            old(self).wf(),
        ensures
            final(self).wf(),
            final(self)@ == old(self)@.remove(k@),
            r is Some <==> old(self)@.contains_key(k@),
            r matches Some(v) ==> v@ == old(self)@[k@],
    {
        match self.find(k) {
            None => {
                assert(self@ =~= self@.remove(k@));
                None
            },
            Some(i) => {
                let ghost before = *self;
                proof {
                    before.lemma_entry(i as int);
                }
                let (_, v) = self.entries.remove(i);
                proof {
                    assert forall|a: int, b: int| 0 <= a < b < self.entries@.len() implies
                        #[trigger] key_lt(self.key(a), self.key(b)) by {
                        if b < i {
                            assert(key_lt(before.key(a), before.key(b)));
                        } else if a < i {
                            assert(key_lt(before.key(a), before.key(b + 1)));
                        } else {
                            assert(key_lt(before.key(a + 1), before.key(b + 1)));
                        }
                    }
                    assert forall|q: Seq<char>| #[trigger] self@.contains_key(q) <==> before@.remove(k@).contains_key(q) by {
                        if self.has_key(q) {
                            let j = self.index_of(q);
                            if j < i {
                                assert(before.key(j) == q);
                                if q == k@ {
                                    before.lemma_unique(j, i as int);
                                }
                            } else {
                                assert(before.key(j + 1) == q);
                                if q == k@ {
                                    before.lemma_unique(j + 1, i as int);
                                }
                            }
                        }
                        if before.has_key(q) && q != k@ {
                            let j = before.index_of(q);
                            if j < i {
                                assert(self.key(j) == q);
                            } else if j > i {
                                assert(self.key(j - 1) == q);
                            }
                        }
                    }
                    assert forall|q: Seq<char>| #[trigger] self@.contains_key(q) implies self@[q] == before@.remove(k@)[q] by {
                        let j = self.index_of(q);
                        self.lemma_entry(j);
                        if j < i {
                            before.lemma_entry(j);
                        } else {
                            before.lemma_entry(j + 1);
                        }
                    }
                    assert(self@ =~= before@.remove(k@));
                }
                Some(v)
            },
        }
    }
}

impl<V: View> View for KeyedMap<V> {
    type V = Map<Seq<char>, V::V>;

    open spec fn view(&self) -> Map<Seq<char>, V::V> {
        Map::new(|k: Seq<char>| self.has_key(k), |k: Seq<char>| self.value(self.index_of(k)))
    }
}

} // verus!
