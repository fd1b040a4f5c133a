//! A map with string keys that keeps its entries in increasing key order,
//! keys compared character by character on their Unicode code points.

use vstd::prelude::*;

verus! {

/// Lexicographic order on texts, characters compared by code point; a
/// proper prefix comes first.
pub open spec fn key_lt(a: Seq<char>, b: Seq<char>) -> bool
    decreases a.len(),
{
    if a.len() == 0 {
        b.len() > 0
    } else if b.len() == 0 {
        false
    } else if a[0] != b[0] {
        (a[0] as int) < (b[0] as int)
    } else {
        key_lt(a.drop_first(), b.drop_first())
    }
}

/// Key order is the order of the first position where the keys differ,
/// compared by code point; when one key is a prefix of the other, the
/// shorter comes first.
pub proof fn lemma_key_lt_first_difference(a: Seq<char>, b: Seq<char>, k: int)
    requires
        0 <= k <= a.len(),
        k <= b.len(),
        a.take(k) == b.take(k),
        k == a.len() || k == b.len() || a[k] != b[k],
    ensures
        key_lt(a, b) == (if k == a.len() {
            k < b.len()
        } else if k == b.len() {
            false
        } else {
            (a[k] as int) < (b[k] as int)
        }),
    decreases k,
{
    if k > 0 {
        assert(a[0] == a.take(k)[0] && b[0] == b.take(k)[0]);
        assert(a.drop_first().take(k - 1) =~= a.take(k).drop_first());
        assert(b.drop_first().take(k - 1) =~= b.take(k).drop_first());
        lemma_key_lt_first_difference(a.drop_first(), b.drop_first(), k - 1);
        if k < a.len() && k < b.len() {
            assert(a.drop_first()[k - 1] == a[k] && b.drop_first()[k - 1] == b[k]);
        }
    }
}

pub proof fn lemma_key_lt_irreflexive(a: Seq<char>)
    ensures
        !key_lt(a, a),
    decreases a.len(),
{
    if a.len() > 0 {
        lemma_key_lt_irreflexive(a.drop_first());
    }
}

pub proof fn lemma_key_lt_transitive(a: Seq<char>, b: Seq<char>, c: Seq<char>)
    requires
        key_lt(a, b),
        key_lt(b, c),
    ensures
        key_lt(a, c),
    decreases a.len(),
{
    if a.len() > 0 && b.len() > 0 && c.len() > 0 {
        if a[0] == b[0] && b[0] == c[0] {
            lemma_key_lt_transitive(a.drop_first(), b.drop_first(), c.drop_first());
        }
    }
}

pub proof fn lemma_key_lt_total(a: Seq<char>, b: Seq<char>)
    ensures
        a == b || key_lt(a, b) || key_lt(b, a),
    decreases a.len(),
{
    if a.len() > 0 && b.len() > 0 {
        if a[0] == b[0] {
            lemma_key_lt_total(a.drop_first(), b.drop_first());
            if a.drop_first() == b.drop_first() {
                assert(a =~= seq![a[0]] + a.drop_first());
                assert(b =~= seq![b[0]] + b.drop_first());
            }
        } else {
            assert((a[0] as int) != (b[0] as int));
        }
    } else if a.len() == 0 && b.len() == 0 {
        assert(a =~= b);
    }
}

pub proof fn lemma_key_lt_asymmetric(a: Seq<char>, b: Seq<char>)
    requires
        key_lt(a, b),
    ensures
        !key_lt(b, a),
{
    if key_lt(b, a) {
        lemma_key_lt_transitive(a, b, a);
        lemma_key_lt_irreflexive(a);
    }
}

/// The characters of `s`, in order.
pub fn chars_of(s: &str) -> (res: Vec<char>)
    ensures
        res@ == s@,
{
    let mut res: Vec<char> = Vec::new();
    for c in it: s.chars()
        invariant
            res@ == it.seq().take(it.index() as int),
            it.seq() == s@,
    {
        res.push(c);
    }
    res
}

/// Whether `a` comes before `b` in key order.
pub fn key_less(a: &str, b: &str) -> (res: bool)
    ensures
        res == key_lt(a@, b@),
{
    let av = chars_of(a);
    let bv = chars_of(b);
    let mut i: usize = 0;
    assert(a@.skip(0) =~= a@ && b@.skip(0) =~= b@);
    while i < av.len() && i < bv.len()
        invariant
            av@ == a@,
            bv@ == b@,
            i <= av@.len(),
            i <= bv@.len(),
            key_lt(a@, b@) == key_lt(a@.skip(i as int), b@.skip(i as int)),
        decreases av@.len() - i,
    {
        let ca = av[i];
        let cb = bv[i];
        if ca != cb {
            return ca < cb;
        }
        assert(a@.skip(i as int).drop_first() =~= a@.skip(i + 1));
        assert(b@.skip(i as int).drop_first() =~= b@.skip(i + 1));
        i = i + 1;
    }
    av.len() < bv.len()
}

/// Whether `a` and `b` hold the same characters.
pub fn keys_equal(a: &str, b: &str) -> (res: bool)
    ensures
        res == (a@ == b@),
{
    let av = chars_of(a);
    let bv = chars_of(b);
    if av.len() != bv.len() {
        return false;
    }
    let mut i: usize = 0;
    while i < av.len()
        invariant
            av@ == a@,
            bv@ == b@,
            av@.len() == bv@.len(),
            i <= av@.len(),
            forall|j: int| 0 <= j < i ==> av@[j] == bv@[j],
        decreases av@.len() - i,
    {
        if av[i] != bv[i] {
            return false;
        }
        i = i + 1;
    }
    assert(av@ =~= bv@);
    true
}

/// Keys in strictly increasing order (so no key occurs twice).
pub open spec fn sorted_keys<V>(s: Seq<(Seq<char>, V)>) -> bool {
    forall|i: int, j: int| 0 <= i < j < s.len() ==> key_lt(#[trigger] s[i].0, #[trigger] s[j].0)
}

/// Whether some entry has key `k`.
pub open spec fn has_key<V>(s: Seq<(Seq<char>, V)>, k: Seq<char>) -> bool {
    exists|i: int| 0 <= i < s.len() && #[trigger] s[i].0 == k
}

/// An index of an entry with key `k`.
pub open spec fn key_index<V>(s: Seq<(Seq<char>, V)>, k: Seq<char>) -> int {
    choose|i: int| 0 <= i < s.len() && #[trigger] s[i].0 == k
}

/// The map that a sequence of entries stands for.
pub open spec fn entries_map<V>(s: Seq<(Seq<char>, V)>) -> Map<Seq<char>, V> {
    Map::new(|k: Seq<char>| has_key(s, k), |k: Seq<char>| s[key_index(s, k)].1)
}

/// The keys of the map are the keys of the entries, and a key maps to the
/// value of an entry with that key.
pub proof fn lemma_entries_map_dom<V>(s: Seq<(Seq<char>, V)>, q: Seq<char>)
    ensures
        entries_map(s).dom().contains(q) == has_key(s, q),
        has_key(s, q) ==> entries_map(s)[q] == s[key_index(s, q)].1,
        has_key(s, q) ==> 0 <= key_index(s, q) < s.len() && s[key_index(s, q)].0 == q,
{
    let fk = |k: Seq<char>| has_key(s, k);
    let fv = |k: Seq<char>| s[key_index(s, k)].1;
    assert(Set::new(fk).contains(q) == fk(q));
    if has_key(s, q) {
        assert(Set::new(fk).mk_map(fv)[q] == fv(q));
    }
}

/// Each entry of a sorted sequence is in its map, with its value.
pub proof fn lemma_entries_map_at<V>(s: Seq<(Seq<char>, V)>, i: int)
    requires
        sorted_keys(s),
        0 <= i < s.len(),
    ensures
        entries_map(s).dom().contains(s[i].0),
        entries_map(s)[s[i].0] == s[i].1,
{
    let k = s[i].0;
    assert(0 <= i < s.len() && s[i].0 == k);
    assert(has_key(s, k));
    lemma_entries_map_dom(s, k);
    let j = key_index(s, k);
    if j < i {
        assert(key_lt(s[j].0, s[i].0));
        lemma_key_lt_irreflexive(k);
    } else if i < j {
        assert(key_lt(s[i].0, s[j].0));
        lemma_key_lt_irreflexive(k);
    }
}

/// The views of the entries of a vector of keyed values.
pub open spec fn entry_views<V>(v: Seq<(String, V)>) -> Seq<(Seq<char>, V)> {
    v.map_values(|e: (String, V)| (e.0@, e.1))
}

/// The map that entries give when inserted one after the other, a later
/// entry replacing an earlier one with the same key.
pub open spec fn inserted_entries<V>(s: Seq<(Seq<char>, V)>) -> Map<Seq<char>, V>
    decreases s.len(),
{
    if s.len() == 0 {
        Map::empty()
    } else {
        inserted_entries(s.drop_last()).insert(s.last().0, s.last().1)
    }
}

/// A map from string keys to values whose entries are kept in increasing
/// key order.
pub struct SortedMap<V> {
    entries: Vec<(String, V)>,
}

impl<V> SortedMap<V> {
    /// The entries, in increasing key order.
    pub closed spec fn entries(&self) -> Seq<(Seq<char>, V)> {
        entry_views(self.entries@)
    }

    pub open spec fn wf(&self) -> bool {
        sorted_keys(self.entries())
    }

    /// The map that the entries stand for.
    pub open spec fn as_map(&self) -> Map<Seq<char>, V> {
        entries_map(self.entries())
    }

    /// An empty map.
    pub fn new() -> (res: Self)
        ensures
            res.wf(),
            res.entries() == Seq::<(Seq<char>, V)>::empty(),
    {
        let res = SortedMap { entries: Vec::new() };
        assert(res.entries() =~= Seq::<(Seq<char>, V)>::empty());
        res
    }

    /// The map of the pairs given, inserted in order: a later pair replaces
    /// an earlier one with the same key.
    pub fn from_pairs(pairs: Vec<(String, V)>) -> (res: Self)
        ensures
            res.wf(),
            res.as_map() == inserted_entries(entry_views(pairs@)),
    {
        let ghost all = entry_views(pairs@);
        let mut pairs = pairs;
        let mut res = SortedMap::new();
        assert(entries_map(res.entries()) =~= Map::<Seq<char>, V>::empty()) by {
            assert forall|q: Seq<char>| !#[trigger] entries_map(res.entries()).dom().contains(q) by {
                lemma_entries_map_dom(res.entries(), q);
            }
        }
        assert(all.take(0) =~= Seq::<(Seq<char>, V)>::empty());
        while pairs.len() > 0
            invariant
                res.wf(),
                pairs@.len() <= all.len(),
                entry_views(pairs@) == all.skip(all.len() - pairs@.len()),
                res.as_map() == inserted_entries(all.take(all.len() - pairs@.len())),
            decreases pairs@.len(),
        {
            let ghost done = all.len() - pairs@.len();
            let ghost before = pairs@;
            let (key, value) = pairs.remove(0);
            assert(all[done] == (key@, value)) by {
                assert(all.skip(done)[0] == all[done]);
            }
            res.insert(key, value);
            assert(all.take(done + 1).drop_last() =~= all.take(done));
            assert forall|k: int| 0 <= k < pairs@.len() implies #[trigger] entry_views(pairs@)[k]
                == all.skip(done + 1)[k] by {
                assert(pairs@[k] == before[k + 1]);
                assert(entry_views(before)[k + 1] == all.skip(done)[k + 1]);
            }
            assert(entry_views(pairs@) =~= all.skip(done + 1));
        }
        assert(all.take(all.len() as int) =~= all);
        res
    }

    /// The number of entries.
    pub fn len(&self) -> (res: usize)
        ensures
            res == self.entries().len(),
    {
        self.entries.len()
    }

    /// The key of the entry at `i`.
    pub fn key_at(&self, i: usize) -> (res: &String)
        requires
            i < self.entries().len(),
        ensures
            res@ == self.entries()[i as int].0,
    {
        &self.entries[i].0
    }

    /// The value of the entry at `i`.
    pub fn value_at(&self, i: usize) -> (res: &V)
        requires
            i < self.entries().len(),
        ensures
            *res == self.entries()[i as int].1,
    {
        &self.entries[i].1
    }

    /// The value stored under `key`, if any.
    pub fn get(&self, key: &str) -> (res: Option<&V>)
        requires
            self.wf(),
        ensures
            res matches Some(v) ==> self.as_map().dom().contains(key@) && *v == self.as_map()[key@],
            res is None ==> !self.as_map().dom().contains(key@),
    {
        let n = self.entries.len();
        let mut i: usize = 0;
        while i < n
            invariant
                n == self.entries().len(),
                self.wf(),
                i <= n,
                forall|j: int| 0 <= j < i ==> #[trigger] self.entries()[j].0 != key@,
            decreases n - i,
        {
            if keys_equal(self.entries[i].0.as_str(), key) {
                proof {
                    lemma_entries_map_at(self.entries(), i as int);
                }
                return Some(&self.entries[i].1);
            }
            i = i + 1;
        }
        None
    }

    /// Stores `value` under `key`, in place of any value stored there.
    pub fn insert(&mut self, key: String, value: V)
        requires
            old(self).wf(),
        ensures
            final(self).wf(),
            final(self).as_map() == old(self).as_map().insert(key@, value),
    {
        let ghost old_entries = self.entries();
        let ghost k = key@;
        let n = self.entries.len();
        let mut i: usize = 0;
        while i < n && key_less(self.entries[i].0.as_str(), key.as_str())
            invariant
                n == self.entries().len(),
                self.entries() == old_entries,
                sorted_keys(old_entries),
                k == key@,
                i <= n,
                forall|j: int| 0 <= j < i ==> key_lt(#[trigger] old_entries[j].0, k),
            decreases n - i,
        {
            i = i + 1;
        }
        if i < n && keys_equal(self.entries[i].0.as_str(), key.as_str()) {
            self.entries.set(i, (key, value));
            let ghost new_entries = self.entries();
            assert(new_entries =~= old_entries.update(i as int, (k, value)));
            assert(sorted_keys(new_entries)) by {
                assert forall|a: int, b: int| 0 <= a < b < new_entries.len() implies key_lt(
                    #[trigger] new_entries[a].0,
                    #[trigger] new_entries[b].0,
                ) by {
                    assert(key_lt(old_entries[a].0, old_entries[b].0));
                }
            }
            proof {
                lemma_update_map(old_entries, i as int, k, value);
            }
        } else {
            proof {
                if i < n {
                    lemma_key_lt_total(old_entries[i as int].0, k);
                }
            }
            self.entries.insert(i, (key, value));
            let ghost new_entries = self.entries();
            assert(new_entries =~= old_entries.insert(i as int, (k, value)));
            proof {
                lemma_insert_sorted(old_entries, i as int, k, value);
            }
        }
    }
}

/// Replacing the value of an existing key.
proof fn lemma_update_map<V>(s: Seq<(Seq<char>, V)>, i: int, k: Seq<char>, v: V)
    requires
        sorted_keys(s),
        0 <= i < s.len(),
        s[i].0 == k,
        sorted_keys(s.update(i, (k, v))),
    ensures
        entries_map(s.update(i, (k, v))) == entries_map(s).insert(k, v),
{
    let t = s.update(i, (k, v));
    let m = entries_map(s).insert(k, v);
    assert forall|q: Seq<char>| #[trigger] entries_map(t).dom().contains(q) <==> m.dom().contains(q) by {
        lemma_entries_map_dom(t, q);
        lemma_entries_map_dom(s, q);
        if has_key(t, q) {
            let j = key_index(t, q);
            if j != i {
                assert(s[j].0 == q);
            }
        }
        if has_key(s, q) {
            let j = key_index(s, q);
            assert(t[j].0 == q);
        }
        if q == k {
            assert(t[i].0 == q);
        }
    }
    assert forall|q: Seq<char>| #[trigger] entries_map(t).dom().contains(q) implies entries_map(
        t,
    )[q] == m[q] by {
        lemma_entries_map_dom(t, q);
        let j = key_index(t, q);
        lemma_entries_map_at(t, j);
        if j != i {
            lemma_entries_map_at(s, j);
            lemma_key_lt_irreflexive(k);
            if j < i {
                assert(key_lt(s[j].0, s[i].0));
            } else {
                assert(key_lt(s[i].0, s[j].0));
            }
        }
    }
    assert(entries_map(t) =~= m);
}

/// Inserting a new key at the place that keeps the order.
proof fn lemma_insert_sorted<V>(s: Seq<(Seq<char>, V)>, i: int, k: Seq<char>, v: V)
    requires
        sorted_keys(s),
        0 <= i <= s.len(),
        forall|j: int| 0 <= j < i ==> key_lt(#[trigger] s[j].0, k),
        i < s.len() ==> key_lt(k, s[i].0),
    ensures
        sorted_keys(s.insert(i, (k, v))),
        entries_map(s.insert(i, (k, v))) == entries_map(s).insert(k, v),
{
    let t = s.insert(i, (k, v));
    assert forall|a: int, b: int| 0 <= a < b < t.len() implies key_lt(
        #[trigger] t[a].0,
        #[trigger] t[b].0,
    ) by {
        if b < i {
            assert(key_lt(s[a].0, s[b].0));
        } else if b == i {
            assert(t[a] == s[a]);
        } else if a < i {
            assert(t[b] == s[b - 1]);
            assert(key_lt(s[a].0, k));
            assert(key_lt(k, s[i].0));
            if i < b - 1 {
                assert(key_lt(s[i].0, s[b - 1].0));
                lemma_key_lt_transitive(k, s[i].0, s[b - 1].0);
            }
            lemma_key_lt_transitive(s[a].0, k, s[b - 1].0);
        } else if a == i {
            assert(t[b] == s[b - 1]);
            if i < b - 1 {
                assert(key_lt(s[i].0, s[b - 1].0));
                lemma_key_lt_transitive(k, s[i].0, s[b - 1].0);
            }
        } else {
            assert(key_lt(s[a - 1].0, s[b - 1].0));
        }
    }
    let m = entries_map(s).insert(k, v);
    assert forall|q: Seq<char>| #[trigger] entries_map(t).dom().contains(q) <==> m.dom().contains(q) by {
        lemma_entries_map_dom(t, q);
        lemma_entries_map_dom(s, q);
        if has_key(t, q) {
            let j = key_index(t, q);
            if j < i {
                assert(s[j].0 == q);
            } else if j > i {
                assert(s[j - 1].0 == q);
            }
        }
        if has_key(s, q) {
            let j = key_index(s, q);
            if j < i {
                assert(t[j].0 == q);
            } else {
                assert(t[j + 1].0 == q);
            }
        }
        if q == k {
            assert(t[i].0 == q);
        }
    }
    assert forall|q: Seq<char>| #[trigger] entries_map(t).dom().contains(q) implies entries_map(
        t,
    )[q] == m[q] by {
        lemma_entries_map_dom(t, q);
        let j = key_index(t, q);
        lemma_entries_map_at(t, j);
        if j < i {
            lemma_entries_map_at(s, j);
            lemma_key_lt_irreflexive(k);
        } else if j > i {
            lemma_entries_map_at(s, j - 1);
            assert(key_lt(t[i].0, t[j].0));
            lemma_key_lt_irreflexive(k);
        }
    }
    assert(entries_map(t) =~= m);
}

/// Dropping the first entry of a sorted sequence removes its key from the
/// map.
proof fn lemma_entries_map_drop_first<V>(s: Seq<(Seq<char>, V)>)
    requires
        sorted_keys(s),
        s.len() > 0,
    ensures
        sorted_keys(s.drop_first()),
        entries_map(s.drop_first()) == entries_map(s).remove(s[0].0),
{
    let r = s.drop_first();
    let k = s[0].0;
    assert forall|a: int, b: int| 0 <= a < b < r.len() implies key_lt(
        #[trigger] r[a].0,
        #[trigger] r[b].0,
    ) by {
        assert(r[a] == s[a + 1] && r[b] == s[b + 1]);
    }
    let m = entries_map(s).remove(k);
    assert forall|q: Seq<char>| #[trigger] entries_map(r).dom().contains(q) <==> m.dom().contains(
        q,
    ) by {
        lemma_entries_map_dom(r, q);
        lemma_entries_map_dom(s, q);
        if has_key(r, q) {
            let j = key_index(r, q);
            assert(s[j + 1].0 == q);
            assert(key_lt(s[0].0, s[j + 1].0));
            lemma_key_lt_irreflexive(k);
        }
        if has_key(s, q) && q != k {
            let j = key_index(s, q);
            assert(j != 0);
            assert(r[j - 1].0 == q);
        }
    }
    assert forall|q: Seq<char>| #[trigger] entries_map(r).dom().contains(q) implies entries_map(
        r,
    )[q] == m[q] by {
        lemma_entries_map_dom(r, q);
        let j = key_index(r, q);
        lemma_entries_map_at(r, j);
        lemma_entries_map_at(s, j + 1);
    }
    assert(entries_map(r) =~= m);
}

/// Sorted entries are determined by the map they stand for: whatever the
/// order in which keys were inserted, the same contents give the same
/// entries in the same order.
pub proof fn lemma_sorted_entries_unique<V>(s: Seq<(Seq<char>, V)>, t: Seq<(Seq<char>, V)>)
    requires
        sorted_keys(s),
        sorted_keys(t),
        entries_map(s) == entries_map(t),
    ensures
        s == t,
    decreases s.len(),
{
    if s.len() == 0 {
        if t.len() > 0 {
            lemma_entries_map_at(t, 0);
            lemma_entries_map_dom(s, t[0].0);
        }
        assert(s =~= t);
    } else {
        lemma_entries_map_at(s, 0);
        let a = s[0].0;
        lemma_entries_map_dom(t, a);
        let j = key_index(t, a);
        let b = t[0].0;
        lemma_entries_map_at(t, 0);
        lemma_entries_map_dom(s, b);
        let i = key_index(s, b);
        if i > 0 && j > 0 {
            assert(key_lt(s[0].0, s[i].0));
            assert(key_lt(t[0].0, t[j].0));
            lemma_key_lt_asymmetric(a, b);
        } else if i == 0 {
            assert(a == b);
        } else {
            assert(a == b);
        }
        assert(s[0] == t[0]);
        lemma_entries_map_drop_first(s);
        lemma_entries_map_drop_first(t);
        lemma_sorted_entries_unique(s.drop_first(), t.drop_first());
        assert(s =~= seq![s[0]] + s.drop_first());
        assert(t =~= seq![t[0]] + t.drop_first());
    }
}

} // verus!
