//! Maps from strings to values, kept in the order of their keys.

use crate::text;
use vstd::prelude::*;
use vstd::string::*;

verus! {

/// Whether `a` comes strictly before `b` in the lexicographic order of code
/// points.
pub open spec fn precedes(a: Seq<char>, b: Seq<char>) -> bool
    decreases a.len(),
{
    b.len() > 0 && (a.len() == 0 || a[0] < b[0] || (a[0] == b[0] && precedes(
        a.drop_first(),
        b.drop_first(),
    )))
}

/// No string comes before itself.
pub proof fn law_precedes_irreflexive(a: Seq<char>)
    ensures
        !precedes(a, a),
    decreases a.len(),
{
    if a.len() > 0 {
        law_precedes_irreflexive(a.drop_first());
    }
}

/// What comes before something comes before all that follows it.
pub proof fn law_precedes_transitive(a: Seq<char>, b: Seq<char>, c: Seq<char>)
    requires
        precedes(a, b),
        precedes(b, c),
    ensures
        precedes(a, c),
    decreases a.len(),
{
    if a.len() > 0 && a[0] == b[0] && b[0] == c[0] {
        law_precedes_transitive(a.drop_first(), b.drop_first(), c.drop_first());
    }
}

/// Of two different strings one comes before the other.
pub proof fn law_precedes_total(a: Seq<char>, b: Seq<char>)
    ensures
        precedes(a, b) || precedes(b, a) || a == b,
    decreases a.len(),
{
    if a.len() > 0 && b.len() > 0 && a[0] == b[0] {
        law_precedes_total(a.drop_first(), b.drop_first());
        if a.drop_first() == b.drop_first() {
            assert(a =~= seq![a[0]] + a.drop_first());
            assert(b =~= seq![b[0]] + b.drop_first());
        }
    } else if a.len() == 0 && b.len() == 0 {
        assert(a =~= b);
    }
}

/// Whether `a` comes strictly before `b` in the lexicographic order of code
/// points.
pub fn comes_before(a: &str, b: &str) -> (r: bool)
    ensures
        r == precedes(a@, b@),
{
    let x = text::characters(a);
    let y = text::characters(b);
    let mut i: usize = 0;
    assert(a@.skip(0) =~= a@ && b@.skip(0) =~= b@);
    while i < x.len() && i < y.len() && x[i] == y[i]
        invariant
            i <= x.len(),
            i <= y.len(),
            x@ == a@,
            y@ == b@,
            precedes(a@, b@) == precedes(a@.skip(i as int), b@.skip(i as int)),
        decreases x.len() - i,
    {
        assert(a@.skip(i as int).drop_first() =~= a@.skip(i + 1));
        assert(b@.skip(i as int).drop_first() =~= b@.skip(i + 1));
        i = i + 1;
    }
    let ghost c = a@.skip(i as int);
    let ghost d = b@.skip(i as int);
    assert(i < x.len() ==> c[0] == x@[i as int]);
    assert(i < y.len() ==> d[0] == y@[i as int]);
    i < y.len() && (i >= x.len() || x[i] < y[i])
}

/// Whether the keys of `s` increase strictly.
pub open spec fn increasing<W>(s: Seq<(Seq<char>, W)>) -> bool {
    forall|i: int, j: int|
        0 <= i < j < s.len() ==> precedes((#[trigger] s[i]).0, (#[trigger] s[j]).0)
}

/// Whether `key` is the key of one of `s`.
pub open spec fn has_key<W>(s: Seq<(Seq<char>, W)>, key: Seq<char>) -> bool {
    exists|i: int| 0 <= i < s.len() && (#[trigger] s[i]).0 == key
}

/// The map that pairs of key and value make.
pub open spec fn map_of<W>(s: Seq<(Seq<char>, W)>) -> Map<Seq<char>, W> {
    Map::new(
        |key: Seq<char>| has_key(s, key),
        |key: Seq<char>|
            s[choose|i: int| 0 <= i < s.len() && (#[trigger] s[i]).0 == key].1,
    )
}

/// Where keys increase strictly, the map gives each key its value.
pub proof fn lemma_map_of<W>(s: Seq<(Seq<char>, W)>, i: int)
    requires
        increasing(s),
        0 <= i < s.len(),
    ensures
        map_of(s).contains_key(s[i].0),
        map_of(s)[s[i].0] == s[i].1,
{
    let key = s[i].0;
    assert(has_key(s, key));
    let j = choose|j: int| 0 <= j < s.len() && (#[trigger] s[j]).0 == key;
    law_precedes_irreflexive(key);
    if i < j {
        assert(precedes(s[i].0, s[j].0));
    } else if j < i {
        assert(precedes(s[j].0, s[i].0));
    }
}

/// Replacing the value at `i` inserts it under the key there.
proof fn lemma_replace<W>(s: Seq<(Seq<char>, W)>, i: int, value: W)
    requires
        increasing(s),
        0 <= i < s.len(),
    ensures
        increasing(s.update(i, (s[i].0, value))),
        map_of(s.update(i, (s[i].0, value))) == map_of(s).insert(s[i].0, value),
{
    let u = s.update(i, (s[i].0, value));
    assert forall|a: int, b: int| 0 <= a < b < u.len() implies precedes(
        (#[trigger] u[a]).0,
        (#[trigger] u[b]).0,
    ) by {
        assert(precedes(s[a].0, s[b].0));
    }
    let m = map_of(s).insert(s[i].0, value);
    assert forall|key: Seq<char>| map_of(u).contains_key(key) == m.contains_key(key) by {
        if has_key(u, key) {
            let k = choose|k: int| 0 <= k < u.len() && (#[trigger] u[k]).0 == key;
            assert(s[k].0 == key);
        }
        if has_key(s, key) {
            let k = choose|k: int| 0 <= k < s.len() && (#[trigger] s[k]).0 == key;
            assert(u[k].0 == key);
        }
        if key == s[i].0 {
            assert(u[i].0 == key);
        }
    }
    assert forall|key: Seq<char>| map_of(u).contains_key(key) implies #[trigger] map_of(u)[key]
        == m[key] by {
        let k = choose|k: int| 0 <= k < u.len() && (#[trigger] u[k]).0 == key;
        lemma_map_of(u, k);
        lemma_map_of(s, k);
        lemma_map_of(u, i);
        if k != i {
            law_precedes_irreflexive(key);
            if key == s[i].0 {
                assert(u[i].1 == u[k].1);
            }
        }
    }
    assert(map_of(u) =~= m);
}

/// Putting a new key where the order wants it inserts its value.
proof fn lemma_put<W>(s: Seq<(Seq<char>, W)>, i: int, key: Seq<char>, value: W)
    requires
        increasing(s),
        0 <= i <= s.len(),
        forall|k: int| 0 <= k < i ==> precedes((#[trigger] s[k]).0, key),
        forall|k: int| i <= k < s.len() ==> precedes(key, (#[trigger] s[k]).0),
    ensures
        increasing(s.insert(i, (key, value))),
        map_of(s.insert(i, (key, value))) == map_of(s).insert(key, value),
{
    let u = s.insert(i, (key, value));
    assert forall|a: int, b: int| 0 <= a < b < u.len() implies precedes(
        (#[trigger] u[a]).0,
        (#[trigger] u[b]).0,
    ) by {
        let x = if a < i {
            a
        } else {
            a - 1
        };
        let y = if b < i {
            b
        } else {
            b - 1
        };
        if a != i && b != i {
            assert(u[a] == s[x] && u[b] == s[y]);
        } else if a == i {
            assert(u[b] == s[y]);
        } else {
            assert(u[a] == s[x]);
        }
    }
    let m = map_of(s).insert(key, value);
    assert(u[i].0 == key);
    assert forall|other: Seq<char>| map_of(u).contains_key(other) == m.contains_key(other) by {
        if has_key(u, other) {
            let k = choose|k: int| 0 <= k < u.len() && (#[trigger] u[k]).0 == other;
            if k < i {
                assert(s[k].0 == other);
            } else if k > i {
                assert(s[k - 1].0 == other);
            }
        }
        if has_key(s, other) {
            let k = choose|k: int| 0 <= k < s.len() && (#[trigger] s[k]).0 == other;
            if k < i {
                assert(u[k].0 == other);
            } else {
                assert(u[k + 1].0 == other);
            }
        }
    }
    assert forall|other: Seq<char>| map_of(u).contains_key(other) implies #[trigger] map_of(
        u,
    )[other] == m[other] by {
        let k = choose|k: int| 0 <= k < u.len() && (#[trigger] u[k]).0 == other;
        lemma_map_of(u, k);
        lemma_map_of(u, i);
        if k < i {
            law_precedes_irreflexive(key);
            assert(s[k] == u[k]);
            lemma_map_of(s, k);
        } else if k > i {
            law_precedes_irreflexive(key);
            assert(s[k - 1] == u[k]);
            lemma_map_of(s, k - 1);
        }
    }
    assert(map_of(u) =~= m);
}

/// One more entry in the order of keys is the insertion of a new key.
pub proof fn lemma_take_next<W>(s: Seq<(Seq<char>, W)>, i: int)
    requires
        increasing(s),
        0 <= i < s.len(),
    ensures
        map_of(s.take(i + 1)) == map_of(s.take(i)).insert(s[i].0, s[i].1),
        !map_of(s.take(i)).contains_key(s[i].0),
{
    let before = s.take(i);
    assert(s.take(i + 1) =~= before.insert(i, (s[i].0, s[i].1)));
    lemma_put(before, i, s[i].0, s[i].1);
    law_precedes_irreflexive(s[i].0);
    if has_key(before, s[i].0) {
        let k = choose|k: int| 0 <= k < before.len() && (#[trigger] before[k]).0 == s[i].0;
        assert(precedes(s[k].0, s[i].0));
    }
}

/// A map from strings to values. Its entries are in the order of their keys.
pub struct StringMap<V: DeepView> {
    entries: Vec<(String, V)>,
}

impl<V: DeepView> StringMap<V> {
    /// The entries in order: key and value.
    pub closed spec fn pairs(self) -> Seq<(Seq<char>, V::V)> {
        self.entries@.map_values(|e: (String, V)| (e.0@, e.1.deep_view()))
    }

    #[verifier::type_invariant]
    spec fn inv(self) -> bool {
        increasing(self.pairs())
    }
}

impl<V: DeepView> View for StringMap<V> {
    type V = Map<Seq<char>, V::V>;

    open spec fn view(&self) -> Map<Seq<char>, V::V> {
        map_of(self.pairs())
    }
}

impl<V: DeepView> StringMap<V> {
    /// The map with no entry.
    pub fn new() -> (m: StringMap<V>)
        ensures
            m@ == Map::<Seq<char>, V::V>::empty(),
            m.pairs().len() == 0,
    {
        let entries: Vec<(String, V)> = Vec::new();
        let m = StringMap { entries };
        assert(m@ =~= Map::<Seq<char>, V::V>::empty());
        m
    }

    /// The entries in the order of their keys, each key once.
    pub fn entries(&self) -> (r: &Vec<(String, V)>)
        ensures
            r@.map_values(|e: (String, V)| (e.0@, e.1.deep_view())) == self.pairs(),
            increasing(self.pairs()),
            self@ == map_of(self.pairs()),
    {
        proof {
            use_type_invariant(self);
        }
        &self.entries
    }

    /// The first position whose key does not come before `key`, and whether its
    /// key is `key`.
    fn locate(&self, key: &str) -> (r: (usize, bool))
        ensures
            r.0 <= self.pairs().len(),
            forall|k: int| 0 <= k < r.0 ==> precedes((#[trigger] self.pairs()[k]).0, key@),
            r.1 ==> r.0 < self.pairs().len() && self.pairs()[r.0 as int].0 == key@,
            !r.1 ==> forall|k: int|
                r.0 <= k < self.pairs().len() ==> precedes(key@, (#[trigger] self.pairs()[k]).0),
    {
        proof {
            use_type_invariant(self);
        }
        let mut i: usize = 0;
        while i < self.entries.len() && comes_before(self.entries[i].0.as_str(), key)
            invariant
                i <= self.entries.len(),
                self.pairs().len() == self.entries.len(),
                forall|k: int| 0 <= k < i ==> precedes((#[trigger] self.pairs()[k]).0, key@),
            decreases self.entries.len() - i,
        {
            assert(self.pairs()[i as int].0 == self.entries@[i as int].0@);
            i = i + 1;
        }
        if i >= self.entries.len() {
            return (i, false);
        }
        assert(self.pairs()[i as int].0 == self.entries@[i as int].0@);
        let found = text::same(self.entries[i].0.as_str(), key);
        proof {
            if !found {
                law_precedes_total(self.pairs()[i as int].0, key@);
                assert forall|k: int| i <= k < self.pairs().len() implies precedes(
                    key@,
                    (#[trigger] self.pairs()[k]).0,
                ) by {
                    if k > i {
                        law_precedes_transitive(
                            key@,
                            self.pairs()[i as int].0,
                            self.pairs()[k].0,
                        );
                    }
                }
            }
        }
        (i, found)
    }

    /// The value under `key`, if any.
    pub fn get(&self, key: &str) -> (r: Option<&V>)
        ensures
            match r {
                Some(v) => self@.contains_key(key@) && v.deep_view() == self@[key@],
                None => !self@.contains_key(key@),
            },
    {
        proof {
            use_type_invariant(self);
        }
        let (i, found) = self.locate(key);
        if found {
            proof {
                lemma_map_of(self.pairs(), i as int);
            }
            Some(&self.entries[i].1)
        } else {
            proof {
                law_precedes_irreflexive(key@);
                if has_key(self.pairs(), key@) {
                    let k = choose|k: int|
                        0 <= k < self.pairs().len() && (#[trigger] self.pairs()[k]).0 == key@;
                    assert(precedes(self.pairs()[k].0, key@) || precedes(
                        key@,
                        self.pairs()[k].0,
                    ));
                }
            }
            None
        }
    }

    /// Puts `value` under `key`, in place of what was there.
    pub fn insert(&mut self, key: String, value: V)
        ensures
            final(self)@ == old(self)@.insert(key@, value.deep_view()),
    {
        proof {
            use_type_invariant(&*self);
        }
        let ghost before = self.pairs();
        let ghost word = key@;
        let ghost meaning = value.deep_view();
        let (i, found) = self.locate(key.as_str());
        let mut entries: Vec<(String, V)> = Vec::new();
        assert(entries@.map_values(|e: (String, V)| (e.0@, e.1.deep_view())) =~= Seq::<
            (Seq<char>, V::V),
        >::empty());
        std::mem::swap(&mut entries, &mut self.entries);
        let ghost held = entries@;
        if found {
            entries.set(i, (key, value));
            proof {
                assert(entries@.map_values(|e: (String, V)| (e.0@, e.1.deep_view()))
                    =~= before.update(i as int, (before[i as int].0, meaning)));
                lemma_replace(before, i as int, meaning);
            }
        } else {
            entries.insert(i, (key, value));
            proof {
                assert(entries@.map_values(|e: (String, V)| (e.0@, e.1.deep_view()))
                    =~= before.insert(i as int, (word, meaning)));
                lemma_put(before, i as int, word, meaning);
            }
        }
        self.entries = entries;
    }
}

impl StringMap<Vec<String>> {
    /// Appends `more` to the list under `key`, which is empty where there is
    /// none.
    pub fn extend(&mut self, key: String, more: Vec<String>)
        ensures
            final(self)@ == old(self)@.insert(
                key@,
                (if old(self)@.contains_key(key@) {
                    old(self)@[key@]
                } else {
                    Seq::empty()
                }) + more.deep_view(),
            ),
    {
        let ghost base = if self@.contains_key(key@) {
            self@[key@]
        } else {
            Seq::empty()
        };
        let mut all: Vec<String> = match self.get(key.as_str()) {
            Some(v) => text::copied(v),
            None => {
                let none: Vec<String> = Vec::new();
                assert(none.deep_view() =~= Seq::<Seq<char>>::empty());
                none
            },
        };
        let mut i: usize = 0;
        assert(more.deep_view().take(0) =~= Seq::<Seq<char>>::empty());
        assert(base + Seq::<Seq<char>>::empty() =~= base);
        while i < more.len()
            invariant
                i <= more.len(),
                all.deep_view() == base + more.deep_view().take(i as int),
            decreases more.len() - i,
        {
            let ghost so_far = all.deep_view();
            all.push(more[i].clone());
            assert(all.deep_view() =~= so_far.push(more@[i as int]@));
            assert(base + more.deep_view().take(i + 1) =~= so_far.push(more@[i as int]@));
            i = i + 1;
        }
        assert(more.deep_view().take(i as int) =~= more.deep_view());
        self.insert(key, all);
    }
}

} // verus!
