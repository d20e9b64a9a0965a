//! A map keyed by strings that keeps its entries in ascending key order, the
//! way `BTreeMap<String, V>` iterates.
use vstd::prelude::*;

verus! {

broadcast use vstd::string::group_string_axioms;

/// Lexicographic order on character sequences, comparing code points; this
/// is the order of `String`'s `Ord`.
pub open spec fn seq_lt(a: Seq<char>, b: Seq<char>) -> bool
    decreases a.len(),
{
    if a.len() == 0 {
        b.len() > 0
    } else if b.len() == 0 {
        false
    } else if a[0] < b[0] {
        true
    } else if a[0] == b[0] {
        seq_lt(a.drop_first(), b.drop_first())
    } else {
        false
    }
}

pub proof fn lemma_seq_lt_irreflexive(a: Seq<char>)
    ensures
        !seq_lt(a, a),
    decreases a.len(),
{
    if a.len() > 0 {
        lemma_seq_lt_irreflexive(a.drop_first());
    }
}

pub proof fn lemma_seq_lt_trichotomy(a: Seq<char>, b: Seq<char>)
    ensures
        seq_lt(a, b) || seq_lt(b, a) || a == b,
        !(seq_lt(a, b) && seq_lt(b, a)),
    decreases a.len(),
{
    if a.len() > 0 && b.len() > 0 {
        lemma_seq_lt_trichotomy(a.drop_first(), b.drop_first());
        if a[0] == b[0] && a.drop_first() == b.drop_first() {
            assert(a == seq![a[0]] + a.drop_first());
            assert(b == seq![b[0]] + b.drop_first());
        }
    } else if a.len() == 0 && b.len() == 0 {
        assert(a == b);
    }
}

pub proof fn lemma_seq_lt_transitive(a: Seq<char>, b: Seq<char>, c: Seq<char>)
    requires
        seq_lt(a, b),
        seq_lt(b, c),
    ensures
        seq_lt(a, c),
    decreases a.len(),
{
    if a.len() > 0 && b.len() > 0 && c.len() > 0 {
        if a[0] == b[0] && b[0] == c[0] {
            lemma_seq_lt_transitive(a.drop_first(), b.drop_first(), c.drop_first());
        }
    }
}

/// Compares two strings: `-1`, `0` or `1` as `a` sorts before, equal to, or
/// after `b`.
pub fn compare_chars(a: &[char], b: &[char]) -> (r: i8)
    ensures
        r == -1 <==> seq_lt(a@, b@),
        r == 0 <==> a@ == b@,
        r == 1 <==> seq_lt(b@, a@),
        -1 <= r <= 1,
{
    let mut i: usize = 0;
    assert(a@.skip(0) == a@);
    assert(b@.skip(0) == b@);
    while i < a.len() && i < b.len() && a[i] == b[i]
        invariant
            i <= a@.len(),
            i <= b@.len(),
            a@.take(i as int) == b@.take(i as int),
            seq_lt(a@, b@) == seq_lt(a@.skip(i as int), b@.skip(i as int)),
            seq_lt(b@, a@) == seq_lt(b@.skip(i as int), a@.skip(i as int)),
        decreases a@.len() - i,
    {
        assert(a@.skip(i as int).drop_first() == a@.skip(i + 1));
        assert(b@.skip(i as int).drop_first() == b@.skip(i + 1));
        assert(a@.take(i + 1) == a@.take(i as int).push(a@[i as int]));
        assert(b@.take(i + 1) == b@.take(i as int).push(b@[i as int]));
        i = i + 1;
    }
    proof {
        lemma_seq_lt_trichotomy(a@, b@);
    }
    if i == a.len() && i == b.len() {
        assert(a@ == a@.take(i as int));
        assert(b@ == b@.take(i as int));
        proof {
            lemma_seq_lt_irreflexive(a@);
        }
        0
    } else if i == a.len() {
        assert(a@.skip(i as int).len() == 0);
        assert(a@ != b@);
        -1
    } else if i == b.len() {
        assert(b@.skip(i as int).len() == 0);
        assert(a@ != b@);
        1
    } else if a[i] < b[i] {
        assert(a@ != b@) by {
            assert(a@[i as int] != b@[i as int]);
        }
        -1
    } else {
        assert(a@ != b@) by {
            assert(a@[i as int] != b@[i as int]);
        }
        1
    }
}

pub fn compare_str(a: &String, b: &String) -> (r: i8)
    ensures
        r == -1 <==> seq_lt(a@, b@),
        r == 0 <==> a@ == b@,
        r == 1 <==> seq_lt(b@, a@),
        -1 <= r <= 1,
{
    let ac = crate::text::chars_of(a.as_str());
    let bc = crate::text::chars_of(b.as_str());
    compare_chars(ac.as_slice(), bc.as_slice())
}

/// A map from strings to `V`, iterated in ascending key order.
#[derive(Debug)]
pub struct TextMap<V> {
    entries: Vec<(String, V)>,
}

impl<V: Clone> Clone for TextMap<V> {
    /// The same keys in the same order, each with a clone of its value.
    fn clone(&self) -> (r: Self)
        ensures
            r.entries().len() == self.entries().len(),
            forall|i: int|
                0 <= i < self.entries().len() ==> (#[trigger] r.entries()[i]).0 == self.entries()[i].0,
    {
        proof {
            use_type_invariant(self);
        }
        let mut es: Vec<(String, V)> = Vec::new();
        let mut i: usize = 0;
        while i < self.entries.len()
            invariant
                i <= self.entries@.len(),
                keys_sorted(self.entries@),
                es@.len() == i,
                forall|j: int| 0 <= j < i ==> (#[trigger] es@[j]).0 == self.entries@[j].0,
            decreases self.entries@.len() - i,
        {
            let e = &self.entries[i];
            es.push((e.0.clone(), e.1.clone()));
            i = i + 1;
        }
        proof {
            assert forall|a: int, b: int| 0 <= a < b < es@.len() implies seq_lt(
                #[trigger] es@[a].0@,
                #[trigger] es@[b].0@,
            ) by {
                assert(es@[a].0 == self.entries@[a].0);
                assert(es@[b].0 == self.entries@[b].0);
            }
        }
        TextMap { entries: es }
    }
}

/// Keys strictly ascending.
pub open spec fn keys_sorted<V>(e: Seq<(String, V)>) -> bool {
    forall|i: int, j: int| 0 <= i < j < e.len() ==> seq_lt(#[trigger] e[i].0@, #[trigger] e[j].0@)
}

/// The map that a sorted entry sequence stands for.
pub open spec fn entries_map<V>(e: Seq<(String, V)>) -> Map<Seq<char>, V>
    decreases e.len(),
{
    if e.len() == 0 {
        Map::empty()
    } else {
        entries_map(e.drop_last()).insert(e.last().0@, e.last().1)
    }
}

impl<V> TextMap<V> {
    /// Entries in iteration (ascending key) order.
    pub closed spec fn entries(&self) -> Seq<(String, V)> {
        self.entries@
    }

    /// The keys stay strictly ascending, so no key occurs twice.
    #[verifier::type_invariant]
    spec fn keys_ascending(&self) -> bool {
        keys_sorted(self.entries@)
    }

    /// The map the entries stand for.
    pub open spec fn view(&self) -> Map<Seq<char>, V> {
        entries_map(self.entries())
    }

    pub fn new() -> (m: Self)
        ensures
            m.entries() == Seq::<(String, V)>::empty(),
            m.view() == Map::<Seq<char>, V>::empty(),
    {
        TextMap { entries: Vec::new() }
    }

    pub fn len(&self) -> (n: usize)
        ensures
            n == self.entries().len(),
    {
        self.entries.len()
    }

    /// The entry at position `i` in iteration order: its key maps to its
    /// value.
    pub fn entry(&self, i: usize) -> (r: (&String, &V))
        requires
            i < self.entries().len(),
        ensures
            *r.0 == self.entries()[i as int].0,
            *r.1 == self.entries()[i as int].1,
            self.view().contains_key(r.0@),
            self.view()[r.0@] == *r.1,
    {
        proof {
            use_type_invariant(self);
            lemma_entries_map_at(self.entries(), i as int);
        }
        let e = &self.entries[i];
        (&e.0, &e.1)
    }

    /// Position of `k` among the keys, or where it would be inserted.
    fn locate(&self, k: &String) -> (r: (usize, bool))
        ensures
            r.0 <= self.entries().len(),
            forall|i: int| 0 <= i < r.0 ==> seq_lt(#[trigger] self.entries()[i].0@, k@),
            r.1 ==> r.0 < self.entries().len() && self.entries()[r.0 as int].0@ == k@,
            !r.1 ==> forall|i: int|
                r.0 <= i < self.entries().len() ==> seq_lt(k@, #[trigger] self.entries()[i].0@),
    {
        proof {
            use_type_invariant(self);
        }
        let kc = crate::text::chars_of(k.as_str());
        let mut i: usize = 0;
        while i < self.entries.len()
            invariant
                keys_sorted(self.entries()),
                kc@ == k@,
                i <= self.entries().len(),
                forall|j: int| 0 <= j < i ==> seq_lt(#[trigger] self.entries()[j].0@, k@),
            decreases self.entries().len() - i,
        {
            let ec = crate::text::chars_of(self.entries[i].0.as_str());
            let c = compare_chars(ec.as_slice(), kc.as_slice());
            if c == 0 {
                return (i, true);
            } else if c == 1 {
                proof {
                    assert forall|j: int| i <= j < self.entries().len() implies seq_lt(
                        k@,
                        #[trigger] self.entries()[j].0@,
                    ) by {
                        if j > i {
                            lemma_seq_lt_transitive(k@, self.entries()[i as int].0@, self.entries()[j].0@);
                        }
                    }
                }
                return (i, false);
            }
            i = i + 1;
        }
        (i, false)
    }

    /// Looks `k` up.
    pub fn get(&self, k: &String) -> (r: Option<&V>)
        ensures
            r matches Some(v) ==> self.view().contains_key(k@) && *v == self.view()[k@],
            r is None ==> !self.view().contains_key(k@),
    {
        proof {
            use_type_invariant(self);
        }
        let (i, found) = self.locate(k);
        proof {
            lemma_entries_map_lookup(self.entries(), k@);
        }
        if found {
            proof {
                lemma_entries_map_at(self.entries(), i as int);
            }
            Some(&self.entries[i].1)
        } else {
            proof {
                assert forall|j: int| 0 <= j < self.entries().len() implies self.entries()[j].0@
                    != k@ by {
                    if j < i {
                        lemma_seq_lt_irreflexive(k@);
                    } else {
                        lemma_seq_lt_irreflexive(k@);
                    }
                }
            }
            None
        }
    }

    /// `BTreeMap::insert`: sets `k` to `v`, replacing any earlier value.
    pub fn insert(&mut self, k: String, v: V)
        ensures
            final(self).view() == old(self).view().insert(k@, v),
    {
        proof {
            use_type_invariant(&*self);
        }
        let (i, found) = self.locate(&k);
        let ghost old_e = self.entries();
        let mut es: Vec<(String, V)> = Vec::new();
        std::mem::swap(&mut es, &mut self.entries);
        assert(es@ == old_e);
        if found {
            es.set(i, (k, v));
            proof {
                assert(es@ == old_e.update(i as int, (k, v)));
                lemma_entries_map_update(old_e, i as int, k, v);
                assert forall|a: int, b: int| 0 <= a < b < es@.len() implies seq_lt(
                    #[trigger] es@[a].0@,
                    #[trigger] es@[b].0@,
                ) by {
                    assert(es@[a].0@ == old_e[a].0@);
                    assert(es@[b].0@ == old_e[b].0@);
                }
            }
            self.entries = es;
        } else {
            let ghost kv = (k, v);
            es.insert(i, (k, v));
            proof {
                let ne = es@;
                assert(ne == old_e.insert(i as int, kv));
                assert forall|a: int, b: int| 0 <= a < b < ne.len() implies seq_lt(
                    #[trigger] ne[a].0@,
                    #[trigger] ne[b].0@,
                ) by {
                    if a < i && b < i {
                        assert(ne[a] == old_e[a]);
                        assert(ne[b] == old_e[b]);
                    } else if a < i && b == i {
                    } else if a < i && b > i {
                        lemma_seq_lt_transitive(ne[a].0@, k@, ne[b].0@);
                    } else if a == i {
                    } else {
                        assert(ne[a] == old_e[a - 1]);
                        assert(ne[b] == old_e[b - 1]);
                    }
                }
                assert forall|j: int| 0 <= j < old_e.len() implies #[trigger] old_e[j].0@ != kv.0@ by {
                    lemma_seq_lt_irreflexive(kv.0@);
                }
                lemma_entries_map_insert(old_e, i as int, kv.0, kv.1);
                assert(kv.1 == v);
            }
            self.entries = es;
        }
    }

    /// `BTreeMap::extend`: every entry of `other` inserted in turn, so that
    /// `other` wins where both hold a key.
    pub fn extend(&mut self, other: Self)
        ensures
            final(self).view() == old(self).view().union_prefer_right(other.view()),
    {
        let ghost oe0 = other.entries();
        let ghost ov = other.view();
        let mut es = other.entries;
        assert(es@ == oe0);
        let ghost oe = es@;
        assert(es@.len() == es.len());
        assert(es@.take(es@.len() as int) == es@);
        let mut rest: Vec<(String, V)> = Vec::new();
        // Reverse so that popping yields the entries in ascending order.
        while es.len() > 0
            invariant
                rest@.len() + es@.len() == oe.len(),
                oe.len() <= usize::MAX,
                es@ == oe.take(es@.len() as int),
                forall|j: int| 0 <= j < rest@.len() ==> rest@[j] == oe[oe.len() - 1 - j],
            decreases es@.len(),
        {
            let e = es.pop().unwrap();
            rest.push(e);
        }
        let mut n: usize = 0;
        while rest.len() > 0
            invariant
                n + rest@.len() == oe.len(),
                oe.len() <= usize::MAX,
                forall|j: int| 0 <= j < rest@.len() ==> rest@[j] == oe[oe.len() - 1 - j],
                self.view() == old(self).view().union_prefer_right(entries_map(oe.take(n as int))),
            decreases rest@.len(),
        {
            let e = rest.pop().unwrap();
            assert(e == oe[n as int]);
            let ghost before = self.view();
            self.insert(e.0, e.1);
            proof {
                assert(oe.take(n + 1).drop_last() == oe.take(n as int));
                assert(oe.take(n + 1).last() == oe[n as int]);
                assert(self.view() == old(self).view().union_prefer_right(
                    entries_map(oe.take(n + 1)),
                ));
            }
            n = n + 1;
        }
        assert(oe.take(n as int) == oe);
    }
}

impl<V> TextMap<V> {
    /// The keys of the view are the keys of the entries, and each maps to
    /// the value of an entry with that key.
    pub proof fn lemma_view_entries(&self)
        ensures
            forall|k: Seq<char>| #[trigger]
                self.view().contains_key(k) <==> exists|i: int|
                    0 <= i < self.entries().len() && self.entries()[i].0@ == k,
            forall|k: Seq<char>| #[trigger]
                self.view().contains_key(k) ==> exists|i: int|
                    0 <= i < self.entries().len() && self.entries()[i].0@ == k && self.view()[k]
                        == self.entries()[i].1,
    {
        assert forall|k: Seq<char>| #[trigger]
            self.view().contains_key(k) <==> exists|i: int|
                0 <= i < self.entries().len() && self.entries()[i].0@ == k by {
            lemma_entries_map_lookup(self.entries(), k);
        }
        assert forall|k: Seq<char>| #[trigger]
            self.view().contains_key(k) implies exists|i: int|
                0 <= i < self.entries().len() && self.entries()[i].0@ == k && self.view()[k]
                    == self.entries()[i].1 by {
            lemma_entries_map_value(self.entries(), k);
        }
    }
}

proof fn lemma_entries_map_value<V>(e: Seq<(String, V)>, k: Seq<char>)
    requires
        entries_map(e).contains_key(k),
    ensures
        exists|i: int| 0 <= i < e.len() && e[i].0@ == k && entries_map(e)[k] == e[i].1,
    decreases e.len(),
{
    if e.last().0@ == k {
        assert(e[e.len() - 1] == e.last());
    } else {
        lemma_entries_map_value(e.drop_last(), k);
        let i = choose|i: int|
            0 <= i < e.drop_last().len() && e.drop_last()[i].0@ == k && entries_map(e.drop_last())[k]
                == e.drop_last()[i].1;
        assert(e[i] == e.drop_last()[i]);
    }
}

proof fn lemma_entries_map_at<V>(e: Seq<(String, V)>, i: int)
    requires
        keys_sorted(e),
        0 <= i < e.len(),
    ensures
        entries_map(e).contains_key(e[i].0@),
        entries_map(e)[e[i].0@] == e[i].1,
    decreases e.len(),
{
    if i < e.len() - 1 {
        lemma_entries_map_at(e.drop_last(), i);
        assert(seq_lt(e[i].0@, e.last().0@));
        lemma_seq_lt_irreflexive(e[i].0@);
    }
}

proof fn lemma_entries_map_lookup<V>(e: Seq<(String, V)>, k: Seq<char>)
    ensures
        entries_map(e).contains_key(k) <==> exists|i: int| 0 <= i < e.len() && e[i].0@ == k,
    decreases e.len(),
{
    if e.len() > 0 {
        lemma_entries_map_lookup(e.drop_last(), k);
        if entries_map(e).contains_key(k) {
            if k == e.last().0@ {
                assert(e[e.len() - 1].0@ == k);
            } else {
                let i = choose|i: int| 0 <= i < e.drop_last().len() && e.drop_last()[i].0@ == k;
                assert(e[i].0@ == k);
            }
        }
        if exists|i: int| 0 <= i < e.len() && e[i].0@ == k {
            let i = choose|i: int| 0 <= i < e.len() && e[i].0@ == k;
            if i < e.len() - 1 {
                assert(e.drop_last()[i].0@ == k);
            }
        }
    }
}

proof fn lemma_entries_map_update<V>(e: Seq<(String, V)>, i: int, k: String, v: V)
    requires
        0 <= i < e.len(),
        e[i].0@ == k@,
        keys_sorted(e),
    ensures
        entries_map(e.update(i, (k, v))) == entries_map(e).insert(k@, v),
    decreases e.len(),
{
    let u = e.update(i, (k, v));
    if i == e.len() - 1 {
        assert(u.drop_last() == e.drop_last());
        assert(entries_map(e).insert(k@, v) == entries_map(e.drop_last()).insert(k@, v));
    } else {
        lemma_entries_map_update(e.drop_last(), i, k, v);
        assert(u.drop_last() == e.drop_last().update(i, (k, v)));
        assert(seq_lt(e[i].0@, e.last().0@));
        lemma_seq_lt_irreflexive(k@);
        assert(entries_map(u) =~= entries_map(e).insert(k@, v));
    }
}

proof fn lemma_entries_map_insert<V>(e: Seq<(String, V)>, i: int, k: String, v: V)
    requires
        0 <= i <= e.len(),
        forall|j: int| 0 <= j < e.len() ==> #[trigger] e[j].0@ != k@,
    ensures
        entries_map(e.insert(i, (k, v))) == entries_map(e).insert(k@, v),
    decreases e.len(),
{
    let u = e.insert(i, (k, v));
    if i == e.len() {
        assert(u.drop_last() == e);
    } else {
        lemma_entries_map_insert(e.drop_last(), i, k, v);
        assert(u.drop_last() == e.drop_last().insert(i, (k, v)));
        assert(u.last() == e.last());
        assert(e.last().0@ != k@);
        assert(entries_map(u) =~= entries_map(e).insert(k@, v));
    }
}

} // verus!
