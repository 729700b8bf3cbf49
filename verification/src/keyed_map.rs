//! An insertion-ordered map from strings to values, standing for the JSON
//! object maps and the string-keyed maps of headers and tool-call names.
//! A key occurs at most once; the map's view is the `Map` that the
//! entries build when inserted in order.

use vstd::prelude::*;
use crate::text::str_eq;

verus! {

/// No key occurs twice in `s`.
pub open spec fn keys_distinct<V>(s: Seq<(String, V)>) -> bool {
    forall|i: int, j: int| 0 <= i < j < s.len() ==> s[i].0@ != s[j].0@
}

/// Some entry of `s` has the key `k`.
pub open spec fn has_key<V>(s: Seq<(String, V)>, k: Seq<char>) -> bool {
    exists|i: int| 0 <= i < s.len() && s[i].0@ == k
}

/// The map that inserting the entries of `s`, in order, builds.
pub open spec fn map_of<V>(s: Seq<(String, V)>) -> Map<Seq<char>, V>
    decreases s.len(),
{
    if s.len() == 0 {
        Map::empty()
    } else {
        map_of(s.drop_last()).insert(s.last().0@, s.last().1)
    }
}

pub proof fn lemma_map_of_dom<V>(s: Seq<(String, V)>, k: Seq<char>)
    ensures
        map_of(s).dom().contains(k) <==> has_key(s, k),
    decreases s.len(),
{
    if s.len() > 0 {
        lemma_map_of_dom(s.drop_last(), k);
        if has_key(s, k) && s.last().0@ != k {
            let i = choose|i: int| 0 <= i < s.len() && s[i].0@ == k;
            assert(s.drop_last()[i].0@ == k);
        }
        if has_key(s.drop_last(), k) {
            let i = choose|i: int| 0 <= i < s.drop_last().len() && s.drop_last()[i].0@ == k;
            assert(s[i].0@ == k);
        }
    }
}

pub proof fn lemma_map_of_source<V>(s: Seq<(String, V)>, k: Seq<char>)
    requires
        map_of(s).dom().contains(k),
    ensures
        exists|i: int| 0 <= i < s.len() && s[i].0@ == k && map_of(s)[k] == s[i].1,
    decreases s.len(),
{
    if s.last().0@ != k {
        lemma_map_of_source(s.drop_last(), k);
        let i = choose|i: int| 0 <= i < s.drop_last().len() && s.drop_last()[i].0@ == k && map_of(s.drop_last())[k] == s.drop_last()[i].1;
        assert(s[i].0@ == k && map_of(s)[k] == s[i].1);
    } else {
        assert(s[s.len() - 1].0@ == k);
    }
}

pub proof fn lemma_map_of_value<V>(s: Seq<(String, V)>, i: int)
    requires
        keys_distinct(s),
        0 <= i < s.len(),
    ensures
        map_of(s).dom().contains(s[i].0@),
        map_of(s)[s[i].0@] == s[i].1,
    decreases s.len(),
{
    if i < s.len() - 1 {
        lemma_map_of_value(s.drop_last(), i);
    }
}

pub proof fn lemma_map_of_update<V>(s: Seq<(String, V)>, i: int, e: (String, V))
    requires
        keys_distinct(s),
        0 <= i < s.len(),
        e.0@ == s[i].0@,
    ensures
        keys_distinct(s.update(i, e)),
        map_of(s.update(i, e)) == map_of(s).insert(e.0@, e.1),
    decreases s.len(),
{
    let t = s.update(i, e);
    if i < s.len() - 1 {
        assert(t.drop_last() == s.drop_last().update(i, e));
        lemma_map_of_update(s.drop_last(), i, e);
        assert(map_of(t) =~= map_of(s).insert(e.0@, e.1));
    } else {
        assert(t.drop_last() == s.drop_last());
        assert(map_of(t) =~= map_of(s).insert(e.0@, e.1));
    }
}

pub proof fn lemma_map_of_push<V>(s: Seq<(String, V)>, e: (String, V))
    requires
        keys_distinct(s),
        !has_key(s, e.0@),
    ensures
        keys_distinct(s.push(e)),
        map_of(s.push(e)) == map_of(s).insert(e.0@, e.1),
{
    assert(s.push(e).drop_last() == s);
    assert forall|i: int, j: int| 0 <= i < j < s.push(e).len() implies s.push(e)[i].0@ != s.push(
        e,
    )[j].0@ by {
        if j == s.len() {
            assert(s[i].0@ != e.0@);
        }
    }
}

pub proof fn lemma_map_of_remove<V>(s: Seq<(String, V)>, i: int)
    requires
        keys_distinct(s),
        0 <= i < s.len(),
    ensures
        keys_distinct(s.remove(i)),
        map_of(s.remove(i)) == map_of(s).remove(s[i].0@),
    decreases s.len(),
{
    let t = s.remove(i);
    if i == s.len() - 1 {
        assert(t == s.drop_last());
        lemma_map_of_dom(s.drop_last(), s[i].0@);
        if has_key(s.drop_last(), s[i].0@) {
            let j = choose|j: int| 0 <= j < s.drop_last().len() && s.drop_last()[j].0@ == s[i].0@;
            assert(s[j].0@ == s[i].0@);
        }
        assert(map_of(t) =~= map_of(s).remove(s[i].0@));
    } else {
        assert(t.drop_last() == s.drop_last().remove(i));
        assert(t.last() == s.last());
        lemma_map_of_remove(s.drop_last(), i);
        assert(map_of(t) =~= map_of(s).remove(s[i].0@));
    }
}

/// A map from strings to values that keeps its entries in insertion order.
#[derive(Debug)]
pub struct KeyedMap<V> {
    pub(crate) entries: Vec<(String, V)>,
}

impl<V> View for KeyedMap<V> {
    type V = Map<Seq<char>, V>;

    open spec fn view(&self) -> Map<Seq<char>, V> {
        map_of(self.items())
    }
}

impl<V> KeyedMap<V> {
    /// No key occurs twice among the entries.
    #[verifier::type_invariant]
    pub open spec fn well_formed(self) -> bool {
        keys_distinct(self.items())
    }

    /// The entries, in order.
    pub closed spec fn items(self) -> Seq<(String, V)> {
        self.entries@
    }

    /// The entries of a map never repeat a key, and each stands in the view.
    pub proof fn lemma_items(&self)
        requires
            self.well_formed(),
        ensures
            keys_distinct(self.items()),
            forall|i: int|
                0 <= i < self.items().len() ==> #[trigger] self@.dom().contains(
                    self.items()[i].0@,
                ) && self@[self.items()[i].0@] == self.items()[i].1,
            forall|k: Seq<char>| #[trigger] self@.dom().contains(k) <==> has_key(self.items(), k),
    {
        assert forall|i: int| 0 <= i < self.items().len() implies #[trigger] self@.dom().contains(
            self.items()[i].0@,
        ) && self@[self.items()[i].0@] == self.items()[i].1 by {
            lemma_map_of_value(self.items(), i);
        }
        assert forall|k: Seq<char>| #[trigger] self@.dom().contains(k) <==> has_key(
            self.items(),
            k,
        ) by {
            lemma_map_of_dom(self.items(), k);
        }
    }

    /// Each value of the map is smaller than the map, for definitions by
    /// recursion over nested maps.
    pub proof fn lemma_values_decrease(self)
        ensures
            forall|k: Seq<char>|
                #[trigger] self@.dom().contains(k) ==> decreases_to!(self => self@[k]),
    {
        assert forall|k: Seq<char>| #[trigger] self@.dom().contains(k) implies decreases_to!(self => self@[k]) by {
            lemma_map_of_source(self.items(), k);
            let i = choose|i: int| 0 <= i < self.items().len() && self.items()[i].0@ == k && map_of(self.items())[k] == self.items()[i].1;
            assert(decreases_to!(self => self.entries));
            assert(decreases_to!(self.entries => self.entries@[i]));
            assert(decreases_to!(self.entries@[i] => self.entries@[i].1));
        }
    }

    /// The empty map.
    pub fn new() -> (r: Self)
        ensures
            r@ == Map::<Seq<char>, V>::empty(),
            r.items().len() == 0,
    {
        KeyedMap { entries: Vec::new() }
    }

    /// The number of entries.
    pub fn len(&self) -> (r: usize)
        ensures
            r == self.items().len(),
            r == self@.dom().len(),
    {
        proof {
            use_type_invariant(self);
            self.lemma_len();
        }
        self.entries.len()
    }

    proof fn lemma_len(&self)
        requires
            keys_distinct(self.items()),
        ensures
            self@.dom().len() == self.items().len(),
            self@.dom().finite(),
    {
        lemma_map_of_len(self.items());
    }

    /// The entry at position `i`.
    pub fn entry_at(&self, i: usize) -> (r: (&String, &V))
        requires
            i < self.items().len(),
        ensures
            *r.0 == self.items()[i as int].0,
            *r.1 == self.items()[i as int].1,
    {
        let e = &self.entries[i];
        (&e.0, &e.1)
    }

    /// The position of the entry with key `k`, if there is one.
    pub fn position(&self, k: &str) -> (r: Option<usize>)
        ensures
            match r {
                Some(i) => i < self.items().len() && self.items()[i as int].0@ == k@,
                None => !has_key(self.items(), k@),
            },
    {
        let n = self.entries.len();
        let mut i: usize = 0;
        while i < n
            invariant
                n == self.entries@.len(),
                i <= n,
                forall|j: int| 0 <= j < i ==> self.entries@[j].0@ != k@,
            decreases n - i,
        {
            if str_eq(self.entries[i].0.as_str(), k) {
                return Some(i);
            }
            i = i + 1;
        }
        None
    }

    /// Whether the map has the key `k`.
    pub fn contains_key(&self, k: &str) -> (r: bool)
        ensures
            r == self@.dom().contains(k@),
    {
        proof {
            lemma_map_of_dom(self.items(), k@);
        }
        self.position(k).is_some()
    }

    /// The value of the key `k`, if there is one.
    pub fn get(&self, k: &str) -> (r: Option<&V>)
        ensures
            r is Some == self@.dom().contains(k@),
            r matches Some(v) ==> *v == self@[k@],
    {
        proof {
            use_type_invariant(self);
            lemma_map_of_dom(self.items(), k@);
        }
        match self.position(k) {
            Some(i) => {
                proof {
                    lemma_map_of_value(self.items(), i as int);
                }
                Some(&self.entries[i].1)
            },
            None => None,
        }
    }

    /// Binds `k` to `v`, where an entry with key `k` keeps its position and a
    /// new key goes last; gives back the value that `k` had.
    pub fn insert(&mut self, k: String, v: V) -> (r: Option<V>)
        ensures
            final(self)@ == old(self)@.insert(k@, v),
            !old(self)@.dom().contains(k@) ==> final(self).items() == old(self).items().push((k, v)),
            old(self)@.dom().contains(k@) ==> exists|i: int|
                0 <= i < old(self).items().len() && old(self).items()[i].0@ == k@ && final(self).items()
                    == old(self).items().update(i, (k, v)),
            r is Some == old(self)@.dom().contains(k@),
            r matches Some(x) ==> x == old(self)@[k@],
    {
        proof {
            use_type_invariant(&*self);
            lemma_map_of_dom(self.items(), k@);
        }
        let pos = self.position(k.as_str());
        let mut entries: Vec<(String, V)> = Vec::new();
        std::mem::swap(&mut entries, &mut self.entries);
        let ghost s = entries@;
        match pos {
            Some(i) => {
                proof {
                    lemma_map_of_value(s, i as int);
                    lemma_map_of_update(s, i as int, (k, v));
                }
                let (old_key, old_val) = entries.remove(i);
                entries.insert(i, (k, v));
                proof {
                    assert(entries@ == s.update(i as int, (k, v)));
                }
                self.entries = entries;
                Some(old_val)
            },
            None => {
                proof {
                    lemma_map_of_push(s, (k, v));
                }
                entries.push((k, v));
                self.entries = entries;
                None
            },
        }
    }

    /// Removes the key `k`; gives back the value it had.
    pub fn remove(&mut self, k: &str) -> (r: Option<V>)
        ensures
            final(self)@ == old(self)@.remove(k@),
            r is Some == old(self)@.dom().contains(k@),
            r matches Some(x) ==> x == old(self)@[k@],
    {
        proof {
            use_type_invariant(&*self);
            lemma_map_of_dom(self.items(), k@);
        }
        let pos = self.position(k);
        match pos {
            Some(i) => {
                let mut entries: Vec<(String, V)> = Vec::new();
                std::mem::swap(&mut entries, &mut self.entries);
                let ghost s = entries@;
                proof {
                    lemma_map_of_value(s, i as int);
                    lemma_map_of_remove(s, i as int);
                }
                let (_old_key, old_val) = entries.remove(i);
                self.entries = entries;
                Some(old_val)
            },
            None => {
                assert(self@.remove(k@) =~= self@);
                None
            },
        }
    }
}

pub proof fn lemma_map_of_len<V>(s: Seq<(String, V)>)
    requires
        keys_distinct(s),
    ensures
        map_of(s).dom().finite(),
        map_of(s).dom().len() == s.len(),
    decreases s.len(),
{
    if s.len() > 0 {
        let t = s.drop_last();
        lemma_map_of_len(t);
        lemma_map_of_dom(t, s.last().0@);
        if has_key(t, s.last().0@) {
            let j = choose|j: int| 0 <= j < t.len() && t[j].0@ == s.last().0@;
            assert(s[j].0@ == s[s.len() - 1].0@);
        }
    }
}

impl KeyedMap<String> {
    /// A copy of this map of strings.
    pub fn copy(&self) -> (r: Self)
        ensures
            r@ == self@,
    {
        let mut out: KeyedMap<String> = KeyedMap::new();
        let n = self.entries.len();
        let mut i: usize = 0;
        assert(self.entries@.take(0) =~= Seq::<(String, String)>::empty());
        while i < n
            invariant
                n == self.entries@.len(),
                i <= n,
                out@ == map_of(self.entries@.take(i as int)),
            decreases n - i,
        {
            let e = &self.entries[i];
            assert(self.entries@.take(i + 1).drop_last() == self.entries@.take(i as int));
            out.insert(e.0.clone(), e.1.clone());
            i = i + 1;
        }
        assert(self.entries@.take(n as int) == self.entries@);
        out
    }
}

} // verus!
