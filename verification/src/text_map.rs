//! A map from text keys to text values, kept as an association list whose
//! keys are pairwise distinct.  It stands where a `HashMap<String, String>`
//! carries a baton's data, a room's reflex bindings and a grid's cells; its
//! model is a finite `Map` from key to value.
use vstd::prelude::*;

use crate::text::{chars_equal, chars_of, string_from};

verus! {

/// The key/value text pairs of an association list.
pub open spec fn pair_views(es: Seq<(String, String)>) -> Seq<(Seq<char>, Seq<char>)> {
    Seq::new(es.len(), |i: int| (es[i].0@, es[i].1@))
}

/// No key occurs twice.
pub open spec fn unique_keys(ps: Seq<(Seq<char>, Seq<char>)>) -> bool {
    forall|i: int, j: int| 0 <= i < j < ps.len() ==> ps[i].0 != ps[j].0
}

/// The map that an association list stands for, later pairs winning.
pub open spec fn to_map(ps: Seq<(Seq<char>, Seq<char>)>) -> Map<Seq<char>, Seq<char>>
    decreases ps.len(),
{
    if ps.len() == 0 {
        Map::empty()
    } else {
        to_map(ps.drop_last()).insert(ps.last().0, ps.last().1)
    }
}

proof fn lemma_to_map_dom(ps: Seq<(Seq<char>, Seq<char>)>)
    ensures
        to_map(ps).dom().finite(),
        forall|k: Seq<char>|
            #![trigger to_map(ps).dom().contains(k)]
            to_map(ps).dom().contains(k) <==> exists|i: int| 0 <= i < ps.len() && ps[i].0 == k,
    decreases ps.len(),
{
    if ps.len() > 0 {
        let init = ps.drop_last();
        lemma_to_map_dom(init);
        assert forall|k: Seq<char>| #[trigger]
            to_map(ps).dom().contains(k) implies exists|i: int|
            0 <= i < ps.len() && ps[i].0 == k by {
            if k == ps.last().0 {
                assert(ps[ps.len() - 1].0 == k);
            } else {
                let i = choose|i: int| 0 <= i < init.len() && init[i].0 == k;
                assert(ps[i].0 == k);
            }
        }
        assert forall|k: Seq<char>|
            (exists|i: int| 0 <= i < ps.len() && ps[i].0 == k) implies #[trigger] to_map(
            ps,
        ).dom().contains(k) by {
            let i = choose|i: int| 0 <= i < ps.len() && ps[i].0 == k;
            if i < ps.len() - 1 {
                assert(init[i].0 == k);
            }
        }
    }
}

proof fn lemma_to_map_at(ps: Seq<(Seq<char>, Seq<char>)>, i: int)
    requires
        unique_keys(ps),
        0 <= i < ps.len(),
    ensures
        to_map(ps).dom().contains(ps[i].0),
        to_map(ps)[ps[i].0] == ps[i].1,
    decreases ps.len(),
{
    if i < ps.len() - 1 {
        let init = ps.drop_last();
        assert(init[i] == ps[i]);
        lemma_to_map_at(init, i);
        assert(ps.last().0 != ps[i].0);
    }
}

proof fn lemma_to_map_update(ps: Seq<(Seq<char>, Seq<char>)>, i: int, v: Seq<char>)
    requires
        unique_keys(ps),
        0 <= i < ps.len(),
    ensures
        to_map(ps.update(i, (ps[i].0, v))) == to_map(ps).insert(ps[i].0, v),
    decreases ps.len(),
{
    let qs = ps.update(i, (ps[i].0, v));
    if i == ps.len() - 1 {
        assert(qs.drop_last() =~= ps.drop_last());
        assert(to_map(qs) =~= to_map(ps).insert(ps[i].0, v));
    } else {
        let init = ps.drop_last();
        assert(qs.drop_last() =~= init.update(i, (init[i].0, v)));
        lemma_to_map_update(init, i, v);
        assert(ps.last().0 != ps[i].0);
        assert(to_map(qs) =~= to_map(ps).insert(ps[i].0, v));
    }
}

proof fn lemma_to_map_len(ps: Seq<(Seq<char>, Seq<char>)>)
    requires
        unique_keys(ps),
    ensures
        to_map(ps).len() == ps.len(),
    decreases ps.len(),
{
    if ps.len() > 0 {
        let init = ps.drop_last();
        lemma_to_map_len(init);
        lemma_to_map_dom(init);
        if to_map(init).dom().contains(ps.last().0) {
            let i = choose|i: int| 0 <= i < init.len() && init[i].0 == ps.last().0;
            assert(ps[i].0 == ps[ps.len() - 1].0);
        }
    }
}

/// A map from text keys to text values.
#[derive(Debug)]
pub struct TextMap {
    entries: Vec<(String, String)>,
}

impl TextMap {
    #[verifier::type_invariant]
    spec fn keys_distinct(self) -> bool {
        unique_keys(pair_views(self.entries@))
    }

    /// The keys in the order they were first inserted.
    pub closed spec fn key_order(self) -> Seq<Seq<char>> {
        Seq::new(self.entries@.len(), |i: int| self.entries@[i].0@)
    }

    /// The key/value pairs in the order their keys were first inserted.
    pub closed spec fn pairs(self) -> Seq<(Seq<char>, Seq<char>)> {
        pair_views(self.entries@)
    }

    fn find_key(&self, key: &Vec<char>) -> (r: Option<usize>)
        ensures
            r matches Some(i) ==> i < self.entries@.len() && self.entries@[i as int].0@ == key@,
            r is None ==> forall|i: int|
                0 <= i < self.entries@.len() ==> self.entries@[i].0@ != key@,
    {
        let mut i: usize = 0;
        while i < self.entries.len()
            invariant
                i <= self.entries@.len(),
                forall|k: int| 0 <= k < i ==> self.entries@[k].0@ != key@,
            decreases self.entries.len() - i,
        {
            let k = chars_of(self.entries[i].0.as_str());
            if chars_equal(&k, key) {
                return Some(i);
            }
            i = i + 1;
        }
        None
    }

    /// An empty map.
    pub fn new() -> (m: Self)
        ensures
            m@ == Map::<Seq<char>, Seq<char>>::empty(),
            m.key_order() == Seq::<Seq<char>>::empty(),
            m.pairs() == Seq::<(Seq<char>, Seq<char>)>::empty(),
    {
        let m = TextMap { entries: Vec::new() };
        assert(pair_views(m.entries@) =~= Seq::<(Seq<char>, Seq<char>)>::empty());
        assert(m.key_order() =~= Seq::<Seq<char>>::empty());
        m
    }

    /// Sets the value of `key` to `value`, replacing any earlier value.  A new
    /// key goes after the keys already present.
    pub fn insert(&mut self, key: &str, value: &str)
        ensures
            final(self)@ == old(self)@.insert(key@, value@),
            old(self)@.dom().contains(key@) ==> final(self).key_order() == old(self).key_order(),
            !old(self)@.dom().contains(key@) ==> final(self).key_order() == old(self).key_order().push(
                key@,
            ),
            final(self)@.len() == old(self)@.len() + if old(self)@.dom().contains(key@) {
                0int
            } else {
                1int
            },
    {
        proof {
            use_type_invariant(&*self);
            lemma_to_map_dom(pair_views(self.entries@));
            lemma_to_map_len(pair_views(self.entries@));
        }
        let ghost old_ps = pair_views(self.entries@);
        let kc = chars_of(key);
        let found = self.find_key(&kc);
        let mut entries: Vec<(String, String)> = Vec::new();
        std::mem::swap(&mut entries, &mut self.entries);
        match found {
            Some(i) => {
                let k = string_from(key);
                let v = string_from(value);
                entries.set(i, (k, v));
                proof {
                    assert(pair_views(entries@) =~= old_ps.update(i as int, (old_ps[i as int].0, value@)));
                    lemma_to_map_update(old_ps, i as int, value@);
                }
            },
            None => {
                proof {
                    if old_ps.len() > 0 {
                        assert(!to_map(old_ps).dom().contains(key@)) by {
                            if to_map(old_ps).dom().contains(key@) {
                                let j = choose|j: int| 0 <= j < old_ps.len() && old_ps[j].0 == key@;
                                assert(entries@[j].0@ == key@);
                            }
                        }
                    }
                }
                entries.push((string_from(key), string_from(value)));
                proof {
                    assert(pair_views(entries@) =~= old_ps.push((key@, value@)));
                    assert(pair_views(entries@).drop_last() =~= old_ps);
                }
            },
        }
        self.entries = entries;
        proof {
            use_type_invariant(&*self);
            lemma_to_map_len(pair_views(self.entries@));
            if found is Some {
                assert(self.key_order() =~= old(self).key_order());
            } else {
                assert(self.key_order() =~= old(self).key_order().push(key@));
            }
        }
    }

    /// The value of `key`, if it has one.
    pub fn get(&self, key: &str) -> (r: Option<&String>)
        ensures
            r matches Some(v) ==> self@.dom().contains(key@) && v@ == self@[key@],
            r is None ==> !self@.dom().contains(key@),
    {
        proof {
            use_type_invariant(self);
            lemma_to_map_dom(pair_views(self.entries@));
        }
        let kc = chars_of(key);
        match self.find_key(&kc) {
            Some(i) => {
                proof {
                    lemma_to_map_at(pair_views(self.entries@), i as int);
                }
                Some(&self.entries[i].1)
            },
            None => {
                proof {
                    let ps = pair_views(self.entries@);
                    if to_map(ps).dom().contains(key@) {
                        let j = choose|j: int| 0 <= j < ps.len() && ps[j].0 == key@;
                        assert(self.entries@[j].0@ == key@);
                    }
                }
                None
            },
        }
    }

    /// Whether `key` has a value.
    pub fn contains_key(&self, key: &str) -> (r: bool)
        ensures
            r == self@.dom().contains(key@),
    {
        self.get(key).is_some()
    }

    /// The number of keys.
    pub fn len(&self) -> (r: usize)
        ensures
            r == self@.len(),
            r == self.key_order().len(),
    {
        proof {
            use_type_invariant(self);
            lemma_to_map_len(pair_views(self.entries@));
        }
        self.entries.len()
    }

    /// The keys, in the order they were first inserted.
    pub fn keys(&self) -> (r: Vec<&str>)
        ensures
            r@.len() == self.key_order().len(),
            forall|i: int| 0 <= i < r@.len() ==> #[trigger] r@[i]@ == self.key_order()[i],
            forall|k: Seq<char>| self@.dom().contains(k) <==> self.key_order().contains(k),
            self.key_order().no_duplicates(),
            self.key_order().len() == self@.len(),
    {
        proof {
            use_type_invariant(self);
            let ps = pair_views(self.entries@);
            lemma_to_map_dom(ps);
            lemma_to_map_len(ps);
            assert forall|k: Seq<char>| self@.dom().contains(k) implies self.key_order().contains(k) by {
                let i = choose|i: int| 0 <= i < ps.len() && ps[i].0 == k;
                assert(self.key_order()[i] == k);
            }
            assert forall|k: Seq<char>| self.key_order().contains(k) implies self@.dom().contains(k) by {
                let i = choose|i: int| 0 <= i < self.key_order().len() && self.key_order()[i] == k;
                assert(ps[i].0 == k);
            }
            assert forall|i: int, j: int|
                0 <= i < self.key_order().len() && 0 <= j < self.key_order().len() && i != j implies
                self.key_order()[i] != self.key_order()[j] by {
                if i < j {
                    assert(ps[i].0 != ps[j].0);
                } else {
                    assert(ps[j].0 != ps[i].0);
                }
            }
        }
        let mut out: Vec<&str> = Vec::new();
        let mut i: usize = 0;
        while i < self.entries.len()
            invariant
                i <= self.entries@.len(),
                out@.len() == i,
                forall|k: int| 0 <= k < i ==> #[trigger] out@[k]@ == self.key_order()[k],
            decreases self.entries.len() - i,
        {
            out.push(self.entries[i].0.as_str());
            i = i + 1;
        }
        out
    }

    /// The key/value pairs, in the order their keys were first inserted.
    pub fn entries(&self) -> (r: &Vec<(String, String)>)
        ensures
            Seq::new(r@.len(), |i: int| r@[i].0@) == self.key_order(),
            pair_views(r@) == self.pairs(),
            to_map(self.pairs()) == self@,
    {
        assert(Seq::new(self.entries@.len(), |i: int| self.entries@[i].0@) =~= self.key_order());
        &self.entries
    }
}

impl Clone for TextMap {
    fn clone(&self) -> (r: Self)
        ensures
            r@ == self@,
            r.key_order() == self.key_order(),
    {
        proof {
            use_type_invariant(self);
        }
        let mut entries: Vec<(String, String)> = Vec::new();
        let mut i: usize = 0;
        while i < self.entries.len()
            invariant
                i <= self.entries@.len(),
                unique_keys(pair_views(self.entries@)),
                entries@.len() == i,
                pair_views(entries@) == pair_views(self.entries@).take(i as int),
            decreases self.entries.len() - i,
        {
            let k = string_from(self.entries[i].0.as_str());
            let v = string_from(self.entries[i].1.as_str());
            let ghost before = entries@;
            entries.push((k, v));
            assert(entries@ == before.push((k, v)));
            assert forall|j: int| 0 <= j < i implies #[trigger] pair_views(entries@)[j] == pair_views(
                before,
            )[j] by {
                assert(entries@[j] == before[j]);
            }
            i = i + 1;
            assert(pair_views(entries@) =~= pair_views(self.entries@).take(i as int));
        }
        assert(pair_views(self.entries@).take(i as int) =~= pair_views(self.entries@));
        assert forall|j: int| 0 <= j < entries@.len() implies #[trigger] entries@[j].0@
            == self.entries@[j].0@ by {
            assert(pair_views(entries@)[j] == pair_views(self.entries@)[j]);
        }
        let r = TextMap { entries };
        assert(r.key_order() =~= self.key_order());
        r
    }
}

impl View for TextMap {
    type V = Map<Seq<char>, Seq<char>>;

    closed spec fn view(&self) -> Map<Seq<char>, Seq<char>> {
        to_map(pair_views(self.entries@))
    }
}

} // verus!
