//! Sets of names and maps keyed by a name.
//!
//! Both are short lists searched in order: a project has tens of processes,
//! not thousands. The view of a set is a `Set` of character sequences and the
//! view of a map is a `Map` from them.
use crate::text::{
    comes_before, lemma_text_order_total, lemma_text_order_transitive, same, text_before,
};
use vstd::prelude::*;

verus! {

/// The character sequences of a list of strings.
pub open spec fn views(names: Seq<String>) -> Seq<Seq<char>> {
    Seq::new(names.len(), |i: int| names[i]@)
}

/// The first place `name` stands in `names`.
pub fn position_of(names: &Vec<String>, name: &str) -> (r: Option<usize>)
    ensures
        match r {
            Some(at) => at < names@.len() && names@[at as int]@ == name@ && !views(
                names@.take(at as int),
            ).contains(name@),
            None => !views(names@).contains(name@),
        },
{
    let mut i: usize = 0;
    while i < names.len()
        invariant
            i <= names@.len(),
            forall|j: int| 0 <= j < i ==> names@[j]@ != name@,
        decreases names@.len() - i,
    {
        if same(names[i].as_str(), name) {
            assert forall|j: int| 0 <= j < i implies views(names@.take(i as int))[j] != name@ by {
                assert(names@.take(i as int)[j] == names@[j]);
            }
            return Some(i);
        }
        i += 1;
    }
    None
}

/// Whether `name` is one of `names`.
pub fn has_name(names: &Vec<String>, name: &str) -> (r: bool)
    ensures
        r == views(names@).contains(name@),
{
    match position_of(names, name) {
        Some(at) => {
            assert(views(names@)[at as int] == name@);
            true
        },
        None => false,
    }
}

/// A copy of a list of names.
pub fn copy_names(names: &Vec<String>) -> (r: Vec<String>)
    ensures
        views(r@) == views(names@),
{
    let mut out: Vec<String> = Vec::new();
    let mut i: usize = 0;
    while i < names.len()
        invariant
            i <= names@.len(),
            out@.len() == i,
            forall|j: int| 0 <= j < i ==> out@[j]@ == names@[j]@,
        decreases names@.len() - i,
    {
        out.push(names[i].clone());
        i += 1;
    }
    assert(views(out@) =~= views(names@));
    out
}

/// A set of names.
#[derive(Debug)]
pub struct NameSet {
    names: Vec<String>,
}

impl View for NameSet {
    type V = Set<Seq<char>>;

    closed spec fn view(&self) -> Set<Seq<char>> {
        views(self.names@).to_set()
    }
}

impl NameSet {
    #[verifier::type_invariant]
    spec fn distinct(self) -> bool {
        views(self.names@).no_duplicates()
    }

    /// The members in the order they were added.
    pub closed spec fn order(&self) -> Seq<Seq<char>> {
        views(self.names@)
    }

    /// The empty set.
    pub fn new() -> (r: NameSet)
        ensures
            r@ == Set::<Seq<char>>::empty(),
            r.order() == Seq::<Seq<char>>::empty(),
    {
        let r = NameSet { names: Vec::new() };
        assert(views(r.names@) =~= Seq::<Seq<char>>::empty());
        assert(views(r.names@).to_set() =~= Set::<Seq<char>>::empty());
        r
    }

    /// The set of the names in a list.
    pub fn of(names: &Vec<String>) -> (r: NameSet)
        ensures
            r@ == views(names@).to_set(),
    {
        let mut out = NameSet::new();
        let mut i: usize = 0;
        assert(views(names@).take(0).to_set() =~= Set::<Seq<char>>::empty());
        while i < names.len()
            invariant
                i <= names@.len(),
                out@ == views(names@).take(i as int).to_set(),
            decreases names@.len() - i,
        {
            let ghost before = out@;
            out.insert(names[i].as_str());
            proof {
                let all = views(names@);
                assert(all.take(i + 1) =~= all.take(i as int).push(all[i as int]));
                assert forall|n: Seq<char>| all.take(i + 1).to_set().contains(n) <==> before.insert(
                    all[i as int],
                ).contains(n) by {
                    if all.take(i + 1).contains(n) {
                        let j = all.take(i + 1).index_of(n);
                        if j < i {
                            assert(all.take(i as int)[j] == n);
                        }
                    }
                    if all.take(i as int).contains(n) {
                        let j = all.take(i as int).index_of(n);
                        assert(all.take(i + 1)[j] == n);
                    }
                    assert(all.take(i + 1)[i as int] == all[i as int]);
                }
                assert(all.take(i + 1).to_set() =~= before.insert(all[i as int]));
            }
            i += 1;
        }
        assert(views(names@).take(names@.len() as int) =~= views(names@));
        out
    }

    /// How many names the set holds.
    pub fn len(&self) -> (r: usize)
        ensures
            r == self@.len(),
            self@.finite(),
            r == self.order().len(),
            self.order().no_duplicates(),
            self.order().to_set() == self@,
    {
        proof {
            use_type_invariant(self);
            views(self.names@).unique_seq_to_set();
        }
        self.names.len()
    }

    /// Whether the set holds no name.
    pub fn is_empty(&self) -> (r: bool)
        ensures
            r == (self@ == Set::<Seq<char>>::empty()),
    {
        let none = self.names.len() == 0;
        proof {
            if none {
                assert(self@ =~= Set::<Seq<char>>::empty());
            } else {
                assert(views(self.names@)[0] == self.names@[0]@);
                assert(views(self.names@).contains(self.names@[0]@));
                assert(self@.contains(self.names@[0]@));
            }
        }
        none
    }

    /// The member at a place in the order of insertion.
    pub fn at(&self, i: usize) -> (r: &str)
        requires
            i < self.order().len(),
        ensures
            r@ == self.order()[i as int],
            self@.contains(r@),
    {
        proof {
            assert(views(self.names@)[i as int] == self.names@[i as int]@);
        }
        self.names[i].as_str()
    }

    /// Whether `name` is a member.
    pub fn contains(&self, name: &str) -> (r: bool)
        ensures
            r == self@.contains(name@),
    {
        has_name(&self.names, name)
    }

    /// Adds `name`; says whether it was new.
    pub fn insert(&mut self, name: &str) -> (r: bool)
        ensures
            final(self)@ == old(self)@.insert(name@),
            r == !old(self)@.contains(name@),
            final(self).order() == (if old(self)@.contains(name@) {
                old(self).order()
            } else {
                old(self).order().push(name@)
            }),
    {
        proof {
            use_type_invariant(&*self);
        }
        if has_name(&self.names, name) {
            assert(self@.insert(name@) =~= self@);
            return false;
        }
        let mut list: Vec<String> = Vec::new();
        std::mem::swap(&mut list, &mut self.names);
        let ghost before = list@;
        list.push(name.to_owned());
        proof {
            assert(views(list@) =~= views(before).push(name@));
            assert forall|n: Seq<char>| views(list@).contains(n) <==> views(before).contains(n) || n
                == name@ by {
                if views(before).contains(n) {
                    let j = views(before).index_of(n);
                    assert(views(list@)[j] == n);
                }
                assert(views(list@)[before.len() as int] == name@);
                if views(list@).contains(n) {
                    let j = views(list@).index_of(n);
                    if j < before.len() {
                        assert(views(before)[j] == n);
                    }
                }
            }
            assert(views(list@).to_set() =~= views(before).to_set().insert(name@));
        }
        self.names = list;
        true
    }

    /// Takes `name` out; says whether it was a member.
    pub fn remove(&mut self, name: &str) -> (r: bool)
        ensures
            final(self)@ == old(self)@.remove(name@),
            r == old(self)@.contains(name@),
    {
        proof {
            use_type_invariant(&*self);
        }
        let mut list: Vec<String> = Vec::new();
        std::mem::swap(&mut list, &mut self.names);
        let ghost before = list@;
        let found = match position_of(&list, name) {
            Some(at) => {
                let _gone = list.remove(at);
                proof {
                    assert(list@ =~= before.remove(at as int));
                    assert forall|n: Seq<char>|
                        views(list@).contains(n) <==> views(before).contains(n) && n != name@ by {
                        if views(list@).contains(n) {
                            let j = views(list@).index_of(n);
                            let k = if j < at { j } else { j + 1 };
                            assert(views(before)[k] == n);
                            assert(views(before)[at as int] == name@);
                        }
                        if views(before).contains(n) && n != name@ {
                            let k = views(before).index_of(n);
                            let j = if k < at { k } else { k - 1 };
                            assert(views(list@)[j] == n);
                        }
                    }
                    assert(views(list@).to_set() =~= views(before).to_set().remove(name@));
                    assert forall|i: int, j: int|
                        0 <= i < list@.len() && 0 <= j < list@.len() && i != j implies views(
                        list@,
                    )[i] != views(list@)[j] by {
                        let a = if i < at { i } else { i + 1 };
                        let b = if j < at { j } else { j + 1 };
                        assert(views(before)[a] != views(before)[b]);
                    }
                    assert(views(before)[at as int] == name@);
                }
                true
            },
            None => {
                assert(views(before).to_set().remove(name@) =~= views(before).to_set());
                false
            },
        };
        self.names = list;
        found
    }

    /// A set with the same members.
    pub fn copy(&self) -> (r: NameSet)
        ensures
            r@ == self@,
            r.order() == self.order(),
    {
        proof {
            use_type_invariant(self);
        }
        NameSet { names: copy_names(&self.names) }
    }

    /// Whether two sets have the same members.
    pub fn same_as(&self, other: &NameSet) -> (r: bool)
        ensures
            r == (self@ == other@),
    {
        let r = self.within(other) && other.within(self);
        assert(r ==> self@ =~= other@);
        r
    }

    /// Whether every member is a member of `other`.
    pub fn within(&self, other: &NameSet) -> (r: bool)
        ensures
            r == self@.subset_of(other@),
    {
        let mut i: usize = 0;
        while i < self.names.len()
            invariant
                i <= self.names@.len(),
                forall|j: int| 0 <= j < i ==> other@.contains(#[trigger] self.names@[j]@),
            decreases self.names@.len() - i,
        {
            if !other.contains(self.names[i].as_str()) {
                assert(views(self.names@)[i as int] == self.names@[i as int]@);
                assert(self@.contains(self.names@[i as int]@));
                return false;
            }
            i += 1;
        }
        assert forall|n: Seq<char>| self@.contains(n) implies other@.contains(n) by {
            let j = views(self.names@).index_of(n);
            assert(other@.contains(self.names@[j]@));
        }
        true
    }
}

/// The names that key a list of entries.
pub open spec fn keys_of<V>(entries: Seq<(String, V)>) -> Seq<Seq<char>> {
    Seq::new(entries.len(), |i: int| entries[i].0@)
}

/// The map that a list of entries with distinct keys stands for.
pub open spec fn map_of<V>(entries: Seq<(String, V)>) -> Map<Seq<char>, V> {
    Map::new(
        |k: Seq<char>| keys_of(entries).contains(k),
        |k: Seq<char>| entries[keys_of(entries).index_of(k)].1,
    )
}

/// A map from names to values.
#[derive(Debug)]
pub struct NameMap<V> {
    entries: Vec<(String, V)>,
}

impl<V> View for NameMap<V> {
    type V = Map<Seq<char>, V>;

    closed spec fn view(&self) -> Map<Seq<char>, V> {
        map_of(self.entries@)
    }
}

proof fn lemma_lookup<V>(entries: Seq<(String, V)>, i: int)
    requires
        keys_of(entries).no_duplicates(),
        0 <= i < entries.len(),
    ensures
        map_of(entries).contains_key(entries[i].0@),
        map_of(entries)[entries[i].0@] == entries[i].1,
{
    let keys = keys_of(entries);
    assert(keys[i] == entries[i].0@);
    let j = keys.index_of(entries[i].0@);
    assert(keys[j] == keys[i]);
}

impl<V> NameMap<V> {
    #[verifier::type_invariant]
    spec fn distinct(self) -> bool {
        keys_of(self.entries@).no_duplicates()
    }

    /// The keys in the order they were added.
    pub closed spec fn order(&self) -> Seq<Seq<char>> {
        keys_of(self.entries@)
    }

    /// The empty map.
    pub fn new() -> (r: NameMap<V>)
        ensures
            r@ == Map::<Seq<char>, V>::empty(),
            r.order() == Seq::<Seq<char>>::empty(),
    {
        let r = NameMap { entries: Vec::new() };
        assert(keys_of(r.entries@) =~= Seq::<Seq<char>>::empty());
        assert(r@ =~= Map::<Seq<char>, V>::empty());
        r
    }

    /// How many keys the map has.
    pub fn len(&self) -> (r: usize)
        ensures
            r == self.order().len(),
            self.order().no_duplicates(),
            self.order().to_set() == self@.dom(),
    {
        proof {
            use_type_invariant(self);
            assert(self.order().to_set() =~= self@.dom());
        }
        self.entries.len()
    }

    /// The key at a place in the order of insertion.
    pub fn key_at(&self, i: usize) -> (r: &String)
        requires
            i < self.order().len(),
        ensures
            r@ == self.order()[i as int],
            self@.contains_key(r@),
    {
        proof {
            use_type_invariant(self);
            lemma_lookup(self.entries@, i as int);
        }
        &self.entries[i].0
    }

    /// The value at a place in the order of insertion.
    pub fn value_at(&self, i: usize) -> (r: &V)
        requires
            i < self.order().len(),
        ensures
            self@.contains_key(self.order()[i as int]),
            *r == self@[self.order()[i as int]],
    {
        proof {
            use_type_invariant(self);
            lemma_lookup(self.entries@, i as int);
        }
        &self.entries[i].1
    }

    fn find(&self, name: &str) -> (r: Option<usize>)
        ensures
            match r {
                Some(at) => at < self.entries@.len() && self.entries@[at as int].0@ == name@,
                None => !keys_of(self.entries@).contains(name@),
            },
    {
        let mut i: usize = 0;
        while i < self.entries.len()
            invariant
                i <= self.entries@.len(),
                forall|j: int| 0 <= j < i ==> self.entries@[j].0@ != name@,
            decreases self.entries@.len() - i,
        {
            if same(self.entries[i].0.as_str(), name) {
                return Some(i);
            }
            i += 1;
        }
        None
    }

    /// Where `name` is in the order of insertion.
    pub fn place_of(&self, name: &str) -> (r: Option<usize>)
        ensures
            match r {
                Some(at) => at < self.order().len() && self.order()[at as int] == name@
                    && self@.contains_key(name@),
                None => !self@.contains_key(name@),
            },
    {
        let at = self.find(name);
        proof {
            if let Some(at) = at {
                assert(keys_of(self.entries@)[at as int] == name@);
            }
        }
        at
    }

    /// The value under `name`.
    pub fn get(&self, name: &str) -> (r: Option<&V>)
        ensures
            r is Some <==> self@.contains_key(name@),
            r matches Some(v) ==> *v == self@[name@],
    {
        proof {
            use_type_invariant(self);
        }
        match self.find(name) {
            Some(at) => {
                proof {
                    lemma_lookup(self.entries@, at as int);
                }
                Some(&self.entries[at].1)
            },
            None => None,
        }
    }

    /// Whether there is a value under `name`.
    pub fn contains_key(&self, name: &str) -> (r: bool)
        ensures
            r == self@.contains_key(name@),
    {
        self.get(name).is_some()
    }

    /// Puts `value` under `name`, over what was there.
    pub fn insert(&mut self, name: String, value: V)
        ensures
            final(self)@ == old(self)@.insert(name@, value),
            final(self).order() == (if old(self)@.contains_key(name@) {
                old(self).order()
            } else {
                old(self).order().push(name@)
            }),
    {
        proof {
            use_type_invariant(&*self);
        }
        let at = self.find(name.as_str());
        let mut list: Vec<(String, V)> = Vec::new();
        std::mem::swap(&mut list, &mut self.entries);
        let ghost before = list@;
        let ghost key = name@;
        match at {
            Some(at) => {
                list.set(at, (name, value));
                proof {
                    assert(keys_of(list@) =~= keys_of(before));
                    assert(keys_of(before)[at as int] == key);
                    assert forall|k: Seq<char>| #[trigger]
                        map_of(list@).contains_key(k) implies map_of(list@)[k] == map_of(
                        before,
                    ).insert(key, value)[k] by {
                        let i = keys_of(list@).index_of(k);
                        assert(keys_of(list@)[i] == k);
                        lemma_lookup(list@, i);
                        lemma_lookup(before, i);
                    }
                    assert(map_of(list@) =~= map_of(before).insert(key, value));
                }
            },
            None => {
                list.push((name, value));
                proof {
                    assert(keys_of(list@) =~= keys_of(before).push(key));
                    let n = before.len() as int;
                    assert forall|k: Seq<char>|
                        keys_of(list@).contains(k) <==> keys_of(before).contains(k) || k == key by {
                        assert(keys_of(list@)[n] == key);
                        if keys_of(before).contains(k) {
                            let i = keys_of(before).index_of(k);
                            assert(keys_of(list@)[i] == k);
                        }
                        if keys_of(list@).contains(k) {
                            let i = keys_of(list@).index_of(k);
                            if i < n {
                                assert(keys_of(before)[i] == k);
                            }
                        }
                    }
                    assert forall|k: Seq<char>| #[trigger]
                        map_of(list@).contains_key(k) implies map_of(list@)[k] == map_of(
                        before,
                    ).insert(key, value)[k] by {
                        let i = keys_of(list@).index_of(k);
                        assert(keys_of(list@)[i] == k);
                        lemma_lookup(list@, i);
                        if i < n {
                            assert(keys_of(before)[i] == k);
                            lemma_lookup(before, i);
                        }
                    }
                    assert(map_of(list@) =~= map_of(before).insert(key, value));
                }
            },
        }
        self.entries = list;
    }

    /// Exchanges the value at a place in the order of insertion for another.
    pub fn swap_at(&mut self, i: usize, value: &mut V)
        requires
            i < old(self).order().len(),
        ensures
            old(self)@.contains_key(old(self).order()[i as int]),
            *final(value) == old(self)@[old(self).order()[i as int]],
            final(self)@ == old(self)@.insert(old(self).order()[i as int], *old(value)),
            final(self).order() == old(self).order(),
    {
        proof {
            use_type_invariant(&*self);
            lemma_lookup(self.entries@, i as int);
        }
        let mut list: Vec<(String, V)> = Vec::new();
        std::mem::swap(&mut list, &mut self.entries);
        let ghost before = list@;
        let ghost put = *value;
        let ghost key = before[i as int].0@;
        let name = list[i].0.clone();
        let mut entry = list.remove(i);
        std::mem::swap(&mut entry.1, value);
        list.insert(i, (name, entry.1));
        proof {
            assert(list@ =~= before.update(i as int, list@[i as int]));
            assert(keys_of(list@) =~= keys_of(before));
            assert(keys_of(before)[i as int] == key);
            assert(list@[i as int].1 == put);
            assert forall|k: Seq<char>| #[trigger]
                map_of(list@).contains_key(k) implies map_of(list@)[k] == map_of(before).insert(
                key,
                put,
            )[k] by {
                let j = keys_of(list@).index_of(k);
                assert(keys_of(list@)[j] == k);
                lemma_lookup(list@, j);
                lemma_lookup(before, j);
            }
            assert(map_of(list@) =~= map_of(before).insert(key, put));
        }
        self.entries = list;
    }

    /// Takes out what is under `name`.
    pub fn remove(&mut self, name: &str)
        ensures
            final(self)@ == old(self)@.remove(name@),
    {
        proof {
            use_type_invariant(&*self);
        }
        let at = self.find(name);
        let mut list: Vec<(String, V)> = Vec::new();
        std::mem::swap(&mut list, &mut self.entries);
        let ghost before = list@;
        match at {
            Some(at) => {
                let _gone = list.remove(at);
                proof {
                    assert(list@ =~= before.remove(at as int));
                    let from = |j: int| if j < at { j } else { j + 1 };
                    assert forall|j: int| 0 <= j < list@.len() implies list@[j] == before[(from)(
                        j,
                    )] by {}
                    assert(keys_of(before)[at as int] == name@);
                    assert forall|i: int, j: int|
                        0 <= i < list@.len() && 0 <= j < list@.len() && i != j implies keys_of(
                        list@,
                    )[i] != keys_of(list@)[j] by {
                        assert(keys_of(before)[(from)(i)] != keys_of(before)[(from)(j)]);
                    }
                    assert forall|k: Seq<char>|
                        keys_of(list@).contains(k) <==> keys_of(before).contains(k) && k != name@ by {
                        if keys_of(list@).contains(k) {
                            let j = keys_of(list@).index_of(k);
                            assert(keys_of(before)[(from)(j)] == k);
                        }
                        if keys_of(before).contains(k) && k != name@ {
                            let i = keys_of(before).index_of(k);
                            let j = if i < at { i } else { i - 1 };
                            assert(keys_of(list@)[j] == k);
                        }
                    }
                    assert forall|k: Seq<char>| #[trigger]
                        map_of(list@).contains_key(k) implies map_of(list@)[k] == map_of(
                        before,
                    ).remove(name@)[k] by {
                        let j = keys_of(list@).index_of(k);
                        assert(keys_of(list@)[j] == k);
                        lemma_lookup(list@, j);
                        lemma_lookup(before, (from)(j));
                    }
                    assert forall|k: Seq<char>| #[trigger]
                        map_of(list@).dom().contains(k) == map_of(before).remove(
                            name@,
                        ).dom().contains(k) by {
                        assert(map_of(list@).dom().contains(k) == keys_of(list@).contains(k));
                        assert(map_of(before).dom().contains(k) == keys_of(before).contains(k));
                    }
                    assert(map_of(list@).dom() =~= map_of(before).remove(name@).dom());
                    assert(map_of(list@) =~= map_of(before).remove(name@));
                }
            },
            None => {
                assert(map_of(before).remove(name@) =~= map_of(before));
            },
        }
        self.entries = list;
    }
}

/// Names in strictly ascending order: sorted, and none twice.
pub open spec fn strictly_sorted(names: Seq<Seq<char>>) -> bool {
    forall|i: int, j: int| 0 <= i < j < names.len() ==> text_before(names[i], names[j])
}

/// A strictly sorted list repeats nothing.
pub proof fn lemma_sorted_distinct(names: Seq<Seq<char>>)
    requires
        strictly_sorted(names),
    ensures
        names.no_duplicates(),
{
    assert forall|i: int, j: int|
        0 <= i < names.len() && 0 <= j < names.len() && i != j implies names[i] != names[j] by {
        if i < j {
            lemma_text_order_total(names[i], names[j]);
        } else {
            lemma_text_order_total(names[j], names[i]);
        }
    }
}

/// Puts a name in its place in a sorted list, unless it is there already. Says
/// whether it was new.
pub fn insert_sorted(names: &mut Vec<String>, name: &str) -> (r: bool)
    requires
        strictly_sorted(views(old(names)@)),
    ensures
        strictly_sorted(views(final(names)@)),
        views(final(names)@).to_set() == views(old(names)@).to_set().insert(name@),
        r == !views(old(names)@).contains(name@),
        !r ==> views(final(names)@) == views(old(names)@),
{
    let ghost before = views(names@);
    let mut at: usize = 0;
    while at < names.len() && comes_before(names[at].as_str(), name)
        invariant
            at <= names@.len(),
            views(names@) == before,
            forall|i: int| 0 <= i < at ==> text_before(#[trigger] before[i], name@),
        decreases names@.len() - at,
    {
        assert(before[at as int] == names@[at as int]@);
        at += 1;
    }
    if at < names.len() && same(names[at].as_str(), name) {
        proof {
            assert(before[at as int] == name@);
            assert(before.to_set().insert(name@) =~= before.to_set());
        }
        return false;
    }
    proof {
        assert forall|i: int| 0 <= i < before.len() implies before[i] != name@ by {
            if i < at {
                lemma_text_order_total(before[i], name@);
            } else {
                assert(before[at as int] == names@[at as int]@);
                lemma_text_order_total(before[at as int], name@);
                if i > at {
                    assert(text_before(before[at as int], before[i]));
                    lemma_text_order_transitive(name@, before[at as int], before[i]);
                    lemma_text_order_total(name@, before[i]);
                }
            }
        }
    }
    names.insert(at, name.to_owned());
    proof {
        let after = views(names@);
        assert(after =~= before.insert(at as int, name@));
        assert forall|i: int, j: int| 0 <= i < j < after.len() implies text_before(
            after[i],
            after[j],
        ) by {
            if at < before.len() {
                assert(before[at as int] == after[at + 1]);
                lemma_text_order_total(before[at as int], name@);
            }
            if i < at && j > at {
                assert(text_before(before[i], before[j - 1]));
            } else if i == at {
                if j - 1 > at {
                    assert(text_before(before[at as int], before[j - 1]));
                    lemma_text_order_transitive(name@, before[at as int], before[j - 1]);
                }
            } else if i > at {
                assert(text_before(before[i - 1], before[j - 1]));
            } else if j < at {
                assert(text_before(before[i], before[j]));
            }
        }
        assert forall|n: Seq<char>|
            after.contains(n) <==> before.contains(n) || n == name@ by {
            assert(after[at as int] == name@);
            if before.contains(n) {
                let i = before.index_of(n);
                assert(after[if i < at { i } else { i + 1 }] == n);
            }
            if after.contains(n) {
                let i = after.index_of(n);
                if i < at {
                    assert(before[i] == n);
                } else if i > at {
                    assert(before[i - 1] == n);
                }
            }
        }
        assert(after.to_set() =~= before.to_set().insert(name@));
    }
    true
}

/// A list of names sorted, with each name once.
pub fn sorted_names(names: &Vec<String>) -> (r: Vec<String>)
    ensures
        strictly_sorted(views(r@)),
        views(r@).to_set() == views(names@).to_set(),
{
    let mut out: Vec<String> = Vec::new();
    let mut i: usize = 0;
    let ghost all = views(names@);
    proof {
        assert(views(out@) =~= Seq::<Seq<char>>::empty());
        assert(all.take(0).to_set() =~= views(out@).to_set());
    }
    while i < names.len()
        invariant
            i <= names@.len(),
            all == views(names@),
            strictly_sorted(views(out@)),
            views(out@).to_set() == all.take(i as int).to_set(),
        decreases names@.len() - i,
    {
        let _new = insert_sorted(&mut out, names[i].as_str());
        proof {
            lemma_take_set(all, i as int);
        }
        i += 1;
    }
    assert(all.take(names@.len() as int) =~= all);
    out
}

/// The set of one more element of a list.
pub proof fn lemma_take_set(all: Seq<Seq<char>>, i: int)
    requires
        0 <= i < all.len(),
    ensures
        all.take(i + 1).to_set() == all.take(i).to_set().insert(all[i]),
{
    assert forall|n: Seq<char>| all.take(i + 1).contains(n) <==> all.take(i).contains(n) || n
        == all[i] by {
        if all.take(i + 1).contains(n) {
            let j = all.take(i + 1).index_of(n);
            if j < i {
                assert(all.take(i)[j] == n);
            }
        }
        if all.take(i).contains(n) {
            let j = all.take(i).index_of(n);
            assert(all.take(i + 1)[j] == n);
        }
        assert(all.take(i + 1)[i] == all[i]);
    }
    assert forall|n: Seq<char>| #[trigger]
        all.take(i + 1).to_set().contains(n) == all.take(i).to_set().insert(all[i]).contains(n) by {
        assert(all.take(i + 1).contains(n) == (all.take(i).contains(n) || n == all[i]));
    }
    assert(all.take(i + 1).to_set() =~= all.take(i).to_set().insert(all[i]));
}

/// Two strictly sorted lists of the same names are the same list.
pub proof fn sorted_names_are_unique(a: Seq<Seq<char>>, b: Seq<Seq<char>>)
    requires
        strictly_sorted(a),
        strictly_sorted(b),
        a.to_set() == b.to_set(),
    ensures
        a == b,
    decreases a.len(),
{
    if a.len() == 0 {
        if b.len() > 0 {
            assert(b.contains(b[0]));
            assert(a.to_set().contains(b[0]));
        }
        assert(a =~= b);
    } else {
        assert(a.contains(a[a.len() - 1]));
        assert(b.to_set().contains(a.last()));
        let j = b.index_of(a.last());
        assert(b.contains(b.last()));
        assert(a.to_set().contains(b.last()));
        let i = a.index_of(b.last());
        if a.last() != b.last() {
            assert(text_before(a[i], a[a.len() - 1]));
            assert(text_before(b[j], b[b.len() - 1]));
            lemma_text_order_total(a.last(), b.last());
        }
        lemma_sorted_distinct(a);
        lemma_sorted_distinct(b);
        let x = a.drop_last();
        let y = b.drop_last();
        assert forall|n: Seq<char>| x.contains(n) <==> y.contains(n) by {
            if x.contains(n) {
                let k = x.index_of(n);
                assert(a[k] == n);
                assert(a.to_set().contains(n));
                assert(b.to_set().contains(n));
                let m = b.index_of(n);
                if m == b.len() - 1 {
                    assert(a[k] != a[a.len() - 1]);
                }
                assert(y[m] == n);
            }
            if y.contains(n) {
                let k = y.index_of(n);
                assert(b[k] == n);
                assert(b.to_set().contains(n));
                assert(a.to_set().contains(n));
                let m = a.index_of(n);
                if m == a.len() - 1 {
                    assert(b[k] != b[b.len() - 1]);
                }
                assert(x[m] == n);
            }
        }
        assert(x.to_set() =~= y.to_set());
        sorted_names_are_unique(x, y);
        assert(a =~= x.push(a.last()));
        assert(b =~= y.push(b.last()));
    }
}

} // verus!
