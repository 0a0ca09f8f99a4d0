//! A map from names to values that remembers in which order the names
//! came, so that its entries can be listed.

use crate::text::str_eq;
use vstd::hash_map::StringHashMap;
use vstd::prelude::*;

verus! {

/// The names of `order` without `exclude`, in the order they have there.
pub open spec fn others(order: Seq<Seq<char>>, exclude: Seq<char>) -> Seq<Seq<char>> {
    order.filter(|name: Seq<char>| name != exclude)
}

/// `order` lists the keys of `entries`, each of them once.
pub open spec fn lists_keys<V>(order: Seq<Seq<char>>, entries: Map<Seq<char>, V>) -> bool {
    &&& order.no_duplicates()
    &&& forall|name: Seq<char>| order.contains(name) <==> entries.contains_key(name)
}

/// Entering a key keeps the list in step: a new key goes to its end, a key
/// that is there keeps its place.
pub proof fn lemma_lists_keys_insert<V>(
    order: Seq<Seq<char>>,
    entries: Map<Seq<char>, V>,
    name: Seq<char>,
    value: V,
)
    requires
        lists_keys(order, entries),
    ensures
        entries.contains_key(name) ==> lists_keys(order, entries.insert(name, value)),
        !entries.contains_key(name) ==> lists_keys(order.push(name), entries.insert(name, value)),
{
    if !entries.contains_key(name) {
        let longer = order.push(name);
        assert forall|i: int, j: int| 0 <= i < longer.len() && 0 <= j < longer.len() && i != j
            implies longer[i] != longer[j] by {
            if i < order.len() {
                assert(order.contains(longer[i]));
            }
            if j < order.len() {
                assert(order.contains(longer[j]));
            }
        }
        assert forall|other: Seq<char>| longer.contains(other) <==> entries.insert(
            name,
            value,
        ).contains_key(other) by {
            if longer.contains(other) {
                let i = choose|i: int| 0 <= i < longer.len() && longer[i] == other;
                if i < order.len() {
                    assert(order.contains(other));
                }
            }
            if other == name {
                assert(longer[order.len() as int] == name);
            } else if entries.contains_key(other) {
                assert(order.contains(other));
                let i = choose|i: int| 0 <= i < order.len() && order[i] == other;
                assert(longer[i] == other);
            }
        }
    }
}

/// What `others` keeps: exactly the names that differ from `exclude`, each
/// as often as before.
pub proof fn lemma_others(order: Seq<Seq<char>>, exclude: Seq<char>)
    ensures
        forall|name: Seq<char>|
            others(order, exclude).contains(name) <==> (order.contains(name) && name != exclude),
        order.no_duplicates() ==> others(order, exclude).no_duplicates(),
        !order.contains(exclude) ==> others(order, exclude) == order,
    decreases order.len(),
{
    reveal(Seq::filter);
    if order.len() == 0 {
        assert(others(order, exclude) =~= order);
    } else {
        let init = order.drop_last();
        let last = order.last();
        let kept = others(init, exclude);
        lemma_others(init, exclude);
        assert(order =~= init.push(last));
        assert forall|name: Seq<char>| order.contains(name) <==> (init.contains(name) || name
            == last) by {
            if order.contains(name) {
                let i = choose|i: int| 0 <= i < order.len() && order[i] == name;
                if i < init.len() {
                    assert(init[i] == name);
                }
            }
            if init.contains(name) {
                let i = choose|i: int| 0 <= i < init.len() && init[i] == name;
                assert(order[i] == name);
            }
            if name == last {
                assert(order[order.len() - 1] == name);
            }
        }
        if last != exclude {
            let all = kept.push(last);
            assert(others(order, exclude) == all);
            assert forall|name: Seq<char>| all.contains(name) <==> (kept.contains(name) || name
                == last) by {
                if all.contains(name) {
                    let i = choose|i: int| 0 <= i < all.len() && all[i] == name;
                    if i < kept.len() {
                        assert(kept[i] == name);
                    }
                }
                if kept.contains(name) {
                    let i = choose|i: int| 0 <= i < kept.len() && kept[i] == name;
                    assert(all[i] == name);
                }
                if name == last {
                    assert(all[all.len() - 1] == name);
                }
            }
            if order.no_duplicates() {
                assert(init.no_duplicates());
                assert(!init.contains(last)) by {
                    if init.contains(last) {
                        let i = choose|i: int| 0 <= i < init.len() && init[i] == last;
                        assert(order[i] == order[order.len() - 1]);
                    }
                }
                assert forall|i: int, j: int| 0 <= i < all.len() && 0 <= j < all.len() && i != j
                    implies all[i] != all[j] by {
                    if i < kept.len() {
                        assert(kept.contains(all[i]));
                    }
                    if j < kept.len() {
                        assert(kept.contains(all[j]));
                    }
                }
            }
            if !order.contains(exclude) {
                assert(others(order, exclude) =~= order);
            }
        } else {
            assert(others(order, exclude) == kept);
            if order.no_duplicates() {
                assert(init.no_duplicates());
            }
        }
    }
}

/// Taking a key out keeps the list in step, once the key is left out of
/// the list too.
pub proof fn lemma_lists_keys_remove<V>(
    order: Seq<Seq<char>>,
    entries: Map<Seq<char>, V>,
    name: Seq<char>,
)
    requires
        lists_keys(order, entries),
    ensures
        lists_keys(others(order, name), entries.remove(name)),
{
    lemma_others(order, name);
    assert forall|other: Seq<char>| others(order, name).contains(other) <==> entries.remove(
        name,
    ).contains_key(other) by {
        assert(order.contains(other) <==> entries.contains_key(other));
    }
}

/// Leaving out the name at index `i` of a list without repetitions is
/// taking that one place out of it.
pub proof fn lemma_others_is_remove(order: Seq<Seq<char>>, i: int)
    requires
        order.no_duplicates(),
        0 <= i < order.len(),
    ensures
        others(order, order[i]) == order.remove(i),
    decreases order.len(),
{
    reveal(Seq::filter);
    let init = order.drop_last();
    let last = order.last();
    let exclude = order[i];
    if i == order.len() - 1 {
        assert(!init.contains(exclude)) by {
            if init.contains(exclude) {
                let j = choose|j: int| 0 <= j < init.len() && init[j] == exclude;
                assert(order[j] == order[i]);
            }
        }
        lemma_others(init, exclude);
        assert(order.remove(i) =~= init);
    } else {
        assert(init.no_duplicates());
        assert(init[i] == exclude);
        lemma_others_is_remove(init, i);
        assert(last != exclude);
        assert(order.remove(i) =~= init.remove(i).push(last));
    }
}

/// One more name of the list is looked at: it is kept unless it is the
/// excluded one.
pub proof fn lemma_others_step(order: Seq<Seq<char>>, i: int, exclude: Seq<char>)
    requires
        0 <= i < order.len(),
    ensures
        others(order.take(i + 1), exclude) == if order[i] != exclude {
            others(order.take(i), exclude).push(order[i])
        } else {
            others(order.take(i), exclude)
        },
{
    reveal(Seq::filter);
    assert(order.take(i + 1).drop_last() =~= order.take(i));
}

/// A map from names to values. A name has at most one value; the names
/// are listed in the order in which they were first entered.
#[verifier::reject_recursive_types(V)]
pub struct NameMap<V> {
    names: Vec<String>,
    values: StringHashMap<V>,
}

impl<V> View for NameMap<V> {
    type V = Map<Seq<char>, V>;

    closed spec fn view(&self) -> Map<Seq<char>, V> {
        self.values@
    }
}

impl<V> NameMap<V> {
    /// The names, in the order in which they were first entered.
    pub closed spec fn order(&self) -> Seq<Seq<char>> {
        self.names@.map_values(|name: String| name@)
    }

    /// The map is well formed: `order` lists its names, each once. Every
    /// map that this module hands out is.
    pub open spec fn wf(&self) -> bool {
        lists_keys(self.order(), self@)
    }

    /// A map without entries.
    pub fn new() -> (map: Self)
        ensures
            map.wf(),
            map@ == Map::<Seq<char>, V>::empty(),
            map.order() == Seq::<Seq<char>>::empty(),
    {
        let map = NameMap { names: Vec::new(), values: StringHashMap::new() };
        assert(map.order() =~= Seq::<Seq<char>>::empty());
        map
    }

    /// Enters `value` under `name`. A value that the name already had is
    /// overwritten, and the name keeps its place in the order.
    pub fn insert(&mut self, name: String, value: V)
        requires
            old(self).wf(),
        ensures
            final(self).wf(),
            final(self)@ == old(self)@.insert(name@, value),
            final(self).order() == if old(self)@.contains_key(name@) {
                old(self).order()
            } else {
                old(self).order().push(name@)
            },
    {
        if !self.values.contains_key(name.as_str()) {
            self.names.push(name.clone());
            assert(self.order() =~= old(self).order().push(name@));
        }
        self.values.insert(name, value);
        proof {
            lemma_lists_keys_insert(old(self).order(), old(self)@, name@, value);
        }
    }

    /// Takes the entry of `name` out; without one, nothing changes.
    pub fn remove(&mut self, name: &str)
        requires
            old(self).wf(),
        ensures
            final(self).wf(),
            final(self)@ == old(self)@.remove(name@),
            final(self).order() == others(old(self).order(), name@),
    {
        proof {
            lemma_others(self.order(), name@);
            lemma_lists_keys_remove(self.order(), self@, name@);
        }
        if self.values.contains_key(name) {
            let mut i: usize = 0;
            while i < self.names.len() && !str_eq(self.names[i].as_str(), name)
                invariant
                    0 <= i <= self.names.len(),
                    *self == *old(self),
                    forall|j: int| 0 <= j < i ==> self.order()[j] != name@,
                decreases self.names.len() - i,
            {
                i = i + 1;
            }
            proof {
                assert(self.order().contains(name@));
                assert(i < self.names.len());
                assert(self.order()[i as int] == name@);
                lemma_others_is_remove(self.order(), i as int);
            }
            self.names.remove(i);
            assert(self.order() =~= old(self).order().remove(i as int));
            self.values.remove(name);
        } else {
            assert(self@.remove(name@) =~= self@);
        }
    }

    /// How many names have a value.
    pub fn len(&self) -> (count: usize)
        ensures
            count == self.order().len(),
    {
        self.names.len()
    }

    /// Every entry but that of `exclude`: each name with its value, in the
    /// order of the names.
    pub fn entries_except<'a>(&'a self, exclude: &str) -> (targets: Vec<(&'a str, &'a V)>)
        requires
            self.wf(),
        ensures
            targets.len() == others(self.order(), exclude@).len(),
            forall|i: int|
                0 <= i < targets.len() ==> {
                    &&& (#[trigger] targets[i]).0@ == others(self.order(), exclude@)[i]
                    &&& self@.contains_key(targets[i].0@)
                    &&& *targets[i].1 == self@[targets[i].0@]
                },
    {
        let mut targets: Vec<(&'a str, &'a V)> = Vec::new();
        let mut i: usize = 0;
        while i < self.names.len()
            invariant
                self.wf(),
                0 <= i <= self.names.len(),
                targets.len() == others(self.order().take(i as int), exclude@).len(),
                forall|k: int|
                    0 <= k < targets.len() ==> {
                        &&& (#[trigger] targets[k]).0@ == others(
                            self.order().take(i as int),
                            exclude@,
                        )[k]
                        &&& self@.contains_key(targets[k].0@)
                        &&& *targets[k].1 == self@[targets[k].0@]
                    },
            decreases self.names.len() - i,
        {
            let name = self.names[i].as_str();
            proof {
                lemma_others_step(self.order(), i as int, exclude@);
                assert(self.order()[i as int] == name@);
                assert(self.order().contains(name@));
            }
            if !str_eq(name, exclude) {
                match self.values.get(name) {
                    Some(value) => {
                        targets.push((name, value));
                    },
                    None => {
                        assert(false);
                    },
                }
            }
            i = i + 1;
        }
        assert(self.order().take(i as int) =~= self.order());
        targets
    }

    /// Every entry: each name with its value, in the order of the names.
    pub fn entries<'a>(&'a self) -> (all: Vec<(&'a str, &'a V)>)
        requires
            self.wf(),
        ensures
            all.len() == self.order().len(),
            forall|i: int|
                0 <= i < all.len() ==> {
                    &&& (#[trigger] all[i]).0@ == self.order()[i]
                    &&& self@.contains_key(all[i].0@)
                    &&& *all[i].1 == self@[all[i].0@]
                },
    {
        let mut all: Vec<(&'a str, &'a V)> = Vec::new();
        let mut i: usize = 0;
        while i < self.names.len()
            invariant
                self.wf(),
                0 <= i <= self.names.len(),
                all.len() == i,
                forall|k: int|
                    0 <= k < i ==> {
                        &&& (#[trigger] all[k]).0@ == self.order()[k]
                        &&& self@.contains_key(all[k].0@)
                        &&& *all[k].1 == self@[all[k].0@]
                    },
            decreases self.names.len() - i,
        {
            let name = self.names[i].as_str();
            proof {
                assert(self.order()[i as int] == name@);
                assert(self.order().contains(name@));
            }
            match self.values.get(name) {
                Some(value) => {
                    all.push((name, value));
                },
                None => {
                    assert(false);
                },
            }
            i = i + 1;
        }
        all
    }

    /// The value entered under `name`, if there is one.
    pub fn get(&self, name: &str) -> (value: Option<&V>)
        ensures
            match value {
                Some(v) => self@.contains_key(name@) && *v == self@[name@],
                None => !self@.contains_key(name@),
            },
    {
        self.values.get(name)
    }
}

} // verus!
