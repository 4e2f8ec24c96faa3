//! A map from texts to values that keeps the order in which names came in.

use vstd::prelude::*;
use vstd::string::*;
use crate::text::same_text;

verus! {

/// Whether no name occurs twice.
pub open spec fn distinct_names<V>(items: Seq<(String, V)>) -> bool {
    forall|i: int, j: int|
        0 <= i < j < items.len() ==> (#[trigger] items[i]).0@ != (#[trigger] items[j]).0@
}

/// Whether `items[i]` is the item with this name.
pub open spec fn is_named<V>(items: Seq<(String, V)>, name: Seq<char>, i: int) -> bool {
    0 <= i < items.len() && items[i].0@ == name
}

/// Whether one of the items has this name.
pub open spec fn has_name<V>(items: Seq<(String, V)>, name: Seq<char>) -> bool {
    exists|i: int| is_named(items, name, i)
}

/// Where the item with this name stands.
pub open spec fn index_of<V>(items: Seq<(String, V)>, name: Seq<char>) -> int {
    choose|i: int| is_named(items, name, i)
}

/// What the items stand for: each name with the view of its value.
pub open spec fn map_of<V: View>(items: Seq<(String, V)>) -> Map<Seq<char>, V::V> {
    Map::new(
        |name: Seq<char>| has_name(items, name),
        |name: Seq<char>| items[index_of(items, name)].1@,
    )
}

/// The item at `i` is what its name stands for.
pub proof fn lemma_item<V: View>(items: Seq<(String, V)>, i: int)
    requires
        distinct_names(items),
        0 <= i < items.len(),
    ensures
        map_of(items).contains_key(items[i].0@),
        map_of(items)[items[i].0@] == items[i].1@,
        index_of(items, items[i].0@) == i,
{
    assert(is_named(items, items[i].0@, i));
    let k = index_of(items, items[i].0@);
    assert(is_named(items, items[i].0@, k));
    if k != i {
        assert(items[k].0@ != items[i].0@);
    }
}

proof fn lemma_set<V: View>(items: Seq<(String, V)>, i: int, item: (String, V))
    requires
        distinct_names(items),
        0 <= i < items.len(),
        item.0@ == items[i].0@,
    ensures
        distinct_names(items.update(i, item)),
        map_of(items.update(i, item)) == map_of(items).insert(item.0@, item.1@),
{
    let after = items.update(i, item);
    assert forall|a: int, b: int| 0 <= a < b < after.len() implies (#[trigger] after[a]).0@ != (
    #[trigger] after[b]).0@ by {
        assert(items[a].0@ != items[b].0@);
    }
    let want = map_of(items).insert(item.0@, item.1@);
    assert forall|name: Seq<char>| map_of(after).contains_key(name) == want.contains_key(name) by {
        if has_name(after, name) {
            let k = index_of(after, name);
            assert(is_named(items, name, k));
        }
        if has_name(items, name) {
            let k = index_of(items, name);
            assert(is_named(after, name, k));
        }
        assert(is_named(after, item.0@, i));
    }
    assert forall|name: Seq<char>| map_of(after).contains_key(name) implies map_of(after)[name]
        == want[name] by {
        let k = index_of(after, name);
        assert(is_named(after, name, k));
        lemma_item(after, k);
        lemma_item(items, k);
        lemma_item(after, i);
    }
    assert(map_of(after) =~= want);
}

proof fn lemma_push<V: View>(items: Seq<(String, V)>, item: (String, V))
    requires
        distinct_names(items),
        !has_name(items, item.0@),
    ensures
        distinct_names(items.push(item)),
        map_of(items.push(item)) == map_of(items).insert(item.0@, item.1@),
{
    let after = items.push(item);
    assert forall|a: int, b: int| 0 <= a < b < after.len() implies (#[trigger] after[a]).0@ != (
    #[trigger] after[b]).0@ by {
        if b == items.len() {
            if items[a].0@ == item.0@ {
                assert(is_named(items, item.0@, a));
            }
        } else {
            assert(items[a].0@ != items[b].0@);
        }
    }
    let want = map_of(items).insert(item.0@, item.1@);
    assert(is_named(after, item.0@, items.len() as int));
    assert forall|name: Seq<char>| map_of(after).contains_key(name) == want.contains_key(name) by {
        if has_name(after, name) {
            let k = index_of(after, name);
            assert(is_named(after, name, k));
            if k < items.len() {
                assert(is_named(items, name, k));
            }
        }
        if has_name(items, name) {
            let k = index_of(items, name);
            assert(is_named(after, name, k));
        }
    }
    assert forall|name: Seq<char>| map_of(after).contains_key(name) implies map_of(after)[name]
        == want[name] by {
        let k = index_of(after, name);
        assert(is_named(after, name, k));
        lemma_item(after, k);
        if k < items.len() {
            lemma_item(items, k);
            assert(name != item.0@);
        }
    }
    assert(map_of(after) =~= want);
}

/// A map from texts to values.
pub struct Table<V> {
    entries: Vec<(String, V)>,
}

impl<V: View> View for Table<V> {
    type V = Map<Seq<char>, V::V>;

    open spec fn view(&self) -> Map<Seq<char>, V::V> {
        map_of(self.items())
    }
}

impl<V> Table<V> {
    /// The names and values, in the order in which the names came in.
    pub closed spec fn items(&self) -> Seq<(String, V)> {
        self.entries@
    }

    #[verifier::type_invariant]
    spec fn names_distinct(&self) -> bool {
        distinct_names(self.entries@)
    }

    /// The number of names. No name occurs twice.
    pub fn len(&self) -> (n: usize)
        ensures
            n == self.items().len(),
            distinct_names(self.items()),
    {
        proof {
            use_type_invariant(self);
        }
        self.entries.len()
    }

    /// Whether there is no name.
    pub fn is_empty(&self) -> (b: bool)
        ensures
            b == (self.items().len() == 0),
    {
        self.entries.len() == 0
    }

    /// The name at position `i`.
    pub fn name_at(&self, i: usize) -> (s: &str)
        requires
            i < self.items().len(),
        ensures
            s@ == self.items()[i as int].0@,
    {
        self.entries[i].0.as_str()
    }

    /// The value at position `i`.
    pub fn value_at(&self, i: usize) -> (v: &V)
        requires
            i < self.items().len(),
        ensures
            *v == self.items()[i as int].1,
    {
        &self.entries[i].1
    }
}

impl<V: View> Table<V> {
    /// The table without names.
    pub fn new() -> (t: Table<V>)
        ensures
            t.items().len() == 0,
            t@ == Map::<Seq<char>, V::V>::empty(),
    {
        let t: Table<V> = Table { entries: Vec::new() };
        assert(map_of(t.items()) =~= Map::<Seq<char>, V::V>::empty());
        t
    }

    /// Where `name` stands.
    pub fn position(&self, name: &str) -> (r: Option<usize>)
        ensures
            match r {
                Some(i) => {
                    &&& i < self.items().len()
                    &&& self.items()[i as int].0@ == name@
                    &&& self@.contains_key(name@)
                    &&& self@[name@] == self.items()[i as int].1@
                },
                None => !self@.contains_key(name@) && !has_name(self.items(), name@),
            },
    {
        proof {
            use_type_invariant(self);
        }
        let mut i: usize = 0;
        while i < self.entries.len()
            invariant
                i <= self.entries@.len(),
                distinct_names(self.entries@),
                forall|k: int| 0 <= k < i ==> (#[trigger] self.entries@[k]).0@ != name@,
            decreases self.entries@.len() - i,
        {
            if same_text(self.entries[i].0.as_str(), name) {
                proof {
                    lemma_item(self.entries@, i as int);
                }
                return Some(i);
            }
            i = i + 1;
        }
        assert forall|k: int| !is_named(self.entries@, name@, k) by {}
        None
    }

    /// The value of `name`.
    pub fn get(&self, name: &str) -> (r: Option<&V>)
        ensures
            match r {
                Some(v) => self@.contains_key(name@) && v@ == self@[name@],
                None => !self@.contains_key(name@),
            },
    {
        match self.position(name) {
            Some(i) => Some(self.value_at(i)),
            None => None,
        }
    }

    /// Gives `name` the value `value`.
    pub fn insert(&mut self, name: String, value: V)
        ensures
            final(self)@ == old(self)@.insert(name@, value@),
    {
        proof {
            use_type_invariant(&*self);
        }
        let at = self.position(name.as_str());
        let mut entries: Vec<(String, V)> = Vec::new();
        std::mem::swap(&mut entries, &mut self.entries);
        match at {
            Some(i) => {
                proof {
                    lemma_set(entries@, i as int, (name, value));
                }
                entries.set(i, (name, value));
            },
            None => {
                proof {
                    lemma_push(entries@, (name, value));
                }
                entries.push((name, value));
            },
        }
        self.entries = entries;
    }

    /// Puts `value` at position `i`, and gives back what stood there.
    pub fn replace_at(&mut self, i: usize, value: V) -> (before: V)
        requires
            i < old(self).items().len(),
        ensures
            before == old(self).items()[i as int].1,
            final(self)@ == old(self)@.insert(old(self).items()[i as int].0@, value@),
    {
        proof {
            use_type_invariant(&*self);
        }
        let mut entries: Vec<(String, V)> = Vec::new();
        std::mem::swap(&mut entries, &mut self.entries);
        let ghost all = entries@;
        let (name, before) = entries.remove(i);
        proof {
            lemma_set(all, i as int, (name, value));
        }
        entries.insert(i, (name, value));
        assert(entries@ =~= all.update(i as int, (name, value)));
        self.entries = entries;
        before
    }
}

} // verus!
