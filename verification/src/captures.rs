//! The mapping from capture names to captured text.

use vstd::prelude::*;

verus! {

/// The mapping that a list of bindings stands for: a later binding of a name
/// replaces an earlier one.
pub open spec fn bindings_map(entries: Seq<(String, String)>) -> Map<Seq<char>, Seq<char>>
    decreases entries.len(),
{
    if entries.len() == 0 {
        Map::empty()
    } else {
        bindings_map(entries.drop_last()).insert(entries.last().0@, entries.last().1@)
    }
}

/// No name is bound twice.
pub open spec fn distinct_names(entries: Seq<(String, String)>) -> bool {
    forall|i: int, j: int|
        0 <= i < j < entries.len() ==> (#[trigger] entries[i]).0@ != (#[trigger] entries[j]).0@
}

/// Where no name is bound twice, the mapping holds exactly the listed
/// bindings, and as many as the list is long.
pub proof fn lemma_bindings_map(entries: Seq<(String, String)>)
    requires
        distinct_names(entries),
    ensures
        forall|i: int|
            0 <= i < entries.len() ==> bindings_map(entries).contains_key(
                (#[trigger] entries[i]).0@,
            ) && bindings_map(entries)[entries[i].0@] == entries[i].1@,
        forall|name: Seq<char>| #[trigger]
            bindings_map(entries).contains_key(name) ==> exists|i: int|
                0 <= i < entries.len() && (#[trigger] entries[i]).0@ == name,
        bindings_map(entries).dom().finite(),
        bindings_map(entries).len() == entries.len(),
    decreases entries.len(),
{
    if entries.len() > 0 {
        let front = entries.drop_last();
        lemma_bindings_map(front);
        assert forall|name: Seq<char>| #[trigger]
            bindings_map(entries).contains_key(name) implies exists|i: int|
            0 <= i < entries.len() && (#[trigger] entries[i]).0@ == name by {
            if name == entries.last().0@ {
                assert(entries[entries.len() - 1].0@ == name);
            } else {
                assert(bindings_map(front).contains_key(name));
                let i = choose|i: int| 0 <= i < front.len() && (#[trigger] front[i]).0@ == name;
                assert(entries[i].0@ == name);
            }
        }
        assert forall|i: int| 0 <= i < entries.len() implies bindings_map(entries).contains_key(
            (#[trigger] entries[i]).0@,
        ) && bindings_map(entries)[entries[i].0@] == entries[i].1@ by {
            if i < entries.len() - 1 {
                assert(front[i] == entries[i]);
                assert(entries[i].0@ != entries[entries.len() - 1].0@);
            }
        }
        if bindings_map(front).contains_key(entries.last().0@) {
            let i = choose|i: int|
                0 <= i < front.len() && (#[trigger] front[i]).0@ == entries.last().0@;
            assert(entries[i].0@ == entries[entries.len() - 1].0@);
        }
    }
}

/// What a match captured: names, each bound to the text that its capture took.
#[derive(Debug)]
pub struct Captures {
    entries: Vec<(String, String)>,
}

impl View for Captures {
    type V = Map<Seq<char>, Seq<char>>;

    /// The mapping that the bindings stand for.
    closed spec fn view(&self) -> Map<Seq<char>, Seq<char>> {
        bindings_map(self.entries@)
    }
}

impl Captures {
    /// The list holds every name once.
    #[verifier::type_invariant]
    spec fn names_are_distinct(&self) -> bool {
        distinct_names(self.entries@)
    }

    /// The mapping without any binding.
    pub fn new() -> (captures: Captures)
        ensures
            captures@ == Map::<Seq<char>, Seq<char>>::empty(),
    {
        Captures { entries: Vec::new() }
    }

    /// Where `name` is bound in the list.
    fn position(&self, name: &str) -> (found: Option<usize>)
        ensures
            match found {
                Some(i) => i < self.entries.len() && self.entries[i as int].0@ == name@,
                None => forall|i: int|
                    0 <= i < self.entries.len() ==> (#[trigger] self.entries[i]).0@ != name@,
            },
    {
        let key = name.to_owned();
        let mut i: usize = 0;
        while i < self.entries.len()
            invariant
                i <= self.entries.len(),
                key@ == name@,
                forall|j: int| 0 <= j < i ==> (#[trigger] self.entries[j]).0@ != name@,
            decreases self.entries.len() - i,
        {
            if self.entries[i].0 == key {
                return Some(i);
            }
            i += 1;
        }
        None
    }

    /// Binds `name` to `value`. A binding that the name had before is
    /// replaced.
    pub fn insert(&mut self, name: String, value: String)
        ensures
            final(self)@ == old(self)@.insert(name@, value@),
    {
        proof {
            use_type_invariant(&*self);
            lemma_bindings_map(self.entries@);
        }
        let found = self.position(name.as_str());
        let mut taken = Captures::new();
        core::mem::swap(self, &mut taken);
        let mut entries = taken.entries;
        let ghost before = entries@;
        match found {
            Some(i) => {
                entries[i] = (name, value);
                proof {
                    let after = entries@;
                    let updated = bindings_map(before).insert(name@, value@);
                    assert forall|a: int, b: int| 0 <= a < b < after.len() implies (
                    #[trigger] after[a]).0@ != (#[trigger] after[b]).0@ by {
                        assert(after[a].0@ == before[a].0@);
                        assert(after[b].0@ == before[b].0@);
                    }
                    lemma_bindings_map(after);
                    assert forall|key: Seq<char>| #[trigger]
                        bindings_map(after).contains_key(key) implies updated.contains_key(
                        key,
                    ) by {
                        let j = choose|j: int| 0 <= j < after.len() && (#[trigger] after[j]).0@ == key;
                        assert(before[j].0@ == key);
                    }
                    assert forall|key: Seq<char>| #[trigger]
                        updated.contains_key(key) implies bindings_map(after).contains_key(key)
                        && bindings_map(after)[key] == updated[key] by {
                        if key == name@ {
                            assert(after[i as int].0@ == key);
                        } else {
                            let j = choose|j: int|
                                0 <= j < before.len() && (#[trigger] before[j]).0@ == key;
                            assert(after[j] == before[j]);
                        }
                    }
                    assert(bindings_map(after) =~= updated);
                }
            },
            None => {
                entries.push((name, value));
                assert(entries@.drop_last() =~= before);
            },
        }
        *self = Captures { entries };
    }

    /// The text that `name` is bound to, if it is bound.
    pub fn get(&self, name: &str) -> (value: Option<&String>)
        ensures
            match value {
                Some(text) => self@.contains_key(name@) && self@[name@] == text@,
                None => !self@.contains_key(name@),
            },
    {
        proof {
            use_type_invariant(self);
            lemma_bindings_map(self.entries@);
        }
        match self.position(name) {
            Some(i) => Some(&self.entries[i].1),
            None => None,
        }
    }

    /// Whether `name` is bound.
    pub fn contains_key(&self, name: &str) -> (bound: bool)
        ensures
            bound == self@.contains_key(name@),
    {
        self.get(name).is_some()
    }

    /// How many names are bound.
    pub fn len(&self) -> (count: usize)
        ensures
            self@.dom().finite(),
            count == self@.len(),
    {
        proof {
            use_type_invariant(self);
            lemma_bindings_map(self.entries@);
        }
        self.entries.len()
    }

    /// The bindings as a list, each name once.
    pub fn into_pairs(self) -> (pairs: Vec<(String, String)>)
        ensures
            distinct_names(pairs@),
            bindings_map(pairs@) == self@,
    {
        proof {
            use_type_invariant(&self);
        }
        self.entries
    }

    /// Whether no name is bound.
    pub fn is_empty(&self) -> (empty: bool)
        ensures
            empty == (self@ == Map::<Seq<char>, Seq<char>>::empty()),
    {
        proof {
            use_type_invariant(self);
            lemma_bindings_map(self.entries@);
            if self.entries.len() > 0 {
                assert(self@.contains_key(self.entries[0].0@));
            } else {
                assert(self@ =~= Map::<Seq<char>, Seq<char>>::empty());
            }
        }
        self.entries.len() == 0
    }
}

} // verus!
