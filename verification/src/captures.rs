//! The result of a match: the captured values, each under its key, in the
//! order in which the keys were first captured.
use vstd::prelude::*;

verus! {

/// The model of the captured values: pairs of key and value.
pub type Entries = Seq<(Seq<char>, Seq<char>)>;

/// Whether no key occurs twice.
pub open spec fn distinct_keys(entries: Entries) -> bool {
    forall|i: int, j: int| 0 <= i < j < entries.len() ==> entries[i].0 != entries[j].0
}

/// The index of the first entry with `key`, or the number of entries if
/// there is none.
pub open spec fn key_index(entries: Entries, key: Seq<char>) -> int
    decreases entries.len(),
{
    if entries.len() == 0 || entries.first().0 == key {
        0
    } else {
        1 + key_index(entries.drop_first(), key)
    }
}

/// Whether an entry has `key`.
pub open spec fn has_key(entries: Entries, key: Seq<char>) -> bool {
    key_index(entries, key) < entries.len()
}

/// The value under `key`, if there is one.
pub open spec fn lookup(entries: Entries, key: Seq<char>) -> Option<Seq<char>> {
    if has_key(entries, key) {
        Some(entries[key_index(entries, key)].1)
    } else {
        None
    }
}

/// The entries after `value` was stored under `key`: the value replaces the
/// one the key had, or else the pair is added at the end.
pub open spec fn inserted(entries: Entries, key: Seq<char>, value: Seq<char>) -> Entries {
    if has_key(entries, key) {
        entries.update(key_index(entries, key), (key, value))
    } else {
        entries.push((key, value))
    }
}

/// The index of a key is the first position at which it stands.
pub proof fn lemma_key_index(entries: Entries, key: Seq<char>, index: int)
    requires
        0 <= index <= entries.len(),
        forall|k: int| 0 <= k < index ==> entries[k].0 != key,
        index < entries.len() ==> entries[index].0 == key,
    ensures
        key_index(entries, key) == index,
    decreases entries.len(),
{
    if index > 0 {
        let rest = entries.drop_first();
        assert forall|k: int| 0 <= k < index - 1 implies rest[k].0 != key by {
            assert(rest[k] == entries[k + 1]);
        }
        lemma_key_index(rest, key, index - 1);
    }
}

/// The index of a key lies within the entries or just after them; the key
/// stands at it, and nowhere before it.
pub proof fn lemma_key_index_found(entries: Entries, key: Seq<char>)
    ensures
        0 <= key_index(entries, key) <= entries.len(),
        has_key(entries, key) ==> entries[key_index(entries, key)].0 == key,
        forall|k: int| 0 <= k < key_index(entries, key) ==> entries[k].0 != key,
    decreases entries.len(),
{
    if !(entries.len() == 0 || entries.first().0 == key) {
        let rest = entries.drop_first();
        lemma_key_index_found(rest, key);
        assert forall|k: int| 0 <= k < key_index(entries, key) implies entries[k].0 != key by {
            if k > 0 {
                assert(rest[k - 1] == entries[k]);
            }
        }
    }
}

/// Storing a value keeps the keys distinct, and makes it the value of its
/// key.
pub proof fn lemma_inserted(entries: Entries, key: Seq<char>, value: Seq<char>)
    requires
        distinct_keys(entries),
    ensures
        distinct_keys(inserted(entries, key, value)),
        lookup(inserted(entries, key, value), key) == Some(value),
{
    lemma_key_index_found(entries, key);
    let after = inserted(entries, key, value);
    let index = key_index(entries, key);
    lemma_key_index(after, key, index);
}

/// The values captured by a match, each under its key. No key occurs twice,
/// and the keys stand in the order in which they were first captured.
#[derive(Debug)]
pub struct Captures {
    entries: Vec<(String, String)>,
}

impl View for Captures {
    type V = Entries;

    closed spec fn view(&self) -> Entries {
        self.entries.deep_view()
    }
}

impl Captures {
    #[verifier::type_invariant]
    closed spec fn well_formed(self) -> bool {
        distinct_keys(self.entries.deep_view())
    }

    /// No captured values.
    pub fn new() -> (captures: Captures)
        ensures
            captures@ == Seq::<(Seq<char>, Seq<char>)>::empty(),
    {
        let entries: Vec<(String, String)> = Vec::new();
        assert(entries.deep_view() =~= Seq::empty());
        Captures { entries }
    }

    /// The number of captured values.
    pub fn len(&self) -> (n: usize)
        ensures
            n == self@.len(),
    {
        self.entries.len()
    }

    /// Whether nothing was captured.
    pub fn is_empty(&self) -> (empty: bool)
        ensures
            empty == (self@.len() == 0),
    {
        self.entries.len() == 0
    }

    /// The key of the entry at `index`.
    pub fn key_at(&self, index: usize) -> (key: &String)
        requires
            index < self@.len(),
        ensures
            key@ == self@[index as int].0,
    {
        &self.entries[index].0
    }

    /// The value of the entry at `index`.
    pub fn value_at(&self, index: usize) -> (value: &String)
        requires
            index < self@.len(),
        ensures
            value@ == self@[index as int].1,
    {
        &self.entries[index].1
    }

    /// The position of the first entry with `key`, or the number of entries
    /// if there is none.
    fn position(&self, key: &String) -> (index: usize)
        ensures
            index == key_index(self@, key@),
            index <= self@.len(),
    {
        let mut index: usize = 0;
        while index < self.entries.len()
            invariant
                index <= self.entries.len(),
                forall|k: int| 0 <= k < index ==> self@[k].0 != key@,
            decreases self.entries.len() - index,
        {
            if self.entries[index].0 == *key {
                proof {
                    lemma_key_index(self@, key@, index as int);
                }
                return index;
            }
            index += 1;
        }
        proof {
            lemma_key_index(self@, key@, index as int);
        }
        index
    }

    /// The value captured under `key`.
    pub fn get(&self, key: &str) -> (value: Option<&String>)
        ensures
            match lookup(self@, key@) {
                Some(found) => value matches Some(v) && v@ == found,
                None => value is None,
            },
    {
        let key = String::from_str(key);
        let index = self.position(&key);
        if index < self.entries.len() {
            Some(&self.entries[index].1)
        } else {
            None
        }
    }

    /// Stores `value` under `key`. The value replaces the one the key had,
    /// or else the pair is added at the end.
    pub fn insert(&mut self, key: String, value: String)
        ensures
            final(self)@ == inserted(old(self)@, key@, value@),
            distinct_keys(final(self)@),
    {
        proof {
            use_type_invariant(&*self);
            lemma_inserted(self@, key@, value@);
        }
        let index = self.position(&key);
        let mut entries: Vec<(String, String)> = Vec::new();
        assert(entries.deep_view() =~= Seq::empty());
        core::mem::swap(&mut entries, &mut self.entries);
        let ghost before = entries.deep_view();
        if index < entries.len() {
            entries.set(index, (key, value));
            assert(entries.deep_view() =~= before.update(index as int, (key@, value@)));
        } else {
            entries.push((key, value));
            assert(entries.deep_view() =~= before.push((key@, value@)));
        }
        core::mem::swap(&mut entries, &mut self.entries);
    }

    /// A copy of the captured values.
    pub fn duplicate(&self) -> (copy: Captures)
        ensures
            copy@ == self@,
    {
        proof {
            use_type_invariant(self);
        }
        let mut entries: Vec<(String, String)> = Vec::new();
        let mut i: usize = 0;
        while i < self.entries.len()
            invariant
                i <= self.entries.len(),
                entries.len() == i,
                forall|k: int| 0 <= k < i ==> entries[k].deep_view() == self.entries[k].deep_view(),
            decreases self.entries.len() - i,
        {
            entries.push((self.entries[i].0.clone(), self.entries[i].1.clone()));
            i += 1;
        }
        assert(entries.deep_view() =~= self.entries.deep_view());
        Captures { entries }
    }

    /// The keys and values, in order.
    pub fn into_entries(self) -> (entries: Vec<(String, String)>)
        ensures
            entries.deep_view() == self@,
    {
        self.entries
    }
}

} // verus!
