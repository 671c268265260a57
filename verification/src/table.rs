//! An ordered, name-indexed table of records: the shape of every namespace of
//! the catalog. Names are unique, the order is the one in which the entries
//! were added, and nothing is ever changed or removed once it is in.

use vstd::hash_map::StringHashMap;
use vstd::prelude::*;

verus! {

/// A record whose value equality can be decided at run time.
pub trait Record: View + Sized {
    /// Whether the two records are equal by value.
    fn same(&self, other: &Self) -> (equal: bool)
        ensures
            equal == (self@ == other@),
    ;
}

/// No name occurs twice.
pub open spec fn names_distinct<V>(entries: Seq<(Seq<char>, V)>) -> bool {
    forall|i: int, j: int|
        0 <= i < j < entries.len() ==> (#[trigger] entries[i]).0 != (#[trigger] entries[j]).0
}

/// No two entries hold equal records: reverse lookup is then unambiguous.
pub open spec fn records_distinct<V>(entries: Seq<(Seq<char>, V)>) -> bool {
    forall|i: int, j: int|
        0 <= i < j < entries.len() ==> (#[trigger] entries[i]).1 != (#[trigger] entries[j]).1
}

/// Some entry carries `name`.
pub open spec fn has_name<V>(entries: Seq<(Seq<char>, V)>, name: Seq<char>) -> bool {
    exists|i: int| 0 <= i < entries.len() && (#[trigger] entries[i]).0 == name
}

/// Some entry holds a record equal to `record`.
pub open spec fn has_record<V>(entries: Seq<(Seq<char>, V)>, record: V) -> bool {
    exists|i: int| 0 <= i < entries.len() && (#[trigger] entries[i]).1 == record
}

/// Entry `i` is the first one that carries `name`.
pub open spec fn is_first_named<V>(entries: Seq<(Seq<char>, V)>, name: Seq<char>, i: int) -> bool {
    &&& 0 <= i < entries.len()
    &&& entries[i].0 == name
    &&& forall|j: int| 0 <= j < i ==> (#[trigger] entries[j]).0 != name
}

/// Entry `i` is the first one whose record equals `record`.
pub open spec fn is_first_holding<V>(entries: Seq<(Seq<char>, V)>, record: V, i: int) -> bool {
    &&& 0 <= i < entries.len()
    &&& entries[i].1 == record
    &&& forall|j: int| 0 <= j < i ==> (#[trigger] entries[j]).1 != record
}

/// Where `name` stands in the table, if it is registered.
pub open spec fn position_of_name<V>(entries: Seq<(Seq<char>, V)>, name: Seq<char>) -> Option<int> {
    if exists|i: int| is_first_named(entries, name, i) {
        Some(choose|i: int| is_first_named(entries, name, i))
    } else {
        None
    }
}

/// Where the first record equal to `record` stands, if there is one.
pub open spec fn position_of_record<V>(entries: Seq<(Seq<char>, V)>, record: V) -> Option<int> {
    if exists|i: int| is_first_holding(entries, record, i) {
        Some(choose|i: int| is_first_holding(entries, record, i))
    } else {
        None
    }
}

/// Forward lookup: the record registered under `name`.
pub open spec fn lookup<V>(entries: Seq<(Seq<char>, V)>, name: Seq<char>) -> Option<V> {
    match position_of_name(entries, name) {
        Some(i) => Some(entries[i].1),
        None => None,
    }
}

/// Reverse lookup: the name of the first entry whose record equals `record`.
pub open spec fn name_of<V>(entries: Seq<(Seq<char>, V)>, record: V) -> Option<Seq<char>> {
    match position_of_record(entries, record) {
        Some(i) => Some(entries[i].0),
        None => None,
    }
}

/// The entry at position `index`, if the table is that long.
pub open spec fn nth_entry<V>(entries: Seq<(Seq<char>, V)>, index: int) -> Option<(Seq<char>, V)> {
    if 0 <= index < entries.len() {
        Some(entries[index])
    } else {
        None
    }
}

/// The name of the entry at position `index`, if the table is that long.
pub open spec fn nth_name<V>(entries: Seq<(Seq<char>, V)>, index: int) -> Option<Seq<char>> {
    match nth_entry(entries, index) {
        Some(entry) => Some(entry.0),
        None => None,
    }
}

/// The first entry carrying a name is the one that `position_of_name` gives.
pub proof fn lemma_position_of_name<V>(entries: Seq<(Seq<char>, V)>, name: Seq<char>, i: int)
    requires
        is_first_named(entries, name, i),
    ensures
        position_of_name(entries, name) == Some(i),
        lookup(entries, name) == Some(entries[i].1),
        has_name(entries, name),
{
    let k = choose|k: int| is_first_named(entries, name, k);
    assert(is_first_named(entries, name, k));
    if k < i {
        assert(entries[k].0 != name);
    } else if i < k {
        assert(entries[i].0 != name);
    }
}

/// Whenever some entry carries a name, one of them is the first to do so.
pub proof fn lemma_first_named_exists<V>(entries: Seq<(Seq<char>, V)>, name: Seq<char>, i: int)
    requires
        0 <= i < entries.len(),
        entries[i].0 == name,
    ensures
        exists|k: int| 0 <= k <= i && is_first_named(entries, name, k),
    decreases i,
{
    if exists|j: int| 0 <= j < i && (#[trigger] entries[j]).0 == name {
        let j = choose|j: int| 0 <= j < i && (#[trigger] entries[j]).0 == name;
        lemma_first_named_exists(entries, name, j);
    } else {
        assert(is_first_named(entries, name, i));
    }
}

/// Whenever some entry holds a record, one of them is the first to do so.
pub proof fn lemma_first_holding_exists<V>(entries: Seq<(Seq<char>, V)>, record: V, i: int)
    requires
        0 <= i < entries.len(),
        entries[i].1 == record,
    ensures
        exists|k: int| 0 <= k <= i && is_first_holding(entries, record, k),
    decreases i,
{
    if exists|j: int| 0 <= j < i && (#[trigger] entries[j]).1 == record {
        let j = choose|j: int| 0 <= j < i && (#[trigger] entries[j]).1 == record;
        lemma_first_holding_exists(entries, record, j);
    } else {
        assert(is_first_holding(entries, record, i));
    }
}

/// A name has a position exactly when some entry carries it.
pub proof fn lemma_has_name_iff_position<V>(entries: Seq<(Seq<char>, V)>, name: Seq<char>)
    ensures
        has_name(entries, name) <==> position_of_name(entries, name) is Some,
        has_name(entries, name) <==> lookup(entries, name) is Some,
{
    if has_name(entries, name) {
        let i = choose|i: int| 0 <= i < entries.len() && (#[trigger] entries[i]).0 == name;
        lemma_first_named_exists(entries, name, i);
    }
    if position_of_name(entries, name) is Some {
        let k = choose|k: int| is_first_named(entries, name, k);
        assert(entries[k].0 == name);
    }
}

/// A record has a position exactly when some entry holds it.
pub proof fn lemma_has_record_iff_position<V>(entries: Seq<(Seq<char>, V)>, record: V)
    ensures
        has_record(entries, record) <==> position_of_record(entries, record) is Some,
        has_record(entries, record) <==> name_of(entries, record) is Some,
{
    if has_record(entries, record) {
        let i = choose|i: int| 0 <= i < entries.len() && (#[trigger] entries[i]).1 == record;
        lemma_first_holding_exists(entries, record, i);
    }
    if position_of_record(entries, record) is Some {
        let k = choose|k: int| is_first_holding(entries, record, k);
        assert(entries[k].1 == record);
    }
}

/// A name that no entry carries has no position.
pub proof fn lemma_name_absent<V>(entries: Seq<(Seq<char>, V)>, name: Seq<char>)
    requires
        forall|j: int| 0 <= j < entries.len() ==> (#[trigger] entries[j]).0 != name,
    ensures
        position_of_name(entries, name) is None,
        lookup(entries, name) is None,
        !has_name(entries, name),
{
    assert forall|i: int| !is_first_named(entries, name, i) by {
        if 0 <= i < entries.len() {
            assert(entries[i].0 != name);
        }
    }
}

/// The first entry holding a record is the one that `position_of_record` gives.
pub proof fn lemma_position_of_record<V>(entries: Seq<(Seq<char>, V)>, record: V, i: int)
    requires
        is_first_holding(entries, record, i),
    ensures
        position_of_record(entries, record) == Some(i),
        name_of(entries, record) == Some(entries[i].0),
        has_record(entries, record),
{
    let k = choose|k: int| is_first_holding(entries, record, k);
    assert(is_first_holding(entries, record, k));
    if k < i {
        assert(entries[k].1 != record);
    } else if i < k {
        assert(entries[i].1 != record);
    }
}

/// A record that no entry holds has no position.
pub proof fn lemma_record_absent<V>(entries: Seq<(Seq<char>, V)>, record: V)
    requires
        forall|j: int| 0 <= j < entries.len() ==> (#[trigger] entries[j]).1 != record,
    ensures
        position_of_record(entries, record) is None,
        name_of(entries, record) is None,
        !has_record(entries, record),
{
    assert forall|i: int| !is_first_holding(entries, record, i) by {
        if 0 <= i < entries.len() {
            assert(entries[i].1 != record);
        }
    }
}

/// An ordered table of named records with unique names. The entries are kept
/// in the order in which they were added; an index from each name to its
/// position serves the lookups by name.
pub struct Table<T> {
    entries: Vec<(String, T)>,
    index: StringHashMap<usize>,
}

impl<T: View> View for Table<T> {
    type V = Seq<(Seq<char>, T::V)>;

    closed spec fn view(&self) -> Seq<(Seq<char>, T::V)> {
        Seq::new(self.entries@.len(), |i: int| (self.entries@[i].0@, self.entries@[i].1@))
    }
}

/// The index leads from each name to the one entry that carries it, and to
/// nothing else.
spec fn index_matches<T>(entries: Seq<(String, T)>, index: Map<Seq<char>, usize>) -> bool {
    &&& forall|i: int|
        0 <= i < entries.len() ==> index.dom().contains((#[trigger] entries[i]).0@) && index[entries[i].0@]
            == i
    &&& forall|name: Seq<char>| #[trigger]
        index.dom().contains(name) ==> index[name] < entries.len() && entries[index[name] as int].0@
            == name
}

impl<T> Table<T> {
    #[verifier::type_invariant]
    spec fn indexed(self) -> bool {
        index_matches(self.entries@, self.index@)
    }
}

impl<T: Record> Table<T> {
    /// The empty table.
    pub fn new() -> (table: Table<T>)
        ensures
            table@ == Seq::<(Seq<char>, T::V)>::empty(),
    {
        let table = Table { entries: Vec::new(), index: StringHashMap::new() };
        assert(table@ =~= Seq::<(Seq<char>, T::V)>::empty());
        table
    }

    /// The number of entries. Their names are pairwise distinct.
    pub fn len(&self) -> (n: usize)
        ensures
            n == self@.len(),
            names_distinct(self@),
    {
        proof {
            use_type_invariant(self);
            assert forall|i: int, j: int| 0 <= i < j < self@.len() implies (#[trigger] self@[i]).0 != (
            #[trigger] self@[j]).0 by {
                assert(self.index@[self.entries@[i].0@] == i);
                assert(self.index@[self.entries@[j].0@] == j);
            }
        }
        self.entries.len()
    }

    /// The position at which `name` is registered, if it is.
    pub fn position(&self, name: &str) -> (found: Option<usize>)
        ensures
            match found {
                Some(i) => position_of_name(self@, name@) == Some(i as int),
                None => position_of_name(self@, name@) is None,
            },
    {
        proof {
            use_type_invariant(self);
        }
        match self.index.get(name) {
            Some(i) => {
                proof {
                    assert(self.index@.dom().contains(name@));
                    assert forall|j: int| 0 <= j < *i implies (#[trigger] self@[j]).0 != name@ by {
                        assert(self.index@[self.entries@[j].0@] == j);
                    }
                    lemma_position_of_name(self@, name@, *i as int);
                }
                Some(*i)
            },
            None => {
                proof {
                    assert forall|j: int| 0 <= j < self@.len() implies (#[trigger] self@[j]).0
                        != name@ by {
                        assert(self.index@.dom().contains(self.entries@[j].0@));
                    }
                    lemma_name_absent(self@, name@);
                }
                None
            },
        }
    }

    /// Adds an entry at the end, unless the name is already registered: then
    /// the table is left as it was.
    pub fn insert(&mut self, name: String, record: T) -> (added: bool)
        ensures
            added == !has_name(old(self)@, name@),
            added ==> final(self)@ == old(self)@.push((name@, record@)),
            !added ==> final(self)@ == old(self)@,
    {
        let ghost before = self@;
        proof {
            lemma_has_name_iff_position(before, name@);
        }
        if self.position(name.as_str()).is_some() {
            return false;
        }
        let mut taken: Table<T> = Table::new();
        core::mem::swap(self, &mut taken);
        proof {
            use_type_invariant(&taken);
        }
        let Table { mut entries, mut index } = taken;
        let ghost old_entries = entries@;
        let ghost old_index = index@;
        assert(!old_index.dom().contains(name@)) by {
            if old_index.dom().contains(name@) {
                let k = old_index[name@] as int;
                assert(before[k].0 == name@);
            }
        }
        let at = entries.len();
        index.insert(name.clone(), at);
        entries.push((name, record));
        assert(index_matches(entries@, index@)) by {
            assert forall|i: int| 0 <= i < entries@.len() implies index@.dom().contains(
                (#[trigger] entries@[i]).0@,
            ) && index@[entries@[i].0@] == i by {
                if i < at {
                    assert(entries@[i] == old_entries[i]);
                    assert(old_index.dom().contains(old_entries[i].0@));
                }
            }
            assert forall|n: Seq<char>| #[trigger] index@.dom().contains(n) implies index@[n]
                < entries@.len() && entries@[index@[n] as int].0@ == n by {
                if n != name@ {
                    assert(old_index.dom().contains(n));
                    assert(entries@[old_index[n] as int] == old_entries[old_index[n] as int]);
                }
            }
        }
        *self = Table { entries, index };
        assert(self@ =~= before.push((name@, record@)));
        true
    }

    /// Forward lookup by exact, case-sensitive name.
    pub fn get(&self, name: &str) -> (found: Option<&T>)
        ensures
            match found {
                Some(record) => lookup(self@, name@) == Some(record@),
                None => lookup(self@, name@) is None,
            },
    {
        match self.position(name) {
            Some(i) => Some(&self.entries[i].1),
            None => None,
        }
    }

    /// Reverse lookup by value: the name of the first entry whose record
    /// equals `record`. Linear in the size of the table.
    pub fn name_of(&self, record: &T) -> (found: Option<&str>)
        ensures
            match found {
                Some(name) => name_of(self@, record@) == Some(name@),
                None => name_of(self@, record@) is None,
            },
    {
        let mut i: usize = 0;
        while i < self.entries.len()
            invariant
                i <= self.entries@.len(),
                forall|j: int| 0 <= j < i ==> (#[trigger] self@[j]).1 != record@,
            decreases self.entries@.len() - i,
        {
            if self.entries[i].1.same(record) {
                proof {
                    lemma_position_of_record(self@, record@, i as int);
                }
                return Some(self.entries[i].0.as_str());
            }
            i += 1;
        }
        proof {
            lemma_record_absent(self@, record@);
        }
        None
    }

    /// Whether reverse lookup is unambiguous: no two entries hold equal
    /// records. Quadratic in the size of the table; meant to be run once, when
    /// the table has been filled.
    pub fn is_unambiguous(&self) -> (unambiguous: bool)
        ensures
            unambiguous == records_distinct(self@),
    {
        let n = self.entries.len();
        let mut j: usize = 0;
        while j < n
            invariant
                n == self.entries@.len(),
                j <= n,
                forall|a: int, b: int|
                    0 <= a < b < j ==> (#[trigger] self@[a]).1 != (#[trigger] self@[b]).1,
            decreases n - j,
        {
            let mut i: usize = 0;
            while i < j
                invariant
                    n == self.entries@.len(),
                    i <= j < n,
                    forall|a: int| 0 <= a < i ==> (#[trigger] self@[a]).1 != self@[j as int].1,
                decreases j - i,
            {
                if self.entries[i].1.same(&self.entries[j].1) {
                    assert(self@[i as int].1 == self@[j as int].1);
                    return false;
                }
                i += 1;
            }
            j += 1;
        }
        true
    }
}

} // verus!
