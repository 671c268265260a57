//! The named members of one record: the fields of a structured type, the
//! constants of an enumeration. They are a mapping from name to member, kept
//! ascending by name, so that a position counts the members in the order of
//! their names and two records with the same members are equal.

use vstd::prelude::*;
use crate::table::{
    has_name, lemma_has_name_iff_position, lemma_name_absent, lemma_position_of_name, lookup,
    names_distinct, nth_entry, position_of_name, Record,
};
use crate::text::{lemma_name_order, name_below, order_of, text_eq, NameOrder};

verus! {

/// The names ascend strictly, in the byte order of their UTF-8 forms.
pub open spec fn names_ascending<V>(entries: Seq<(Seq<char>, V)>) -> bool {
    forall|i: int, j: int|
        0 <= i < j < entries.len() ==> name_below(
            (#[trigger] entries[i]).0,
            (#[trigger] entries[j]).0,
        )
}

/// `k` is where an entry called `name` keeps the names ascending: every
/// entry before `k` has a name below `name`, every other a name above it.
pub open spec fn is_insertion_point<V>(entries: Seq<(Seq<char>, V)>, name: Seq<char>, k: int) -> bool {
    &&& 0 <= k <= entries.len()
    &&& forall|i: int| 0 <= i < k ==> name_below((#[trigger] entries[i]).0, name)
    &&& forall|i: int| k <= i < entries.len() ==> name_below(name, (#[trigger] entries[i]).0)
}

/// Where an entry called `name` keeps the names ascending.
pub open spec fn insertion_point<V>(entries: Seq<(Seq<char>, V)>, name: Seq<char>) -> int {
    choose|k: int| is_insertion_point(entries, name, k)
}

/// Names that ascend are pairwise distinct.
pub proof fn lemma_ascending_distinct<V>(entries: Seq<(Seq<char>, V)>)
    requires
        names_ascending(entries),
    ensures
        names_distinct(entries),
{
    assert forall|i: int, j: int| 0 <= i < j < entries.len() implies (#[trigger] entries[i]).0 != (
    #[trigger] entries[j]).0 by {
        lemma_name_order(entries[i].0, entries[j].0, entries[j].0);
    }
}

/// There is one place at most at which a name keeps the names ascending, and
/// then no entry carries that name.
pub proof fn lemma_insertion_point<V>(entries: Seq<(Seq<char>, V)>, name: Seq<char>, k: int)
    requires
        is_insertion_point(entries, name, k),
    ensures
        insertion_point(entries, name) == k,
        lookup(entries, name) is None,
{
    let c = insertion_point(entries, name);
    assert(is_insertion_point(entries, name, c));
    if c < k {
        lemma_name_order(entries[c].0, name, name);
    } else if k < c {
        lemma_name_order(entries[k].0, name, name);
    }
    assert forall|j: int| 0 <= j < entries.len() implies (#[trigger] entries[j]).0 != name by {
        lemma_name_order(entries[j].0, name, name);
    }
    lemma_name_absent(entries, name);
}

/// Adding an entry where its name belongs keeps the names ascending.
pub proof fn lemma_insert_keeps_ascending<V>(
    entries: Seq<(Seq<char>, V)>,
    name: Seq<char>,
    member: V,
    k: int,
)
    requires
        names_ascending(entries),
        is_insertion_point(entries, name, k),
    ensures
        names_ascending(entries.insert(k, (name, member))),
{
    let longer = entries.insert(k, (name, member));
    assert forall|i: int, j: int| 0 <= i < j < longer.len() implies name_below(
        (#[trigger] longer[i]).0,
        (#[trigger] longer[j]).0,
    ) by {
        if j < k {
            assert(longer[i] == entries[i] && longer[j] == entries[j]);
        } else if j == k {
            assert(longer[i] == entries[i]);
        } else if i < k {
            assert(longer[i] == entries[i] && longer[j] == entries[j - 1]);
            if j - 1 == i {
            }
        } else if i == k {
            assert(longer[j] == entries[j - 1]);
        } else {
            assert(longer[i] == entries[i - 1] && longer[j] == entries[j - 1]);
        }
    }
}

/// The named members of one record, ascending by name.
#[derive(Debug)]
pub struct Members<T> {
    entries: Vec<(String, T)>,
}

impl<T: View> View for Members<T> {
    type V = Seq<(Seq<char>, T::V)>;

    closed spec fn view(&self) -> Seq<(Seq<char>, T::V)> {
        Seq::new(self.entries@.len(), |i: int| (self.entries@[i].0@, self.entries@[i].1@))
    }
}

impl<T> Members<T> {
    #[verifier::type_invariant]
    spec fn ascending(self) -> bool {
        forall|i: int, j: int|
            0 <= i < j < self.entries@.len() ==> name_below(
                (#[trigger] self.entries@[i]).0@,
                (#[trigger] self.entries@[j]).0@,
            )
    }
}

impl<T: Record> Members<T> {
    /// No members.
    pub fn new() -> (members: Members<T>)
        ensures
            members@ == Seq::<(Seq<char>, T::V)>::empty(),
    {
        let members = Members { entries: Vec::new() };
        assert(members@ =~= Seq::<(Seq<char>, T::V)>::empty());
        members
    }

    /// The number of members. Their names ascend.
    pub fn len(&self) -> (n: usize)
        ensures
            n == self@.len(),
            names_ascending(self@),
    {
        proof {
            use_type_invariant(self);
        }
        self.entries.len()
    }

    /// Looks for `name` by bisection: the position of the member called
    /// `name`, or else the position at which such a member belongs.
    pub fn search(&self, name: &str) -> (found: Result<usize, usize>)
        ensures
            names_ascending(self@),
            match found {
                Ok(i) => position_of_name(self@, name@) == Some(i as int),
                Err(k) => position_of_name(self@, name@) is None && is_insertion_point(
                    self@,
                    name@,
                    k as int,
                ),
            },
    {
        proof {
            use_type_invariant(self);
        }
        let mut lo: usize = 0;
        let mut hi: usize = self.entries.len();
        while lo < hi
            invariant
                lo <= hi <= self.entries@.len(),
                self@.len() == self.entries@.len(),
                names_ascending(self@),
                forall|i: int| 0 <= i < lo ==> name_below((#[trigger] self@[i]).0, name@),
                forall|i: int| hi <= i < self@.len() ==> name_below(name@, (#[trigger] self@[i]).0),
            decreases hi - lo,
        {
            let mid = lo + (hi - lo) / 2;
            match order_of(self.entries[mid].0.as_str(), name) {
                NameOrder::Same => {
                    proof {
                        assert forall|j: int| 0 <= j < mid implies (#[trigger] self@[j]).0
                            != name@ by {
                            lemma_name_order(self@[j].0, self@[mid as int].0, name@);
                        }
                        lemma_position_of_name(self@, name@, mid as int);
                    }
                    return Ok(mid);
                },
                NameOrder::Below => {
                    proof {
                        assert forall|i: int| 0 <= i < mid + 1 implies name_below(
                            (#[trigger] self@[i]).0,
                            name@,
                        ) by {
                            if i < mid {
                                lemma_name_order(self@[i].0, self@[mid as int].0, name@);
                            }
                        }
                    }
                    lo = mid + 1;
                },
                NameOrder::Above => {
                    proof {
                        assert forall|i: int| mid <= i < self@.len() implies name_below(
                            name@,
                            (#[trigger] self@[i]).0,
                        ) by {
                            if mid < i {
                                lemma_name_order(name@, self@[mid as int].0, self@[i].0);
                            }
                        }
                    }
                    hi = mid;
                },
            }
        }
        proof {
            lemma_insertion_point(self@, name@, lo as int);
        }
        Err(lo)
    }

    /// Adds a member where its name belongs, unless the record already has a
    /// member of that name: then the members are left as they were.
    pub fn insert(&mut self, name: String, member: T) -> (added: bool)
        ensures
            added == !has_name(old(self)@, name@),
            added ==> final(self)@ == old(self)@.insert(
                insertion_point(old(self)@, name@),
                (name@, member@),
            ),
            !added ==> final(self)@ == old(self)@,
            names_ascending(final(self)@),
    {
        let ghost before = self@;
        proof {
            lemma_has_name_iff_position(before, name@);
        }
        match self.search(name.as_str()) {
            Ok(_) => false,
            Err(k) => {
                proof {
                    lemma_insertion_point(before, name@, k as int);
                    lemma_insert_keeps_ascending(before, name@, member@, k as int);
                }
                let mut taken: Members<T> = Members::new();
                core::mem::swap(self, &mut taken);
                let Members { mut entries } = taken;
                let ghost old_entries = entries@;
                entries.insert(k, (name, member));
                let ghost after = before.insert(k as int, (name@, member@));
                assert forall|i: int| 0 <= i < entries@.len() implies after[i] == (
                    (#[trigger] entries@[i]).0@,
                    entries@[i].1@,
                ) by {
                    if i < k {
                        assert(entries@[i] == old_entries[i]);
                    } else if i > k {
                        assert(entries@[i] == old_entries[i - 1]);
                    }
                }
                assert forall|i: int, j: int| 0 <= i < j < entries@.len() implies name_below(
                    (#[trigger] entries@[i]).0@,
                    (#[trigger] entries@[j]).0@,
                ) by {
                    assert(name_below(after[i].0, after[j].0));
                }
                *self = Members { entries };
                assert(self@ =~= after);
                true
            },
        }
    }

    /// The member called `name`.
    pub fn get(&self, name: &str) -> (found: Option<&T>)
        ensures
            match found {
                Some(member) => lookup(self@, name@) == Some(member@),
                None => lookup(self@, name@) is None,
            },
    {
        match self.search(name) {
            Ok(i) => Some(&self.entries[i].1),
            Err(_) => None,
        }
    }

    /// The member at position `index`, counted in the order of the names.
    pub fn nth(&self, index: usize) -> (found: Option<(&str, &T)>)
        ensures
            names_ascending(self@),
            match found {
                Some(entry) => nth_entry(self@, index as int) == Some((entry.0@, entry.1@)),
                None => nth_entry(self@, index as int) is None,
            },
    {
        proof {
            use_type_invariant(self);
        }
        if index < self.entries.len() {
            Some((self.entries[index].0.as_str(), &self.entries[index].1))
        } else {
            None
        }
    }
}

impl<T: Record> Record for Members<T> {
    fn same(&self, other: &Self) -> (equal: bool) {
        if self.entries.len() != other.entries.len() {
            assert(self@.len() != other@.len());
            return false;
        }
        let mut i: usize = 0;
        while i < self.entries.len()
            invariant
                self.entries@.len() == other.entries@.len(),
                i <= self.entries@.len(),
                forall|j: int| 0 <= j < i ==> self@[j] == other@[j],
            decreases self.entries@.len() - i,
        {
            if !text_eq(self.entries[i].0.as_str(), other.entries[i].0.as_str()) {
                assert(self@[i as int] != other@[i as int]);
                return false;
            }
            if !self.entries[i].1.same(&other.entries[i].1) {
                assert(self@[i as int] != other@[i as int]);
                return false;
            }
            i += 1;
        }
        assert(self@ =~= other@);
        true
    }
}

} // verus!
