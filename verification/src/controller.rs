//! The in-memory controller a session talks to.
//!
//! The controller keeps one 32-bit value per tag address and simply
//! stores what it is told: a write replaces the value under its address,
//! a read returns it. Its mathematical face is a map from parsed tag
//! segments to stored bits; every operation is stated against that map.

use vstd::prelude::*;

use crate::tag::Address;
use crate::tag::SegView;
use crate::tag::address_eq;

verus! {

use vstd::pervasive::VecAdditionalExecFns;

/// The map an entry list stands for: each entry binds its address.
pub open spec fn entries_map(s: Seq<(Address, u32)>) -> Map<Seq<SegView>, u32>
    decreases s.len(),
{
    if s.len() == 0 {
        Map::empty()
    } else {
        entries_map(s.drop_last()).insert(s.last().0@, s.last().1)
    }
}

/// No two entries bind the same address.
pub open spec fn unique_keys(s: Seq<(Address, u32)>) -> bool {
    forall|i: int, j: int| 0 <= i < j < s.len() ==> s[i].0@ != s[j].0@
}

/// A key of the map is a key of some entry, and the other way round.
proof fn lemma_entries_map_contains(s: Seq<(Address, u32)>, k: Seq<SegView>)
    ensures
        entries_map(s).contains_key(k) <==> exists|i: int| 0 <= i < s.len() && s[i].0@ == k,
    decreases s.len(),
{
    if s.len() > 0 {
        lemma_entries_map_contains(s.drop_last(), k);
        if entries_map(s).contains_key(k) {
            if s.last().0@ == k {
                assert(s[s.len() - 1].0@ == k);
            } else {
                let i = choose|i: int| 0 <= i < s.drop_last().len() && s.drop_last()[i].0@ == k;
                assert(s[i].0@ == k);
            }
        }
        if exists|i: int| 0 <= i < s.len() && s[i].0@ == k {
            let i = choose|i: int| 0 <= i < s.len() && s[i].0@ == k;
            if i < s.len() - 1 {
                assert(s.drop_last()[i].0@ == k);
            }
        }
    }
}

/// With unique keys, each entry is what the map holds for its address.
proof fn lemma_entries_map_value(s: Seq<(Address, u32)>, i: int)
    requires
        unique_keys(s),
        0 <= i < s.len(),
    ensures
        entries_map(s).contains_key(s[i].0@),
        entries_map(s)[s[i].0@] == s[i].1,
    decreases s.len(),
{
    if i < s.len() - 1 {
        assert(unique_keys(s.drop_last()));
        lemma_entries_map_value(s.drop_last(), i);
        assert(s.drop_last()[i] == s[i]);
        assert(s.last().0@ != s[i].0@);
    }
}

/// Replacing the entry that binds an address updates the map at it.
proof fn lemma_entries_map_update(s: Seq<(Address, u32)>, i: int, a: Address, v: u32)
    requires
        unique_keys(s),
        0 <= i < s.len(),
        a@ == s[i].0@,
    ensures
        entries_map(s.update(i, (a, v))) == entries_map(s).insert(a@, v),
    decreases s.len(),
{
    let t = s.update(i, (a, v));
    if i == s.len() - 1 {
        assert(t.drop_last() =~= s.drop_last());
        assert(entries_map(s.drop_last()).insert(a@, v) =~= entries_map(s.drop_last()).insert(
            s[i].0@,
            s[i].1,
        ).insert(a@, v));
    } else {
        assert(t.drop_last() =~= s.drop_last().update(i, (a, v)));
        assert(unique_keys(s.drop_last()));
        assert(s.drop_last()[i] == s[i]);
        lemma_entries_map_update(s.drop_last(), i, a, v);
        assert(s.last().0@ != a@);
        assert(entries_map(s.drop_last()).insert(a@, v).insert(s.last().0@, s.last().1)
            =~= entries_map(s.drop_last()).insert(s.last().0@, s.last().1).insert(a@, v));
    }
}

/// Appending an entry inserts its binding into the map.
proof fn lemma_entries_map_push(s: Seq<(Address, u32)>, a: Address, v: u32)
    ensures
        entries_map(s.push((a, v))) == entries_map(s).insert(a@, v),
{
    assert(s.push((a, v)).drop_last() =~= s);
}

/// One controller: a store of 32-bit values, one per tag address.
pub struct MockController {
    entries: Vec<(Address, u32)>,
}

impl MockController {
    /// Every address is stored at most once.
    pub closed spec fn wf(self) -> bool {
        unique_keys(self.entries@)
    }

    /// What the controller holds, per parsed tag address.
    pub closed spec fn tags(self) -> Map<Seq<SegView>, u32> {
        entries_map(self.entries@)
    }

    /// A fresh controller holding nothing.
    pub fn new() -> (c: Self)
        ensures
            c.wf(),
            c.tags() == Map::<Seq<SegView>, u32>::empty(),
    {
        MockController { entries: Vec::new() }
    }

    /// Position of the entry binding this address, if one exists.
    fn find(&self, a: &Address) -> (r: Option<usize>)
        ensures
            match r {
                Some(i) => i < self.entries@.len() && self.entries@[i as int].0@ == a@,
                None => forall|m: int| 0 <= m < self.entries@.len() ==> self.entries@[m].0@ != a@,
            },
    {
        let mut i: usize = 0;
        while i < self.entries.len()
            invariant
                i <= self.entries@.len(),
                forall|m: int| 0 <= m < i ==> self.entries@[m].0@ != a@,
            decreases self.entries@.len() - i,
        {
            if address_eq(&self.entries[i].0, a) {
                return Some(i);
            }
            i += 1;
        }
        None
    }

    /// The bits stored under an address, or `None` where nothing is.
    pub fn load(&self, a: &Address) -> (r: Option<u32>)
        requires
            self.wf(),
        ensures
            match r {
                Some(v) => self.tags().contains_key(a@) && self.tags()[a@] == v,
                None => !self.tags().contains_key(a@),
            },
    {
        match self.find(a) {
            Some(i) => {
                proof {
                    lemma_entries_map_value(self.entries@, i as int);
                }
                Some(self.entries[i].1)
            },
            None => {
                proof {
                    lemma_entries_map_contains(self.entries@, a@);
                }
                None
            },
        }
    }

    /// Stores bits under an address, replacing what was there.
    pub fn store(&mut self, a: Address, v: u32)
        requires
            old(self).wf(),
        ensures
            final(self).wf(),
            final(self).tags() == old(self).tags().insert(a@, v),
    {
        let ghost s0 = self.entries@;
        match self.find(&a) {
            Some(i) => {
                let ghost ga = a;
                self.entries.set(i, (a, v));
                proof {
                    lemma_entries_map_update(s0, i as int, ga, v);
                    assert(unique_keys(self.entries@));
                }
            },
            None => {
                let ghost ga = a;
                self.entries.push((a, v));
                proof {
                    lemma_entries_map_push(s0, ga, v);
                    assert forall|i: int, j: int|
                        0 <= i < j < self.entries@.len() implies self.entries@[i].0@
                        != self.entries@[j].0@ by {
                        if j == self.entries@.len() - 1 {
                            assert(s0[i].0@ != ga@);
                        }
                    }
                }
            },
        }
    }
}

} // verus!
