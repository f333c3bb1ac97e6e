//! The table of variables: which slot of memory each name stands for.

use vstd::prelude::*;
use crate::chars::same_text;

verus! {

/// A table from variable names to memory slots. Names are kept in the
/// order in which they were entered.
pub struct VarTable {
    names: Vec<Vec<char>>,
    slots: Vec<usize>,
    map: Ghost<Map<Seq<char>, usize>>,
}

impl View for VarTable {
    type V = Map<Seq<char>, usize>;

    closed spec fn view(&self) -> Map<Seq<char>, usize> {
        self.map@
    }
}

impl VarTable {
    /// The invariant of the table: its entries are exactly the pairs of
    /// the map that it stands for.
    pub closed spec fn wf(&self) -> bool {
        &&& self.names@.len() == self.slots@.len()
        &&& forall|i: int|
            0 <= i < self.names@.len() ==> self.map@.contains_key(#[trigger] self.names@[i]@)
                && self.map@[self.names@[i]@] == self.slots@[i]
        &&& forall|name: Seq<char>| #[trigger]
            self.map@.contains_key(name) ==> exists|i: int|
                0 <= i < self.names@.len() && self.names@[i]@ == name
        &&& forall|i: int, j: int|
            0 <= i < j < self.names@.len() ==> #[trigger] self.names@[i]@
                != #[trigger] self.names@[j]@
    }

    /// The names of the table in the order in which they were entered.
    pub closed spec fn order(&self) -> Seq<Seq<char>> {
        Seq::new(self.names@.len(), |i: int| self.names@[i]@)
    }

    /// An empty table.
    pub fn new() -> (t: Self)
        ensures
            t.wf(),
            t@ == Map::<Seq<char>, usize>::empty(),
            t.order() == Seq::<Seq<char>>::empty(),
    {
        let t = VarTable { names: Vec::new(), slots: Vec::new(), map: Ghost(Map::empty()) };
        assert(t.order() =~= Seq::<Seq<char>>::empty());
        t
    }

    /// The number of names in the table.
    pub fn len(&self) -> (n: usize)
        requires
            self.wf(),
        ensures
            n == self.order().len(),
    {
        self.names.len()
    }

    /// The place of `name` among the entries, if it is in the table.
    fn find(&self, name: &[char]) -> (r: Option<usize>)
        requires
            self.wf(),
        ensures
            match r {
                Some(i) => i < self.names@.len() && self.names@[i as int]@ == name@,
                None => !self@.contains_key(name@),
            },
    {
        let mut i: usize = 0;
        while i < self.names.len()
            invariant
                self.wf(),
                i <= self.names@.len(),
                forall|k: int| 0 <= k < i ==> self.names@[k]@ != name@,
            decreases self.names@.len() - i,
        {
            if same_text(self.names[i].as_slice(), name) {
                return Some(i);
            }
            i += 1;
        }
        None
    }

    /// Whether `name` is in the table.
    pub fn contains_key(&self, name: &[char]) -> (r: bool)
        requires
            self.wf(),
        ensures
            r == self@.contains_key(name@),
    {
        self.find(name).is_some()
    }

    /// The slot of `name`, if it is in the table.
    pub fn get(&self, name: &[char]) -> (r: Option<usize>)
        requires
            self.wf(),
        ensures
            r == (if self@.contains_key(name@) {
                Some(self@[name@])
            } else {
                None
            }),
    {
        match self.find(name) {
            Some(i) => Some(self.slots[i]),
            None => None,
        }
    }

    /// Enters `name` with slot `slot`, and returns the slot that it had
    /// before. A name that is new goes to the end of the order.
    pub fn insert(&mut self, name: Vec<char>, slot: usize) -> (r: Option<usize>)
        requires
            old(self).wf(),
        ensures
            final(self).wf(),
            final(self)@ == old(self)@.insert(name@, slot),
            r == (if old(self)@.contains_key(name@) {
                Some(old(self)@[name@])
            } else {
                None
            }),
            final(self).order() == (if old(self)@.contains_key(name@) {
                old(self).order()
            } else {
                old(self).order().push(name@)
            }),
    {
        match self.find(name.as_slice()) {
            Some(i) => {
                let before = self.slots[i];
                self.slots[i] = slot;
                proof {
                    self.map@ = self.map@.insert(name@, slot);
                }
                assert(self.order() =~= old(self).order());
                Some(before)
            },
            None => {
                self.names.push(name);
                self.slots.push(slot);
                proof {
                    self.map@ = self.map@.insert(name@, slot);
                }
                assert(self.order() =~= old(self).order().push(name@));
                assert forall|key: Seq<char>| #[trigger] self.map@.contains_key(key) implies exists|
                    i: int,
                | 0 <= i < self.names@.len() && self.names@[i]@ == key by {
                    if key == name@ {
                        assert(self.names@[self.names@.len() - 1]@ == key);
                    } else {
                        let i = choose|i: int|
                            0 <= i < old(self).names@.len() && old(self).names@[i]@ == key;
                        assert(self.names@[i]@ == key);
                    }
                }
                None
            },
        }
    }

    /// The name that was entered as the `i`-th.
    pub fn name_at(&self, i: usize) -> (name: &Vec<char>)
        requires
            self.wf(),
            i < self.order().len(),
        ensures
            name@ == self.order()[i as int],
    {
        &self.names[i]
    }
}

} // verus!
