use vstd::prelude::*;
use vstd::hash_map::StringHashMap;

verus! {

/// Containers by key: a map from each key to a slot, and the slots. No two
/// keys share a slot, so a container changes in place without touching the
/// others.
pub struct Keyed<T> {
    pub slots: StringHashMap<usize>,
    pub items: Vec<T>,
}

impl<T> Keyed<T> {
    pub open spec fn wf(&self) -> bool {
        &&& forall|k: Seq<char>| #[trigger] self.slots@.contains_key(k) ==> self.slots@[k] < self.items@.len()
        &&& forall|k1: Seq<char>, k2: Seq<char>|
            #[trigger] self.slots@.contains_key(k1) && #[trigger] self.slots@.contains_key(k2) && k1 != k2
                ==> self.slots@[k1] != self.slots@[k2]
    }

    /// The container of each key.
    pub open spec fn contents(&self) -> Map<Seq<char>, T> {
        Map::new(
            |k: Seq<char>| self.slots@.contains_key(k),
            |k: Seq<char>| self.items@[self.slots@[k] as int],
        )
    }

    /// No key.
    pub fn new() -> (r: Self)
        ensures
            r.wf(),
            r.items@.len() == 0,
            r.contents() == Map::<Seq<char>, T>::empty(),
    {
        let r = Keyed { slots: StringHashMap::new(), items: Vec::new() };
        proof {
            assert(r.contents() =~= Map::<Seq<char>, T>::empty());
        }
        r
    }

    /// The slot of `key`, if it has one.
    pub fn find(&self, key: &str) -> (r: Option<usize>)
        requires
            self.wf(),
        ensures
            match r {
                Some(i) => self.slots@.contains_key(key@) && self.slots@[key@] == i && i < self.items@.len(),
                None => !self.slots@.contains_key(key@),
            },
    {
        match self.slots.get(key) {
            Some(i) => Some(*i),
            None => None,
        }
    }

    /// The slot of `key`, made to hold `fresh` where the key had none.
    pub fn find_or_insert(&mut self, key: String, fresh: T) -> (r: usize)
        requires
            old(self).wf(),
        ensures
            final(self).wf(),
            final(self).slots@.contains_key(key@),
            final(self).slots@[key@] == r,
            r < final(self).items@.len(),
            old(self).slots@.contains_key(key@) ==> *final(self) == *old(self),
            !old(self).slots@.contains_key(key@) ==> final(self).contents() == old(self).contents().insert(key@, fresh)
                && final(self).items@ == old(self).items@.push(fresh),
    {
        match self.slots.get(key.as_str()) {
            Some(i) => *i,
            None => {
                let ghost before = *self;
                let i = self.items.len();
                self.items.push(fresh);
                self.slots.insert(key, i);
                proof {
                    assert forall|k: Seq<char>| #[trigger] self.slots@.contains_key(k) implies self.slots@[k] < self.items@.len() by {
                        if k != key@ {
                            assert(before.slots@.contains_key(k));
                        }
                    }
                    assert(self.contents() =~= before.contents().insert(key@, fresh));
                }
                i
            },
        }
    }
}

/// Writing slot `slots[key]` changes the container of `key` and no other.
pub proof fn lemma_write_slot<T>(before: Keyed<T>, after: Keyed<T>, key: Seq<char>, x: T)
    requires
        before.wf(),
        before.slots@.contains_key(key),
        after.slots@ == before.slots@,
        after.items@ == before.items@.update(before.slots@[key] as int, x),
    ensures
        after.wf(),
        after.contents() == before.contents().insert(key, x),
{
    assert forall|k: Seq<char>| #[trigger] after.slots@.contains_key(k) implies after.slots@[k] < after.items@.len() by {
        assert(before.slots@.contains_key(k));
    }
    assert forall|k: Seq<char>| after.contents().contains_key(k) && k != key implies
        after.contents()[k] == before.contents()[k] by {
        assert(before.slots@.contains_key(k) && before.slots@.contains_key(key));
    }
    assert(after.contents() =~= before.contents().insert(key, x));
}

} // verus!
