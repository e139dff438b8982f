use vstd::prelude::*;
use vstd::hash_map::StringHashMap;
use crate::keyed::{Keyed, lemma_write_slot};
use crate::list::{RList, range_window};
use crate::set::RSets;
use crate::sorted_set::RSortedSet;
use crate::score::Score;

verus! {

/// Clock ticks (milliseconds) in one second of time to live.
pub const MILLIS_PER_SECOND: u64 = 1000;

/// The deadline of a value written at `now` to live `ttl` seconds, held at the
/// clock's largest value where it would pass it.
pub open spec fn deadline(now: u64, ttl: u64) -> u64 {
    let d = now as int + ttl as int * 1000;
    if d > u64::MAX { u64::MAX } else { d as u64 }
}

/// The store: strings that may expire, lists, sets and sorted sets, each type
/// with keys of its own. Time is a clock in milliseconds that the caller reads.
pub struct Database {
    pub values: StringHashMap<String>,
    pub expiry: StringHashMap<u64>,
    pub lists: Keyed<RList>,
    pub sets: Keyed<RSets>,
    pub sorted_sets: Keyed<RSortedSet>,
}

impl Database {
    pub open spec fn wf(&self) -> bool {
        &&& forall|k: Seq<char>| #[trigger] self.expiry@.contains_key(k) ==> self.values@.contains_key(k)
        &&& self.lists.wf()
        &&& self.sets.wf()
        &&& self.sorted_sets.wf()
        &&& forall|i: int| 0 <= i < self.sets.items@.len() ==> #[trigger] self.sets.items@[i].wf()
        &&& forall|i: int| 0 <= i < self.sorted_sets.items@.len() ==> #[trigger] self.sorted_sets.items@[i].wf()
    }

    /// The list under each key.
    pub open spec fn list_map(&self) -> Map<Seq<char>, Seq<String>> {
        Map::new(|k: Seq<char>| self.lists.contents().contains_key(k), |k: Seq<char>| self.lists.contents()[k].list@)
    }

    /// The list under `k`, empty where there is none.
    pub open spec fn list_of(&self, k: Seq<char>) -> Seq<String> {
        if self.list_map().contains_key(k) { self.list_map()[k] } else { Seq::empty() }
    }

    /// The set under each key.
    pub open spec fn set_map(&self) -> Map<Seq<char>, Set<Seq<char>>> {
        Map::new(|k: Seq<char>| self.sets.contents().contains_key(k), |k: Seq<char>| self.sets.contents()[k].members())
    }

    /// The set under `k`, empty where there is none.
    pub open spec fn set_of(&self, k: Seq<char>) -> Set<Seq<char>> {
        if self.set_map().contains_key(k) { self.set_map()[k] } else { Set::empty() }
    }

    /// The scores of the sorted set under each key.
    pub open spec fn score_map(&self) -> Map<Seq<char>, Map<Seq<char>, Score>> {
        Map::new(|k: Seq<char>| self.sorted_sets.contents().contains_key(k), |k: Seq<char>| self.sorted_sets.contents()[k].scores())
    }

    /// The scores of the sorted set under `k`, empty where there is none.
    pub open spec fn scores_of(&self, k: Seq<char>) -> Map<Seq<char>, Score> {
        if self.score_map().contains_key(k) { self.score_map()[k] } else { Map::empty() }
    }

    /// The members of the sorted set under `k` in rank order, empty where
    /// there is none.
    pub open spec fn ranking_of(&self, k: Seq<char>) -> Seq<Seq<char>> {
        if self.sorted_sets.contents().contains_key(k) { self.sorted_sets.contents()[k].ranking() } else { Seq::empty() }
    }

    /// Whether the string under `k` has passed its deadline at `now`.
    pub open spec fn expired_at(&self, k: Seq<char>, now: u64) -> bool {
        self.expiry@.contains_key(k) && now > self.expiry@[k]
    }

    /// An empty store.
    pub fn new() -> (r: Self)
        ensures
            r.wf(),
            r.values@ == Map::<Seq<char>, String>::empty(),
            r.expiry@ == Map::<Seq<char>, u64>::empty(),
            r.list_map() == Map::<Seq<char>, Seq<String>>::empty(),
            r.set_map() == Map::<Seq<char>, Set<Seq<char>>>::empty(),
            r.score_map() == Map::<Seq<char>, Map<Seq<char>, Score>>::empty(),
    {
        let r = Database {
            values: StringHashMap::new(),
            expiry: StringHashMap::new(),
            lists: Keyed::new(),
            sets: Keyed::new(),
            sorted_sets: Keyed::new(),
        };
        proof {
            assert(r.list_map() =~= Map::<Seq<char>, Seq<String>>::empty());
            assert(r.set_map() =~= Map::<Seq<char>, Set<Seq<char>>>::empty());
            assert(r.score_map() =~= Map::<Seq<char>, Map<Seq<char>, Score>>::empty());
        }
        r
    }

    /// The string under `key`. One past its deadline is absent: it and its
    /// deadline are removed, and the result is `None`.
    pub fn get(&mut self, key: &str, now: u64) -> (r: Option<String>)
        requires
            old(self).wf(),
        ensures
            final(self).wf(),
            final(self).lists == old(self).lists,
            final(self).sets == old(self).sets,
            final(self).sorted_sets == old(self).sorted_sets,
            old(self).expired_at(key@, now) ==> r is None
                && final(self).values@ == old(self).values@.remove(key@)
                && final(self).expiry@ == old(self).expiry@.remove(key@),
            !old(self).expired_at(key@, now) ==> r == old(self).values@.get(key@)
                && final(self).values@ == old(self).values@
                && final(self).expiry@ == old(self).expiry@,
    {
        if self.is_expired(key, now) {
            let _ = self.delete(key);
            return None;
        }
        match self.values.get(key) {
            Some(v) => Some(v.clone()),
            None => None,
        }
    }

    /// Stores `value` under `key`. With a time to live of `ttl` seconds its
    /// deadline becomes `now` plus that; without, any deadline is cleared.
    pub fn set(&mut self, key: String, value: String, ttl: Option<u64>, now: u64)
        requires
            old(self).wf(),
        ensures
            final(self).wf(),
            final(self).lists == old(self).lists,
            final(self).sets == old(self).sets,
            final(self).sorted_sets == old(self).sorted_sets,
            final(self).values@ == old(self).values@.insert(key@, value),
            final(self).expiry@ == match ttl {
                Some(t) => old(self).expiry@.insert(key@, deadline(now, t)),
                None => old(self).expiry@.remove(key@),
            },
    {
        match ttl {
            Some(t) => {
                let span: u64 = if t > u64::MAX / MILLIS_PER_SECOND { u64::MAX } else { t * MILLIS_PER_SECOND };
                let at: u64 = if span > u64::MAX - now { u64::MAX } else { now + span };
                self.expiry.insert(key.clone(), at);
            },
            None => {
                self.expiry.remove(key.as_str());
            },
        }
        self.values.insert(key, value);
    }

    /// Whether the string under `key` has passed its deadline at `now`.
    pub fn is_expired(&self, key: &str, now: u64) -> (r: bool)
        ensures
            r == self.expired_at(key@, now),
    {
        match self.expiry.get(key) {
            Some(at) => now > *at,
            None => false,
        }
    }

    /// Removes the string under `key` and its deadline; true when there was a
    /// string.
    pub fn delete(&mut self, key: &str) -> (r: bool)
        requires
            old(self).wf(),
        ensures
            final(self).wf(),
            final(self).lists == old(self).lists,
            final(self).sets == old(self).sets,
            final(self).sorted_sets == old(self).sorted_sets,
            final(self).values@ == old(self).values@.remove(key@),
            final(self).expiry@ == old(self).expiry@.remove(key@),
            r == old(self).values@.contains_key(key@),
    {
        let existed = self.values.contains_key(key);
        self.values.remove(key);
        self.expiry.remove(key);
        existed
    }

    /// Puts `value` at the front of the list under `key`, made where there
    /// was none; the list's new length.
    pub fn lpush(&mut self, key: String, value: String) -> (r: usize)
        requires
            old(self).wf(),
        ensures
            final(self).wf(),
            final(self).values == old(self).values,
            final(self).expiry == old(self).expiry,
            final(self).sets == old(self).sets,
            final(self).sorted_sets == old(self).sorted_sets,
            final(self).list_map() == old(self).list_map().insert(key@, seq![value] + old(self).list_of(key@)),
            r == final(self).list_of(key@).len(),
    {
        let ghost k = key@;
        let fresh = RList::new();
        let i = self.lists.find_or_insert(key, fresh);
        let ghost mid = self.lists;
        proof {
            assert(mid.contents()[k] == mid.items@[i as int]);
            assert(mid.items@[i as int].list@ == old(self).list_of(k));
        }
        self.lists.items[i].lpush(value);
        proof {
            lemma_write_slot(mid, self.lists, k, self.lists.items@[i as int]);
            assert(self.list_map() =~= old(self).list_map().insert(k, seq![value] + old(self).list_of(k)));
        }
        self.lists.items[i].list.len()
    }

    /// Puts `value` at the back of the list under `key`, made where there
    /// was none; the list's new length.
    pub fn rpush(&mut self, key: String, value: String) -> (r: usize)
        requires
            old(self).wf(),
        ensures
            final(self).wf(),
            final(self).values == old(self).values,
            final(self).expiry == old(self).expiry,
            final(self).sets == old(self).sets,
            final(self).sorted_sets == old(self).sorted_sets,
            final(self).list_map() == old(self).list_map().insert(key@, old(self).list_of(key@).push(value)),
            r == final(self).list_of(key@).len(),
    {
        let ghost k = key@;
        let fresh = RList::new();
        let i = self.lists.find_or_insert(key, fresh);
        let ghost mid = self.lists;
        proof {
            assert(mid.contents()[k] == mid.items@[i as int]);
            assert(mid.items@[i as int].list@ == old(self).list_of(k));
        }
        self.lists.items[i].rpush(value);
        proof {
            lemma_write_slot(mid, self.lists, k, self.lists.items@[i as int]);
            assert(self.list_map() =~= old(self).list_map().insert(k, old(self).list_of(k).push(value)));
        }
        self.lists.items[i].list.len()
    }

    /// Takes the front element of the list under `key`; `None` where the
    /// list is empty or absent.
    pub fn lpop(&mut self, key: &str) -> (r: Option<String>)
        requires
            old(self).wf(),
        ensures
            final(self).wf(),
            final(self).values == old(self).values,
            final(self).expiry == old(self).expiry,
            final(self).sets == old(self).sets,
            final(self).sorted_sets == old(self).sorted_sets,
            old(self).list_of(key@).len() == 0 ==> r is None && final(self).list_map() == old(self).list_map(),
            old(self).list_of(key@).len() > 0 ==> r == Some(old(self).list_of(key@)[0])
                && final(self).list_map() == old(self).list_map().insert(key@, old(self).list_of(key@).drop_first()),
    {
        match self.lists.find(key) {
            Some(i) => {
                let ghost mid = self.lists;
                let r = self.lists.items[i].lpop();
                proof {
                    lemma_write_slot(mid, self.lists, key@, self.lists.items@[i as int]);
                    if old(self).list_of(key@).len() == 0 {
                        assert(self.list_map() =~= old(self).list_map());
                    } else {
                        assert(self.list_map() =~= old(self).list_map().insert(key@, old(self).list_of(key@).drop_first()));
                    }
                }
                r
            },
            None => None,
        }
    }

    /// Takes the back element of the list under `key`; `None` where the
    /// list is empty or absent.
    pub fn rpop(&mut self, key: &str) -> (r: Option<String>)
        requires
            old(self).wf(),
        ensures
            final(self).wf(),
            final(self).values == old(self).values,
            final(self).expiry == old(self).expiry,
            final(self).sets == old(self).sets,
            final(self).sorted_sets == old(self).sorted_sets,
            old(self).list_of(key@).len() == 0 ==> r is None && final(self).list_map() == old(self).list_map(),
            old(self).list_of(key@).len() > 0 ==> r == Some(old(self).list_of(key@).last())
                && final(self).list_map() == old(self).list_map().insert(key@, old(self).list_of(key@).drop_last()),
    {
        match self.lists.find(key) {
            Some(i) => {
                let ghost mid = self.lists;
                let r = self.lists.items[i].rpop();
                proof {
                    lemma_write_slot(mid, self.lists, key@, self.lists.items@[i as int]);
                    if old(self).list_of(key@).len() == 0 {
                        assert(self.list_map() =~= old(self).list_map());
                    } else {
                        assert(self.list_map() =~= old(self).list_map().insert(key@, old(self).list_of(key@).drop_last()));
                    }
                }
                r
            },
            None => None,
        }
    }

    /// The elements of the list under `key` in the inclusive window
    /// `[start, end]`, negative indices counting from the end; `None` where
    /// there is no list.
    pub fn lrange(&self, key: &str, start: i64, end: i64) -> (r: Option<Vec<String>>)
        requires
            self.wf(),
        ensures
            match r {
                Some(v) => self.list_map().contains_key(key@)
                    && v@ == range_window(self.list_map()[key@], start as int, end as int),
                None => !self.list_map().contains_key(key@),
            },
    {
        match self.lists.find(key) {
            Some(i) => Some(self.lists.items[i].lrange(start, end)),
            None => None,
        }
    }

    /// Adds `value` to the set under `key`, made where there was none; true
    /// when it was not there before.
    pub fn sadd(&mut self, key: String, value: String) -> (r: bool)
        requires
            old(self).wf(),
        ensures
            final(self).wf(),
            final(self).values == old(self).values,
            final(self).expiry == old(self).expiry,
            final(self).lists == old(self).lists,
            final(self).sorted_sets == old(self).sorted_sets,
            final(self).set_map() == old(self).set_map().insert(key@, old(self).set_of(key@).insert(value@)),
            r == !old(self).set_of(key@).contains(value@),
    {
        let ghost k = key@;
        let fresh = RSets::new();
        let i = self.sets.find_or_insert(key, fresh);
        let ghost mid = self.sets;
        proof {
            assert(mid.contents()[k] == mid.items@[i as int]);
            assert(mid.items@[i as int].members() == old(self).set_of(k));
            assert(mid.items@[i as int].wf());
        }
        let r = self.sets.items[i].sadd(value);
        proof {
            lemma_write_slot(mid, self.sets, k, self.sets.items@[i as int]);
            assert(self.set_map() =~= old(self).set_map().insert(k, old(self).set_of(k).insert(value@)));
            assert forall|j: int| 0 <= j < self.sets.items@.len() implies #[trigger] self.sets.items@[j].wf() by {
                if j != i {
                    assert(self.sets.items@[j] == mid.items@[j]);
                }
            }
        }
        r
    }

    /// Removes `value` from the set under `key`; true when it was there. An
    /// emptied set stays.
    pub fn srem(&mut self, key: &str, value: String) -> (r: bool)
        requires
            old(self).wf(),
        ensures
            final(self).wf(),
            final(self).values == old(self).values,
            final(self).expiry == old(self).expiry,
            final(self).lists == old(self).lists,
            final(self).sorted_sets == old(self).sorted_sets,
            old(self).set_map().contains_key(key@) ==> final(self).set_map()
                == old(self).set_map().insert(key@, old(self).set_of(key@).remove(value@)),
            !old(self).set_map().contains_key(key@) ==> final(self).set_map() == old(self).set_map(),
            r == old(self).set_of(key@).contains(value@),
    {
        match self.sets.find(key) {
            Some(i) => {
                let ghost mid = self.sets;
                proof {
                    assert(mid.items@[i as int].wf());
                }
                let r = self.sets.items[i].srem(value);
                proof {
                    lemma_write_slot(mid, self.sets, key@, self.sets.items@[i as int]);
                    assert(self.set_map() =~= old(self).set_map().insert(key@, old(self).set_of(key@).remove(value@)));
                    assert forall|j: int| 0 <= j < self.sets.items@.len() implies #[trigger] self.sets.items@[j].wf() by {
                        if j != i {
                            assert(self.sets.items@[j] == mid.items@[j]);
                        }
                    }
                }
                r
            },
            None => false,
        }
    }

    /// Every member of the set under `key`, once each, in no promised order;
    /// `None` where there is no set.
    pub fn smembers(&self, key: &str) -> (r: Option<Vec<String>>)
        requires
            self.wf(),
        ensures
            match r {
                Some(v) => self.set_map().contains_key(key@)
                    && crate::set::distinct_strings(v@)
                    && crate::set::members_of(v@) == self.set_map()[key@],
                None => !self.set_map().contains_key(key@),
            },
    {
        match self.sets.find(key) {
            Some(i) => {
                proof {
                    assert(self.sets.items@[i as int].wf());
                }
                Some(self.sets.items[i].smembers())
            },
            None => None,
        }
    }

    /// Whether `value` is in the set under `key`.
    pub fn sismember(&self, key: &str, value: &str) -> (r: bool)
        requires
            self.wf(),
        ensures
            r == self.set_of(key@).contains(value@),
    {
        match self.sets.find(key) {
            Some(i) => self.sets.items[i].sismember(value),
            None => false,
        }
    }

    /// Gives `member` the score `score` in the sorted set under `key`, made
    /// where there was none. False only where the member already had this
    /// very score.
    pub fn zadd(&mut self, key: String, score: Score, member: String) -> (r: bool)
        requires
            old(self).wf(),
        ensures
            final(self).wf(),
            final(self).values == old(self).values,
            final(self).expiry == old(self).expiry,
            final(self).lists == old(self).lists,
            final(self).sets == old(self).sets,
            final(self).score_map() == old(self).score_map().insert(key@, old(self).scores_of(key@).insert(member@, score)),
            r == !(old(self).scores_of(key@).contains_key(member@) && old(self).scores_of(key@)[member@] == score),
    {
        let ghost k = key@;
        let fresh = RSortedSet::new();
        let i = self.sorted_sets.find_or_insert(key, fresh);
        let ghost mid = self.sorted_sets;
        proof {
            assert(mid.contents()[k] == mid.items@[i as int]);
            assert(mid.items@[i as int].scores() == old(self).scores_of(k));
            assert(mid.items@[i as int].wf());
        }
        let r = self.sorted_sets.items[i].zadd(score, member);
        proof {
            lemma_write_slot(mid, self.sorted_sets, k, self.sorted_sets.items@[i as int]);
            assert(self.score_map() =~= old(self).score_map().insert(k, old(self).scores_of(k).insert(member@, score)));
            assert forall|j: int| 0 <= j < self.sorted_sets.items@.len() implies #[trigger] self.sorted_sets.items@[j].wf() by {
                if j != i {
                    assert(self.sorted_sets.items@[j] == mid.items@[j]);
                }
            }
        }
        r
    }

    /// Removes `member` from the sorted set under `key`; true when it was
    /// there. An emptied sorted set stays.
    pub fn zrem(&mut self, key: &str, member: String) -> (r: bool)
        requires
            old(self).wf(),
        ensures
            final(self).wf(),
            final(self).values == old(self).values,
            final(self).expiry == old(self).expiry,
            final(self).lists == old(self).lists,
            final(self).sets == old(self).sets,
            old(self).score_map().contains_key(key@) ==> final(self).score_map()
                == old(self).score_map().insert(key@, old(self).scores_of(key@).remove(member@)),
            !old(self).score_map().contains_key(key@) ==> final(self).score_map() == old(self).score_map(),
            r == old(self).scores_of(key@).contains_key(member@),
    {
        match self.sorted_sets.find(key) {
            Some(i) => {
                let ghost mid = self.sorted_sets;
                proof {
                    assert(mid.items@[i as int].wf());
                }
                let r = self.sorted_sets.items[i].zrem(member);
                proof {
                    lemma_write_slot(mid, self.sorted_sets, key@, self.sorted_sets.items@[i as int]);
                    assert(self.score_map() =~= old(self).score_map().insert(key@, old(self).scores_of(key@).remove(member@)));
                    assert forall|j: int| 0 <= j < self.sorted_sets.items@.len() implies #[trigger] self.sorted_sets.items@[j].wf() by {
                        if j != i {
                            assert(self.sorted_sets.items@[j] == mid.items@[j]);
                        }
                    }
                }
                r
            },
            None => false,
        }
    }

    /// The members of the sorted set under `key` in the inclusive rank window
    /// `[start, end]`; `None` where there is no sorted set.
    pub fn zrange(&self, key: &str, start: usize, end: usize) -> (r: Option<Vec<String>>)
        requires
            self.wf(),
        ensures
            match r {
                Some(v) => self.score_map().contains_key(key@)
                    && v@.map_values(|s: String| s@) == crate::sorted_set::rank_window(self.ranking_of(key@), start as int, end as int),
                None => !self.score_map().contains_key(key@),
            },
    {
        match self.sorted_sets.find(key) {
            Some(i) => {
                proof {
                    assert(self.sorted_sets.items@[i as int].wf());
                }
                Some(self.sorted_sets.items[i].zrange(start, end))
            },
            None => None,
        }
    }

    /// The score of `member` in the sorted set under `key`.
    pub fn zscore(&self, key: &str, member: &str) -> (r: Option<Score>)
        requires
            self.wf(),
        ensures
            r == self.scores_of(key@).get(member@),
    {
        match self.sorted_sets.find(key) {
            Some(i) => self.sorted_sets.items[i].zscore(member),
            None => None,
        }
    }
}

} // verus!
