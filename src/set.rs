use vstd::prelude::*;

verus! {

/// The set of strings that a sequence of strings holds.
pub open spec fn members_of(s: Seq<String>) -> Set<Seq<char>> {
    Set::new(|m: Seq<char>| exists|i: int| 0 <= i < s.len() && s[i]@ == m)
}

/// No string occurs twice in `s`.
pub open spec fn distinct_strings(s: Seq<String>) -> bool {
    forall|i: int, j: int| 0 <= i < s.len() && 0 <= j < s.len() && i != j ==> s[i]@ != s[j]@
}

/// An unordered set of unique strings, held as a vector without repeats.
pub struct RSets {
    pub set: Vec<String>,
}

impl RSets {
    pub open spec fn wf(&self) -> bool {
        distinct_strings(self.set@)
    }

    /// The strings that the set holds.
    pub open spec fn members(&self) -> Set<Seq<char>> {
        members_of(self.set@)
    }

    /// An empty set.
    pub fn new() -> (r: Self)
        ensures
            r.wf(),
            r.members() == Set::<Seq<char>>::empty(),
    {
        let r = RSets { set: Vec::new() };
        proof {
            assert(r.members() =~= Set::<Seq<char>>::empty());
        }
        r
    }

    /// The position of `value` in the vector, if it is there.
    fn position(&self, value: &String) -> (r: Option<usize>)
        ensures
            match r {
                Some(i) => i < self.set@.len() && self.set@[i as int]@ == value@,
                None => !self.members().contains(value@),
            },
    {
        let mut i: usize = 0;
        while i < self.set.len()
            invariant
                i <= self.set@.len(),
                forall|j: int| 0 <= j < i ==> self.set@[j]@ != value@,
            decreases self.set@.len() - i,
        {
            if self.set[i] == *value {
                return Some(i);
            }
            i = i + 1;
        }
        None
    }

    /// Adds `value`; true when it was not there before.
    pub fn sadd(&mut self, value: String) -> (r: bool)
        requires
            old(self).wf(),
        ensures
            final(self).wf(),
            final(self).members() == old(self).members().insert(value@),
            r == !old(self).members().contains(value@),
    {
        match self.position(&value) {
            Some(_) => {
                proof {
                    assert(self.members().insert(value@) =~= self.members());
                }
                false
            },
            None => {
                let ghost before = self.set@;
                self.set.push(value);
                proof {
                    assert(self.set@ == before.push(value));
                    assert forall|m: Seq<char>| self.members().contains(m) <==> members_of(before).insert(value@).contains(m) by {
                        if m == value@ {
                            assert(self.set@[before.len() as int]@ == m);
                        }
                        if members_of(before).contains(m) && m != value@ {
                            let i = choose|i: int| 0 <= i < before.len() && before[i]@ == m;
                            assert(self.set@[i]@ == m);
                        }
                    }
                    assert(self.members() =~= members_of(before).insert(value@));
                }
                true
            },
        }
    }

    /// Removes `value`; true when it was there.
    pub fn srem(&mut self, value: String) -> (r: bool)
        requires
            old(self).wf(),
        ensures
            final(self).wf(),
            final(self).members() == old(self).members().remove(value@),
            r == old(self).members().contains(value@),
    {
        match self.position(&value) {
            Some(i) => {
                let ghost before = self.set@;
                self.set.remove(i);
                proof {
                    assert(self.set@ =~= before.remove(i as int));
                    assert(before[i as int]@ == value@);
                    assert forall|m: Seq<char>| self.members().contains(m) <==> members_of(before).remove(value@).contains(m) by {
                        if members_of(before).contains(m) && m != value@ {
                            let j = choose|j: int| 0 <= j < before.len() && before[j]@ == m;
                            if j < i {
                                assert(self.set@[j]@ == m);
                            } else {
                                assert(self.set@[j - 1]@ == m);
                            }
                        }
                        if self.members().contains(m) {
                            let j = choose|j: int| 0 <= j < self.set@.len() && self.set@[j]@ == m;
                            if j < i {
                                assert(before[j]@ == m);
                            } else {
                                assert(before[j + 1]@ == m);
                            }
                        }
                    }
                    assert(self.members() =~= members_of(before).remove(value@));
                }
                true
            },
            None => {
                proof {
                    assert(self.members().remove(value@) =~= self.members());
                }
                false
            },
        }
    }

    /// Every member, once each, in no promised order.
    pub fn smembers(&self) -> (r: Vec<String>)
        requires
            self.wf(),
        ensures
            distinct_strings(r@),
            members_of(r@) == self.members(),
    {
        let mut out: Vec<String> = Vec::new();
        let mut i: usize = 0;
        while i < self.set.len()
            invariant
                i <= self.set@.len(),
                out@ == self.set@.subrange(0, i as int),
            decreases self.set@.len() - i,
        {
            out.push(self.set[i].clone());
            i = i + 1;
            proof {
                assert(out@ =~= self.set@.subrange(0, i as int));
            }
        }
        proof {
            assert(out@ =~= self.set@);
        }
        out
    }

    /// Whether `value` is a member.
    pub fn sismember(&self, value: &str) -> (r: bool)
        ensures
            r == self.members().contains(value@),
    {
        let v = value.to_string();
        self.position(&v).is_some()
    }
}

} // verus!
