use vstd::prelude::*;
use vstd::hash_map::StringHashMap;
use crate::score::Score;

verus! {

/// Lexical order on strings, character by character.
pub open spec fn lex_lt(a: Seq<char>, b: Seq<char>) -> bool
    decreases a.len(),
{
    if a.len() == 0 {
        b.len() > 0
    } else if b.len() == 0 {
        false
    } else if a[0] != b[0] {
        (a[0] as int) < (b[0] as int)
    } else {
        lex_lt(a.drop_first(), b.drop_first())
    }
}

/// The rank order: by score, then by member.
pub open spec fn rank_lt(s1: Score, m1: Seq<char>, s2: Score, m2: Seq<char>) -> bool {
    s1.key < s2.key || (s1.key == s2.key && lex_lt(m1, m2))
}

pub proof fn lemma_lex_irreflexive(a: Seq<char>)
    ensures
        !lex_lt(a, a),
    decreases a.len(),
{
    if a.len() > 0 {
        lemma_lex_irreflexive(a.drop_first());
    }
}

pub proof fn lemma_lex_total(a: Seq<char>, b: Seq<char>)
    ensures
        a != b ==> lex_lt(a, b) || lex_lt(b, a),
    decreases a.len(),
{
    if a.len() > 0 && b.len() > 0 && a[0] == b[0] {
        lemma_lex_total(a.drop_first(), b.drop_first());
        if a.drop_first() == b.drop_first() {
            assert(a =~= seq![a[0]] + a.drop_first());
            assert(b =~= seq![b[0]] + b.drop_first());
        }
    } else if a.len() > 0 && b.len() > 0 {
        assert((a[0] as int) != (b[0] as int));
    } else if a.len() == 0 && b.len() == 0 {
        assert(a =~= b);
    }
}

pub proof fn lemma_lex_transitive(a: Seq<char>, b: Seq<char>, c: Seq<char>)
    requires
        lex_lt(a, b),
        lex_lt(b, c),
    ensures
        lex_lt(a, c),
    decreases a.len(),
{
    if a.len() > 0 && b.len() > 0 && c.len() > 0 && a[0] == b[0] && b[0] == c[0] {
        lemma_lex_transitive(a.drop_first(), b.drop_first(), c.drop_first());
    }
}

/// An entry of the rank index.
pub struct SortedMembers {
    pub score: Score,
    pub member: String,
}

/// The members of `s`, in order.
pub open spec fn ranked_members(s: Seq<SortedMembers>) -> Seq<Seq<char>> {
    s.map_values(|e: SortedMembers| e.member@)
}

/// The entries of `s` are in strictly ascending rank order.
pub open spec fn strictly_ranked(s: Seq<SortedMembers>) -> bool {
    forall|i: int, j: int|
        0 <= i < j < s.len() ==> rank_lt(s[i].score, s[i].member@, s[j].score, s[j].member@)
}

/// The members of a sorted set in the inclusive rank window `[start, end]`;
/// empty where `start` is past the end or after `end`.
pub open spec fn rank_window(s: Seq<Seq<char>>, start: int, end: int) -> Seq<Seq<char>> {
    if start > end || start >= s.len() {
        Seq::empty()
    } else if end < s.len() {
        s.subrange(start, end + 1)
    } else {
        s.subrange(start, s.len() as int)
    }
}

/// Members with scores, held twice: by member for lookup, and in rank order
/// for ranges. Both hold the same pairs.
pub struct RSortedSet {
    pub members: StringHashMap<Score>,
    pub sorted: Vec<SortedMembers>,
}

impl RSortedSet {
    /// The two indices agree and the rank index is in order.
    pub open spec fn wf(&self) -> bool {
        &&& strictly_ranked(self.sorted@)
        &&& forall|i: int| 0 <= i < self.sorted@.len() ==>
            #[trigger] self.members@.contains_key(self.sorted@[i].member@)
            && self.members@[self.sorted@[i].member@] == self.sorted@[i].score
        &&& forall|m: Seq<char>| #[trigger] self.members@.contains_key(m) ==>
            exists|i: int| 0 <= i < self.sorted@.len() && self.sorted@[i].member@ == m
    }

    /// Each member's score.
    pub open spec fn scores(&self) -> Map<Seq<char>, Score> {
        self.members@
    }

    /// The members in ascending order of score, then of member.
    pub open spec fn ranking(&self) -> Seq<Seq<char>> {
        ranked_members(self.sorted@)
    }

    /// An empty sorted set.
    pub fn new() -> (r: Self)
        ensures
            r.wf(),
            r.scores() == Map::<Seq<char>, Score>::empty(),
    {
        RSortedSet { members: StringHashMap::new(), sorted: Vec::new() }
    }

    /// The position of `member` in the rank index.
    fn rank_of(&self, member: &String) -> (r: usize)
        requires
            self.wf(),
            self.members@.contains_key(member@),
        ensures
            r < self.sorted@.len(),
            self.sorted@[r as int].member@ == member@,
    {
        let mut i: usize = 0;
        while i < self.sorted.len()
            invariant
                self.wf(),
                self.members@.contains_key(member@),
                i <= self.sorted@.len(),
                forall|j: int| 0 <= j < i ==> self.sorted@[j].member@ != member@,
            decreases self.sorted@.len() - i,
        {
            if self.sorted[i].member == *member {
                return i;
            }
            i = i + 1;
        }
        proof {
            assert(self.members@.contains_key(member@));
        }
        0
    }

    /// Takes the rank entry of `member` out of the rank index.
    fn unrank(&mut self, member: &String)
        requires
            old(self).wf(),
            old(self).members@.contains_key(member@),
        ensures
            final(self).members@ == old(self).members@,
            strictly_ranked(final(self).sorted@),
            forall|i: int| 0 <= i < final(self).sorted@.len() ==>
                #[trigger] final(self).sorted@[i].member@ != member@
                && final(self).members@.contains_key(final(self).sorted@[i].member@)
                && final(self).members@[final(self).sorted@[i].member@] == final(self).sorted@[i].score,
            forall|m: Seq<char>| #[trigger] final(self).members@.contains_key(m) && m != member@ ==>
                exists|i: int| 0 <= i < final(self).sorted@.len() && final(self).sorted@[i].member@ == m,
    {
        let p = self.rank_of(member);
        let ghost before = self.sorted@;
        let _ = self.sorted.remove(p);
        proof {
            assert forall|i: int| 0 <= i < self.sorted@.len() implies
                #[trigger] self.sorted@[i].member@ != member@ by {
                let j = if i < p { i } else { i + 1 };
                assert(self.sorted@[i] == before[j]);
                if before[j].member@ == member@ {
                    lemma_lex_irreflexive(member@);
                    if j < p {
                        assert(rank_lt(before[j].score, before[j].member@, before[p as int].score, before[p as int].member@));
                    } else {
                        assert(rank_lt(before[p as int].score, before[p as int].member@, before[j].score, before[j].member@));
                    }
                }
            }
            assert forall|m: Seq<char>| #[trigger] self.members@.contains_key(m) && m != member@ implies
                exists|i: int| 0 <= i < self.sorted@.len() && self.sorted@[i].member@ == m by {
                let j = choose|j: int| 0 <= j < before.len() && before[j].member@ == m;
                if j < p {
                    assert(self.sorted@[j].member@ == m);
                } else {
                    assert(self.sorted@[j - 1].member@ == m);
                }
            }
        }
    }

    /// Whether `a` comes before `b` in lexical order.
    fn member_lt(a: &String, b: &String) -> (r: bool)
        ensures
            r == lex_lt(a@, b@),
    {
        let la = a.as_str().unicode_len();
        let lb = b.as_str().unicode_len();
        let mut i: usize = 0;
        proof {
            assert(a@.subrange(0, la as int) =~= a@);
            assert(b@.subrange(0, lb as int) =~= b@);
        }
        while i < la && i < lb
            invariant
                la == a@.len(),
                lb == b@.len(),
                i <= la,
                i <= lb,
                lex_lt(a@, b@) == lex_lt(a@.subrange(i as int, la as int), b@.subrange(i as int, lb as int)),
            decreases la - i,
        {
            let ca = a.as_str().get_char(i);
            let cb = b.as_str().get_char(i);
            if ca != cb {
                proof {
                    assert(a@.subrange(i as int, la as int)[0] == ca);
                    assert(b@.subrange(i as int, lb as int)[0] == cb);
                }
                return (ca as u32) < (cb as u32);
            }
            proof {
                assert(a@.subrange(i as int, la as int).drop_first() =~= a@.subrange(i + 1, la as int));
                assert(b@.subrange(i as int, lb as int).drop_first() =~= b@.subrange(i + 1, lb as int));
            }
            i = i + 1;
        }
        i < lb
    }

    /// Whether entry `e` ranks before `(score, member)`.
    fn ranks_before(e: &SortedMembers, score: Score, member: &String) -> (r: bool)
        ensures
            r == rank_lt(e.score, e.member@, score, member@),
    {
        e.score.key < score.key || (e.score.key == score.key && Self::member_lt(&e.member, member))
    }

    /// Adds `member` with `score`, or moves it to `score`. False only where
    /// the member already had this very score, and then nothing changes.
    pub fn zadd(&mut self, score: Score, member: String) -> (r: bool)
        requires
            old(self).wf(),
        ensures
            final(self).wf(),
            final(self).scores() == old(self).scores().insert(member@, score),
            r == !(old(self).scores().contains_key(member@) && old(self).scores()[member@] == score),
    {
        let mut present = false;
        match self.members.get(member.as_str()) {
            Some(old_score) => {
                if old_score.key == score.key {
                    proof {
                        assert(self.members@.insert(member@, score) =~= self.members@);
                    }
                    return false;
                }
                present = true;
            },
            None => {},
        }
        if present {
            self.unrank(&member);
        }
        let ghost mid = self.sorted@;
        // first position whose entry ranks after the new one
        let mut p: usize = 0;
        while p < self.sorted.len() && Self::ranks_before(&self.sorted[p], score, &member)
            invariant
                p <= self.sorted@.len(),
                self.sorted@ == mid,
                forall|j: int| 0 <= j < p ==>
                    rank_lt(mid[j].score, mid[j].member@, score, member@),
            decreases self.sorted@.len() - p,
        {
            p = p + 1;
        }
        proof {
            assert forall|i: int| 0 <= i < mid.len() implies #[trigger] mid[i].member@ != member@ by {
                if !present {
                    assert(self.members@.contains_key(mid[i].member@));
                }
            }
        }
        let ghost old_members = self.members@;
        self.sorted.insert(p, SortedMembers { score, member: member.clone() });
        self.members.insert(member, score);
        proof {
            let s = self.sorted@;
            assert forall|i: int, j: int| 0 <= i < j < s.len() implies
                rank_lt(s[i].score, s[i].member@, s[j].score, s[j].member@) by {
                if i < p && j == p {
                } else if i < p && j > p {
                    assert(s[j] == mid[j - 1]);
                    assert(rank_lt(mid[i].score, mid[i].member@, score, member@));
                    if p < mid.len() {
                        Self::lemma_after_new(mid, p as int, score, member@);
                    }
                    lemma_rank_transitive(mid[i].score, mid[i].member@, score, member@, mid[j - 1].score, mid[j - 1].member@);
                } else if i == p {
                    assert(s[j] == mid[j - 1]);
                    Self::lemma_after_new(mid, p as int, score, member@);
                } else if i > p {
                    assert(s[i] == mid[i - 1] && s[j] == mid[j - 1]);
                } else {
                    assert(s[i] == mid[i] && s[j] == mid[j]);
                }
            }
            assert forall|i: int| 0 <= i < s.len() implies
                #[trigger] self.members@.contains_key(s[i].member@)
                && self.members@[s[i].member@] == s[i].score by {
                if i < p {
                    assert(s[i] == mid[i]);
                    assert(mid[i].member@ != member@);
                    assert(old_members.contains_key(mid[i].member@));
                } else if i > p {
                    assert(s[i] == mid[i - 1]);
                    assert(mid[i - 1].member@ != member@);
                    assert(old_members.contains_key(mid[i - 1].member@));
                }
            }
            assert forall|m: Seq<char>| #[trigger] self.members@.contains_key(m) implies
                exists|i: int| 0 <= i < s.len() && s[i].member@ == m by {
                if m == member@ {
                    assert(s[p as int].member@ == m);
                } else {
                    assert(old_members.contains_key(m));
                    let j = choose|j: int| 0 <= j < mid.len() && mid[j].member@ == m;
                    if j < p {
                        assert(s[j].member@ == m);
                    } else {
                        assert(s[j + 1].member@ == m);
                    }
                }
            }
            assert(strictly_ranked(s));
            assert(self.wf());
        }
        true
    }

    /// Every entry from position `p` on ranks after `(score, member)`, given
    /// that the entry at `p` does not rank before it and `member` is not in
    /// the index.
    proof fn lemma_after_new(mid: Seq<SortedMembers>, p: int, score: Score, member: Seq<char>)
        requires
            strictly_ranked(mid),
            0 <= p < mid.len(),
            !rank_lt(mid[p].score, mid[p].member@, score, member),
            forall|i: int| 0 <= i < mid.len() ==> #[trigger] mid[i].member@ != member,
        ensures
            forall|j: int| p <= j < mid.len() ==>
                rank_lt(score, member, #[trigger] mid[j].score, mid[j].member@),
    {
        assert(mid[p].member@ != member);
        lemma_lex_total(mid[p].member@, member);
        assert forall|j: int| p <= j < mid.len() implies
            rank_lt(score, member, #[trigger] mid[j].score, mid[j].member@) by {
            if j > p {
                lemma_rank_transitive(score, member, mid[p].score, mid[p].member@, mid[j].score, mid[j].member@);
            }
        }
    }

    /// Removes `member`; true when it was there.
    pub fn zrem(&mut self, member: String) -> (r: bool)
        requires
            old(self).wf(),
        ensures
            final(self).wf(),
            final(self).scores() == old(self).scores().remove(member@),
            r == old(self).scores().contains_key(member@),
    {
        if !self.members.contains_key(member.as_str()) {
            proof {
                assert(self.members@.remove(member@) =~= self.members@);
            }
            return false;
        }
        self.unrank(&member);
        self.members.remove(member.as_str());
        true
    }

    /// The members in the inclusive rank window `[start, end]`, in ascending
    /// order of score and then of member.
    pub fn zrange(&self, start: usize, end: usize) -> (r: Vec<String>)
        requires
            self.wf(),
        ensures
            r@.map_values(|s: String| s@) == rank_window(self.ranking(), start as int, end as int),
    {
        let n = self.sorted.len();
        let mut out: Vec<String> = Vec::new();
        if start > end || start >= n {
            proof {
                assert(out@.map_values(|s: String| s@) =~= rank_window(self.ranking(), start as int, end as int));
            }
            return out;
        }
        let last = if end < n { end } else { n - 1 };
        let mut i: usize = start;
        while i <= last
            invariant
                start <= i <= last + 1,
                last < n,
                n == self.sorted@.len(),
                out@.len() == i - start,
                forall|k: int| 0 <= k < out@.len() ==> #[trigger] out@[k]@ == self.sorted@[start + k].member@,
            decreases last + 1 - i,
        {
            out.push(self.sorted[i].member.clone());
            i = i + 1;
        }
        proof {
            assert(out@.map_values(|s: String| s@) =~= rank_window(self.ranking(), start as int, end as int));
        }
        out
    }

    /// The score of `member`, if it is there.
    pub fn zscore(&self, member: &str) -> (r: Option<Score>)
        ensures
            r == self.scores().get(member@),
    {
        match self.members.get(member) {
            Some(s) => Some(*s),
            None => None,
        }
    }
}

pub proof fn lemma_rank_transitive(s1: Score, m1: Seq<char>, s2: Score, m2: Seq<char>, s3: Score, m3: Seq<char>)
    requires
        rank_lt(s1, m1, s2, m2),
        rank_lt(s2, m2, s3, m3),
    ensures
        rank_lt(s1, m1, s3, m3),
{
    if s1.key == s2.key && s2.key == s3.key {
        lemma_lex_transitive(m1, m2, m3);
    }
}

} // verus!
