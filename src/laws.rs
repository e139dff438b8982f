use vstd::prelude::*;
use crate::command::{Command, executes, flag};
use crate::database::{Database, deadline};
use crate::reply::Reply;
use crate::score::Score;
use crate::sorted_set::{lex_lt, rank_lt, rank_window, strictly_ranked, ranked_members};

verus! {

/// Writing `value` under `key` without a time to live and then reading `key`,
/// at any later time, gives `value`.
pub proof fn law_set_then_get(
    a: Database, b: Database, c: Database, key: String, value: String,
    now: u64, later: u64, r1: Reply, r2: Reply,
)
    requires
        executes(a, Command::SetKey { key, value, ttl: None }, now, r1, b),
        executes(b, Command::Get { key }, later, r2, c),
    ensures
        r2 == Reply::Bulk(value),
{
}

/// A string written with a time to live is gone once its deadline has passed:
/// reading it gives nil, and neither the string nor its deadline remains.
pub proof fn law_expired_get(
    a: Database, b: Database, c: Database, key: String, value: String, ttl: u64,
    now: u64, later: u64, r1: Reply, r2: Reply,
)
    requires
        executes(a, Command::SetKey { key, value, ttl: Some(ttl) }, now, r1, b),
        later > deadline(now, ttl),
        executes(b, Command::Get { key }, later, r2, c),
    ensures
        r2 is Nil,
        !c.values@.contains_key(key@),
        !c.expiry@.contains_key(key@),
{
}

/// Deleting a key that was just written answers one, deleting it again
/// answers zero, and reading it afterwards gives nil.
pub proof fn law_delete_once(
    s0: Database, s1: Database, s2: Database, s3: Database, s4: Database,
    key: String, value: String, t0: u64, t1: u64, t2: u64, t3: u64,
    r0: Reply, r1: Reply, r2: Reply, r3: Reply,
)
    requires
        executes(s0, Command::SetKey { key, value, ttl: None }, t0, r0, s1),
        executes(s1, Command::Del { key }, t1, r1, s2),
        executes(s2, Command::Del { key }, t2, r2, s3),
        executes(s3, Command::Get { key }, t3, r3, s4),
    ensures
        r1 == Reply::Integer(1),
        r2 == Reply::Integer(0),
        r3 is Nil,
{
}

/// Pushing `x` and then `y` on the front of a list puts them, in the order
/// `y`, `x`, ahead of what the list held; the whole list reads back so.
pub proof fn law_push_front_order(
    s0: Database, s1: Database, s2: Database, s3: Database,
    key: String, x: String, y: String, now: u64,
    r0: Reply, r1: Reply, r2: Reply,
)
    requires
        executes(s0, Command::LPush { key, value: x }, now, r0, s1),
        executes(s1, Command::LPush { key, value: y }, now, r1, s2),
        executes(s2, Command::LRange { key, start: 0i64, end: -1i64 }, now, r2, s3),
    ensures
        r2 matches Reply::Array(v) && v@ == seq![y, x] + s0.list_of(key@),
        s0.list_of(key@).len() == 0 ==> (r2 matches Reply::Array(v) && v@ == seq![y, x]),
{
    let l = seq![y, x] + s0.list_of(key@);
    assert(s2.list_of(key@) =~= l);
    assert(l.subrange(0, l.len() as int) =~= l);
    if s0.list_of(key@).len() == 0 {
        assert(l =~= seq![y, x]);
    }
}

/// Adding a new member answers one and adding it again answers zero;
/// removing it then answers one, and removing it again answers zero.
pub proof fn law_add_remove_once(
    s0: Database, s1: Database, s2: Database, s3: Database, s4: Database,
    key: String, value: String, now: u64,
    r0: Reply, r1: Reply, r2: Reply, r3: Reply,
)
    requires
        !s0.set_of(key@).contains(value@),
        executes(s0, Command::SAdd { key, value }, now, r0, s1),
        executes(s1, Command::SAdd { key, value }, now, r1, s2),
        executes(s2, Command::SRem { key, value }, now, r2, s3),
        executes(s3, Command::SRem { key, value }, now, r3, s4),
    ensures
        r0 == Reply::Integer(1),
        r1 == Reply::Integer(0),
        r2 == Reply::Integer(1),
        r3 == Reply::Integer(0),
{
}

/// However many times one member is added to a set that lacked it, one after
/// another, exactly the first addition answers one, and the member is then in
/// the set.
pub proof fn law_add_converges(states: Seq<Database>, replies: Seq<Reply>, key: String, value: String, now: u64)
    requires
        replies.len() >= 1,
        states.len() == replies.len() + 1,
        !states[0].set_of(key@).contains(value@),
        forall|i: int| 0 <= i < replies.len() ==>
            executes(#[trigger] states[i], Command::SAdd { key, value }, now, replies[i], states[i + 1]),
    ensures
        replies[0] == flag(true),
        forall|i: int| 1 <= i < replies.len() ==> #[trigger] replies[i] == flag(false),
        states[states.len() - 1].set_of(key@).contains(value@),
{
    assert forall|i: int| 1 <= i < states.len() implies #[trigger] states[i].set_of(key@).contains(value@) by {
        assert(executes(states[i - 1], Command::SAdd { key, value }, now, replies[i - 1], states[i]));
        assert(states[i].set_map()[key@] == states[i - 1].set_of(key@).insert(value@));
    }
    assert forall|i: int| 1 <= i < replies.len() implies #[trigger] replies[i] == flag(false) by {
        assert(states[i].set_of(key@).contains(value@));
        assert(executes(states[i], Command::SAdd { key, value }, now, replies[i], states[i + 1]));
    }
}

/// Adding a member with the score it already has answers zero and changes
/// nothing; adding it with another score answers one and moves it there.
pub proof fn law_rescore(
    s0: Database, s1: Database, s2: Database, s3: Database,
    key: String, member: String, first: Score, second: Score, now: u64,
    r0: Reply, r1: Reply, r2: Reply,
)
    requires
        first != second,
        executes(s0, Command::ZAdd { key, score: first, member }, now, r0, s1),
        executes(s1, Command::ZAdd { key, score: first, member }, now, r1, s2),
        executes(s2, Command::ZAdd { key, score: second, member }, now, r2, s3),
    ensures
        r1 == Reply::Integer(0),
        s2.scores_of(key@) == s1.scores_of(key@),
        s1.scores_of(key@)[member@] == first,
        r2 == Reply::Integer(1),
        s3.scores_of(key@)[member@] == second,
{
    assert(s2.scores_of(key@) =~= s1.scores_of(key@));
}

/// A sorted set lists each member once, in strictly ascending order of
/// score and, among equal scores, of member.
pub proof fn law_ranking_ascending(db: Database, key: Seq<char>)
    requires
        db.wf(),
    ensures
        ({
            let s = db.ranking_of(key);
            let m = db.scores_of(key);
            &&& forall|x: Seq<char>| m.contains_key(x) <==> s.contains(x)
            &&& forall|i: int, j: int| 0 <= i < j < s.len() ==>
                rank_lt(m[s[i]], s[i], m[s[j]], s[j])
        }),
{
    if db.sorted_sets.contents().contains_key(key) {
        let z = db.sorted_sets.contents()[key];
        let slot = db.sorted_sets.slots@[key] as int;
        assert(z == db.sorted_sets.items@[slot]);
        assert(z.wf());
        let s = db.ranking_of(key);
        let m = db.scores_of(key);
        assert(s == ranked_members(z.sorted@));
        assert(m == z.scores());
        assert forall|x: Seq<char>| m.contains_key(x) <==> s.contains(x) by {
            if m.contains_key(x) {
                let i = choose|i: int| 0 <= i < z.sorted@.len() && z.sorted@[i].member@ == x;
                assert(s[i] == x);
            }
            if s.contains(x) {
                let i = choose|i: int| 0 <= i < s.len() && s[i] == x;
                assert(z.sorted@[i].member@ == x);
            }
        }
        assert forall|i: int, j: int| 0 <= i < j < s.len() implies
            rank_lt(m[s[i]], s[i], m[s[j]], s[j]) by {
            assert(z.members@.contains_key(z.sorted@[i].member@));
            assert(z.members@.contains_key(z.sorted@[j].member@));
        }
    } else {
        assert(db.scores_of(key) =~= Map::<Seq<char>, Score>::empty());
    }
}

/// Members with equal scores come out of a sorted set in lexical order.
pub proof fn law_equal_scores_lexical(db: Database, key: Seq<char>, i: int, j: int)
    requires
        db.wf(),
        0 <= i < j < db.ranking_of(key).len(),
        db.scores_of(key)[db.ranking_of(key)[i]] == db.scores_of(key)[db.ranking_of(key)[j]],
    ensures
        lex_lt(db.ranking_of(key)[i], db.ranking_of(key)[j]),
{
    law_ranking_ascending(db, key);
    let s = db.ranking_of(key);
    let m = db.scores_of(key);
    assert(rank_lt(m[s[i]], s[i], m[s[j]], s[j]));
}

/// A rank window from zero to at least the last rank holds the whole sorted
/// set, in rank order.
pub proof fn law_full_rank_window(
    a: Database, b: Database, key: String, end: usize, now: u64, r: Reply,
)
    requires
        end as int >= a.ranking_of(key@).len() - 1,
        executes(a, Command::ZRange { key, start: 0, end }, now, r, b),
    ensures
        r matches Reply::Array(v) && v@.map_values(|s: String| s@) == a.ranking_of(key@),
{
    let s = a.ranking_of(key@);
    if s.len() == 0 {
        assert(rank_window(s, 0, end as int) =~= s);
    } else {
        assert(rank_window(s, 0, end as int) =~= s);
    }
}

/// A range of a list that does not exist is an empty array.
pub proof fn law_absent_list_range(
    a: Database, b: Database, key: String, start: i64, end: i64, now: u64, r: Reply,
)
    requires
        !a.list_map().contains_key(key@),
        executes(a, Command::LRange { key, start, end }, now, r, b),
    ensures
        r matches Reply::Array(v) && v@.len() == 0,
{
}

} // verus!
