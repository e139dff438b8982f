use vstd::prelude::*;
use crate::database::{Database, deadline};
use crate::list::range_window;
use crate::number::{parse_u64, parse_usize, parse_i64, unsigned_text, signed_text};
use crate::reply::{CommandError, Reply};
use crate::score::Score;
use crate::set::{distinct_strings, members_of};
use crate::sorted_set::rank_window;

verus! {

/// The pieces of `line` between runs of white space, in order.
pub uninterp spec fn whitespace_tokens(line: Seq<char>) -> Seq<Seq<char>>;

/// Relies on str::split_whitespace: the pieces of `line` between runs of
/// Unicode white space, in order, each copied into a `String`.
#[verifier::external_body]
fn split_tokens(line: &str) -> (r: Vec<String>)
    ensures
        r@.map_values(|t: String| t@) == whitespace_tokens(line@),
{
    line.split_whitespace().map(|t| t.to_string()).collect()
}

/// The tokens of a command line.
pub fn tokens(line: &str) -> (r: Vec<String>)
    ensures
        r@.map_values(|t: String| t@) == whitespace_tokens(line@),
{
    split_tokens(line)
}

/// A command, its arguments read.
#[allow(inconsistent_fields)]
pub enum Command {
    SetKey { key: String, value: String, ttl: Option<u64> },
    Get { key: String },
    Del { key: String },
    LPush { key: String, value: String },
    RPush { key: String, value: String },
    LPop { key: String },
    RPop { key: String },
    LRange { key: String, start: i64, end: i64 },
    SAdd { key: String, value: String },
    SRem { key: String, value: String },
    SIsMember { key: String, value: String },
    SMembers { key: String },
    ZAdd { key: String, score: Score, member: String },
    ZRem { key: String, member: String },
    ZRange { key: String, start: usize, end: usize },
    ZScore { key: String, member: String },
    Ping,
}

/// `r` is what the tokens `t` read as. `score` is the third token read as a
/// floating-point score, `None` where it does not read as one.
pub open spec fn parses_to(t: Seq<Seq<char>>, score: Option<Score>, r: Result<Command, CommandError>) -> bool {
    let n = t.len();
    if n == 5 && t[0] == "SET"@ && t[3] == "EX"@ {
        let ttl_arg = unsigned_text(t[4], u64::MAX as int);
        if ttl_arg is None {
            r == Err::<Command, CommandError>(CommandError::InvalidTtl)
        } else {
            r matches Ok(Command::SetKey { key, value, ttl }) && key@ == t[1] && value@ == t[2]
                && ttl == Some(ttl_arg->0 as u64)
        }
    } else if n == 3 && t[0] == "SET"@ {
        r matches Ok(Command::SetKey { key, value, ttl }) && key@ == t[1] && value@ == t[2] && ttl is None
    } else if n == 2 && t[0] == "GET"@ {
        r matches Ok(Command::Get { key }) && key@ == t[1]
    } else if n == 2 && t[0] == "DEL"@ {
        r matches Ok(Command::Del { key }) && key@ == t[1]
    } else if n == 3 && t[0] == "LPUSH"@ {
        r matches Ok(Command::LPush { key, value }) && key@ == t[1] && value@ == t[2]
    } else if n == 3 && t[0] == "RPUSH"@ {
        r matches Ok(Command::RPush { key, value }) && key@ == t[1] && value@ == t[2]
    } else if n == 2 && t[0] == "LPOP"@ {
        r matches Ok(Command::LPop { key }) && key@ == t[1]
    } else if n == 2 && t[0] == "RPOP"@ {
        r matches Ok(Command::RPop { key }) && key@ == t[1]
    } else if n == 4 && t[0] == "LRANGE"@ {
        let s = signed_text(t[2], i64::MIN as int, i64::MAX as int);
        let e = signed_text(t[3], i64::MIN as int, i64::MAX as int);
        if s is None {
            r == Err::<Command, CommandError>(CommandError::InvalidStart)
        } else if e is None {
            r == Err::<Command, CommandError>(CommandError::InvalidEnd)
        } else {
            r matches Ok(Command::LRange { key, start, end }) && key@ == t[1]
                && start as int == s->0 && end as int == e->0
        }
    } else if n == 3 && t[0] == "SADD"@ {
        r matches Ok(Command::SAdd { key, value }) && key@ == t[1] && value@ == t[2]
    } else if n == 3 && t[0] == "SREM"@ {
        r matches Ok(Command::SRem { key, value }) && key@ == t[1] && value@ == t[2]
    } else if n == 3 && t[0] == "SISMEMBER"@ {
        r matches Ok(Command::SIsMember { key, value }) && key@ == t[1] && value@ == t[2]
    } else if n == 2 && t[0] == "SMEMBERS"@ {
        r matches Ok(Command::SMembers { key }) && key@ == t[1]
    } else if n == 4 && t[0] == "ZADD"@ {
        if score is None {
            r == Err::<Command, CommandError>(CommandError::InvalidScore)
        } else {
            r matches Ok(Command::ZAdd { key, score: s, member }) && key@ == t[1] && s == score->0
                && member@ == t[3]
        }
    } else if n == 3 && t[0] == "ZREM"@ {
        r matches Ok(Command::ZRem { key, member }) && key@ == t[1] && member@ == t[2]
    } else if n == 4 && t[0] == "ZRANGE"@ {
        let s = unsigned_text(t[2], usize::MAX as int);
        let e = unsigned_text(t[3], usize::MAX as int);
        if s is None {
            r == Err::<Command, CommandError>(CommandError::InvalidStart)
        } else if e is None {
            r == Err::<Command, CommandError>(CommandError::InvalidEnd)
        } else {
            r matches Ok(Command::ZRange { key, start, end }) && key@ == t[1]
                && start as int == s->0 && end as int == e->0
        }
    } else if n == 3 && t[0] == "ZSCORE"@ {
        r matches Ok(Command::ZScore { key, member }) && key@ == t[1] && member@ == t[2]
    } else if n == 1 && t[0] == "PING"@ {
        r matches Ok(Command::Ping)
    } else {
        r == Err::<Command, CommandError>(CommandError::Unknown)
    }
}

/// Whether `t` spells `w`.
fn is_word(t: &String, w: &str) -> (r: bool)
    ensures
        r == (t@ == w@),
{
    *t == w.to_string()
}

/// Reads `tokens` as a command. `score` is the third token read as a
/// floating-point score, `None` where it does not read as one; only `ZADD`
/// looks at it.
pub fn parse_command(tokens: &Vec<String>, score: Option<Score>) -> (r: Result<Command, CommandError>)
    ensures
        parses_to(tokens@.map_values(|t: String| t@), score, r),
{
    let ghost t = tokens@.map_values(|s: String| s@);
    let n = tokens.len();
    if n == 0 {
        return Err(CommandError::Unknown);
    }
    proof {
        assert forall|i: int| 0 <= i < n implies t[i] == #[trigger] tokens@[i]@ by {}
    }
    let name = &tokens[0];
    if n == 5 && is_word(name, "SET") && is_word(&tokens[3], "EX") {
        match parse_u64(tokens[4].as_str()) {
            Some(ttl) => Ok(Command::SetKey { key: tokens[1].clone(), value: tokens[2].clone(), ttl: Some(ttl) }),
            None => Err(CommandError::InvalidTtl),
        }
    } else if n == 3 && is_word(name, "SET") {
        Ok(Command::SetKey { key: tokens[1].clone(), value: tokens[2].clone(), ttl: None })
    } else if n == 2 && is_word(name, "GET") {
        Ok(Command::Get { key: tokens[1].clone() })
    } else if n == 2 && is_word(name, "DEL") {
        Ok(Command::Del { key: tokens[1].clone() })
    } else if n == 3 && is_word(name, "LPUSH") {
        Ok(Command::LPush { key: tokens[1].clone(), value: tokens[2].clone() })
    } else if n == 3 && is_word(name, "RPUSH") {
        Ok(Command::RPush { key: tokens[1].clone(), value: tokens[2].clone() })
    } else if n == 2 && is_word(name, "LPOP") {
        Ok(Command::LPop { key: tokens[1].clone() })
    } else if n == 2 && is_word(name, "RPOP") {
        Ok(Command::RPop { key: tokens[1].clone() })
    } else if n == 4 && is_word(name, "LRANGE") {
        match parse_i64(tokens[2].as_str()) {
            None => Err(CommandError::InvalidStart),
            Some(start) => match parse_i64(tokens[3].as_str()) {
                None => Err(CommandError::InvalidEnd),
                Some(end) => Ok(Command::LRange { key: tokens[1].clone(), start, end }),
            },
        }
    } else if n == 3 && is_word(name, "SADD") {
        Ok(Command::SAdd { key: tokens[1].clone(), value: tokens[2].clone() })
    } else if n == 3 && is_word(name, "SREM") {
        Ok(Command::SRem { key: tokens[1].clone(), value: tokens[2].clone() })
    } else if n == 3 && is_word(name, "SISMEMBER") {
        Ok(Command::SIsMember { key: tokens[1].clone(), value: tokens[2].clone() })
    } else if n == 2 && is_word(name, "SMEMBERS") {
        Ok(Command::SMembers { key: tokens[1].clone() })
    } else if n == 4 && is_word(name, "ZADD") {
        match score {
            None => Err(CommandError::InvalidScore),
            Some(s) => Ok(Command::ZAdd { key: tokens[1].clone(), score: s, member: tokens[3].clone() }),
        }
    } else if n == 3 && is_word(name, "ZREM") {
        Ok(Command::ZRem { key: tokens[1].clone(), member: tokens[2].clone() })
    } else if n == 4 && is_word(name, "ZRANGE") {
        match parse_usize(tokens[2].as_str()) {
            None => Err(CommandError::InvalidStart),
            Some(start) => match parse_usize(tokens[3].as_str()) {
                None => Err(CommandError::InvalidEnd),
                Some(end) => Ok(Command::ZRange { key: tokens[1].clone(), start, end }),
            },
        }
    } else if n == 3 && is_word(name, "ZSCORE") {
        Ok(Command::ZScore { key: tokens[1].clone(), member: tokens[2].clone() })
    } else if n == 1 && is_word(name, "PING") {
        Ok(Command::Ping)
    } else {
        Err(CommandError::Unknown)
    }
}

/// An integer reply of one for true and zero for false.
pub open spec fn flag(b: bool) -> Reply {
    Reply::Integer(if b { 1 } else { 0 })
}

/// Nothing but the strings and their deadlines may differ between `a` and `b`.
pub open spec fn only_strings_differ(a: Database, b: Database) -> bool {
    a.lists == b.lists && a.sets == b.sets && a.sorted_sets == b.sorted_sets
}

/// Nothing but the lists may differ between `a` and `b`.
pub open spec fn only_lists_differ(a: Database, b: Database) -> bool {
    a.values == b.values && a.expiry == b.expiry && a.sets == b.sets && a.sorted_sets == b.sorted_sets
}

/// Nothing but the sets may differ between `a` and `b`.
pub open spec fn only_sets_differ(a: Database, b: Database) -> bool {
    a.values == b.values && a.expiry == b.expiry && a.lists == b.lists && a.sorted_sets == b.sorted_sets
}

/// Nothing but the sorted sets may differ between `a` and `b`.
pub open spec fn only_sorted_sets_differ(a: Database, b: Database) -> bool {
    a.values == b.values && a.expiry == b.expiry && a.lists == b.lists && a.sets == b.sets
}

/// Running `cmd` at time `now` on the store `a` answers `r` and leaves the
/// store `b`.
pub open spec fn executes(a: Database, cmd: Command, now: u64, r: Reply, b: Database) -> bool {
    match cmd {
        Command::SetKey { key, value, ttl } => {
            &&& r is Done
            &&& only_strings_differ(a, b)
            &&& b.values@ == a.values@.insert(key@, value)
            &&& b.expiry@ == match ttl {
                Some(t) => a.expiry@.insert(key@, deadline(now, t)),
                None => a.expiry@.remove(key@),
            }
        },
        Command::Get { key } => {
            &&& only_strings_differ(a, b)
            &&& if a.expired_at(key@, now) {
                r is Nil && b.values@ == a.values@.remove(key@) && b.expiry@ == a.expiry@.remove(key@)
            } else {
                b.values@ == a.values@ && b.expiry@ == a.expiry@ && if a.values@.contains_key(key@) {
                    r == Reply::Bulk(a.values@[key@])
                } else {
                    r is Nil
                }
            }
        },
        Command::Del { key } => {
            &&& r == flag(a.values@.contains_key(key@))
            &&& only_strings_differ(a, b)
            &&& b.values@ == a.values@.remove(key@)
            &&& b.expiry@ == a.expiry@.remove(key@)
        },
        Command::LPush { key, value } => {
            &&& only_lists_differ(a, b)
            &&& b.list_map() == a.list_map().insert(key@, seq![value] + a.list_of(key@))
            &&& r == Reply::Integer(b.list_of(key@).len() as u64)
        },
        Command::RPush { key, value } => {
            &&& only_lists_differ(a, b)
            &&& b.list_map() == a.list_map().insert(key@, a.list_of(key@).push(value))
            &&& r == Reply::Integer(b.list_of(key@).len() as u64)
        },
        Command::LPop { key } => {
            &&& only_lists_differ(a, b)
            &&& if a.list_of(key@).len() == 0 {
                r is Nil && b.list_map() == a.list_map()
            } else {
                r == Reply::Bulk(a.list_of(key@)[0])
                    && b.list_map() == a.list_map().insert(key@, a.list_of(key@).drop_first())
            }
        },
        Command::RPop { key } => {
            &&& only_lists_differ(a, b)
            &&& if a.list_of(key@).len() == 0 {
                r is Nil && b.list_map() == a.list_map()
            } else {
                r == Reply::Bulk(a.list_of(key@).last())
                    && b.list_map() == a.list_map().insert(key@, a.list_of(key@).drop_last())
            }
        },
        Command::LRange { key, start, end } => {
            &&& b == a
            &&& r matches Reply::Array(v) && v@ == range_window(a.list_of(key@), start as int, end as int)
        },
        Command::SAdd { key, value } => {
            &&& only_sets_differ(a, b)
            &&& b.set_map() == a.set_map().insert(key@, a.set_of(key@).insert(value@))
            &&& r == flag(!a.set_of(key@).contains(value@))
        },
        Command::SRem { key, value } => {
            &&& only_sets_differ(a, b)
            &&& a.set_map().contains_key(key@) ==> b.set_map() == a.set_map().insert(key@, a.set_of(key@).remove(value@))
            &&& !a.set_map().contains_key(key@) ==> b.set_map() == a.set_map()
            &&& r == flag(a.set_of(key@).contains(value@))
        },
        Command::SIsMember { key, value } => {
            &&& b == a
            &&& r == flag(a.set_of(key@).contains(value@))
        },
        Command::SMembers { key } => {
            &&& b == a
            &&& r matches Reply::Array(v) && distinct_strings(v@) && members_of(v@) == a.set_of(key@)
        },
        Command::ZAdd { key, score, member } => {
            &&& only_sorted_sets_differ(a, b)
            &&& b.score_map() == a.score_map().insert(key@, a.scores_of(key@).insert(member@, score))
            &&& r == flag(!(a.scores_of(key@).contains_key(member@) && a.scores_of(key@)[member@] == score))
        },
        Command::ZRem { key, member } => {
            &&& only_sorted_sets_differ(a, b)
            &&& a.score_map().contains_key(key@) ==> b.score_map() == a.score_map().insert(key@, a.scores_of(key@).remove(member@))
            &&& !a.score_map().contains_key(key@) ==> b.score_map() == a.score_map()
            &&& r == flag(a.scores_of(key@).contains_key(member@))
        },
        Command::ZRange { key, start, end } => {
            &&& b == a
            &&& r matches Reply::Array(v)
                && v@.map_values(|s: String| s@) == rank_window(a.ranking_of(key@), start as int, end as int)
        },
        Command::ZScore { key, member } => {
            &&& b == a
            &&& if a.scores_of(key@).contains_key(member@) {
                r == Reply::Score(a.scores_of(key@)[member@])
            } else {
                r is Nil
            }
        },
        Command::Ping => r is Pong && b == a,
    }
}

impl Database {
    /// Runs `cmd` at time `now`.
    pub fn execute(&mut self, cmd: Command, now: u64) -> (r: Reply)
        requires
            old(self).wf(),
        ensures
            final(self).wf(),
            executes(*old(self), cmd, now, r, *final(self)),
    {
        match cmd {
            Command::SetKey { key, value, ttl } => {
                self.set(key, value, ttl, now);
                Reply::Done
            },
            Command::Get { key } => match self.get(key.as_str(), now) {
                Some(v) => Reply::Bulk(v),
                None => Reply::Nil,
            },
            Command::Del { key } => if self.delete(key.as_str()) { Reply::Integer(1) } else { Reply::Integer(0) },
            Command::LPush { key, value } => Reply::Integer(self.lpush(key, value) as u64),
            Command::RPush { key, value } => Reply::Integer(self.rpush(key, value) as u64),
            Command::LPop { key } => match self.lpop(key.as_str()) {
                Some(v) => Reply::Bulk(v),
                None => Reply::Nil,
            },
            Command::RPop { key } => match self.rpop(key.as_str()) {
                Some(v) => Reply::Bulk(v),
                None => Reply::Nil,
            },
            Command::LRange { key, start, end } => match self.lrange(key.as_str(), start, end) {
                Some(v) => Reply::Array(v),
                None => {
                    proof {
                        assert(range_window(self.list_of(key@), start as int, end as int) =~= Seq::<String>::empty());
                    }
                    Reply::Array(Vec::new())
                },
            },
            Command::SAdd { key, value } => if self.sadd(key, value) { Reply::Integer(1) } else { Reply::Integer(0) },
            Command::SRem { key, value } => if self.srem(key.as_str(), value) { Reply::Integer(1) } else { Reply::Integer(0) },
            Command::SIsMember { key, value } => {
                if self.sismember(key.as_str(), value.as_str()) { Reply::Integer(1) } else { Reply::Integer(0) }
            },
            Command::SMembers { key } => match self.smembers(key.as_str()) {
                Some(v) => Reply::Array(v),
                None => {
                    let v: Vec<String> = Vec::new();
                    proof {
                        assert(members_of(v@) =~= Set::<Seq<char>>::empty());
                    }
                    Reply::Array(v)
                },
            },
            Command::ZAdd { key, score, member } => {
                if self.zadd(key, score, member) { Reply::Integer(1) } else { Reply::Integer(0) }
            },
            Command::ZRem { key, member } => if self.zrem(key.as_str(), member) { Reply::Integer(1) } else { Reply::Integer(0) },
            Command::ZRange { key, start, end } => match self.zrange(key.as_str(), start, end) {
                Some(v) => Reply::Array(v),
                None => {
                    let v: Vec<String> = Vec::new();
                    proof {
                        assert(v@.map_values(|s: String| s@) =~= rank_window(self.ranking_of(key@), start as int, end as int));
                    }
                    Reply::Array(v)
                },
            },
            Command::ZScore { key, member } => match self.zscore(key.as_str(), member.as_str()) {
                Some(s) => Reply::Score(s),
                None => Reply::Nil,
            },
            Command::Ping => Reply::Pong,
        }
    }

    /// Answers the command that `tokens` spell, at time `now`. `score` is the
    /// third token read as a floating-point score, `None` where it does not
    /// read as one. A command that does not read is answered with its error
    /// and changes nothing.
    pub fn dispatch(&mut self, tokens: &Vec<String>, now: u64, score: Option<Score>) -> (r: Reply)
        requires
            old(self).wf(),
        ensures
            final(self).wf(),
            ({
                let t = tokens@.map_values(|s: String| s@);
                exists|p: Result<Command, CommandError>| {
                    &&& #[trigger] parses_to(t, score, p)
                    &&& p is Err ==> r == Reply::Error(p->Err_0) && *final(self) == *old(self)
                    &&& p is Ok ==> executes(*old(self), p->Ok_0, now, r, *final(self))
                }
            }),
    {
        let p = parse_command(tokens, score);
        match p {
            Ok(cmd) => self.execute(cmd, now),
            Err(e) => Reply::Error(e),
        }
    }
}

/// Answers the command line `command` on `db` at time `now`. `score` is the
/// third whitespace-separated word of the line read as a floating-point
/// score, `None` where it does not read as one.
pub fn command_parser(db: &mut Database, command: &str, now: u64, score: Option<Score>) -> (r: Reply)
    requires
        old(db).wf(),
    ensures
        final(db).wf(),
        ({
            let t = whitespace_tokens(command@);
            exists|p: Result<Command, CommandError>| {
                &&& #[trigger] parses_to(t, score, p)
                &&& p is Err ==> r == Reply::Error(p->Err_0) && *final(db) == *old(db)
                &&& p is Ok ==> executes(*old(db), p->Ok_0, now, r, *final(db))
            }
        }),
{
    let t = split_tokens(command);
    db.dispatch(&t, now, score)
}

} // verus!
