use memstore::command::{command_parser, tokens};
use memstore::database::Database;
use memstore::reply::{encode_bulk, encode_reply, Reply};
use memstore::score::Score;

fn read_score(t: &str) -> Option<Score> {
    t.parse::<f64>().ok().map(|f| Score::from_bits(f.to_bits()))
}

fn run(db: &mut Database, line: &str, now: u64) -> String {
    let toks = tokens(line);
    let score = toks.get(2).and_then(|t| read_score(t));
    match command_parser(db, line, now, score) {
        Reply::Score(s) => encode_bulk(&f64::from_bits(s.to_bits()).to_string()),
        other => encode_reply(&other),
    }
}

#[test]
fn set_then_get_returns_value() {
    let mut db = Database::new();
    assert_eq!(run(&mut db, "SET k v", 0), "+OK\r\n");
    assert_eq!(run(&mut db, "GET k", 10), "$1\r\nv\r\n");
    assert_eq!(run(&mut db, "SET name hello", 0), "+OK\r\n");
    assert_eq!(run(&mut db, "GET name", 999_999), "$5\r\nhello\r\n");
}

#[test]
fn get_after_deadline_is_nil_and_purged() {
    let mut db = Database::new();
    assert_eq!(run(&mut db, "SET k v EX 1", 0), "+OK\r\n");
    assert_eq!(run(&mut db, "GET k", 1000), "$1\r\nv\r\n");
    assert!(db.is_expired("k", 1001));
    assert_eq!(run(&mut db, "GET k", 1001), "$-1\r\n");
    assert!(!db.values.contains_key("k"));
    assert!(!db.expiry.contains_key("k"));
}

#[test]
fn set_without_ttl_clears_deadline() {
    let mut db = Database::new();
    run(&mut db, "SET k v EX 1", 0);
    run(&mut db, "SET k w", 0);
    assert_eq!(run(&mut db, "GET k", 5000), "$1\r\nw\r\n");
}

#[test]
fn huge_ttl_saturates() {
    let mut db = Database::new();
    assert_eq!(run(&mut db, "SET k v EX 18446744073709551615", 5), "+OK\r\n");
    assert_eq!(run(&mut db, "GET k", u64::MAX), "$1\r\nv\r\n");
}

#[test]
fn delete_answers_one_then_zero() {
    let mut db = Database::new();
    run(&mut db, "SET k v", 0);
    assert_eq!(run(&mut db, "DEL k", 0), ":1\r\n");
    assert_eq!(run(&mut db, "DEL k", 0), ":0\r\n");
    assert_eq!(run(&mut db, "GET k", 0), "$-1\r\n");
}

#[test]
fn lpush_twice_reads_back_reversed() {
    let mut db = Database::new();
    assert_eq!(run(&mut db, "LPUSH k a", 0), ":1\r\n");
    assert_eq!(run(&mut db, "LPUSH k b", 0), ":2\r\n");
    assert_eq!(run(&mut db, "LRANGE k 0 -1", 0), "*2\r\n$1\r\nb\r\n$1\r\na\r\n");
}

#[test]
fn push_and_pop_both_ends() {
    let mut db = Database::new();
    assert_eq!(run(&mut db, "RPUSH k a", 0), ":1\r\n");
    assert_eq!(run(&mut db, "RPUSH k b", 0), ":2\r\n");
    assert_eq!(run(&mut db, "LPUSH k c", 0), ":3\r\n");
    assert_eq!(run(&mut db, "RPOP k", 0), "$1\r\nb\r\n");
    assert_eq!(run(&mut db, "LPOP k", 0), "$1\r\nc\r\n");
    assert_eq!(run(&mut db, "LPOP k", 0), "$1\r\na\r\n");
    assert_eq!(run(&mut db, "LPOP k", 0), "$-1\r\n");
    assert_eq!(run(&mut db, "RPOP missing", 0), "$-1\r\n");
}

#[test]
fn lrange_missing_key_is_empty_array() {
    let mut db = Database::new();
    assert_eq!(run(&mut db, "LRANGE nothing 0 -1", 0), "*0\r\n");
    assert_eq!(run(&mut db, "LRANGE nothing -5 5", 0), "*0\r\n");
}

#[test]
fn lrange_index_resolution() {
    let mut db = Database::new();
    run(&mut db, "RPUSH k a", 0);
    run(&mut db, "RPUSH k b", 0);
    run(&mut db, "RPUSH k c", 0);
    assert_eq!(run(&mut db, "LRANGE k 1 100", 0), "*2\r\n$1\r\nb\r\n$1\r\nc\r\n");
    assert_eq!(run(&mut db, "LRANGE k -2 -1", 0), "*2\r\n$1\r\nb\r\n$1\r\nc\r\n");
    assert_eq!(run(&mut db, "LRANGE k 0 -5", 0), "*1\r\n$1\r\na\r\n");
    assert_eq!(run(&mut db, "LRANGE k 5 10", 0), "*0\r\n");
    assert_eq!(run(&mut db, "LRANGE k 2 1", 0), "*0\r\n");
    assert_eq!(
        run(&mut db, "LRANGE k -9223372036854775808 9223372036854775807", 0),
        "*3\r\n$1\r\na\r\n$1\r\nb\r\n$1\r\nc\r\n"
    );
}

#[test]
fn sadd_and_srem_answer_once() {
    let mut db = Database::new();
    assert_eq!(run(&mut db, "SADD k v", 0), ":1\r\n");
    assert_eq!(run(&mut db, "SADD k v", 0), ":0\r\n");
    assert_eq!(run(&mut db, "SISMEMBER k v", 0), ":1\r\n");
    assert_eq!(run(&mut db, "SREM k v", 0), ":1\r\n");
    assert_eq!(run(&mut db, "SREM k v", 0), ":0\r\n");
    assert_eq!(run(&mut db, "SISMEMBER k v", 0), ":0\r\n");
    assert_eq!(run(&mut db, "SMEMBERS k", 0), "*0\r\n");
}

#[test]
fn repeated_sadd_converges_to_one_member() {
    let mut db = Database::new();
    let answers: Vec<String> = (0..8).map(|_| run(&mut db, "SADD k m", 0)).collect();
    assert_eq!(answers.iter().filter(|a| a.as_str() == ":1\r\n").count(), 1);
    assert_eq!(answers.iter().filter(|a| a.as_str() == ":0\r\n").count(), 7);
    assert_eq!(run(&mut db, "SMEMBERS k", 0), "*1\r\n$1\r\nm\r\n");
}

#[test]
fn smembers_lists_each_member_once() {
    let mut db = Database::new();
    run(&mut db, "SADD k x", 0);
    run(&mut db, "SADD k y", 0);
    run(&mut db, "SADD k x", 0);
    let out = run(&mut db, "SMEMBERS k", 0);
    assert!(out.starts_with("*2\r\n"));
    assert!(out.contains("$1\r\nx\r\n"));
    assert!(out.contains("$1\r\ny\r\n"));
    assert_eq!(run(&mut db, "SMEMBERS missing", 0), "*0\r\n");
    assert_eq!(run(&mut db, "SISMEMBER missing x", 0), ":0\r\n");
    assert_eq!(run(&mut db, "SREM missing x", 0), ":0\r\n");
}

#[test]
fn zadd_same_score_is_noop_and_new_score_moves() {
    let mut db = Database::new();
    assert_eq!(run(&mut db, "ZADD k 5 m", 0), ":1\r\n");
    assert_eq!(run(&mut db, "ZADD k 4 n", 0), ":1\r\n");
    assert_eq!(run(&mut db, "ZRANGE k 0 10", 0), "*2\r\n$1\r\nn\r\n$1\r\nm\r\n");
    assert_eq!(run(&mut db, "ZADD k 5 m", 0), ":0\r\n");
    assert_eq!(run(&mut db, "ZSCORE k m", 0), "$1\r\n5\r\n");
    assert_eq!(run(&mut db, "ZADD k 3 m", 0), ":1\r\n");
    assert_eq!(run(&mut db, "ZRANGE k 0 10", 0), "*2\r\n$1\r\nm\r\n$1\r\nn\r\n");
    assert_eq!(run(&mut db, "ZSCORE k m", 0), "$1\r\n3\r\n");
}

#[test]
fn equal_scores_come_out_in_lexical_order() {
    let mut db = Database::new();
    run(&mut db, "ZADD k 1 b", 0);
    run(&mut db, "ZADD k 1 a", 0);
    assert_eq!(run(&mut db, "ZRANGE k 0 18446744073709551615", 0), "*2\r\n$1\r\na\r\n$1\r\nb\r\n");
}

#[test]
fn zrange_windows_and_missing_key() {
    let mut db = Database::new();
    run(&mut db, "ZADD k 1 a", 0);
    run(&mut db, "ZADD k 2 b", 0);
    run(&mut db, "ZADD k 3 c", 0);
    assert_eq!(run(&mut db, "ZRANGE k 1 1", 0), "*1\r\n$1\r\nb\r\n");
    assert_eq!(run(&mut db, "ZRANGE k 2 1", 0), "*0\r\n");
    assert_eq!(run(&mut db, "ZRANGE k 3 9", 0), "*0\r\n");
    assert_eq!(run(&mut db, "ZRANGE none 0 9", 0), "*0\r\n");
    assert_eq!(run(&mut db, "ZREM k b", 0), ":1\r\n");
    assert_eq!(run(&mut db, "ZREM k b", 0), ":0\r\n");
    assert_eq!(run(&mut db, "ZRANGE k 0 9", 0), "*2\r\n$1\r\na\r\n$1\r\nc\r\n");
    assert_eq!(run(&mut db, "ZSCORE k b", 0), "$-1\r\n");
    assert_eq!(run(&mut db, "ZSCORE none b", 0), "$-1\r\n");
}

#[test]
fn negative_and_fractional_scores_order() {
    let mut db = Database::new();
    run(&mut db, "ZADD k 2.5 a", 0);
    run(&mut db, "ZADD k -1 b", 0);
    run(&mut db, "ZADD k 0 c", 0);
    run(&mut db, "ZADD k -0 d", 0);
    run(&mut db, "ZADD k inf e", 0);
    assert_eq!(
        run(&mut db, "ZRANGE k 0 9", 0),
        "*5\r\n$1\r\nb\r\n$1\r\nc\r\n$1\r\nd\r\n$1\r\na\r\n$1\r\ne\r\n"
    );
    assert_eq!(run(&mut db, "ZSCORE k a", 0), "$3\r\n2.5\r\n");
}

#[test]
fn errors_are_replies() {
    let mut db = Database::new();
    assert_eq!(run(&mut db, "SET k v EX soon", 0), "-ERR Invalid TTL value\r\n");
    assert_eq!(run(&mut db, "SET k v EX -1", 0), "-ERR Invalid TTL value\r\n");
    assert_eq!(run(&mut db, "LRANGE k x 1", 0), "-ERR Invalid start index\r\n");
    assert_eq!(run(&mut db, "LRANGE k 0 y", 0), "-ERR Invalid end index\r\n");
    assert_eq!(run(&mut db, "ZADD k high m", 0), "-ERR Invalid score\r\n");
    assert_eq!(run(&mut db, "ZRANGE k 0 -1", 0), "-ERR Invalid end index\r\n");
    assert_eq!(run(&mut db, "ZRANGE k -1 2", 0), "-ERR Invalid start index\r\n");
    assert_eq!(run(&mut db, "FLY k", 0), "-ERR Unknown command\r\n");
    assert_eq!(run(&mut db, "get k", 0), "-ERR Unknown command\r\n");
    assert_eq!(run(&mut db, "GET", 0), "-ERR Unknown command\r\n");
    assert_eq!(run(&mut db, "", 0), "-ERR Unknown command\r\n");
    assert_eq!(run(&mut db, "SET k v EX", 0), "-ERR Unknown command\r\n");
    assert_eq!(run(&mut db, "GET k", 0), "$-1\r\n");
}

#[test]
fn ping_and_whitespace() {
    let mut db = Database::new();
    assert_eq!(run(&mut db, "PING", 0), "+PONG\r\n");
    assert_eq!(run(&mut db, "  SET \t k   v  ", 0), "+OK\r\n");
    assert_eq!(run(&mut db, "GET k", 0), "$1\r\nv\r\n");
    assert_eq!(tokens(" a  bc\td ").len(), 3);
}

#[test]
fn bulk_length_counts_bytes() {
    let mut db = Database::new();
    run(&mut db, "SET k héllo", 0);
    assert_eq!(run(&mut db, "GET k", 0), "$6\r\nhéllo\r\n");
    assert_eq!(encode_bulk(""), "$0\r\n\r\n");
    assert_eq!(encode_reply(&Reply::Integer(1234567890)), ":1234567890\r\n");
    assert_eq!(encode_reply(&Reply::Array(Vec::new())), "*0\r\n");
}
