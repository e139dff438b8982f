use memstore::list::RList;
use memstore::number::{parse_i64, parse_u64, parse_usize};
use memstore::score::Score;
use memstore::set::RSets;
use memstore::sorted_set::RSortedSet;

fn key_of(f: f64) -> u64 {
    Score::from_bits(f.to_bits()).key
}

#[test]
fn list_range_on_the_container() {
    let mut l = RList::new();
    l.rpush("a".to_string());
    l.rpush("b".to_string());
    l.lpush("z".to_string());
    assert_eq!(l.lrange(0, -1), vec!["z", "a", "b"]);
    assert_eq!(l.lrange(-1, -1), vec!["b"]);
    assert_eq!(l.lrange(-100, 0), vec!["z"]);
    assert!(l.lrange(3, 3).is_empty());
    assert_eq!(l.lpop(), Some("z".to_string()));
    assert_eq!(l.rpop(), Some("b".to_string()));
    assert_eq!(l.rpop(), Some("a".to_string()));
    assert_eq!(l.rpop(), None);
    assert!(l.lrange(0, -1).is_empty());
}

#[test]
fn set_container() {
    let mut s = RSets::new();
    assert!(s.sadd("x".to_string()));
    assert!(!s.sadd("x".to_string()));
    assert!(s.sadd("y".to_string()));
    assert!(s.sismember("y"));
    assert!(s.srem("x".to_string()));
    assert!(!s.srem("x".to_string()));
    assert_eq!(s.smembers(), vec!["y"]);
}

#[test]
fn sorted_set_container() {
    let mut z = RSortedSet::new();
    let one = Score::from_bits(1.0f64.to_bits());
    let two = Score::from_bits(2.0f64.to_bits());
    assert!(z.zadd(two, "a".to_string()));
    assert!(z.zadd(one, "b".to_string()));
    assert!(z.zadd(one, "ab".to_string()));
    assert_eq!(z.zrange(0, 5), vec!["ab", "b", "a"]);
    assert!(!z.zadd(one, "b".to_string()));
    assert!(z.zadd(two, "b".to_string()));
    assert_eq!(z.zrange(0, 5), vec!["ab", "a", "b"]);
    assert_eq!(z.zscore("b"), Some(two));
    assert!(z.zrem("a".to_string()));
    assert!(!z.zrem("a".to_string()));
    assert_eq!(z.zrange(0, 0), vec!["ab"]);
    assert_eq!(z.zscore("a"), None);
}

#[test]
fn score_order_follows_the_numbers() {
    assert!(key_of(f64::NEG_INFINITY) < key_of(-2.0));
    assert!(key_of(-2.0) < key_of(-1.5));
    assert!(key_of(-1.5) < key_of(0.0));
    assert_eq!(key_of(-0.0), key_of(0.0));
    assert!(key_of(0.0) < key_of(1e-300));
    assert!(key_of(1.0) < key_of(2.0));
    assert!(key_of(f64::INFINITY) < key_of(f64::NAN));
    assert_eq!(key_of(f64::NAN), key_of(-f64::NAN));
    for f in [3.0f64, -7.25, 0.0, f64::INFINITY, f64::MIN_POSITIVE] {
        assert_eq!(f64::from_bits(Score::from_bits(f.to_bits()).to_bits()), f);
    }
    assert!(f64::from_bits(Score::from_bits(f64::NAN.to_bits()).to_bits()).is_nan());
}

#[test]
fn integer_parsing() {
    assert_eq!(parse_u64("0"), Some(0));
    assert_eq!(parse_u64("+17"), Some(17));
    assert_eq!(parse_u64("18446744073709551615"), Some(u64::MAX));
    assert_eq!(parse_u64("18446744073709551616"), None);
    assert_eq!(parse_u64("-0"), None);
    assert_eq!(parse_u64(""), None);
    assert_eq!(parse_u64("+"), None);
    assert_eq!(parse_u64("12a"), None);
    assert_eq!(parse_i64("-9223372036854775808"), Some(i64::MIN));
    assert_eq!(parse_i64("9223372036854775807"), Some(i64::MAX));
    assert_eq!(parse_i64("9223372036854775808"), None);
    assert_eq!(parse_i64("-9223372036854775809"), None);
    assert_eq!(parse_i64("-"), None);
    assert_eq!(parse_i64("-12"), Some(-12));
    assert_eq!(parse_i64("+12"), Some(12));
    assert_eq!(parse_usize("42"), Some(42));
    assert_eq!(parse_usize("-1"), None);
}
