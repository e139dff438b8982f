use vstd::prelude::*;

verus! {

pub open spec fn is_digit(c: char) -> bool {
    '0' <= c && c <= '9'
}

pub open spec fn all_digits(s: Seq<char>) -> bool {
    forall|i: int| 0 <= i < s.len() ==> is_digit(#[trigger] s[i])
}

/// The number that the decimal digits `s` spell.
pub open spec fn digits_value(s: Seq<char>) -> int
    decreases s.len(),
{
    if s.len() == 0 {
        0
    } else {
        digits_value(s.drop_last()) * 10 + (s.last() as int - '0' as int)
    }
}

/// The number that `s` spells where it is one or more decimal digits.
pub open spec fn decimal(s: Seq<char>) -> Option<int> {
    if s.len() > 0 && all_digits(s) {
        Some(digits_value(s))
    } else {
        None
    }
}

/// An unsigned integer written as an optional `+` and decimal digits, where
/// its value is at most `max`.
pub open spec fn unsigned_text(s: Seq<char>, max: int) -> Option<int> {
    let body = if s.len() > 0 && s[0] == '+' { s.drop_first() } else { s };
    let v = decimal(body);
    if v is Some && v->0 <= max {
        v
    } else {
        None
    }
}

/// A signed integer written as an optional `+` or `-` and decimal digits,
/// where its value lies in `[min, max]`.
pub open spec fn signed_text(s: Seq<char>, min: int, max: int) -> Option<int> {
    if s.len() > 0 && s[0] == '-' {
        let v = decimal(s.drop_first());
        if v is Some && -v->0 >= min {
            Some(-v->0)
        } else {
            None
        }
    } else {
        unsigned_text(s, max)
    }
}

proof fn lemma_digits_nonneg(s: Seq<char>)
    requires
        all_digits(s),
    ensures
        digits_value(s) >= 0,
    decreases s.len(),
{
    if s.len() > 0 {
        assert(all_digits(s.drop_last()));
        lemma_digits_nonneg(s.drop_last());
        assert(is_digit(s[s.len() - 1]));
    }
}

proof fn lemma_prefix_value_le(s: Seq<char>, j: int)
    requires
        all_digits(s),
        0 <= j <= s.len(),
    ensures
        digits_value(s.subrange(0, j)) <= digits_value(s),
    decreases s.len(),
{
    if j == s.len() {
        assert(s.subrange(0, j) =~= s);
    } else {
        let d = s.drop_last();
        assert(all_digits(d));
        lemma_prefix_value_le(d, j);
        assert(d.subrange(0, j) =~= s.subrange(0, j));
        lemma_digits_nonneg(d);
        assert(is_digit(s[s.len() - 1]));
    }
}

/// Reads the decimal digits of `s` from position `from` to the end, as a
/// number of at most `max`.
fn read_decimal(s: &str, from: usize, max: u64) -> (r: Option<u64>)
    requires
        from <= s@.len(),
    ensures
        ({
            let v = decimal(s@.subrange(from as int, s@.len() as int));
            match r {
                Some(x) => v == Some(x as int) && x <= max,
                None => v is None || v->0 > max,
            }
        }),
{
    let n = s.unicode_len();
    if from == n {
        return None;
    }
    let ghost t = s@.subrange(from as int, n as int);
    let mut acc: u64 = 0;
    let mut i: usize = from;
    proof {
        assert(t.subrange(0, 0) =~= Seq::<char>::empty());
    }
    while i < n
        invariant
            n == s@.len(),
            from < n,
            t == s@.subrange(from as int, n as int),
            from <= i <= n,
            all_digits(t.subrange(0, i - from)),
            acc as int == digits_value(t.subrange(0, i - from)),
            acc <= max,
        decreases n - i,
    {
        let c = s.get_char(i);
        let k = i - from;
        proof {
            assert(t[k as int] == c);
        }
        if !('0' <= c && c <= '9') {
            proof {
                assert(!all_digits(t));
            }
            return None;
        }
        let d = (c as u32 - '0' as u32) as u64;
        let next = acc as u128 * 10 + d as u128;
        proof {
            assert(t.subrange(0, k + 1).drop_last() =~= t.subrange(0, k as int));
            assert(all_digits(t.subrange(0, k + 1)));
            assert(next as int == digits_value(t.subrange(0, k + 1)));
        }
        if next > max as u128 {
            proof {
                if all_digits(t) {
                    lemma_prefix_value_le(t, k + 1);
                }
            }
            return None;
        }
        acc = next as u64;
        i = i + 1;
    }
    proof {
        assert(t.subrange(0, n - from) =~= t);
    }
    Some(acc)
}

/// Reads `s` as an unsigned integer of at most `max`: an optional `+`, then
/// one or more decimal digits.
pub fn parse_unsigned(s: &str, max: u64) -> (r: Option<u64>)
    ensures
        match r {
            Some(x) => unsigned_text(s@, max as int) == Some(x as int),
            None => unsigned_text(s@, max as int) is None,
        },
{
    let n = s.unicode_len();
    let from: usize = if n > 0 && s.get_char(0) == '+' { 1 } else { 0 };
    proof {
        if from == 1 {
            assert(s@.subrange(1, n as int) =~= s@.drop_first());
        } else {
            assert(s@.subrange(0, n as int) =~= s@);
        }
    }
    read_decimal(s, from, max)
}

/// Reads `s` as an unsigned 64-bit integer.
pub fn parse_u64(s: &str) -> (r: Option<u64>)
    ensures
        match r {
            Some(x) => unsigned_text(s@, u64::MAX as int) == Some(x as int),
            None => unsigned_text(s@, u64::MAX as int) is None,
        },
{
    parse_unsigned(s, u64::MAX)
}

/// Reads `s` as an index of machine size.
pub fn parse_usize(s: &str) -> (r: Option<usize>)
    ensures
        match r {
            Some(x) => unsigned_text(s@, usize::MAX as int) == Some(x as int),
            None => unsigned_text(s@, usize::MAX as int) is None,
        },
{
    match parse_unsigned(s, usize::MAX as u64) {
        Some(v) => Some(v as usize),
        None => None,
    }
}

/// Reads `s` as a signed 64-bit integer.
pub fn parse_i64(s: &str) -> (r: Option<i64>)
    ensures
        match r {
            Some(x) => signed_text(s@, i64::MIN as int, i64::MAX as int) == Some(x as int),
            None => signed_text(s@, i64::MIN as int, i64::MAX as int) is None,
        },
{
    let n = s.unicode_len();
    if n > 0 && s.get_char(0) == '-' {
        proof {
            assert(s@.subrange(1, n as int) =~= s@.drop_first());
        }
        match read_decimal(s, 1, 0x8000_0000_0000_0000u64) {
            Some(v) => Some((0i128 - v as i128) as i64),
            None => None,
        }
    } else {
        match parse_unsigned(s, i64::MAX as u64) {
            Some(v) => Some(v as i64),
            None => None,
        }
    }
}

} // verus!
