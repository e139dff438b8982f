use vstd::prelude::*;
use vstd::utf8::encode_utf8;
use crate::score::Score;

verus! {

/// Why a command was refused.
#[derive(Clone, Copy, Debug, PartialEq, Eq, Structural)]
pub enum CommandError {
    InvalidTtl,
    InvalidStart,
    InvalidEnd,
    InvalidScore,
    Unknown,
}

/// What a command answers, before it is written out.
pub enum Reply {
    Done,
    Pong,
    Integer(u64),
    Nil,
    Bulk(String),
    Array(Vec<String>),
    Score(Score),
    Error(CommandError),
}

/// The digit that stands for `d`.
pub open spec fn digit_char(d: nat) -> char {
    if d == 0 { '0' } else if d == 1 { '1' } else if d == 2 { '2' } else if d == 3 { '3' }
    else if d == 4 { '4' } else if d == 5 { '5' } else if d == 6 { '6' } else if d == 7 { '7' }
    else if d == 8 { '8' } else { '9' }
}

/// `n` in decimal, without leading zeros.
pub open spec fn decimal_text(n: nat) -> Seq<char>
    decreases n,
{
    if n < 10 {
        seq![digit_char(n)]
    } else {
        decimal_text(n / 10).push(digit_char(n % 10))
    }
}

/// The message of an error reply.
pub open spec fn error_text(e: CommandError) -> Seq<char> {
    match e {
        CommandError::InvalidTtl => "Invalid TTL value"@,
        CommandError::InvalidStart => "Invalid start index"@,
        CommandError::InvalidEnd => "Invalid end index"@,
        CommandError::InvalidScore => "Invalid score"@,
        CommandError::Unknown => "Unknown command"@,
    }
}

/// A bulk string: its length in bytes, then its text.
pub open spec fn bulk_text(s: Seq<char>) -> Seq<char> {
    "$"@ + decimal_text(encode_utf8(s).len()) + "\r\n"@ + s + "\r\n"@
}

/// The bulk strings of `items`, one after another.
pub open spec fn bulks_text(items: Seq<String>) -> Seq<char>
    decreases items.len(),
{
    if items.len() == 0 {
        Seq::empty()
    } else {
        bulks_text(items.drop_last()) + bulk_text(items.last()@)
    }
}

/// The wire form of a reply other than a score.
pub open spec fn reply_text(r: &Reply) -> Seq<char> {
    match r {
        Reply::Done => "+OK\r\n"@,
        Reply::Pong => "+PONG\r\n"@,
        Reply::Integer(n) => ":"@ + decimal_text(*n as nat) + "\r\n"@,
        Reply::Nil => "$-1\r\n"@,
        Reply::Bulk(s) => bulk_text(s@),
        Reply::Array(v) => "*"@ + decimal_text(v@.len()) + "\r\n"@ + bulks_text(v@),
        Reply::Score(_) => Seq::empty(),
        Reply::Error(e) => "-ERR "@ + error_text(*e) + "\r\n"@,
    }
}

/// Relies on String::push_str: `t` is appended to `s`.
#[verifier::external_body]
fn append(s: &mut String, t: &str)
    ensures
        final(s)@ == old(s)@ + t@,
{
    s.push_str(t)
}

/// Relies on String::push: `c` is appended to `s`.
#[verifier::external_body]
fn append_char(s: &mut String, c: char)
    ensures
        final(s)@ == old(s)@.push(c),
{
    s.push(c)
}

/// Appends `n` in decimal to `s`.
pub fn append_decimal(s: &mut String, n: u64)
    ensures
        final(s)@ == old(s)@ + decimal_text(n as nat),
    decreases n,
{
    if n >= 10 {
        append_decimal(s, n / 10);
    }
    let d = n % 10;
    let c = if d == 0 { '0' } else if d == 1 { '1' } else if d == 2 { '2' } else if d == 3 { '3' }
        else if d == 4 { '4' } else if d == 5 { '5' } else if d == 6 { '6' } else if d == 7 { '7' }
        else if d == 8 { '8' } else { '9' };
    append_char(s, c);
    proof {
        assert(c == digit_char((n % 10) as nat));
        if n >= 10 {
            assert(old(s)@ + decimal_text(n as nat) =~= (old(s)@ + decimal_text((n / 10) as nat)).push(c));
        } else {
            assert(old(s)@ + decimal_text(n as nat) =~= old(s)@.push(c));
        }
    }
}

/// Appends the bulk string of `t` to `s`.
fn append_bulk(s: &mut String, t: &str)
    ensures
        final(s)@ == old(s)@ + bulk_text(t@),
{
    let n = t.as_bytes().len();
    append(s, "$");
    append_decimal(s, n as u64);
    append(s, "\r\n");
    append(s, t);
    append(s, "\r\n");
    proof {
        assert(final(s)@ =~= old(s)@ + bulk_text(t@));
    }
}

/// The bulk string of `t`: its length in bytes, then its text.
pub fn encode_bulk(t: &str) -> (r: String)
    ensures
        r@ == bulk_text(t@),
{
    let mut s = String::new();
    append_bulk(&mut s, t);
    proof {
        assert(s@ =~= bulk_text(t@));
    }
    s
}

/// The message of an error reply.
pub fn error_message(e: CommandError) -> (r: &'static str)
    ensures
        r@ == error_text(e),
{
    match e {
        CommandError::InvalidTtl => "Invalid TTL value",
        CommandError::InvalidStart => "Invalid start index",
        CommandError::InvalidEnd => "Invalid end index",
        CommandError::InvalidScore => "Invalid score",
        CommandError::Unknown => "Unknown command",
    }
}

/// The wire form of `r`. A score is written by the caller, who turns it
/// into text.
pub fn encode_reply(r: &Reply) -> (out: String)
    requires
        !(r is Score),
    ensures
        out@ == reply_text(r),
{
    let mut s = String::new();
    match r {
        Reply::Done => append(&mut s, "+OK\r\n"),
        Reply::Pong => append(&mut s, "+PONG\r\n"),
        Reply::Integer(n) => {
            append(&mut s, ":");
            append_decimal(&mut s, *n);
            append(&mut s, "\r\n");
        },
        Reply::Nil => append(&mut s, "$-1\r\n"),
        Reply::Bulk(t) => append_bulk(&mut s, t.as_str()),
        Reply::Array(v) => {
            append(&mut s, "*");
            append_decimal(&mut s, v.len() as u64);
            append(&mut s, "\r\n");
            let ghost head = s@;
            let mut i: usize = 0;
            while i < v.len()
                invariant
                    i <= v@.len(),
                    s@ == head + bulks_text(v@.subrange(0, i as int)),
                decreases v@.len() - i,
            {
                append_bulk(&mut s, v[i].as_str());
                proof {
                    assert(v@.subrange(0, i + 1).drop_last() =~= v@.subrange(0, i as int));
                }
                i = i + 1;
            }
            proof {
                assert(v@.subrange(0, v@.len() as int) =~= v@);
            }
        },
        Reply::Score(_) => {},
        Reply::Error(e) => {
            append(&mut s, "-ERR ");
            append(&mut s, error_message(*e));
            append(&mut s, "\r\n");
        },
    }
    proof {
        assert(s@ =~= reply_text(r));
    }
    s
}

} // verus!
