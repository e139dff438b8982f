use vstd::prelude::*;
use std::collections::VecDeque;

verus! {

/// Where a range request starts once negative indices count from the end and
/// the index is clamped into the list.
pub open spec fn resolve_start(start: int, n: int) -> int {
    if start < 0 {
        if n + start < 0 { 0 } else { n + start }
    } else if start < n {
        start
    } else {
        n
    }
}

/// Where a range request ends (inclusive) once negative indices count from
/// the end and the index is clamped into the list.
pub open spec fn resolve_end(end: int, n: int) -> int {
    if end < 0 {
        if n + end < 0 { 0 } else { n + end }
    } else if end < n - 1 {
        end
    } else {
        n - 1
    }
}

/// The elements of `s` in the inclusive window `[start, end]`, indexed the way
/// `LRANGE` indexes them; empty where the window resolves to nothing.
pub open spec fn range_window<T>(s: Seq<T>, start: int, end: int) -> Seq<T> {
    let a = resolve_start(start, s.len() as int);
    let b = resolve_end(end, s.len() as int);
    if a > b || a >= s.len() {
        Seq::empty()
    } else {
        s.subrange(a, b + 1)
    }
}

/// A double-ended list of strings.
pub struct RList {
    pub list: VecDeque<String>,
}

impl RList {
    /// An empty list.
    pub fn new() -> (r: Self)
        ensures
            r.list@ == Seq::<String>::empty(),
    {
        RList { list: VecDeque::new() }
    }

    /// Puts `value` at the front.
    pub fn lpush(&mut self, value: String)
        ensures
            final(self).list@ == seq![value] + old(self).list@,
    {
        self.list.push_front(value);
    }

    /// Takes the front element, or `None` where the list is empty.
    pub fn lpop(&mut self) -> (r: Option<String>)
        ensures
            old(self).list@.len() == 0 ==> r is None && final(self).list@ == old(self).list@,
            old(self).list@.len() > 0 ==> r == Some(old(self).list@[0])
                && final(self).list@ == old(self).list@.drop_first(),
    {
        self.list.pop_front()
    }

    /// Puts `value` at the back.
    pub fn rpush(&mut self, value: String)
        ensures
            final(self).list@ == old(self).list@.push(value),
    {
        self.list.push_back(value);
    }

    /// Takes the back element, or `None` where the list is empty.
    pub fn rpop(&mut self) -> (r: Option<String>)
        ensures
            old(self).list@.len() == 0 ==> r is None && final(self).list@ == old(self).list@,
            old(self).list@.len() > 0 ==> r == Some(old(self).list@.last())
                && final(self).list@ == old(self).list@.drop_last(),
    {
        self.list.pop_back()
    }

    /// The elements in the inclusive window `[start, end]`, where a negative
    /// index counts from the end (`-1` is the last element) and indices are
    /// clamped into the list.
    pub fn lrange(&self, start: i64, end: i64) -> (r: Vec<String>)
        ensures
            r@ == range_window(self.list@, start as int, end as int),
    {
        let n = self.list.len();
        let len = n as i128;
        let s = start as i128;
        let e = end as i128;
        let a: i128 = if s < 0 {
            if len + s < 0 { 0 } else { len + s }
        } else if s < len {
            s
        } else {
            len
        };
        let b: i128 = if e < 0 {
            if len + e < 0 { 0 } else { len + e }
        } else if e < len - 1 {
            e
        } else {
            len - 1
        };
        let mut out: Vec<String> = Vec::new();
        if a > b || a >= len {
            proof {
                assert(out@ =~= range_window(self.list@, start as int, end as int));
            }
            return out;
        }
        let first = a as usize;
        let last = b as usize;
        let mut i: usize = first;
        while i <= last
            invariant
                first <= i <= last + 1,
                last < n,
                n == self.list@.len(),
                out@ =~= self.list@.subrange(first as int, i as int),
            decreases last + 1 - i,
        {
            out.push(self.list[i].clone());
            i = i + 1;
        }
        proof {
            assert(out@ =~= range_window(self.list@, start as int, end as int));
        }
        out
    }
}

} // verus!
