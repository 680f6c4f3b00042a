//! Pagination over a log, newest entry first.

use vstd::prelude::*;

verus! {

/// The entries of `s` from the last to the first.
pub open spec fn newest_first<A>(s: Seq<A>) -> Seq<A> {
    Seq::new(s.len(), |i: int| s[s.len() - 1 - i])
}

/// At most `limit` entries of `s`, newest first, after skipping `offset` of them.
pub open spec fn page<A>(s: Seq<A>, limit: nat, offset: nat) -> Seq<A> {
    let start = if offset < s.len() { offset } else { s.len() };
    let end = if start + limit < s.len() { start + limit } else { s.len() };
    newest_first(s).subrange(start as int, end as int)
}

/// The number of entries a page holds when no limit is given.
pub const DEFAULT_LIMIT: u32 = 10;

/// The limit asked for, or the default one.
pub open spec fn limit_or_default(limit: Option<u32>) -> nat {
    match limit {
        Some(l) => l as nat,
        None => DEFAULT_LIMIT as nat,
    }
}

/// The offset asked for, or none.
pub open spec fn offset_or_default(offset: Option<u32>) -> nat {
    match offset {
        Some(o) => o as nat,
        None => 0,
    }
}

/// References to at most `limit` (default ten) items, newest first, after
/// skipping `offset` (default none) of them.
pub fn page_of<'a, T>(items: &'a Vec<T>, limit: Option<u32>, offset: Option<u32>) -> (r: Vec<&'a T>)
    ensures
        r@.len() == page(items@, limit_or_default(limit), offset_or_default(offset)).len(),
        forall|i: int|
            0 <= i < r@.len() ==> *#[trigger] r@[i] == page(
                items@,
                limit_or_default(limit),
                offset_or_default(offset),
            )[i],
{
    let lim: usize = match limit {
        Some(l) => l as usize,
        None => DEFAULT_LIMIT as usize,
    };
    let off: usize = match offset {
        Some(o) => o as usize,
        None => 0,
    };
    let n = items.len();
    let start: usize = if off < n { off } else { n };
    let end: usize = if lim < n - start { start + lim } else { n };
    let mut r: Vec<&'a T> = Vec::new();
    let mut k: usize = start;
    while k < end
        invariant
            start <= k <= end <= n,
            n == items@.len(),
            r@.len() == k - start,
            forall|i: int| 0 <= i < r@.len() ==> *#[trigger] r@[i] == items@[n - 1 - (start + i)],
        decreases end - k,
    {
        r.push(&items[n - 1 - k]);
        k += 1;
    }
    r
}

} // verus!
