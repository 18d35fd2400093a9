//! Append-only logs that keep only their most recent entries.

use vstd::prelude::*;

verus! {

/// The log `s` after appending `item` and dropping the oldest entries until at
/// most `max_len` remain.
pub open spec fn bounded_push<T>(s: Seq<T>, item: T, max_len: nat) -> Seq<T> {
    let grown = s.push(item);
    if grown.len() > max_len {
        grown.skip(grown.len() - max_len)
    } else {
        grown
    }
}

/// Append `item` to `log`, then drop entries from the front so that at most
/// `max_len` remain (the most recent ones are kept).
pub fn push_bounded<T>(log: &mut Vec<T>, item: T, max_len: usize)
    ensures
        final(log)@ == bounded_push(old(log)@, item, max_len as nat),
{
    log.push(item);
    if log.len() > max_len {
        let excess = log.len() - max_len;
        let kept = log.split_off(excess);
        *log = kept;
    }
}

/// A bounded log never holds more than its bound, once it held no more
/// before; the newest entry is always last when the bound is positive, and
/// what is kept is the newest part of the log in order.
pub proof fn lemma_bounded_push_keeps_newest<T>(s: Seq<T>, item: T, max_len: nat)
    requires
        s.len() <= max_len,
    ensures
        bounded_push(s, item, max_len).len() == if s.len() + 1 <= max_len { s.len() + 1 } else { max_len },
        max_len > 0 ==> bounded_push(s, item, max_len).last() == item,
        forall|i: int| 0 <= i < bounded_push(s, item, max_len).len() ==>
            #[trigger] bounded_push(s, item, max_len)[i]
                == s.push(item)[s.len() + 1 - bounded_push(s, item, max_len).len() + i],
{
}

} // verus!
