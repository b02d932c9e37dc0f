//! Sequences: the characters of a string, and what the first items of a
//! sequence have to do with the first items and one more.

use vstd::prelude::*;

verus! {

/// The characters of `s`, in order.
pub fn chars_of(s: &str) -> (chars: Vec<char>)
    ensures
        chars@ == s@,
{
    let mut chars: Vec<char> = Vec::new();
    for c in it: s.chars()
        invariant
            it.seq() == s@,
            chars@ == s@.take(it.index() as int),
    {
        chars.push(c);
    }
    chars
}

/// The first `i + 1` items without the last of them are the first `i`, and
/// that last is the item at `i`.
pub proof fn lemma_take_step<T>(items: Seq<T>, i: int)
    requires
        0 <= i < items.len(),
    ensures
        items.take(i + 1).drop_last() == items.take(i),
        items.take(i + 1).last() == items[i],
{
    assert(items.take(i + 1).drop_last() =~= items.take(i));
}

/// Among the first `i + 1` items is what is among the first `i`, and the
/// item at `i`.
pub proof fn lemma_take_contains<T>(items: Seq<T>, i: int)
    requires
        0 <= i < items.len(),
    ensures
        forall|x: T| items.take(i + 1).contains(x) <==> items.take(i).contains(x) || x == items[i],
{
    let more = items.take(i + 1);
    let fewer = items.take(i);
    assert forall|x: T| more.contains(x) <==> fewer.contains(x) || x == items[i] by {
        if more.contains(x) {
            let k = choose|k: int| 0 <= k < more.len() && more[k] == x;
            if k < i {
                assert(fewer[k] == x);
            }
        }
        if fewer.contains(x) {
            let k = choose|k: int| 0 <= k < fewer.len() && fewer[k] == x;
            assert(more[k] == x);
        }
        if x == items[i] {
            assert(more[i] == x);
        }
    }
}

} // verus!
