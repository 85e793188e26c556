//! Lists that keep their newest items.
use vstd::prelude::*;

verus! {

/// The last `max` items of a list.
pub open spec fn last_of<T>(list: Seq<T>, max: nat) -> Seq<T> {
    if list.len() > max {
        list.skip(list.len() - max)
    } else {
        list
    }
}

/// Drops all but the last `max` items.
pub fn keep_last<T>(list: Vec<T>, max: usize) -> (kept: Vec<T>)
    ensures
        kept@ == last_of(list@, max as nat),
{
    let mut list = list;
    if list.len() > max {
        let ghost source = list@;
        let surplus: usize = list.len() - max;
        let tail = list.split_off(surplus);
        assert(tail@ =~= source.skip(surplus as int));
        tail
    } else {
        list
    }
}

} // verus!
