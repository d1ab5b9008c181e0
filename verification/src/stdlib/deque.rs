//! A queue with two ends.

use std::collections::VecDeque;
use vstd::prelude::*;

verus! {

/// An empty queue.
pub fn deque_new<T>() -> (d: VecDeque<T>)
    ensures
        d@ == Seq::<T>::empty(),
{
    VecDeque::new()
}

/// Puts `item` in front of all others.
pub fn deque_push_front<T>(d: &mut VecDeque<T>, item: T)
    ensures
        final(d)@ == seq![item] + old(d)@,
{
    d.push_front(item);
}

/// Puts `item` behind all others.
pub fn deque_push_back<T>(d: &mut VecDeque<T>, item: T)
    ensures
        final(d)@ == old(d)@.push(item),
{
    d.push_back(item);
}

/// Takes the first element out; `None` where the queue is empty.
pub fn deque_pop_front<T>(d: &mut VecDeque<T>) -> (front: Option<T>)
    ensures
        match front {
            Some(item) => old(d)@.len() > 0 && item == old(d)@.first() && final(d)@ == old(
                d,
            )@.drop_first(),
            None => old(d)@.len() == 0 && final(d)@ == old(d)@,
        },
{
    d.pop_front()
}

/// Takes the last element out; `None` where the queue is empty.
pub fn deque_pop_back<T>(d: &mut VecDeque<T>) -> (back: Option<T>)
    ensures
        match back {
            Some(item) => old(d)@.len() > 0 && item == old(d)@.last() && final(d)@ == old(
                d,
            )@.drop_last(),
            None => old(d)@.len() == 0 && final(d)@ == old(d)@,
        },
{
    d.pop_back()
}

/// Whether the queue holds nothing.
pub fn deque_is_empty<T>(d: &VecDeque<T>) -> (r: bool)
    ensures
        r == (d@.len() == 0),
{
    d.len() == 0
}

} // verus!
