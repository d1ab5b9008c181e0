//! A stack: a sequence whose last element is its top.

use vstd::prelude::*;

verus! {

/// An empty stack.
pub fn stack_new<T>() -> (s: Vec<T>)
    ensures
        s@ == Seq::<T>::empty(),
{
    Vec::new()
}

/// Puts `item` on top.
pub fn stack_push<T>(s: &mut Vec<T>, item: T)
    ensures
        final(s)@ == old(s)@.push(item),
{
    s.push(item);
}

/// Takes the top off; `None` where the stack is empty.
pub fn stack_pop<T>(s: &mut Vec<T>) -> (top: Option<T>)
    ensures
        match top {
            Some(item) => old(s)@.len() > 0 && item == old(s)@.last() && final(s)@ == old(
                s,
            )@.drop_last(),
            None => old(s)@.len() == 0 && final(s)@ == old(s)@,
        },
{
    s.pop()
}

/// A clone of the top; `None` where the stack is empty.
pub fn stack_peek<T: Clone>(s: &Vec<T>) -> (top: Option<T>)
    ensures
        match top {
            Some(item) => s@.len() > 0 && cloned(s@.last(), item),
            None => s@.len() == 0,
        },
{
    if s.len() == 0 {
        None
    } else {
        Some(s[s.len() - 1].clone())
    }
}

/// Whether the stack holds nothing.
pub fn stack_is_empty<T>(s: &Vec<T>) -> (r: bool)
    ensures
        r == (s@.len() == 0),
{
    s.len() == 0
}

} // verus!
