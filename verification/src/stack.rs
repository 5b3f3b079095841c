//! The stack of registrations.

use treiber_stack::TreiberStack;
use vstd::prelude::*;

verus! {

/// A `treiber_stack::TreiberStack` of ids.
#[verifier::external_body]
pub struct IdStack {
    ids: TreiberStack<u64>,
}

/// What a stack holds, from the bottom to the top.
pub uninterp spec fn contents(stack: IdStack) -> Seq<u64>;

/// `TreiberStack::default`: the stack is empty.
#[verifier::external_body]
pub(crate) fn empty() -> (stack: IdStack)
    ensures
        contents(stack) == Seq::<u64>::empty(),
{
    IdStack { ids: TreiberStack::default() }
}

/// `TreiberStack::push`: puts an item on top.
#[verifier::external_body]
pub(crate) fn push(stack: &mut IdStack, item: u64)
    ensures
        contents(*final(stack)) == contents(*old(stack)).push(item),
{
    stack.ids.push(item)
}

/// `TreiberStack::pop`: takes the item on top, if there is one.
#[verifier::external_body]
pub(crate) fn pop(stack: &mut IdStack) -> (item: Option<u64>)
    ensures
        item is None <==> contents(*old(stack)).len() == 0,
        item matches Some(top) ==> contents(*old(stack)) == contents(*final(stack)).push(top),
        item is None ==> contents(*final(stack)) == contents(*old(stack)),
{
    stack.ids.pop().map(|item| *item)
}

/// `TreiberStack::drain`: takes everything, the item on top first.
#[verifier::external_body]
pub(crate) fn drain(stack: &mut IdStack) -> (items: Vec<u64>)
    ensures
        items@ == contents(*old(stack)).reverse(),
        contents(*final(stack)) == Seq::<u64>::empty(),
{
    stack.ids.drain().into_iter().map(|item| *item).collect()
}

} // verus!
