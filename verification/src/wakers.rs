//! The cell in which an observer leaves the waker of the task that waits on it.

use atomic_waker::AtomicWaker;
use core::task::Waker;
use vstd::prelude::*;

verus! {

/// `atomic_waker::AtomicWaker`.
#[verifier::external_type_specification]
#[verifier::external_body]
pub struct ExAtomicWaker(AtomicWaker);

/// `core::task::Waker`. Two wakers count as the same where they wake the same
/// task.
#[verifier::external_type_specification]
#[verifier::external_body]
pub struct ExWaker(Waker);

/// The waker that a cell holds: none, or one.
pub uninterp spec fn registered(cell: AtomicWaker) -> Seq<Waker>;

/// `AtomicWaker::new`: the cell holds no waker.
#[verifier::external_body]
pub(crate) fn new_cell() -> (cell: AtomicWaker)
    ensures
        registered(cell) == Seq::<Waker>::empty(),
{
    AtomicWaker::new()
}

/// `AtomicWaker::register`: the cell holds a waker for the same task as
/// `waker`, and no other. Nobody else can be using the cell meanwhile.
#[verifier::external_body]
pub(crate) fn register(cell: &mut AtomicWaker, waker: &Waker)
    ensures
        registered(*final(cell)) == seq![*waker],
{
    cell.register(waker)
}

/// `AtomicWaker::take`: hands out the waker that the cell holds, if any, and
/// leaves the cell without one. Nobody else can be using the cell meanwhile.
#[verifier::external_body]
pub(crate) fn take(cell: &mut AtomicWaker) -> (waker: Option<Waker>)
    ensures
        registered(*old(cell)) == (match waker {
            Some(w) => seq![w],
            None => Seq::empty(),
        }),
        registered(*final(cell)) == Seq::<Waker>::empty(),
{
    cell.take()
}

} // verus!
