//! Waiting, once, for something to be over.
//!
//! An [`ActiveObservation`] is over once it is closed. A task that polls before
//! that leaves its waker, which `close` hands out.

use atomic_waker::AtomicWaker;
use core::task::Waker;
use vstd::prelude::*;

use crate::wakers::registered;

verus! {

/// What an observation in progress knows.
pub struct ActiveObservationView {
    /// It is over.
    pub ready: bool,
    /// The waker that a task left: none, or one.
    pub waker: Seq<Waker>,
}

/// An observation in progress.
#[derive(Debug)]
pub struct ActiveObservation {
    waker: AtomicWaker,
    ready: bool,
}

impl View for ActiveObservation {
    type V = ActiveObservationView;

    closed spec fn view(&self) -> ActiveObservationView {
        ActiveObservationView { ready: self.ready, waker: registered(self.waker) }
    }
}

impl ActiveObservationView {
    /// Nothing has happened yet.
    pub open spec fn start() -> Self {
        ActiveObservationView { ready: false, waker: Seq::empty() }
    }

    /// A task has left `waker`, in place of any that was there.
    pub open spec fn polled(self, waker: Waker) -> Self {
        ActiveObservationView { waker: seq![waker], ..self }
    }

    /// It is over, and the waker has been handed out.
    pub open spec fn finished(self) -> Self {
        ActiveObservationView { ready: true, waker: Seq::empty() }
    }
}

/// Begins an observation.
pub fn observation() -> (active: ActiveObservation)
    ensures
        active@ == ActiveObservationView::start(),
{
    ActiveObservation { waker: crate::wakers::new_cell(), ready: false }
}

impl ActiveObservation {
    /// Leaves `waker`, and only then looks: says whether the observation is
    /// over.
    pub fn poll(&mut self, waker: &Waker) -> (over: bool)
        ensures
            over == old(self)@.ready,
            final(self)@ == old(self)@.polled(*waker),
    {
        crate::wakers::register(&mut self.waker, waker);
        self.ready
    }

    /// Ends the observation. Returns the waker of the task that waits, if one
    /// does, for the caller to wake.
    #[must_use]
    pub fn close(&mut self) -> (woken: Option<Waker>)
        ensures
            old(self)@.waker == (match woken {
                Some(waker) => seq![waker],
                None => Seq::empty(),
            }),
            final(self)@ == old(self)@.finished(),
    {
        self.ready = true;
        crate::wakers::take(&mut self.waker)
    }
}

/// Whoever polled last before the end has left the waker that the end hands
/// out; whoever polls after it is told so at once, for ever.
pub proof fn law_the_end_is_noticed(active: ActiveObservationView, waker: Waker)
    ensures
        active.polled(waker).waker == seq![waker],
        active.finished().ready,
        active.finished().polled(waker).ready,
        active.polled(waker).ready == active.ready,
{
}

/// An observation that has just begun is not over, and nobody waits; one that is
/// over is so whatever happened before, and nobody waits for it any more.
pub proof fn law_only_the_end_is_the_end(active: ActiveObservationView, waker: Waker)
    ensures
        !ActiveObservationView::start().ready,
        ActiveObservationView::start().waker == Seq::<Waker>::empty(),
        !ActiveObservationView::start().polled(waker).ready,
        active.finished().ready,
        active.finished().waker == Seq::<Waker>::empty(),
        active.finished().finished() == active.finished(),
{
}

} // verus!
