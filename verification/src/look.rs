//! Looking at a value that others use at the same time.
//!
//! A [`Look`] takes one atomic step at a time, and anything may happen to the
//! value between two of them. The look of a poll leaves the waker of the task
//! that polls first, and reads only then: whoever changes the value after it has
//! read finds the waker. The module `poll_laws` proves that this is enough.

use core::task::Waker;
use vstd::prelude::*;

use crate::flip_card::{FlipReader, ReaderPhase, ReaderView};
use crate::registry::Event;
use crate::value::{Value, ValueView};

verus! {

/// What a look is about to do.
#[derive(Clone, Copy, Debug, PartialEq, Eq, Structural)]
pub enum LookPhase {
    /// Leave the waker of the task that polls.
    Register,
    /// Go on reading the value.
    Read,
    /// Note that an observer has caught up.
    Note,
    /// Nothing: there is a copy of the value.
    Done,
}

/// A look in the middle of its work.
pub struct LookView<T> {
    /// The observer that is polled, and the waker of the task that polls it.
    pub registration: Option<(u64, Waker)>,
    /// An observer looks, and has thereby caught up.
    pub notes: bool,
    pub phase: LookPhase,
    pub reader: ReaderView<Option<T>>,
}

impl<T> LookView<T> {
    /// A poll of observer `id` by a task that is woken by `waker`.
    pub open spec fn poll(id: u64, waker: Waker) -> Self {
        LookView {
            registration: Some((id, waker)),
            notes: true,
            phase: LookPhase::Register,
            reader: ReaderView::start(),
        }
    }

    /// An observer's look at the current value.
    pub open spec fn observe() -> Self {
        LookView {
            registration: None,
            notes: true,
            phase: LookPhase::Read,
            reader: ReaderView::start(),
        }
    }

    /// A look that nobody takes notice of.
    pub open spec fn peek() -> Self {
        LookView {
            registration: None,
            notes: false,
            phase: LookPhase::Read,
            reader: ReaderView::start(),
        }
    }

    /// This look, if the cloning of the value has panicked.
    pub open spec fn abandoned(self) -> Self {
        LookView { reader: self.reader.abandoned(), ..self }
    }

    /// The value is in a state in which this look can take its step: the
    /// observer that is polled is there, and the reader can go on.
    pub open spec fn fits(self, value: ValueView<T>) -> bool {
        match self.phase {
            LookPhase::Register => self.registration matches Some((id, _)) ==> value.regs.live(id),
            LookPhase::Read => self.reader.fits(value.card),
            _ => true,
        }
    }

    /// What comes after reading, once the reader is in phase `phase`.
    pub open spec fn phase_after(self, phase: ReaderPhase) -> LookPhase {
        if phase !is Done {
            LookPhase::Read
        } else if self.notes {
            LookPhase::Note
        } else {
            LookPhase::Done
        }
    }
}

impl<T: Clone> LookView<T> {
    /// One step of this look at `value` can end with the look and the value as
    /// in `after`. All that is left open is what `T::clone` returns.
    pub open spec fn steps_to(self, value: ValueView<T>, after: (Self, ValueView<T>)) -> bool {
        match self.phase {
            LookPhase::Register => after == (
                LookView { phase: LookPhase::Read, ..self },
                match self.registration {
                    Some((id, waker)) => ValueView {
                        regs: value.regs.registering(id, waker),
                        ..value
                    },
                    None => value,
                },
            ),
            LookPhase::Read => {
                &&& self.reader.steps_to(value.card, (after.0.reader, after.1.card))
                &&& after.0 == (LookView {
                    phase: self.phase_after(after.0.reader.phase),
                    reader: after.0.reader,
                    ..self
                })
                &&& after.1 == (ValueView { card: after.1.card, ..value })
            },
            LookPhase::Note => after == (
                LookView { phase: LookPhase::Done, ..self },
                value.noting(Event::Observed),
            ),
            LookPhase::Done => after == (self, value),
        }
    }
}

/// A look at a value, one atomic step at a time.
#[derive(Debug)]
pub struct Look<'a, T> {
    registration: Option<(u64, &'a Waker)>,
    notes: bool,
    phase: LookPhase,
    reader: FlipReader<Option<T>>,
}

impl<'a, T> View for Look<'a, T> {
    type V = LookView<T>;

    closed spec fn view(&self) -> LookView<T> {
        LookView {
            registration: match self.registration {
                Some((id, waker)) => Some((id, *waker)),
                None => None,
            },
            notes: self.notes,
            phase: self.phase,
            reader: self.reader@,
        }
    }
}

impl<'a, T> Look<'a, T> {
    /// A poll of observer `id` by a task that is woken by `waker`.
    pub fn poll(id: u64, waker: &'a Waker) -> (look: Self)
        ensures
            look@ == LookView::<T>::poll(id, *waker),
    {
        Look {
            registration: Some((id, waker)),
            notes: true,
            phase: LookPhase::Register,
            reader: FlipReader::new(),
        }
    }

    /// An observer's look at the current value.
    pub fn observe() -> (look: Self)
        ensures
            look@ == LookView::<T>::observe(),
    {
        Look {
            registration: None,
            notes: true,
            phase: LookPhase::Read,
            reader: FlipReader::new(),
        }
    }

    /// A look that nobody takes notice of.
    pub fn peek() -> (look: Self)
        ensures
            look@ == LookView::<T>::peek(),
    {
        Look {
            registration: None,
            notes: false,
            phase: LookPhase::Read,
            reader: FlipReader::new(),
        }
    }

    /// What the look is about to do.
    pub fn phase(&self) -> (phase: LookPhase)
        ensures
            phase == self@.phase,
    {
        self.phase
    }

    /// What its reader is about to do.
    pub fn reader_phase(&self) -> (phase: ReaderPhase)
        ensures
            phase == self@.reader.phase,
    {
        self.reader.phase()
    }

    /// The copy that it has made, if it has made one yet.
    pub fn copied(&self) -> (copy: Option<&Option<T>>)
        ensures
            copy is Some <==> self@.reader.copy is Some,
            copy matches Some(value) ==> *value == self@.reader.copy->0,
    {
        self.reader.copied()
    }

    /// What the look does when the cloning of the value has panicked: it makes
    /// no copy, but its reader still leaves the slot.
    pub fn abandon(&mut self)
        ensures
            final(self)@ == old(self)@.abandoned(),
    {
        self.reader.abandon();
    }

    /// The copy that it made.
    pub fn into_copy(self) -> (copy: Option<Option<T>>)
        ensures
            copy == self@.reader.copy,
    {
        self.reader.into_copy()
    }

    /// Takes one atomic step. Returns the waker that the one which it left
    /// takes the place of, if there was one.
    pub fn step(&mut self, value: &mut Value<T>) -> (replaced: Option<Waker>)
        where
            T: Clone,
        requires
            old(self)@.fits(old(value)@),
        ensures
            old(self)@.steps_to(old(value)@, (final(self)@, final(value)@)),
            match (old(self)@.phase, old(self)@.registration) {
                (LookPhase::Register, Some((id, _))) => old(value)@.regs.wakers[id] == (
                match replaced {
                    Some(before) => seq![before],
                    None => Seq::empty(),
                }),
                _ => replaced is None,
            },
    {
        match self.phase {
            LookPhase::Register => {
                self.phase = LookPhase::Read;
                match self.registration {
                    Some((id, waker)) => value.begin_poll(id, waker),
                    None => None,
                }
            },
            LookPhase::Read => {
                value.step_reader(&mut self.reader);
                match self.reader.phase() {
                    ReaderPhase::Done => {
                        self.phase = if self.notes {
                            LookPhase::Note
                        } else {
                            LookPhase::Done
                        };
                    },
                    _ => {},
                }
                None
            },
            LookPhase::Note => {
                value.finish_look();
                self.phase = LookPhase::Done;
                None
            },
            LookPhase::Done => None,
        }
    }
}

/// A poll begins with the waker of the task that polls, and every look of an
/// observer ends with a note; a look that nobody takes notice of has neither.
pub proof fn law_only_polls_leave_a_waker<T>(id: u64, waker: Waker)
    ensures
        LookView::<T>::poll(id, waker).registration == Some((id, waker)),
        LookView::<T>::poll(id, waker).phase == LookPhase::Register,
        LookView::<T>::poll(id, waker).notes,
        LookView::<T>::observe().registration is None,
        LookView::<T>::observe().phase == LookPhase::Read,
        LookView::<T>::observe().notes,
        LookView::<T>::peek().registration is None,
        LookView::<T>::peek().phase == LookPhase::Read,
        !LookView::<T>::peek().notes,
        LookView::<T>::poll(id, waker).reader.copy is None,
        LookView::<T>::observe().reader.copy is None,
        LookView::<T>::peek().reader.copy is None,
{
}

/// Each step of a look does one thing. First the waker is left, in place of any
/// that the same observer left; then the value is read, which nobody else
/// notices; and only when there is a copy is it noted that the observer has
/// caught up.
pub proof fn law_a_look_does_one_thing_at_a_time<T: Clone>(
    look: LookView<T>,
    value: ValueView<T>,
    after: (LookView<T>, ValueView<T>),
)
    requires
        look.steps_to(value, after),
    ensures
        after.0.registration == look.registration,
        after.0.notes == look.notes,
        after.1.registry_id == value.registry_id,
        look.phase != LookPhase::Read ==> after.1.card == value.card && after.0.reader
            == look.reader,
        look.phase != LookPhase::Register ==> after.1.regs == value.regs,
        look.phase != LookPhase::Note ==> after.1.events == value.events,
        look.phase == LookPhase::Register ==> after.0.phase == LookPhase::Read,
        look.phase == LookPhase::Register && look.registration is Some ==> ({
            let (id, waker) = look.registration->0;
            &&& after.1.regs.wakers == value.regs.wakers.insert(id, seq![waker])
            &&& after.1.regs.stack == value.regs.stack
            &&& after.1.regs.next_id == value.regs.next_id
        }),
        look.phase == LookPhase::Read ==> (after.0.reader.phase is Done <==> after.0.phase
            != LookPhase::Read),
        look.phase == LookPhase::Read && after.0.phase != LookPhase::Read ==> after.0.phase
            == if look.notes {
            LookPhase::Note
        } else {
            LookPhase::Done
        },
        look.phase == LookPhase::Note ==> after.0.phase == LookPhase::Done,
        look.phase == LookPhase::Note && value.registry_id is Some ==> after.1.events
            == value.events.push(Event::Observed),
        look.phase == LookPhase::Note && value.registry_id is None ==> after.1.events
            == value.events,
        look.phase == LookPhase::Done ==> after == (look, value),
{
}

} // verus!
