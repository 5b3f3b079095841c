//! A value that can be watched for changes.
//!
//! A [`Value`] keeps the current value in a [`FlipCard`], and the registrations
//! of its observers. Its methods run from beginning to end without a break:
//! they are for a caller that has the value to itself for as long as the call
//! takes. Callers that share a value and give it up between atomic steps take a
//! [`Look`](crate::look::Look) to read it, and else use the methods whose names
//! begin with `step`, `begin` and `finish`.

use core::task::Waker;
use vstd::prelude::*;

use crate::flip_card::{CardView, FlipCard, FlipReader, FlipWriter};
use crate::observer::{Observer, ObserverView};
use crate::registrations::{
    law_ids_are_unique, law_leaving_disturbs_nobody, law_notice_reaches_everybody, Registrations,
    RegistrationsView, Sweep, SweepView,
};
use crate::registry::Event;

verus! {

/// What a value holds.
#[verifier::ext_equal]
pub struct ValueView<T> {
    /// The current value; `None` once the value has hung up.
    pub card: CardView<Option<T>>,
    pub regs: RegistrationsView,
    /// What has happened, for the registry, since this was last asked for.
    pub events: Seq<Event>,
    /// The id by which the registry knows this value; `None` if it does not,
    /// and nothing is noted for it.
    pub registry_id: Option<u64>,
}

impl<T> ValueView<T> {
    /// A new value that holds `value`.
    pub open spec fn start(value: T, registry_id: Option<u64>) -> Self {
        ValueView {
            card: CardView::at_rest(true, Some(value)),
            regs: RegistrationsView::start(),
            events: Seq::empty(),
            registry_id,
        }
    }

    /// The current value; `None` once the value has hung up.
    pub open spec fn current(self) -> Option<T> {
        self.card.current()
    }

    /// Nobody is in the middle of anything.
    pub open spec fn settled(self) -> bool {
        self.card.quiet() && self.regs.settled()
    }

    /// `event` has happened.
    pub open spec fn noting(self, event: Event) -> Self {
        ValueView {
            events: if self.registry_id is Some {
                self.events.push(event)
            } else {
                self.events
            },
            ..self
        }
    }

    /// The current value has been replaced by `next`, this has been noted as
    /// `event`, and every observer has been told.
    pub open spec fn changed(self, next: Option<T>, event: Event) -> Self {
        ValueView {
            card: CardView::at_rest(!self.card.read_0, next),
            regs: self.regs.notified(),
            ..self.noting(event)
        }
    }

    /// The wakers that the observers left, in the order in which they are told.
    pub open spec fn waiting(self) -> Seq<Waker> {
        self.regs.left_by(self.regs.stack.reverse())
    }

    /// An observer has come.
    pub open spec fn observed(self) -> Self {
        ValueView { regs: self.regs.enrolled(), ..self.noting(Event::ObserverCreated) }
    }

    /// Observer `id` has gone away.
    pub open spec fn without(self, id: u64) -> Self {
        ValueView { regs: self.regs.without(id), ..self.noting(Event::ObserverDropped) }
    }
}

/// `b` is what cloning `a` gives.
pub open spec fn copies<T: Clone>(a: Option<T>, b: Option<T>) -> bool {
    match (a, b) {
        (None, None) => true,
        (Some(x), Some(y)) => cloned::<T>(x, y),
        _ => false,
    }
}

/// `a == b`, for values of type `T`, can give `answer`.
pub open spec fn compares<T: PartialEq>(a: T, b: T, answer: bool) -> bool {
    call_ensures(<T as PartialEq>::eq, (&a, &b), answer)
}

/// A value that can be watched for changes.
pub struct Value<T: Clone> {
    registry_id: Option<u64>,
    value: FlipCard<Option<T>>,
    observations: Registrations,
    events: Vec<Event>,
}

impl<T: Clone> View for Value<T> {
    type V = ValueView<T>;

    closed spec fn view(&self) -> ValueView<T> {
        ValueView {
            card: self.value@,
            regs: self.observations@,
            events: self.events@,
            registry_id: self.registry_id,
        }
    }
}

impl<T: Clone> Value<T> {
    /// Creates a value that holds `value`, of which no registry knows.
    pub fn new(value: T) -> (made: Self)
        ensures
            made@ == ValueView::start(value, None),
            made@.settled(),
    {
        let made = Value {
            registry_id: None,
            value: FlipCard::new(Some(value)),
            observations: Registrations::new(),
            events: Vec::new(),
        };
        assert(made@ =~= ValueView::start(value, None));
        made
    }

    /// Creates a value that holds `value`, which the registry knows as
    /// `registry_id`.
    pub fn registered(value: T, registry_id: u64) -> (made: Self)
        ensures
            made@ == ValueView::start(value, Some(registry_id)),
            made@.settled(),
    {
        let made = Value {
            registry_id: Some(registry_id),
            value: FlipCard::new(Some(value)),
            observations: Registrations::new(),
            events: Vec::new(),
        };
        assert(made@ =~= ValueView::start(value, Some(registry_id)));
        made
    }

    fn note(&mut self, event: Event)
        ensures
            final(self)@ == old(self)@.noting(event),
    {
        if self.registry_id.is_some() {
            self.events.push(event);
        }
        assert(self@ =~= old(self)@.noting(event));
    }

    /// Hands out what has happened since the last call, oldest first, with the
    /// id by which the registry knows this value.
    pub fn take_events(&mut self) -> (events: (Option<u64>, Vec<Event>))
        ensures
            events.0 == old(self)@.registry_id,
            events.1@ == old(self)@.events,
            final(self)@ == (ValueView { events: Seq::empty(), ..old(self)@ }),
    {
        let mut events = Vec::new();
        core::mem::swap(&mut events, &mut self.events);
        assert(self@ =~= (ValueView { events: Seq::empty(), ..old(self)@ }));
        (self.registry_id, events)
    }

    /// A copy of what the value holds; `None` if it has hung up.
    pub(crate) fn read(&self) -> (copy: Option<T>)
        requires
            self@.settled(),
        ensures
            copies(self@.current(), copy),
    {
        self.value.read()
    }

    /// Returns a copy of the current value. It must not have hung up.
    pub fn get(&self) -> (copy: T)
        requires
            self@.settled(),
            self@.current() is Some,
        ensures
            cloned::<T>(self@.current()->0, copy),
    {
        self.read().unwrap()
    }

    /// Replaces the current value and tells every observer. Returns the value
    /// that was there before, and the wakers of those who wait, for the caller
    /// to wake.
    #[must_use]
    pub fn set(&mut self, value: T) -> (replaced: (T, Vec<Waker>))
        requires
            old(self)@.settled(),
            old(self)@.current() is Some,
        ensures
            Some(replaced.0) == old(self)@.current(),
            replaced.1@ == old(self)@.waiting(),
            final(self)@ == old(self)@.changed(Some(value), Event::ValueSet),
            final(self)@.settled(),
    {
        proof {
            law_notice_reaches_everybody(self@.regs);
        }
        let previous = self.value.flip_to(Some(value));
        self.note(Event::ValueSet);
        let woken = self.observations.notify();
        assert(self@ =~= old(self)@.changed(Some(value), Event::ValueSet));
        (previous.unwrap(), woken)
    }
}

impl<T: Clone> Value<T> {
    /// Takes the current value away for good and tells every observer: from now
    /// on there is nothing to observe. Returns the value that was there, and the
    /// wakers of those who wait. The caller wakes them, and only then drops the
    /// value.
    #[must_use]
    pub fn hang_up(&mut self) -> (replaced: (Option<T>, Vec<Waker>))
        requires
            old(self)@.settled(),
        ensures
            replaced.0 == old(self)@.current(),
            replaced.1@ == old(self)@.waiting(),
            final(self)@ == old(self)@.changed(None, Event::ValueDropped),
            final(self)@.settled(),
    {
        proof {
            law_notice_reaches_everybody(self@.regs);
        }
        let previous = self.value.flip_to(None);
        self.note(Event::ValueDropped);
        let woken = self.observations.notify();
        assert(self@ =~= old(self)@.changed(None, Event::ValueDropped));
        (previous, woken)
    }

    /// Whether there is an id left for one more observer.
    pub fn can_enroll(&self) -> (room: bool)
        ensures
            room == (self@.regs.next_id < u64::MAX),
    {
        self.observations.can_enroll()
    }

    /// Makes an observer of this value.
    pub fn observe(&mut self) -> (observer: Observer<T>)
        requires
            old(self)@.settled(),
            old(self)@.regs.next_id < u64::MAX,
        ensures
            observer@ == ObserverView::<T>::start(old(self)@.regs.next_id),
            final(self)@ == old(self)@.observed(),
            final(self)@.settled(),
    {
        Observer::new(self)
    }

    /// Makes a registration for a new observer, and returns its id.
    pub fn enroll(&mut self) -> (id: u64)
        requires
            old(self)@.regs.next_id < u64::MAX,
        ensures
            id == old(self)@.regs.next_id,
            final(self)@ == old(self)@.observed(),
            old(self)@.settled() ==> final(self)@.settled(),
    {
        proof {
            if self@.settled() {
                law_ids_are_unique(self@.regs);
            }
        }
        let id: u64 = self.observations.enroll();
        self.note(Event::ObserverCreated);
        assert(self@ =~= old(self)@.observed());
        id
    }

    /// Whether two values hold equal values. Neither must have hung up.
    pub fn eq(&self, other: &Self) -> (equal: bool)
        where
            T: PartialEq,
        requires
            self@.settled(),
            self@.current() is Some,
            other@.settled(),
            other@.current() is Some,
        ensures
            exists|a: T, b: T|
                {
                    &&& cloned::<T>(self@.current()->0, a)
                    &&& cloned::<T>(other@.current()->0, b)
                    &&& #[trigger] compares(a, b, equal)
                },
    {
        let a = self.get();
        let b = other.get();
        let equal = a.eq(&b);
        assert(compares(a, b, equal));
        equal
    }

    /// Lets one who reads the value take one atomic step.
    pub(crate) fn step_reader(&mut self, reader: &mut FlipReader<Option<T>>)
        requires
            old(reader)@.fits(old(self)@.card),
        ensures
            old(reader)@.steps_to(old(self)@.card, (final(reader)@, final(self)@.card)),
            final(self)@ == (ValueView { card: final(self)@.card, ..old(self)@ }),
    {
        reader.step(&mut self.value);
        assert(self@ =~= (ValueView { card: self@.card, ..old(self)@ }));
    }

    /// Lets one who replaces the value take one atomic step.
    pub fn step_writer(&mut self, writer: &mut FlipWriter<Option<T>>)
        requires
            old(writer)@.fits(old(self)@.card),
        ensures
            (final(writer)@, final(self)@.card) == old(writer)@.step(old(self)@.card),
            final(self)@ == (ValueView { card: final(self)@.card, ..old(self)@ }),
    {
        writer.step(&mut self.value);
        assert(self@ =~= (ValueView { card: self@.card, ..old(self)@ }));
    }

    /// Lets one who sweeps the registrations take one atomic step.
    pub fn step_sweep(&mut self, sweep: &mut Sweep)
        ensures
            (final(sweep)@, final(self)@.regs) == old(sweep)@.step(old(self)@.regs),
            final(self)@ == (ValueView { regs: final(self)@.regs, ..old(self)@ }),
    {
        sweep.step(&mut self.observations);
        assert(self@ =~= (ValueView { regs: self@.regs, ..old(self)@ }));
    }

    /// Ends a change of the value: notes it, and returns what was replaced and
    /// the sweep that has to follow.
    pub fn finish_change(&mut self, writer: FlipWriter<Option<T>>) -> (rest: (Option<T>, Sweep))
        requires
            writer@.phase is Done,
            writer@.outgoing is Some,
        ensures
            rest.0 == writer@.outgoing->0,
            rest.1@ == SweepView::start(None),
            final(self)@ == old(self)@.noting(Event::ValueSet),
    {
        self.note(Event::ValueSet);
        (writer.into_previous().unwrap(), Sweep::all())
    }

    /// Ends a withdrawal of the value: notes it, and returns what was replaced
    /// and the sweep that has to follow.
    pub fn finish_withdrawal(&mut self, writer: FlipWriter<Option<T>>) -> (rest: (
        Option<T>,
        Sweep,
    ))
        requires
            writer@.phase is Done,
            writer@.outgoing is Some,
        ensures
            rest.0 == writer@.outgoing->0,
            rest.1@ == SweepView::start(None),
            final(self)@ == old(self)@.noting(Event::ValueDropped),
    {
        self.note(Event::ValueDropped);
        (writer.into_previous().unwrap(), Sweep::all())
    }

    /// Ends an observer's look at the value: notes that it has caught up.
    pub(crate) fn finish_look(&mut self)
        ensures
            final(self)@ == old(self)@.noting(Event::Observed),
    {
        self.note(Event::Observed);
    }

    /// Begins the departure of observer `id`: notes it, and returns the sweep
    /// that has to follow.
    pub fn begin_departure(&mut self, id: u64) -> (sweep: Sweep)
        ensures
            sweep@ == SweepView::start(Some(id)),
            final(self)@ == old(self)@.noting(Event::ObserverDropped),
    {
        self.note(Event::ObserverDropped);
        Sweep::down_to(id)
    }

    /// Begins a poll of observer `id`: leaves the waker of the task that polls,
    /// in place of any that was left before, which is returned.
    pub(crate) fn begin_poll(&mut self, id: u64, waker: &Waker) -> (replaced: Option<Waker>)
        requires
            old(self)@.regs.live(id),
        ensures
            old(self)@.regs.wakers[id] == (match replaced {
                Some(before) => seq![before],
                None => Seq::empty(),
            }),
            final(self)@ == (ValueView {
                regs: old(self)@.regs.registering(id, *waker),
                ..old(self)@
            }),
    {
        let replaced = self.observations.register(id, waker);
        assert(self@ =~= (ValueView {
            regs: old(self)@.regs.registering(id, *waker),
            ..old(self)@
        }));
        replaced
    }

    /// Takes observer `id` away. Returns the wakers of the observers that were
    /// in its way.
    pub(crate) fn depart(&mut self, id: u64) -> (woken: Vec<Waker>)
        requires
            old(self)@.settled(),
            old(self)@.regs.live(id),
        ensures
            woken@ == old(self)@.regs.left_by(old(self)@.regs.displaced(id)),
            final(self)@ == old(self)@.without(id),
            final(self)@.settled(),
    {
        proof {
            law_leaving_disturbs_nobody(self@.regs, id);
        }
        self.note(Event::ObserverDropped);
        let woken = self.observations.remove(id);
        assert(self@ =~= old(self)@.without(id));
        woken
    }
}

impl<T: Clone + Default> Default for Value<T> {
    /// Creates a value that holds the default value of `T`.
    fn default() -> (made: Self)
        ensures
            exists|value: T|
                {
                    &&& call_ensures(T::default, (), value)
                    &&& made@ == #[trigger] ValueView::start(value, None)
                },
            made@.settled(),
    {
        Value::new(T::default())
    }
}

impl<T: Clone> vstd::std_specs::convert::FromSpecImpl<T> for Value<T> {
    /// Two values that hold the same are still two values, so what `from`
    /// gives is said by its own contract and not by an expression.
    open spec fn obeys_from_spec() -> bool {
        false
    }

    open spec fn from_spec(value: T) -> Self {
        vstd::pervasive::arbitrary()
    }
}

impl<T: Clone> From<T> for Value<T> {
    /// Creates a value that holds `value`.
    fn from(value: T) -> (made: Self)
        ensures
            made@ == ValueView::start(value, None),
            made@.settled(),
    {
        Value::new(value)
    }
}

} // verus!
