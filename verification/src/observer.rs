//! Watching a value.

use core::task::Waker;
use vstd::prelude::*;

use crate::decimal::{append_u64, numeral};
use crate::registrations::law_registering_disturbs_nobody;
use crate::registry::Event;
use crate::value::{compares, copies, Value, ValueView};

verus! {

/// What an observer knows.
pub struct ObserverView<T> {
    pub id: u64,
    /// The value that it gave out last.
    pub observed: Option<T>,
}

/// Watches a value for changes.
#[derive(Debug)]
pub struct Observer<T> {
    observed: Option<T>,
    observer_id: u64,
}

impl<T> View for Observer<T> {
    type V = ObserverView<T>;

    closed spec fn view(&self) -> ObserverView<T> {
        ObserverView { id: self.observer_id, observed: self.observed }
    }
}

impl<T> ObserverView<T> {
    /// Observer `id`, which has not given out anything yet.
    pub open spec fn start(id: u64) -> Self {
        ObserverView { id, observed: None }
    }

    /// What an observer does with `read`, which it read of the value, when it
    /// is asked for something new: it gives `next`, and is `after` then.
    pub open spec fn advances(
        self,
        read: Option<T>,
        next: Result<Option<T>, ()>,
        after: Self,
    ) -> bool
        where
            T: PartialEq + Clone,
    {
        match read {
            None => next == Ok::<Option<T>, ()>(None) && after == self,
            Some(value) => match next {
                Err(()) => {
                    &&& self.observed is Some
                    &&& compares(value, self.observed->0, true)
                    &&& after == self
                },
                Ok(given) => {
                    &&& given == Some(value)
                    &&& self.observed is Some ==> compares(value, self.observed->0, false)
                    &&& after.id == self.id
                    &&& after.observed is Some
                    &&& cloned::<T>(value, after.observed->0)
                },
            },
        }
    }

    /// As `advances`, for one who does not want the value itself.
    pub open spec fn finds(self, read: Option<T>, found: Observation, after: Self) -> bool
        where
            T: PartialEq + Clone,
    {
        exists|next: Result<Option<T>, ()>| #[trigger]
            self.advances(read, next, after) && found == (match next {
                Ok(Some(_)) => Observation::NewValue,
                Ok(None) => Observation::Hangup,
                Err(()) => Observation::Unchanged,
            })
    }

    /// What an observer does with `read`, which it read of the value, when it
    /// is asked for the current value: it is `after` then.
    pub open spec fn follows(self, read: Option<T>, after: Self) -> bool
        where
            T: Clone,
    {
        match read {
            None => after == self,
            Some(value) => {
                &&& after.id == self.id
                &&& after.observed is Some
                &&& cloned::<T>(value, after.observed->0)
            },
        }
    }

    /// Whether `read`, which the observer read of the value, is something new.
    pub open spec fn judges(self, read: Option<T>, dirty: bool) -> bool
        where
            T: PartialEq,
    {
        match (read, self.observed) {
            (Some(value), Some(last)) => compares(last, value, !dirty),
            _ => dirty,
        }
    }
}

/// What an observer found.
#[derive(Clone, Copy, Debug, PartialEq, Eq, Structural)]
pub enum Observation {
    NewValue,
    Hangup,
    Unchanged,
}

impl<T> Observer<T> {
    /// Makes an observer of `value` that has not given out anything yet.
    pub fn new(value: &mut Value<T>) -> (observer: Self)
        where
            T: Clone,
        requires
            old(value)@.settled(),
            old(value)@.regs.next_id < u64::MAX,
        ensures
            observer@ == ObserverView::<T>::start(old(value)@.regs.next_id),
            final(value)@ == old(value)@.observed(),
            final(value)@.settled(),
    {
        Observer::enrolled(value.enroll())
    }

    /// Makes an observer that has not given out anything yet, for the
    /// registration `observer_id`.
    pub fn enrolled(observer_id: u64) -> (observer: Self)
        ensures
            observer@ == ObserverView::<T>::start(observer_id),
    {
        Observer { observed: None, observer_id }
    }

    /// The number that tells this observer from the others of its value.
    pub fn id(&self) -> (id: u64)
        ensures
            id == self@.id,
    {
        self.observer_id
    }

    /// Gives out `read`, which was read of the value, and remembers it.
    pub fn current_given(&mut self, read: Option<T>) -> (current: Option<T>)
        where
            T: Clone,
        ensures
            current == read,
            old(self)@.follows(read, final(self)@),
    {
        match &read {
            Some(value) => {
                self.observed = Some(value.clone());
            },
            None => {},
        }
        read
    }

    /// Gives out `read`, which was read of the value, and remembers it, unless
    /// it is equal to what was given out last. `Ok(None)` says that the value
    /// has hung up.
    pub fn next_given(&mut self, read: Option<T>) -> (next: Result<Option<T>, ()>)
        where
            T: PartialEq + Clone,
        ensures
            old(self)@.advances(read, next, final(self)@),
    {
        match read {
            Some(value) => {
                let known = match &self.observed {
                    Some(last) => value.eq(last),
                    None => false,
                };
                if known {
                    Err(())
                } else {
                    self.observed = Some(value.clone());
                    Ok(Some(value))
                }
            },
            None => Ok(None),
        }
    }

    /// As `next_given`, for one who does not want the value itself.
    pub fn observation_given(&mut self, read: Option<T>) -> (found: Observation)
        where
            T: PartialEq + Clone,
        ensures
            old(self)@.finds(read, found, final(self)@),
    {
        let next = self.next_given(read);
        let ghost given = next;
        let found = match next {
            Ok(Some(_)) => Observation::NewValue,
            Ok(None) => Observation::Hangup,
            Err(()) => Observation::Unchanged,
        };
        assert(old(self)@.advances(read, given, self@));
        found
    }

    /// Whether `read`, which was read of the value, is something new. So is a
    /// hang-up.
    pub fn is_dirty_given(&self, read: &Option<T>) -> (dirty: bool)
        where
            T: PartialEq,
        ensures
            self@.judges(*read, dirty),
    {
        match (read, &self.observed) {
            (Some(value), Some(last)) => !last.eq(value),
            _ => true,
        }
    }
}

impl<T: Clone> Observer<T> {
    /// Gives out a copy of the current value, whether or not it was given out
    /// before, and remembers it. `None` says that the value has hung up.
    pub fn current_value(&mut self, value: &mut Value<T>) -> (current: Option<T>)
        requires
            old(value)@.settled(),
        ensures
            copies(old(value)@.current(), current),
            old(self)@.follows(current, final(self)@),
            final(value)@ == old(value)@.noting(Event::Observed),
            final(value)@.settled(),
    {
        let read = value.read();
        value.finish_look();
        self.current_given(read)
    }

    /// Gives out a copy of the current value, and remembers it, unless it is
    /// equal to what was given out last. `Ok(None)` says that the value has
    /// hung up, `Err` that there is nothing new.
    pub fn next_when_immediately_available(&mut self, value: &mut Value<T>) -> (next: Result<
        Option<T>,
        (),
    >)
        where
            T: PartialEq,
        requires
            old(value)@.settled(),
        ensures
            exists|read: Option<T>| #[trigger]
                copies(old(value)@.current(), read) && old(self)@.advances(
                    read,
                    next,
                    final(self)@,
                ),
            final(value)@ == old(value)@.noting(Event::Observed),
            final(value)@.settled(),
    {
        let read = value.read();
        value.finish_look();
        let ghost seen = read;
        let next = self.next_given(read);
        assert(copies(old(value)@.current(), seen));
        next
    }

    /// As `next_when_immediately_available`, for one who does not want the
    /// value itself.
    pub fn observe_if_distinct(&mut self, value: &mut Value<T>) -> (found: Observation)
        where
            T: PartialEq,
        requires
            old(value)@.settled(),
        ensures
            exists|read: Option<T>| #[trigger]
                copies(old(value)@.current(), read) && old(self)@.finds(
                    read,
                    found,
                    final(self)@,
                ),
            final(value)@ == old(value)@.noting(Event::Observed),
            final(value)@.settled(),
    {
        let read = value.read();
        value.finish_look();
        let ghost seen = read;
        let found = self.observation_given(read);
        assert(copies(old(value)@.current(), seen));
        found
    }

    /// Whether there is something new to give out. So is a hang-up.
    pub fn is_dirty(&self, value: &Value<T>) -> (dirty: bool)
        where
            T: PartialEq,
        requires
            value@.settled(),
        ensures
            exists|read: Option<T>| #[trigger]
                copies(value@.current(), read) && self@.judges(read, dirty),
    {
        let read = value.read();
        let dirty = self.is_dirty_given(&read);
        assert(copies(value@.current(), read));
        dirty
    }

    /// Polls for something new: leaves `waker`, and only then looks at the
    /// value. `Err` says that there is nothing new yet, and that `waker` will
    /// be woken when there may be.
    pub fn poll_next(&mut self, value: &mut Value<T>, waker: &Waker) -> (next: Result<
        Option<T>,
        (),
    >)
        where
            T: PartialEq,
        requires
            old(value)@.settled(),
            old(value)@.regs.live(old(self)@.id),
        ensures
            exists|read: Option<T>| #[trigger]
                copies(old(value)@.current(), read) && old(self)@.advances(
                    read,
                    next,
                    final(self)@,
                ),
            final(value)@ == (ValueView {
                regs: old(value)@.regs.registering(old(self)@.id, *waker),
                ..old(value)@.noting(Event::Observed)
            }),
            final(value)@.settled(),
    {
        proof {
            law_registering_disturbs_nobody(value@.regs, self@.id, *waker);
        }
        value.begin_poll(self.observer_id, waker);
        let next = self.next_when_immediately_available(value);
        assert(value@ =~= (ValueView {
            regs: old(value)@.regs.registering(old(self)@.id, *waker),
            ..old(value)@.noting(Event::Observed)
        }));
        next
    }

    /// Makes another observer of the same value. It has given out what this one
    /// has given out, and has nothing else in common with it.
    pub fn clone(&self, value: &mut Value<T>) -> (observer: Self)
        requires
            old(value)@.settled(),
            old(value)@.regs.next_id < u64::MAX,
        ensures
            observer@.id == old(value)@.regs.next_id,
            copies(self@.observed, observer@.observed),
            final(value)@ == old(value)@.observed(),
            final(value)@.settled(),
    {
        self.clone_enrolled(value.enroll())
    }

    /// Makes an observer that has given out what this one has given out, for
    /// the registration `observer_id`.
    pub fn clone_enrolled(&self, observer_id: u64) -> (observer: Self)
        ensures
            observer@.id == observer_id,
            copies(self@.observed, observer@.observed),
    {
        Observer { observed: self.observed.clone(), observer_id }
    }

    /// Takes this observer away. Returns the wakers of the observers that were
    /// in its way, for the caller to wake.
    #[must_use]
    pub fn close(self, value: &mut Value<T>) -> (woken: Vec<Waker>)
        requires
            old(value)@.settled(),
            old(value)@.regs.live(self@.id),
        ensures
            woken@ == old(value)@.regs.left_by(old(value)@.regs.displaced(self@.id)),
            final(value)@ == old(value)@.without(self@.id),
            final(value)@.settled(),
    {
        value.depart(self.observer_id)
    }

    /// A short description.
    pub fn describe(&self) -> (text: String)
        ensures
            text@ == "Observer(id: "@ + numeral(self@.id as nat) + ")"@,
    {
        let mut text = "Observer(id: ".to_owned();
        append_u64(&mut text, self.observer_id);
        text.append(")");
        text
    }
}

} // verus!
