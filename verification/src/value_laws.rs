//! What holds of values and their observers.

use core::task::Waker;
use vstd::prelude::*;
use vstd::std_specs::cmp::PartialEqSpec;

use crate::flip_card::CardView;
use crate::observer::{Observation, ObserverView};
use crate::registrations::{
    law_ids_are_unique, law_leaving_disturbs_nobody, law_notice_reaches_everybody,
    law_registering_disturbs_nobody, lemma_filters_agree, SweepView,
};
use crate::registry::Event;
use crate::registry_laws::count;
use crate::value::{compares, copies, ValueView};

verus! {

/// A value as it is while an observer polls it with `waker`.
pub open spec fn polled<T>(value: ValueView<T>, id: u64, waker: Waker) -> ValueView<T> {
    ValueView { regs: value.regs.registering(id, waker), ..value.noting(Event::Observed) }
}

/// What is set can be got: it is the current value until the next change, and
/// what was current is handed back. Of several values set in a row, only the
/// last is there to be observed.
pub proof fn law_the_last_value_set_is_current<T>(value: ValueView<T>, earlier: T, later: T)
    ensures
        value.changed(Some(later), Event::ValueSet).current() == Some(later),
        value.changed(Some(earlier), Event::ValueSet).changed(
            Some(later),
            Event::ValueSet,
        ).current() == Some(later),
        value.changed(None, Event::ValueDropped).current() is None,
{
}

/// Nothing but a change changes the current value: neither observers that come,
/// poll and go, nor what is noted for the registry.
pub proof fn law_observers_change_nothing<T>(
    value: ValueView<T>,
    id: u64,
    waker: Waker,
    event: Event,
)
    ensures
        value.observed().current() == value.current(),
        value.without(id).current() == value.current(),
        polled(value, id, waker).current() == value.current(),
        value.noting(event).current() == value.current(),
        value.noting(event).regs == value.regs,
{
}

/// Whatever is done to a value, it is settled afterwards.
pub proof fn law_values_stay_settled<T>(
    value: ValueView<T>,
    next: Option<T>,
    event: Event,
    id: u64,
    waker: Waker,
)
    requires
        value.settled(),
    ensures
        value.noting(event).settled(),
        value.changed(next, event).settled(),
        value.regs.next_id < u64::MAX ==> value.observed().settled(),
        value.regs.live(id) ==> value.without(id).settled(),
        value.regs.live(id) ==> polled(value, id, waker).settled(),
{
    law_notice_reaches_everybody(value.regs);
    if value.regs.next_id < u64::MAX {
        law_ids_are_unique(value.regs);
    }
    if value.regs.live(id) {
        law_leaving_disturbs_nobody(value.regs, id);
        law_registering_disturbs_nobody(value.regs, id, waker);
    }
}

/// A change wakes everybody who waits, whether or not the new value is equal to
/// the old: the waker that an observer left is among those handed out, each of
/// which is there once, and the observer stays registered for the next change.
pub proof fn law_a_change_wakes_everybody<T>(
    value: ValueView<T>,
    next: Option<T>,
    event: Event,
    id: u64,
)
    requires
        value.settled(),
        value.regs.live(id),
    ensures
        value.regs.wakers[id].len() == 1 ==> value.waiting().contains(value.regs.wakers[id][0]),
        value.waiting() == value.regs.waiting(value.regs.stack.reverse()).map_values(
            |id: u64| value.regs.wakers[id][0],
        ),
        value.changed(next, event).regs.live(id),
        value.changed(next, event).regs.wakers[id] == Seq::<Waker>::empty(),
        value.changed(next, event).regs.stack.contains(id),
{
    law_notice_reaches_everybody(value.regs);
    assert(value.regs.notified().live(id) <==> value.regs.live(id));
    assert(value.regs.notified().stack.contains(id) <==> value.regs.live(id));
}

/// The first poll gives the current value at once.
pub proof fn law_the_first_poll_gives_the_current_value<T: PartialEq + Clone>(
    observer: ObserverView<T>,
    read: T,
    next: Result<Option<T>, ()>,
    after: ObserverView<T>,
)
    requires
        observer.observed is None,
        observer.advances(Some(read), next, after),
    ensures
        next == Ok::<Option<T>, ()>(Some(read)),
{
}

/// A value that is equal to the one given out last is not given out again, and
/// one that is not equal is. A poll that gives nothing changes nothing.
pub proof fn law_equal_values_are_not_given_again<T: PartialEq + Clone>(
    observer: ObserverView<T>,
    read: T,
    next: Result<Option<T>, ()>,
    after: ObserverView<T>,
)
    requires
        T::obeys_eq_spec(),
        observer.observed is Some,
        observer.advances(Some(read), next, after),
    ensures
        next is Err <==> read.eq_spec(&observer.observed->0),
        next is Ok ==> next == Ok::<Option<T>, ()>(Some(read)),
        next is Err ==> after == observer,
{
}

/// Once the value has hung up, every poll says so, and changes nothing.
pub proof fn law_a_hang_up_ends_the_stream<T: PartialEq + Clone>(
    observer: ObserverView<T>,
    next: Result<Option<T>, ()>,
    after: ObserverView<T>,
)
    requires
        observer.advances(None, next, after),
    ensures
        next == Ok::<Option<T>, ()>(None),
        after == observer,
{
}

/// Each observation says what was read: nothing, something that is equal to what
/// the observer has given out last, or something new. Only what is new is
/// remembered.
pub proof fn law_observations_say_what_was_read<T: PartialEq + Clone>(
    observer: ObserverView<T>,
    read: Option<T>,
    found: Observation,
    after: ObserverView<T>,
)
    requires
        observer.finds(read, found, after),
    ensures
        found == Observation::Hangup <==> read is None,
        read is Some && observer.observed is None ==> found == Observation::NewValue,
        read is Some && observer.observed is Some ==> call_ensures(
            <T as PartialEq>::eq,
            (&read->0, &observer.observed->0),
            found == Observation::Unchanged,
        ),
        T::obeys_eq_spec() && read is Some && observer.observed is Some ==> (found
            == Observation::Unchanged <==> read->0.eq_spec(&observer.observed->0)),
        found != Observation::NewValue ==> after == observer,
        found == Observation::NewValue ==> {
            &&& after.id == observer.id
            &&& after.observed is Some
            &&& cloned::<T>(read->0, after.observed->0)
        },
{
}

/// Whether or not the value itself is wanted, the same is found.
pub proof fn law_a_poll_finds_what_it_gives<T: PartialEq + Clone>(
    observer: ObserverView<T>,
    read: Option<T>,
    next: Result<Option<T>, ()>,
    after: ObserverView<T>,
    found: Observation,
    then: ObserverView<T>,
)
    requires
        T::obeys_eq_spec(),
        observer.advances(read, next, after),
        observer.finds(read, found, then),
    ensures
        next is Err <==> found == Observation::Unchanged,
        next == Ok::<Option<T>, ()>(None) <==> found == Observation::Hangup,
        found == Observation::NewValue <==> next == Ok::<Option<T>, ()>(read) && read is Some,
{
}

/// A poll gives what was read, or says that it is equal to what was given out
/// last; what it gives it remembers, in place of what it remembered before.
pub proof fn law_polls_give_what_was_read<T: PartialEq + Clone>(
    observer: ObserverView<T>,
    read: Option<T>,
    next: Result<Option<T>, ()>,
    after: ObserverView<T>,
)
    requires
        observer.advances(read, next, after),
    ensures
        next is Ok ==> next == Ok::<Option<T>, ()>(read),
        next is Err ==> read is Some && observer.observed is Some,
        read is Some && observer.observed is Some ==> call_ensures(
            <T as PartialEq>::eq,
            (&read->0, &observer.observed->0),
            next is Err,
        ),
        read is None || next is Err ==> after == observer,
        read is Some && next is Ok ==> {
            &&& after.id == observer.id
            &&& after.observed is Some
            &&& cloned::<T>(read->0, after.observed->0)
        },
{
}

/// Whoever asks for the current value has it remembered as given out, whatever
/// was given out before.
pub proof fn law_the_current_value_is_remembered<T: Clone>(
    observer: ObserverView<T>,
    read: Option<T>,
    after: ObserverView<T>,
)
    requires
        observer.follows(read, after),
    ensures
        after.id == observer.id,
        read is None ==> after == observer,
        read is Some ==> after.observed is Some && cloned::<T>(read->0, after.observed->0),
{
}

/// An observer has something to give if and only if the value has hung up, or
/// nothing has been given yet, or what was given last is not equal to what there
/// is.
pub proof fn law_dirt_is_what_was_not_given<T: PartialEq>(
    observer: ObserverView<T>,
    read: Option<T>,
    dirty: bool,
)
    requires
        observer.judges(read, dirty),
    ensures
        read is None || observer.observed is None ==> dirty,
        read is Some && observer.observed is Some ==> call_ensures(
            <T as PartialEq>::eq,
            (&observer.observed->0, &read->0),
            !dirty,
        ),
        T::obeys_eq_spec() && read is Some && observer.observed is Some ==> dirty
            == !observer.observed->0.eq_spec(&read->0),
{
}

/// A new observer has given nothing yet.
pub proof fn law_a_new_observer_has_given_nothing<T>(id: u64)
    ensures
        ObserverView::<T>::start(id).id == id,
        ObserverView::<T>::start(id).observed is None,
{
}

/// A copy of a value is a clone of it, and there is one if and only if there is
/// a value; and values are compared by their own `==`.
pub proof fn law_copies_and_comparisons_are_the_types_own<T: PartialEq + Clone>(
    a: Option<T>,
    b: Option<T>,
    x: T,
    y: T,
    answer: bool,
)
    ensures
        copies(a, b) ==> (a is Some <==> b is Some),
        copies(a, b) && a is Some ==> cloned::<T>(a->0, b->0),
        compares(x, y, answer) ==> call_ensures(<T as PartialEq>::eq, (&x, &y), answer),
        T::obeys_eq_spec() && compares(x, y, answer) ==> answer == x.eq_spec(&y),
{
}

/// A new value holds what it was made with, and has no observers; nothing has
/// happened to it.
pub proof fn law_a_new_value_holds_what_it_was_given<T>(first: T, registry_id: Option<u64>)
    ensures
        ValueView::start(first, registry_id).current() == Some(first),
        ValueView::start(first, registry_id).settled(),
        ValueView::start(first, registry_id).registry_id == registry_id,
        ValueView::start(first, registry_id).events == Seq::<Event>::empty(),
        ValueView::start(first, registry_id).regs.wakers == Map::<u64, Seq<Waker>>::empty(),
        ValueView::start(first, registry_id).regs.stack == Seq::<u64>::empty(),
{
}

/// Whatever is done to a value that the registry knows is noted, as one event,
/// after those that were noted before; of one that it does not know, nothing.
/// By which id the registry knows it never changes.
pub proof fn law_everything_is_noted_once<T>(
    value: ValueView<T>,
    next: Option<T>,
    event: Event,
    id: u64,
    waker: Waker,
)
    ensures
        value.registry_id is Some ==> {
            &&& value.noting(event).events == value.events.push(event)
            &&& value.changed(next, event).events == value.events.push(event)
            &&& value.observed().events == value.events.push(Event::ObserverCreated)
            &&& value.without(id).events == value.events.push(Event::ObserverDropped)
            &&& polled(value, id, waker).events == value.events.push(Event::Observed)
        },
        value.registry_id is None ==> {
            &&& value.noting(event).events == value.events
            &&& value.changed(next, event).events == value.events
            &&& value.observed().events == value.events
            &&& value.without(id).events == value.events
            &&& polled(value, id, waker).events == value.events
        },
        value.noting(event).registry_id == value.registry_id,
        value.changed(next, event).registry_id == value.registry_id,
        value.observed().registry_id == value.registry_id,
        value.without(id).registry_id == value.registry_id,
        polled(value, id, waker).registry_id == value.registry_id,
        value.noting(event).card == value.card,
        value.observed().card == value.card,
        value.without(id).card == value.card,
        polled(value, id, waker).card == value.card,
{
}

/// Who is there changes only when observers come and go, and what they wait with
/// only when they poll or are told: a new observer has left no waker, a poll
/// leaves exactly the waker of the task that polls, an observer that goes takes
/// nothing but its own along, and a change leaves nobody's waker behind.
pub proof fn law_observers_are_kept_apart<T>(
    value: ValueView<T>,
    next: Option<T>,
    event: Event,
    id: u64,
    waker: Waker,
)
    requires
        value.settled(),
    ensures
        value.regs.next_id < u64::MAX ==> {
            &&& value.observed().regs.wakers == value.regs.wakers.insert(
                value.regs.next_id,
                Seq::empty(),
            )
            &&& value.observed().regs.next_id == value.regs.next_id + 1
            &&& !value.regs.wakers.contains_key(value.regs.next_id)
        },
        polled(value, id, waker).regs.wakers == value.regs.wakers.insert(id, seq![waker]),
        polled(value, id, waker).regs.stack == value.regs.stack,
        polled(value, id, waker).regs.next_id == value.regs.next_id,
        value.without(id).regs.wakers.dom() == value.regs.wakers.dom().remove(id),
        value.without(id).regs.next_id == value.regs.next_id,
        value.changed(next, event).regs.wakers == value.regs.wakers.map_values(
            |left: Seq<Waker>| Seq::<Waker>::empty(),
        ),
        value.changed(next, event).regs.next_id == value.regs.next_id,
{
    let told = value.changed(next, event).regs.wakers;
    let emptied = value.regs.wakers.map_values(|left: Seq<Waker>| Seq::<Waker>::empty());
    assert forall|k: u64| told.contains_key(k) implies told[k] == emptied[k] by {
        assert(value.regs.live(k));
        assert(value.regs.stack.contains(k));
    }
    assert(told =~= emptied);
    assert(value.without(id).regs.wakers.dom() =~= value.regs.wakers.dom().remove(id));
    if value.regs.next_id < u64::MAX {
        law_ids_are_unique(value.regs);
        assert(!value.regs.live(value.regs.next_id));
    }
}

/// The wakers that a change hands out are those that observers have left, each
/// once, the observer that registered last first.
pub proof fn law_the_wakers_handed_out_are_those_left<T>(value: ValueView<T>)
    requires
        value.settled(),
    ensures
        value.waiting() == value.regs.stack.reverse().filter(
            |id: u64| value.regs.wakers.contains_key(id) && value.regs.wakers[id].len() == 1,
        ).map_values(|id: u64| value.regs.wakers[id][0]),
        forall|id: u64| #[trigger]
            value.regs.wakers.contains_key(id) ==> value.regs.stack.contains(id)
                && value.regs.wakers[id].len() <= 1,
{
    let ids = value.regs.stack.reverse();
    law_notice_reaches_everybody(value.regs);
    assert forall|id: u64| #[trigger] value.regs.wakers.contains_key(id) implies
        value.regs.stack.contains(id) && value.regs.wakers[id].len() <= 1 by {
        assert(value.regs.live(id));
    }
    let waits = |id: u64|
        value.regs.wakers.contains_key(id) && value.regs.wakers[id].len() == 1;
    lemma_filters_agree(
        ids,
        waits,
        |id: u64| value.regs.live(id) && value.regs.wakers[id].len() == 1,
    );
}

/// Values of this type are equal to themselves, and their clones are the same
/// as they are.
pub open spec fn plain<T: PartialEq + Clone>() -> bool {
    &&& T::obeys_eq_spec()
    &&& forall|a: T| #[trigger] a.eq_spec(&a)
    &&& forall|a: T, b: T| #[trigger] cloned::<T>(a, b) ==> a == b
}

/// Two polls with no change in between: the second gives nothing. So it is
/// after the current value was asked for.
pub proof fn law_nothing_is_given_twice<T: PartialEq + Clone>(
    observer: ObserverView<T>,
    value: T,
    first: Result<Option<T>, ()>,
    between: ObserverView<T>,
    second: Result<Option<T>, ()>,
    after: ObserverView<T>,
)
    requires
        plain::<T>(),
        observer.advances(Some(value), first, between) || observer.follows(Some(value), between),
        between.advances(Some(value), second, after),
    ensures
        second is Err,
        after == between,
{
    assert(value.eq_spec(&value));
    if observer.follows(Some(value), between) || first is Ok {
        assert(cloned::<T>(value, between.observed->0));
    } else {
        assert(compares(value, observer.observed->0, true));
    }
}

/// `is_dirty` says whether a poll would give something at once. The type's `==`
/// must not depend on which value stands on which side.
pub proof fn law_dirty_means_ready<T: PartialEq + Clone>(
    observer: ObserverView<T>,
    read: Option<T>,
    dirty: bool,
    next: Result<Option<T>, ()>,
    after: ObserverView<T>,
)
    requires
        T::obeys_eq_spec(),
        read is Some && observer.observed is Some ==> read->0.eq_spec(&observer.observed->0)
            == observer.observed->0.eq_spec(&read->0),
        observer.judges(read, dirty),
        observer.advances(read, next, after),
    ensures
        dirty <==> next is Ok,
{
}

/// The observers that are there are those that the registry was told of: created
/// and not dropped.
pub open spec fn balanced<T>(value: ValueView<T>) -> bool {
    &&& value.regs.wakers.dom().finite()
    &&& value.regs.wakers.dom().len() == count(value.events, Event::ObserverCreated) - count(
        value.events,
        Event::ObserverDropped,
    )
}

/// The registry is told of every observer that comes, clones among them, and of
/// every one that goes; and of nothing else.
pub proof fn law_observers_are_reported<T>(
    value: ValueView<T>,
    next: Option<T>,
    id: u64,
    waker: Waker,
)
    requires
        value.settled(),
        value.registry_id is Some,
        balanced(value),
    ensures
        value.regs.next_id < u64::MAX ==> balanced(value.observed()),
        value.regs.live(id) ==> balanced(value.without(id)),
        value.regs.live(id) ==> balanced(polled(value, id, waker)),
        balanced(value.changed(next, Event::ValueSet)),
        balanced(value.changed(next, Event::ValueDropped)),
        balanced(value.noting(Event::Observed)),
{
    let events = value.events;
    assert(events.push(Event::ObserverCreated).drop_last() =~= events);
    assert(events.push(Event::ObserverDropped).drop_last() =~= events);
    assert(events.push(Event::Observed).drop_last() =~= events);
    assert(events.push(Event::ValueSet).drop_last() =~= events);
    assert(events.push(Event::ValueDropped).drop_last() =~= events);
    let dom = value.regs.wakers.dom();
    if value.regs.next_id < u64::MAX {
        law_ids_are_unique(value.regs);
        assert(value.observed().regs.wakers.dom() =~= dom.insert(value.regs.next_id));
    }
    if value.regs.live(id) {
        assert(value.without(id).regs.wakers.dom() =~= dom.remove(id));
        assert(polled(value, id, waker).regs.wakers.dom() =~= dom);
    }
    assert(value.regs.notified().wakers.dom() =~= dom);
}

/// Something that is done to a value: a call by somebody who has the value to
/// oneself, or an atomic step of somebody who shares it.
pub enum Call<T> {
    Put(T),
    HangUp,
    Observe,
    Leave(u64),
    Poll(u64, Waker),
    /// A waker is left, as the first step of a poll.
    Register(u64, Waker),
    /// A reader or a writer takes a step, which leaves the card like this.
    Card(CardView<Option<T>>),
    /// A sweep takes a step.
    Sweep(SweepView),
    /// Something is noted: the last step of a look or a change, or the first of
    /// a departure.
    Note(Event),
}

impl<T> Call<T> {
    /// The value after this call.
    pub open spec fn made(self, value: ValueView<T>) -> ValueView<T> {
        match self {
            Call::Put(next) => value.changed(Some(next), Event::ValueSet),
            Call::HangUp => value.changed(None, Event::ValueDropped),
            Call::Observe => value.observed(),
            Call::Leave(id) => value.without(id),
            Call::Poll(id, waker) => polled(value, id, waker),
            Call::Register(id, waker) => ValueView {
                regs: value.regs.registering(id, waker),
                ..value
            },
            Call::Card(card) => ValueView { card, ..value },
            Call::Sweep(sweep) => ValueView { regs: sweep.step(value.regs).1, ..value },
            Call::Note(event) => value.noting(event),
        }
    }

    /// The same call, but for what the value holds and is set to.
    pub open spec fn like<U>(self, other: Call<U>) -> bool {
        match (self, other) {
            (Call::Put(_), Call::Put(_)) => true,
            (Call::HangUp, Call::HangUp) => true,
            (Call::Observe, Call::Observe) => true,
            (Call::Leave(a), Call::Leave(b)) => a == b,
            (Call::Poll(a, v), Call::Poll(b, w)) => a == b && v == w,
            (Call::Register(a, v), Call::Register(b, w)) => a == b && v == w,
            (Call::Card(_), Call::Card(_)) => true,
            (Call::Sweep(a), Call::Sweep(b)) => a == b,
            (Call::Note(a), Call::Note(b)) => a == b,
            _ => false,
        }
    }
}

/// The value after all of `calls`.
pub open spec fn all_made<T>(value: ValueView<T>, calls: Seq<Call<T>>) -> ValueView<T>
    decreases calls.len(),
{
    if calls.len() == 0 {
        value
    } else {
        calls.last().made(all_made(value, calls.drop_last()))
    }
}

/// Two values are the same but for what they hold.
pub open spec fn alike<T, U>(a: ValueView<T>, b: ValueView<U>) -> bool {
    &&& a.regs == b.regs
    &&& a.events == b.events
    &&& a.registry_id == b.registry_id
}

/// What a value holds leaves no trace: after the same calls, two values that
/// differ only in what they hold, and were set to, have the same observers, have
/// noted the same events, and are told apart by no call.
pub proof fn law_contents_leave_no_trace<T, U>(
    a: ValueView<T>,
    b: ValueView<U>,
    a_calls: Seq<Call<T>>,
    b_calls: Seq<Call<U>>,
)
    requires
        alike(a, b),
        a_calls.len() == b_calls.len(),
        forall|k: int| 0 <= k < a_calls.len() ==> (#[trigger] a_calls[k]).like(b_calls[k]),
    ensures
        alike(all_made(a, a_calls), all_made(b, b_calls)),
    decreases a_calls.len(),
{
    if a_calls.len() > 0 {
        let a_rest = a_calls.drop_last();
        let b_rest = b_calls.drop_last();
        assert forall|k: int| 0 <= k < a_rest.len() implies (#[trigger] a_rest[k]).like(
            b_rest[k],
        ) by {
            assert(a_calls[k].like(b_calls[k]));
        }
        law_contents_leave_no_trace(a, b, a_rest, b_rest);
        assert(a_calls[a_calls.len() - 1].like(b_calls[b_calls.len() - 1]));
    }
}

} // verus!
