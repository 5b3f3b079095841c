use std::sync::Arc;
use std::task::{Wake, Waker};

use await_values::aggregate::{AggregateObserver, Turn};
use await_values::observer::Observation::{Hangup, NewValue, Unchanged};
use await_values::value::Value;

struct Idle;

impl Wake for Idle {
    fn wake(self: Arc<Self>) {}
}

fn over(n: usize) -> AggregateObserver {
    let mut aggregate = AggregateObserver::new();
    for index in 0..n {
        assert_eq!(aggregate.add_observer(), index);
    }
    assert_eq!(aggregate.len(), n);
    aggregate
}

/// Sets a value and wakes whoever waits, as one does who has it to oneself.
fn set<T: Clone>(value: &mut Value<T>, next: T) -> T {
    let (old, woken) = value.set(next);
    for waker in woken {
        waker.wake();
    }
    old
}

/// Lets a value hang up and wakes whoever waits; the payload is dropped last.
fn hang_up<T: Clone>(value: &mut Value<T>) {
    let (_payload, woken) = value.hang_up();
    for waker in woken {
        waker.wake();
    }
}

#[test]
fn the_lowest_ready_index_is_given() {
    let mut aggregate = over(3);
    assert_eq!(
        aggregate.next(&vec![Unchanged, NewValue, NewValue]),
        Turn::Yield(1)
    );
    assert_eq!(
        aggregate.next(&vec![NewValue, NewValue, NewValue]),
        Turn::Yield(0)
    );
    assert_eq!(
        aggregate.next(&vec![Unchanged, Unchanged, Unchanged]),
        Turn::Pending
    );
}

/// A value that hangs up has its index given out one final time, and when all
/// of them are gone, the stream ends.
#[test]
fn hang_ups_are_given_once() {
    let mut aggregate = over(2);
    assert_eq!(aggregate.next(&vec![Unchanged, Hangup]), Turn::Yield(1));
    assert_eq!(aggregate.next(&vec![Unchanged, Hangup]), Turn::Pending);
    assert_eq!(aggregate.next(&vec![NewValue, Hangup]), Turn::Yield(0));
    assert_eq!(aggregate.next(&vec![Hangup, Hangup]), Turn::Yield(0));
    assert_eq!(aggregate.next(&vec![Hangup, Hangup]), Turn::Ended);
    assert_eq!(aggregate.next(&vec![Hangup, Hangup]), Turn::Ended);

    // There is always more to watch.
    assert_eq!(aggregate.add_observer(), 2);
    assert_eq!(
        aggregate.next(&vec![Hangup, Hangup, Unchanged]),
        Turn::Pending
    );
}

#[test]
fn without_observers_there_is_nothing_to_wait_for() {
    let mut aggregate = AggregateObserver::default();
    assert_eq!(aggregate.begin(), Turn::Pending);
    assert_eq!(aggregate.next(&vec![]), Turn::Pending);
    assert!(!aggregate.is_dirty(&vec![]));
}

#[test]
fn observers_are_asked_one_by_one() {
    let mut aggregate = over(3);
    assert_eq!(aggregate.begin(), Turn::Ask(0));
    assert_eq!(aggregate.answer(0, Unchanged), Turn::Ask(1));
    assert_eq!(aggregate.answer(1, Hangup), Turn::Yield(1));
    assert_eq!(aggregate.begin(), Turn::Ask(0));
    assert_eq!(aggregate.answer(0, Unchanged), Turn::Ask(2));
    assert_eq!(aggregate.answer(2, Unchanged), Turn::Pending);
    assert_eq!(aggregate.answer(0, NewValue), Turn::Yield(0));
}

#[test]
fn a_cloned_aggregate_goes_its_own_way() {
    let mut aggregate = over(1);
    aggregate.answer(0, Hangup);
    let mut copy = aggregate.clone();
    assert_eq!(copy.begin(), Turn::Ended);
    copy.add_observer();
    assert_eq!(copy.begin(), Turn::Ask(1));
    assert_eq!(aggregate.begin(), Turn::Ended);
}

/// Values of different types, watched together.
#[test]
fn test_aggregate_observer() {
    let waker = Waker::from(Arc::new(Idle));
    let mut number = Value::new(2);
    let mut fraction = Value::new(0.3);
    let mut numbers = number.observe();
    let mut fractions = fraction.observe();
    let mut aggregate = over(2);

    let mut poll = |aggregate: &mut AggregateObserver,
                    number: &mut Value<i32>,
                    fraction: &mut Value<f64>| {
        let mut turn = aggregate.begin();
        while let Turn::Ask(index) = turn {
            let found = if index == 0 {
                number_found(numbers.poll_next(number, &waker))
            } else {
                number_found(fractions.poll_next(fraction, &waker))
            };
            turn = aggregate.answer(index, found);
        }
        turn
    };
    fn number_found<T>(next: Result<Option<T>, ()>) -> await_values::observer::Observation {
        match next {
            Ok(Some(_)) => NewValue,
            Ok(None) => Hangup,
            Err(()) => Unchanged,
        }
    }

    assert_eq!(
        poll(&mut aggregate, &mut number, &mut fraction),
        Turn::Yield(0)
    );
    assert_eq!(
        poll(&mut aggregate, &mut number, &mut fraction),
        Turn::Yield(1)
    );
    assert_eq!(
        poll(&mut aggregate, &mut number, &mut fraction),
        Turn::Pending
    );
    set(&mut number, 3);
    assert_eq!(
        poll(&mut aggregate, &mut number, &mut fraction),
        Turn::Yield(0)
    );
    set(&mut fraction, 0.3);
    assert_eq!(
        poll(&mut aggregate, &mut number, &mut fraction),
        Turn::Pending
    );
    hang_up(&mut fraction);
    assert_eq!(
        poll(&mut aggregate, &mut number, &mut fraction),
        Turn::Yield(1)
    );
    hang_up(&mut number);
    assert_eq!(
        poll(&mut aggregate, &mut number, &mut fraction),
        Turn::Yield(0)
    );
    assert_eq!(
        poll(&mut aggregate, &mut number, &mut fraction),
        Turn::Ended
    );
}

/// A value that is set to what it holds does not count as changed.
#[test]
fn test_repeat_values() {
    let waker = Waker::from(Arc::new(Idle));
    let mut value = Value::new(0);
    let mut observer = value.observe();
    let mut aggregate = over(1);
    let mut poll = |value: &mut Value<i32>| {
        let found = match observer.poll_next(value, &waker) {
            Ok(Some(_)) => NewValue,
            Ok(None) => Hangup,
            Err(()) => Unchanged,
        };
        aggregate.next(&vec![found])
    };
    assert_eq!(poll(&mut value), Turn::Yield(0));
    for _ in 0..5 {
        set(&mut value, 0);
        assert_eq!(poll(&mut value), Turn::Pending);
    }
    set(&mut value, 1);
    assert_eq!(poll(&mut value), Turn::Yield(0));
}

#[test]
fn one_dirty_observer_makes_the_aggregate_dirty() {
    let mut value = Value::new(42);
    let mut observer = value.observe();
    let aggregate = over(2);
    assert!(aggregate.is_dirty(&vec![observer.is_dirty(&value), false]));
    observer.current_value(&mut value);
    assert!(!aggregate.is_dirty(&vec![observer.is_dirty(&value), false]));
    set(&mut value, 100);
    assert!(aggregate.is_dirty(&vec![false, observer.is_dirty(&value)]));
}
