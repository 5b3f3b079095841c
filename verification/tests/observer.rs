use std::sync::atomic::{AtomicUsize, Ordering};
use std::sync::{Arc, Mutex};
use std::task::{Wake, Waker};

use await_values::flip_card::{FlipWriter, WriterPhase};
use await_values::look::{Look, LookPhase};
use await_values::observer::{Observation, Observer};
use await_values::registrations::{Sweep, SweepPhase};
use await_values::value::Value;

#[derive(Default)]
struct WakeCount(AtomicUsize);

impl Wake for WakeCount {
    fn wake(self: Arc<Self>) {
        self.0.fetch_add(1, Ordering::Relaxed);
    }
}

fn counting_waker() -> (Arc<WakeCount>, Waker) {
    let wakes = Arc::new(WakeCount::default());
    let waker = Waker::from(Arc::clone(&wakes));
    (wakes, waker)
}

/// Sets a value and wakes whoever waits, as one does who has it to oneself.
fn set<T: Clone>(value: &mut Value<T>, next: T) -> T {
    let (old, woken) = value.set(next);
    for waker in woken {
        waker.wake();
    }
    old
}

/// Lets a value hang up and wakes whoever waits; the payload is dropped last.
fn hang_up<T: Clone>(value: &mut Value<T>) {
    let (_payload, woken) = value.hang_up();
    for waker in woken {
        waker.wake();
    }
}

/// Takes an observer away and wakes those who were in its way.
fn close<T: Clone>(observer: Observer<T>, value: &mut Value<T>) {
    for waker in observer.close(value) {
        waker.wake();
    }
}

#[test]
fn test_observer() {
    let mut value = Value::new(42);
    let mut observer = value.observe();
    assert_eq!(observer.current_value(&mut value).unwrap(), 42);
    set(&mut value, 100);
    assert_eq!(observer.current_value(&mut value).unwrap(), 100);
}

#[test]
fn test_observer_from_borrowed_value() {
    let mut value = Value::new(42);
    let mut observer = Observer::new(&mut value);
    assert_eq!(observer.current_value(&mut value), Some(42));
    set(&mut value, 100);
    assert_eq!(observer.current_value(&mut value), Some(100));
}

#[test]
fn test_observer_next() {
    let (wakes, waker) = counting_waker();
    let mut value = Value::new(42);
    let mut observer = value.observe();
    assert_eq!(observer.current_value(&mut value).unwrap(), 42);

    // Push first.
    set(&mut value, 100);
    assert_eq!(observer.poll_next(&mut value, &waker), Ok(Some(100)));

    // Wait first.
    assert_eq!(observer.poll_next(&mut value, &waker), Err(()));
    assert_eq!(wakes.0.load(Ordering::Relaxed), 0);
    set(&mut value, 200);
    assert_eq!(wakes.0.load(Ordering::Relaxed), 1);
    assert_eq!(observer.poll_next(&mut value, &waker), Ok(Some(200)));
}

#[test]
fn drop_value() {
    let (wakes, waker) = counting_waker();
    let mut value = Value::new(42);
    let mut observer = value.observe();
    assert_eq!(observer.current_value(&mut value).unwrap(), 42);
    assert_eq!(observer.poll_next(&mut value, &waker), Err(()));

    hang_up(&mut value);
    assert_eq!(wakes.0.load(Ordering::Relaxed), 1);
    assert_eq!(observer.poll_next(&mut value, &waker), Ok(None));
    // It stays that way.
    assert_eq!(observer.poll_next(&mut value, &waker), Ok(None));
    assert_eq!(observer.current_value(&mut value), None);
    assert!(observer.is_dirty(&value));
}

#[test]
fn test_observer_clone_drop_loop() {
    let mut value = Value::new(42);
    let observer = value.observe();
    for _ in 0..300 {
        let clone = observer.clone(&mut value);
        close(clone, &mut value);
    }
    assert_eq!(observer.id(), 0);
    assert_eq!(value.observe().id(), 301);
}

#[test]
fn test_observer_display() {
    let mut value = Value::new(42);
    let observer = value.observe();
    assert!(observer.describe().starts_with("Observer(id:"));
    assert_eq!(observer.describe(), "Observer(id: 0)");
    for _ in 1..12 {
        value.observe();
    }
    assert_eq!(value.observe().describe(), "Observer(id: 12)");
}

#[test]
fn the_first_poll_gives_the_current_value() {
    let (_, waker) = counting_waker();
    let mut value = Value::new("a");
    let mut observer = value.observe();
    assert!(observer.is_dirty(&value));
    assert_eq!(observer.poll_next(&mut value, &waker), Ok(Some("a")));
    assert!(!observer.is_dirty(&value));
    assert_eq!(observer.poll_next(&mut value, &waker), Err(()));
}

/// Setting a value that is equal to what was given out last wakes, but is not
/// given out again.
#[test]
fn equal_values_are_not_given_again() {
    let (wakes, waker) = counting_waker();
    let mut value = Value::new(0);
    let mut observer = value.observe();
    assert_eq!(observer.poll_next(&mut value, &waker), Ok(Some(0)));
    for k in 1..=5 {
        assert_eq!(observer.poll_next(&mut value, &waker), Err(()));
        set(&mut value, 0);
        assert_eq!(wakes.0.load(Ordering::Relaxed), k);
        assert!(!observer.is_dirty(&value));
    }
    set(&mut value, 1);
    assert!(observer.is_dirty(&value));
    assert_eq!(observer.poll_next(&mut value, &waker), Ok(Some(1)));
}

#[test]
fn a_slow_observer_skips_what_was_there_in_between() {
    let mut value = Value::new(0);
    let mut observer = value.observe();
    for k in 1..10 {
        set(&mut value, k);
    }
    assert_eq!(
        observer.next_when_immediately_available(&mut value),
        Ok(Some(9))
    );
    assert_eq!(
        observer.next_when_immediately_available(&mut value),
        Err(())
    );
}

#[test]
fn observations_tell_what_was_found() {
    let mut value = Value::new(1);
    let mut observer = value.observe();
    assert_eq!(
        observer.observe_if_distinct(&mut value),
        Observation::NewValue
    );
    assert_eq!(
        observer.observe_if_distinct(&mut value),
        Observation::Unchanged
    );
    hang_up(&mut value);
    assert_eq!(
        observer.observe_if_distinct(&mut value),
        Observation::Hangup
    );
}

/// A clone has seen what the first had seen, and goes its own way.
#[test]
fn a_clone_is_independent() {
    let mut value = Value::new(1);
    let mut first = value.observe();
    let fresh = first.clone(&mut value);
    assert_eq!(first.current_value(&mut value), Some(1));
    let mut second = first.clone(&mut value);
    assert_eq!((first.id(), fresh.id(), second.id()), (0, 1, 2));
    assert!(fresh.is_dirty(&value));
    assert!(!second.is_dirty(&value));
    set(&mut value, 2);
    assert_eq!(second.current_value(&mut value), Some(2));
    assert!(first.is_dirty(&value));
    assert!(!second.is_dirty(&value));
}

/// What an observer does with what it reads, whatever that is.
#[test]
fn decisions_depend_on_what_was_read() {
    let mut value = Value::new(0);
    let mut observer = value.observe();
    assert!(observer.is_dirty_given(&Some(5)));
    assert!(observer.is_dirty_given(&None));
    assert_eq!(observer.next_given(Some(5)), Ok(Some(5)));
    assert_eq!(observer.next_given(Some(5)), Err(()));
    assert!(!observer.is_dirty_given(&Some(5)));
    assert_eq!(observer.next_given(None), Ok(None));
    assert_eq!(observer.next_given(Some(5)), Err(()));
    assert_eq!(observer.current_given(Some(6)), Some(6));
    assert_eq!(observer.current_given(None), None);
    assert_eq!(observer.next_given(Some(6)), Err(()));
    assert_eq!(observer.next_given(Some(5)), Ok(Some(5)));
}

/// Only the waker that was left last is woken.
#[test]
fn a_new_waker_takes_the_place_of_the_old() {
    let (old_wakes, old_waker) = counting_waker();
    let (new_wakes, new_waker) = counting_waker();
    let mut value = Value::new(0);
    let mut observer = value.observe();
    assert_eq!(observer.poll_next(&mut value, &old_waker), Ok(Some(0)));
    assert_eq!(observer.poll_next(&mut value, &new_waker), Err(()));
    set(&mut value, 1);
    assert_eq!(old_wakes.0.load(Ordering::Relaxed), 0);
    assert_eq!(new_wakes.0.load(Ordering::Relaxed), 1);
}

/// An observer that goes away wakes those whose registrations it had to move,
/// and nobody forgets them.
#[test]
fn leaving_wakes_those_in_the_way() {
    let mut value = Value::new(0);
    let mut wakes = Vec::new();
    let mut observers = Vec::new();
    for _ in 0..4 {
        let (count, waker) = counting_waker();
        let mut observer = value.observe();
        assert_eq!(observer.poll_next(&mut value, &waker), Ok(Some(0)));
        wakes.push(count);
        observers.push(observer);
    }
    let counts = |wakes: &Vec<Arc<WakeCount>>| -> Vec<usize> {
        wakes.iter().map(|w| w.0.load(Ordering::Relaxed)).collect()
    };

    close(observers.remove(1), &mut value);
    assert_eq!(counts(&wakes), [0, 0, 1, 1]);

    // Those who were woken have yet to leave a waker again.
    set(&mut value, 1);
    assert_eq!(counts(&wakes), [1, 0, 1, 1]);

    let (again, waker) = counting_waker();
    assert_eq!(observers[2].poll_next(&mut value, &waker), Ok(Some(1)));
    set(&mut value, 2);
    assert_eq!(again.0.load(Ordering::Relaxed), 1);
}

#[test]
fn closing_hands_out_the_wakers_topmost_first() {
    let mut value = Value::new(0);
    let first = value.observe();
    let wakes: Vec<_> = (0..3)
        .map(|_| {
            let (count, waker) = counting_waker();
            let mut observer = value.observe();
            assert_eq!(observer.poll_next(&mut value, &waker), Ok(Some(0)));
            count
        })
        .collect();
    let woken = first.close(&mut value);
    assert_eq!(woken.len(), 3);
    for (k, waker) in woken.into_iter().enumerate() {
        waker.wake();
        assert_eq!(wakes[2 - k].0.load(Ordering::Relaxed), 1);
    }
}

fn sweep_to_the_end(value: &Mutex<Value<u32>>, mut sweep: Sweep) {
    while sweep.phase() != SweepPhase::Done {
        value.lock().unwrap().step_sweep(&mut sweep);
    }
    for waker in sweep.into_woken() {
        waker.wake();
    }
}

fn shared_change(value: &Mutex<Value<u32>>, next: Option<u32>) -> Option<u32> {
    let withdrawn = next.is_none();
    let mut writer = FlipWriter::new(next);
    while writer.phase() != WriterPhase::Done {
        value.lock().unwrap().step_writer(&mut writer);
    }
    let (old, sweep) = if withdrawn {
        value.lock().unwrap().finish_withdrawal(writer)
    } else {
        value.lock().unwrap().finish_change(writer)
    };
    sweep_to_the_end(value, sweep);
    old
}

fn shared_poll(
    observer: &mut Observer<u32>,
    value: &Mutex<Value<u32>>,
    waker: &Waker,
) -> Result<Option<u32>, ()> {
    let mut look = Look::poll(observer.id(), waker);
    while look.phase() != LookPhase::Done {
        look.step(&mut value.lock().unwrap());
    }
    observer.next_given(look.into_copy().unwrap())
}

/// One thread sets, others observe and are woken, and yet others come and go.
/// Nobody misses the last value, or the end.
#[test]
fn no_wakeup_is_lost_between_threads() {
    let value = Arc::new(Mutex::new(Value::new(0u32)));
    let observers: Vec<_> = (0..4)
        .map(|_| {
            let value = Arc::clone(&value);
            let mut observer = value.lock().unwrap().observe();
            wasm_lite_std::spawn(move || {
                let (wakes, waker) = counting_waker();
                let mut last = None;
                loop {
                    let before = wakes.0.load(Ordering::Acquire);
                    match shared_poll(&mut observer, &value, &waker) {
                        Ok(Some(next)) => {
                            assert!(last.is_none_or(|last| last < next));
                            last = Some(next);
                        }
                        Ok(None) => return last,
                        Err(()) => {
                            while wakes.0.load(Ordering::Acquire) == before {
                                std::hint::spin_loop();
                            }
                        }
                    }
                }
            })
        })
        .collect();
    let comers: Vec<_> = (0..2)
        .map(|_| {
            let value = Arc::clone(&value);
            wasm_lite_std::spawn(move || {
                for _ in 0..200 {
                    let observer = value.lock().unwrap().observe();
                    let sweep = value.lock().unwrap().begin_departure(observer.id());
                    sweep_to_the_end(&value, sweep);
                }
            })
        })
        .collect();
    for k in 1..=500 {
        assert_eq!(shared_change(&value, Some(k)), Some(k - 1));
    }
    for comer in comers {
        comer.join().unwrap();
    }
    assert_eq!(shared_change(&value, None), Some(500));
    for observer in observers {
        assert!(observer.join().unwrap().is_some());
    }
}
