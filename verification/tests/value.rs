use std::sync::atomic::{AtomicBool, AtomicUsize, Ordering};
use std::sync::{Arc, Mutex};
use std::task::{Wake, Waker};

use await_values::observer::Observer;
use await_values::registry::Event;
use await_values::value::Value;

#[derive(Debug)]
struct DropBomb {
    value: u8,
    bomb: bool,
    armed: Arc<AtomicBool>,
}

impl Clone for DropBomb {
    fn clone(&self) -> Self {
        Self {
            value: self.value,
            // Only the instance that the caller made explodes.
            bomb: false,
            armed: Arc::clone(&self.armed),
        }
    }
}

impl PartialEq for DropBomb {
    fn eq(&self, other: &Self) -> bool {
        self.value == other.value
    }
}

impl Drop for DropBomb {
    fn drop(&mut self) {
        if self.bomb && self.armed.load(Ordering::Relaxed) {
            panic!("set dropped its owned input");
        }
    }
}

#[derive(Default)]
struct WakeCount(AtomicUsize);

impl Wake for WakeCount {
    fn wake(self: Arc<Self>) {
        self.0.fetch_add(1, Ordering::Relaxed);
    }

    fn wake_by_ref(self: &Arc<Self>) {
        self.0.fetch_add(1, Ordering::Relaxed);
    }
}

/// Sets a value and wakes whoever waits, as one does who has it to oneself.
fn set<T: Clone>(value: &mut Value<T>, next: T) -> T {
    let (old, woken) = value.set(next);
    for waker in woken {
        waker.wake();
    }
    old
}

/// Lets a value hang up and wakes whoever waits; the payload is dropped last.
fn hang_up<T: Clone>(value: &mut Value<T>) {
    let (_payload, woken) = value.hang_up();
    for waker in woken {
        waker.wake();
    }
}

/// Takes an observer away and wakes those who were in its way.
fn close<T: Clone>(observer: Observer<T>, value: &mut Value<T>) {
    for waker in observer.close(value) {
        waker.wake();
    }
}

#[test]
fn test_value() {
    let mut value = Value::new(42);
    assert_eq!(value.get(), 42);

    let old_value = set(&mut value, 100);
    assert_eq!(old_value, 42);
    assert_eq!(value.get(), 100);
}

/// `set` owns its argument. Moving it into storage avoids a panicking
/// destructor between the visible state change and observer notification.
#[test]
fn set_moves_its_input_before_notifying() {
    let armed = Arc::new(AtomicBool::new(true));
    let mut value = Value::new(DropBomb {
        value: 0,
        bomb: false,
        armed: Arc::clone(&armed),
    });
    let mut observer = value.observe();

    let wakes = Arc::new(WakeCount::default());
    let waker = Waker::from(Arc::clone(&wakes));
    assert!(matches!(
        observer.poll_next(&mut value, &waker),
        Ok(Some(_))
    ));
    assert!(matches!(observer.poll_next(&mut value, &waker), Err(())));

    let old = set(&mut value, DropBomb {
        value: 1,
        bomb: true,
        armed: Arc::clone(&armed),
    });

    armed.store(false, Ordering::Relaxed);
    assert_eq!(old.value, 0);
    assert_eq!(wakes.0.load(Ordering::Relaxed), 1);
}

/// A hang-up must become observable before the destructor of the stored value
/// can unwind.
#[test]
fn lib_drop_notifies_before_dropping_the_payload() {
    let armed = Arc::new(AtomicBool::new(true));
    let mut value = Value::new(DropBomb {
        value: 0,
        bomb: true,
        armed,
    });
    let mut observer = value.observe();

    let wakes = Arc::new(WakeCount::default());
    let waker = Waker::from(Arc::clone(&wakes));
    assert!(matches!(
        observer.poll_next(&mut value, &waker),
        Ok(Some(_))
    ));
    assert!(matches!(observer.poll_next(&mut value, &waker), Err(())));

    let shared = Arc::new(Mutex::new(value));
    let theirs = Arc::clone(&shared);
    let result = wasm_lite_std::spawn(move || hang_up(&mut theirs.lock().unwrap())).join();
    assert!(result.is_err(), "the payload destructor should still panic");
    assert_eq!(
        wakes.0.load(Ordering::Relaxed),
        1,
        "the pending observer must be notified before payload destruction"
    );
    let mut value = shared
        .lock()
        .unwrap_or_else(|poisoned| poisoned.into_inner());
    assert!(matches!(
        observer.poll_next(&mut value, &waker),
        Ok(None)
    ));
}

struct PanicWake;

impl Wake for PanicWake {
    fn wake(self: Arc<Self>) {
        panic!("waker failed");
    }
}

/// Wakes each of `wakers`, and says whether one of them panicked.
fn wake_each(wakers: Vec<Waker>) -> bool {
    let mut panicked = false;
    for waker in wakers {
        panicked |= wasm_lite_std::spawn(move || waker.wake()).join().is_err();
    }
    panicked
}

/// One executor's broken waker must not make healthy observers disappear
/// from the registration stack before they can be notified.
#[test]
fn panicking_waker_does_not_strand_other_observers() {
    let mut value = Value::new(0);
    let mut healthy = value.observe();
    let mut panicking = value.observe();

    let healthy_wakes = Arc::new(WakeCount::default());
    let healthy_waker = Waker::from(Arc::clone(&healthy_wakes));
    assert_eq!(healthy.poll_next(&mut value, &healthy_waker), Ok(Some(0)));
    assert_eq!(healthy.poll_next(&mut value, &healthy_waker), Err(()));

    // This observer was created last, so its registration is the first one
    // drained from the stack.
    let panic_waker = Waker::from(Arc::new(PanicWake));
    assert_eq!(panicking.poll_next(&mut value, &panic_waker), Ok(Some(0)));
    assert_eq!(panicking.poll_next(&mut value, &panic_waker), Err(()));

    let (old, woken) = value.set(1);
    assert_eq!(old, 0);
    assert!(wake_each(woken), "the waker panic should still propagate");
    assert_eq!(
        healthy_wakes.0.load(Ordering::Relaxed),
        1,
        "later registrations must still be restored and woken"
    );

    // And it is there for the next change.
    assert_eq!(healthy.poll_next(&mut value, &healthy_waker), Ok(Some(1)));
    let (_, woken) = value.set(2);
    assert_eq!(woken.len(), 1);
}

/// Observer cleanup also removes registrations temporarily while finding
/// its own entry, so it needs the same isolation as a change.
#[test]
fn panicking_waker_during_drop_does_not_strand_other_observers() {
    let mut value = Value::new(0);
    let target = value.observe();
    let mut healthy = value.observe();
    let mut panicking = value.observe();

    let healthy_wakes = Arc::new(WakeCount::default());
    let healthy_waker = Waker::from(Arc::clone(&healthy_wakes));
    assert_eq!(healthy.poll_next(&mut value, &healthy_waker), Ok(Some(0)));
    assert_eq!(healthy.poll_next(&mut value, &healthy_waker), Err(()));

    let panic_waker = Waker::from(Arc::new(PanicWake));
    assert_eq!(panicking.poll_next(&mut value, &panic_waker), Ok(Some(0)));
    assert_eq!(panicking.poll_next(&mut value, &panic_waker), Err(()));

    // Dropping the oldest observer moves both newer registrations while it
    // searches the stack for its own entry.
    let woken = target.close(&mut value);
    assert!(wake_each(woken), "the waker panic should still propagate");
    assert_eq!(
        healthy_wakes.0.load(Ordering::Relaxed),
        1,
        "cleanup must restore and wake every displaced registration"
    );
}

/// A waker is handed out although the value is equal to the one before.
#[test]
fn setting_an_equal_value_wakes_all_the_same() {
    let wakes = Arc::new(WakeCount::default());
    let waker = Waker::from(Arc::clone(&wakes));
    let mut value = Value::new(7);
    let mut observer = value.observe();
    assert_eq!(observer.poll_next(&mut value, &waker), Ok(Some(7)));
    assert_eq!(observer.poll_next(&mut value, &waker), Err(()));
    let (old, woken) = value.set(7);
    assert_eq!((old, woken.len()), (7, 1));
    for waker in woken {
        waker.wake();
    }
    assert_eq!(wakes.0.load(Ordering::Relaxed), 1);
    assert_eq!(observer.poll_next(&mut value, &waker), Err(()));
}

#[test]
fn test_value_partialeq() {
    let value1 = Value::new(42);
    let mut value2 = Value::new(42);
    let value3 = Value::new(100);

    assert!(value1.eq(&value2));
    assert!(!value1.eq(&value3));

    set(&mut value2, 100);
    assert!(value2.eq(&value3));
    assert!(!value1.eq(&value2));
}

#[test]
fn a_default_value_holds_the_default() {
    let value: Value<String> = Value::default();
    assert_eq!(value.get(), "");
}

#[test]
fn a_value_can_be_made_from_what_it_holds() {
    let value = Value::from("hello");
    assert_eq!(value.get(), "hello");
}

/// Nobody has to observe for a value to be of use.
#[test]
fn the_last_of_several_values_is_current() {
    let mut value = Value::new(1);
    assert_eq!(set(&mut value, 2), 1);
    assert_eq!(set(&mut value, 3), 2);
    assert_eq!(value.get(), 3);
}

#[test]
fn setting_hands_out_the_wakers_newest_observer_first() {
    let mut value = Value::new(0);
    let wakes: Vec<Arc<WakeCount>> = (0..3).map(|_| Arc::default()).collect();
    let mut observers: Vec<_> = (0..3).map(|_| value.observe()).collect();
    for (observer, wakes) in observers.iter_mut().zip(&wakes) {
        let waker = Waker::from(Arc::clone(wakes));
        assert_eq!(observer.poll_next(&mut value, &waker), Ok(Some(0)));
    }

    let (old, woken) = value.set(1);
    assert_eq!(old, 0);
    assert_eq!(woken.len(), 3);
    for (k, waker) in woken.into_iter().enumerate() {
        assert_eq!(wakes[2 - k].0.load(Ordering::Relaxed), 0);
        waker.wake();
        assert_eq!(wakes[2 - k].0.load(Ordering::Relaxed), 1);
    }

    // A waker that has been handed out is not handed out again.
    let (old, woken) = value.set(2);
    assert_eq!(old, 1);
    assert!(woken.is_empty());
}

#[test]
fn hanging_up_hands_back_the_value_once() {
    let mut value = Value::new(5);
    let (old, woken) = value.hang_up();
    assert_eq!(old, Some(5));
    assert!(woken.is_empty());
    assert_eq!(value.hang_up().0, None);
}

#[test]
fn events_are_noted_for_a_registered_value() {
    let mut value = Value::registered(1, 77);
    assert_eq!(value.take_events(), (Some(77), vec![]));

    let mut observer = value.observe();
    set(&mut value, 2);
    assert_eq!(observer.current_value(&mut value), Some(2));
    let clone = observer.clone(&mut value);
    assert_eq!(
        observer.next_when_immediately_available(&mut value),
        Err(())
    );
    close(clone, &mut value);
    close(observer, &mut value);
    hang_up(&mut value);
    assert_eq!(
        value.take_events(),
        (
            Some(77),
            vec![
                Event::ObserverCreated,
                Event::ValueSet,
                Event::Observed,
                Event::ObserverCreated,
                Event::Observed,
                Event::ObserverDropped,
                Event::ObserverDropped,
                Event::ValueDropped,
            ]
        )
    );
    assert_eq!(value.take_events(), (Some(77), vec![]));
}

#[test]
fn nothing_is_noted_for_a_value_that_no_registry_knows() {
    let mut value = Value::new(1);
    let observer = value.observe();
    set(&mut value, 2);
    close(observer, &mut value);
    assert_eq!(value.take_events(), (None, vec![]));
}

/// Two values that are treated alike note the same, whatever they hold.
#[test]
fn contents_leave_no_trace() {
    let mut number = Value::registered(1, 5);
    let mut text = Value::registered("a", 5);
    let mut numbers = number.observe();
    let mut texts = text.observe();
    set(&mut number, 1);
    set(&mut text, "b");
    assert_eq!(numbers.current_value(&mut number), Some(1));
    assert_eq!(texts.current_value(&mut text), Some("b"));
    set(&mut number, 2);
    set(&mut text, "b");
    assert!(numbers.next_when_immediately_available(&mut number).is_ok());
    assert!(texts.next_when_immediately_available(&mut text).is_err());
    close(numbers, &mut number);
    close(texts, &mut text);
    hang_up(&mut number);
    hang_up(&mut text);
    assert_eq!(number.take_events(), text.take_events());
}
