use std::sync::atomic::{AtomicUsize, Ordering};
use std::sync::Arc;
use std::task::{Wake, Waker};

use await_values::active_observation::observation;

#[derive(Default)]
struct WakeCount(AtomicUsize);

impl Wake for WakeCount {
    fn wake(self: Arc<Self>) {
        self.0.fetch_add(1, Ordering::Relaxed);
    }
}

#[test]
fn the_end_wakes_whoever_waits() {
    let wakes = Arc::new(WakeCount::default());
    let waker = Waker::from(Arc::clone(&wakes));
    let mut active = observation();
    assert!(!active.poll(&waker));
    assert!(!active.poll(&waker));
    assert_eq!(wakes.0.load(Ordering::Relaxed), 0);
    active.close().unwrap().wake();
    assert_eq!(wakes.0.load(Ordering::Relaxed), 1);
    assert!(active.poll(&waker));
    assert!(active.poll(&waker));
}

#[test]
fn the_end_hands_out_the_waker_that_was_left_last() {
    let first = Arc::new(WakeCount::default());
    let second = Arc::new(WakeCount::default());
    let mut active = observation();
    active.poll(&Waker::from(Arc::clone(&first)));
    active.poll(&Waker::from(Arc::clone(&second)));
    active.close().unwrap().wake();
    assert_eq!(first.0.load(Ordering::Relaxed), 0);
    assert_eq!(second.0.load(Ordering::Relaxed), 1);
    assert!(active.close().is_none());
}

#[test]
fn an_end_that_nobody_waits_for_wakes_nobody() {
    let mut active = observation();
    assert!(active.close().is_none());
}
