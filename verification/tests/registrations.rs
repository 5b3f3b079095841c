use std::sync::atomic::{AtomicUsize, Ordering};
use std::sync::Arc;
use std::task::{Wake, Waker};

use await_values::registrations::{Registrations, Sweep, SweepPhase};

#[derive(Default)]
struct WakeCount(AtomicUsize);

impl Wake for WakeCount {
    fn wake(self: Arc<Self>) {
        self.0.fetch_add(1, Ordering::Relaxed);
    }
}

/// A waker that appends its number to a list.
struct Named(usize, Arc<std::sync::Mutex<Vec<usize>>>);

impl Wake for Named {
    fn wake(self: Arc<Self>) {
        self.1.lock().unwrap().push(self.0);
    }
}

fn wake_and_list(wakers: Vec<Waker>, woken: &Arc<std::sync::Mutex<Vec<usize>>>) -> Vec<usize> {
    for waker in wakers {
        waker.wake();
    }
    std::mem::take(&mut *woken.lock().unwrap())
}

#[test]
fn ids_are_given_out_in_order() {
    let mut regs = Registrations::new();
    for id in 0..5 {
        assert!(!regs.is_live(id));
        assert_eq!(regs.enroll(), id);
        assert!(regs.is_live(id));
    }
    regs.remove(2);
    assert!(!regs.is_live(2));
    assert_eq!(regs.enroll(), 5);
}

/// Each notice turns the stack over, and reaches everybody.
#[test]
fn notices_reach_everybody_in_turn() {
    let woken = Arc::default();
    let mut regs = Registrations::new();
    let ids: Vec<u64> = (0..4).map(|_| regs.enroll()).collect();
    let leave_all = |regs: &mut Registrations| {
        for id in &ids {
            if regs.is_live(*id) {
                let waker = Waker::from(Arc::new(Named(*id as usize, Arc::clone(&woken))));
                regs.register(*id, &waker);
            }
        }
    };

    leave_all(&mut regs);
    assert_eq!(wake_and_list(regs.notify(), &woken), [3, 2, 1, 0]);
    // Nobody has left a waker since.
    assert!(regs.notify().is_empty());
    leave_all(&mut regs);
    assert_eq!(wake_and_list(regs.notify(), &woken), [3, 2, 1, 0]);
    leave_all(&mut regs);
    assert_eq!(wake_and_list(regs.notify(), &woken), [0, 1, 2, 3]);

    // The stack now holds 3, 2, 1, 0, with 0 at the bottom turned to the top.
    leave_all(&mut regs);
    assert_eq!(wake_and_list(regs.remove(1), &woken), [3, 2]);
    leave_all(&mut regs);
    assert_eq!(wake_and_list(regs.notify(), &woken), [2, 3, 0]);
}

/// A sweep that finds a registration whose observer has gone drops it; one that
/// runs at the same time as another puts back what it holds.
#[test]
fn sweeps_can_overlap() {
    let mut regs = Registrations::new();
    let wakes = Arc::new(WakeCount::default());
    let waker = Waker::from(Arc::clone(&wakes));
    let first = regs.enroll();
    let second = regs.enroll();
    regs.register(first, &waker);

    // A notice takes everything off the stack, and is interrupted.
    let mut notice = Sweep::all();
    notice.step(&mut regs);
    assert_eq!(notice.phase(), SweepPhase::Restore);

    // The second observer goes away meanwhile, and does not find itself.
    assert!(regs.remove(second).is_empty());
    assert!(!regs.is_live(second));

    // A second notice finds nobody; but the first one still tells the first
    // observer.
    assert!(regs.notify().is_empty());
    while notice.phase() != SweepPhase::Done {
        notice.step(&mut regs);
    }
    let woken = notice.into_woken();
    assert_eq!(woken.len(), 1);
    for waker in woken {
        waker.wake();
    }
    assert_eq!(wakes.0.load(Ordering::Relaxed), 1);

    // And it has put the first observer back.
    regs.register(first, &waker);
    assert_eq!(regs.notify().len(), 1);
}

#[test]
fn a_sweep_down_to_an_observer_stops_there() {
    let mut regs = Registrations::new();
    let ids: Vec<u64> = (0..3).map(|_| regs.enroll()).collect();
    let mut sweep = Sweep::down_to(ids[1]);
    let mut phases = Vec::new();
    while sweep.phase() != SweepPhase::Done {
        phases.push(sweep.phase());
        sweep.step(&mut regs);
    }
    assert_eq!(
        phases,
        [
            // The one on top is taken off, and then its own.
            SweepPhase::Gather,
            SweepPhase::Gather,
            SweepPhase::Restore,
            SweepPhase::Restore,
            SweepPhase::Collect,
            SweepPhase::Collect,
            SweepPhase::Forget,
        ]
    );
    assert!(sweep.into_woken().is_empty());
    assert!(regs.is_live(ids[0]) && !regs.is_live(ids[1]) && regs.is_live(ids[2]));
}

#[test]
fn a_replaced_waker_is_handed_back() {
    let first = Arc::new(WakeCount::default());
    let second = Arc::new(WakeCount::default());
    let mut regs = Registrations::new();
    assert!(regs.can_enroll());
    let id = regs.enroll();
    assert!(regs
        .register(id, &Waker::from(Arc::clone(&first)))
        .is_none());
    let replaced = regs.register(id, &Waker::from(Arc::clone(&second)));
    replaced.unwrap().wake();
    assert_eq!(first.0.load(Ordering::Relaxed), 1);
    for waker in regs.notify() {
        waker.wake();
    }
    assert_eq!(first.0.load(Ordering::Relaxed), 1);
    assert_eq!(second.0.load(Ordering::Relaxed), 1);
}
