use std::sync::atomic::{AtomicUsize, Ordering};
use std::sync::Arc;
use std::task::{Wake, Waker};

use await_values::flip_card::{FlipWriter, ReaderPhase, WriterPhase};
use await_values::look::{Look, LookPhase};
use await_values::registry::Event;
use await_values::value::Value;

#[derive(Default)]
struct WakeCount(AtomicUsize);

impl Wake for WakeCount {
    fn wake(self: Arc<Self>) {
        self.0.fetch_add(1, Ordering::Relaxed);
    }
}

fn counting_waker() -> (Arc<WakeCount>, Waker) {
    let wakes = Arc::new(WakeCount::default());
    let waker = Waker::from(Arc::clone(&wakes));
    (wakes, waker)
}

/// Takes steps until the look is in `phase`.
fn until<T: Clone>(look: &mut Look<T>, value: &mut Value<T>, phase: LookPhase) {
    while look.phase() != phase {
        assert!(look.step(value).is_none());
    }
}

/// A poll leaves its waker, reads, and then says that the observer has caught
/// up.
#[test]
fn a_poll_registers_reads_and_notes() {
    let (wakes, waker) = counting_waker();
    let mut value = Value::registered(7, 1);
    let observer = value.observe();
    value.take_events();

    let mut look = Look::poll(observer.id(), &waker);
    assert_eq!(look.phase(), LookPhase::Register);
    assert!(look.step(&mut value).is_none());
    assert_eq!(look.phase(), LookPhase::Read);
    assert_eq!(look.reader_phase(), ReaderPhase::Look);
    assert!(look.copied().is_none());

    until(&mut look, &mut value, LookPhase::Note);
    assert_eq!(look.copied(), Some(&Some(7)));
    assert_eq!(value.take_events(), (Some(1), vec![]));
    look.step(&mut value);
    assert_eq!(look.phase(), LookPhase::Done);
    assert_eq!(value.take_events(), (Some(1), vec![Event::Observed]));

    look.step(&mut value);
    assert_eq!(look.phase(), LookPhase::Done);
    assert_eq!(value.take_events(), (Some(1), vec![]));
    assert_eq!(look.into_copy(), Some(Some(7)));

    let (_, woken) = value.set(8);
    assert_eq!(woken.len(), 1);
    woken.into_iter().for_each(Waker::wake);
    assert_eq!(wakes.0.load(Ordering::Relaxed), 1);
}

/// A change between the first step and the reading is told and read; one after
/// the reading is told.
#[test]
fn a_change_during_a_poll_is_told() {
    for steps in 1..6 {
        let (wakes, waker) = counting_waker();
        let mut value = Value::new(0);
        let observer = value.observe();
        let mut look = Look::poll(observer.id(), &waker);
        for _ in 0..steps {
            look.step(&mut value);
        }

        let mut writer = FlipWriter::new(Some(1));
        while writer.phase() != WriterPhase::Done {
            value.step_writer(&mut writer);
            if look.phase() != LookPhase::Done {
                look.step(&mut value);
            }
        }
        let (old, mut sweep) = value.finish_change(writer);
        assert_eq!(old, Some(0));
        while sweep.phase() != await_values::registrations::SweepPhase::Done {
            value.step_sweep(&mut sweep);
        }
        sweep.into_woken().into_iter().for_each(Waker::wake);
        assert_eq!(wakes.0.load(Ordering::Relaxed), 1);

        until(&mut look, &mut value, LookPhase::Done);
        assert!(look.into_copy().unwrap().is_some());
    }
}

/// The waker of an earlier poll is handed back.
#[test]
fn a_poll_hands_back_the_waker_that_it_replaces() {
    let (old_wakes, old_waker) = counting_waker();
    let (new_wakes, new_waker) = counting_waker();
    let mut value = Value::new(0);
    let observer = value.observe();
    let mut first = Look::poll(observer.id(), &old_waker);
    until(&mut first, &mut value, LookPhase::Done);

    let mut second = Look::poll(observer.id(), &new_waker);
    second.step(&mut value).unwrap().wake();
    assert_eq!(old_wakes.0.load(Ordering::Relaxed), 1);
    until(&mut second, &mut value, LookPhase::Done);
    assert_eq!(new_wakes.0.load(Ordering::Relaxed), 0);
}

/// Only an observer's look is noted.
#[test]
fn a_peek_leaves_nothing_behind() {
    let mut value = Value::registered("a", 3);
    let mut peek = Look::peek();
    until(&mut peek, &mut value, LookPhase::Done);
    assert_eq!(peek.into_copy(), Some(Some("a")));
    assert_eq!(value.take_events(), (Some(3), vec![]));

    let mut look = Look::observe();
    until(&mut look, &mut value, LookPhase::Done);
    assert_eq!(look.into_copy(), Some(Some("a")));
    assert_eq!(value.take_events(), (Some(3), vec![Event::Observed]));
}

#[test]
fn a_look_at_a_value_that_has_hung_up_finds_nothing() {
    let mut value = Value::new(1);
    drop(value.hang_up());
    let mut look = Look::peek();
    until(&mut look, &mut value, LookPhase::Done);
    assert_eq!(look.into_copy(), Some(None));
}

/// A look that is given up in the middle of a copy leaves the slot, and is in
/// nobody's way.
#[test]
fn a_look_that_is_given_up_leaves_the_slot() {
    let mut value = Value::new(1);
    let mut look = Look::peek();
    while !matches!(look.reader_phase(), ReaderPhase::Copy(_)) {
        look.step(&mut value);
    }
    look.abandon();
    assert!(matches!(look.reader_phase(), ReaderPhase::Leave(_)));
    look.step(&mut value);
    assert_eq!(look.phase(), LookPhase::Read);
    assert!(look.copied().is_none());
    assert_eq!(value.set(2).0, 1);
    assert_eq!(value.set(3).0, 2);
}
