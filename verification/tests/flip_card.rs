use std::sync::atomic::{AtomicBool, AtomicUsize, Ordering};
use std::sync::{Arc, Mutex};

use await_values::flip_card::{
    FlipCard, FlipReader, FlipWriter, ReaderPhase, Slot, WriterPhase, READ,
};

const THREADS: usize = 10;

/// Lets nobody through until all have arrived.
struct StartGate {
    arrived: AtomicUsize,
    parties: usize,
}

impl StartGate {
    fn new(parties: usize) -> Self {
        StartGate {
            arrived: AtomicUsize::new(0),
            parties,
        }
    }

    fn wait(&self) {
        self.arrived.fetch_add(1, Ordering::AcqRel);
        while self.arrived.load(Ordering::Acquire) < self.parties {
            std::hint::spin_loop();
        }
    }
}

/// Reads the way one does who shares the card: step by step, and somebody else
/// may step in between.
fn shared_read<T: Clone>(card: &Mutex<FlipCard<T>>) -> T {
    let mut reader = FlipReader::new();
    while reader.phase() != ReaderPhase::Done {
        reader.step(&mut card.lock().unwrap());
    }
    reader.into_copy().unwrap()
}

/// Writes the way one does who shares the card.
fn shared_flip_to<T>(card: &Mutex<FlipCard<T>>, data: T) -> T {
    let mut writer = FlipWriter::new(data);
    while writer.phase() != WriterPhase::Done {
        writer.step(&mut card.lock().unwrap());
    }
    writer.into_previous().unwrap()
}

/// A small generator of numbers that look random.
struct Dice(u64);

impl Dice {
    fn roll(&mut self, sides: usize) -> usize {
        self.0 ^= self.0 << 13;
        self.0 ^= self.0 >> 7;
        self.0 ^= self.0 << 17;
        (self.0 % sides as u64) as usize
    }
}

#[test]
fn test_basic_operations() {
    let mut card = FlipCard::new(42);
    assert_eq!(card.read(), 42);

    let old = card.flip_to(100);
    assert_eq!(old, 42);
    assert_eq!(card.read(), 100);
}

/// Reaching the representable reader limit is transient contention, and must
/// not turn safe reads into a panic.
#[test]
fn saturated_reader_count_backs_off() {
    let mut slot = Slot::new(42);
    for _ in 0..READ {
        assert!(slot.begin_read());
    }
    assert_eq!(slot.try_read(), None);
    assert!(!slot.begin_read());
    slot.end_read();
    assert_eq!(slot.try_read(), Some(42));
}

#[test]
fn test_different_types() {
    let mut card = FlipCard::new(String::from("hello"));
    assert_eq!(card.read(), "hello");
    card.flip_to(String::from("world"));
    assert_eq!(card.read(), "world");

    let mut card = FlipCard::new(vec![1, 2, 3]);
    assert_eq!(card.read(), vec![1, 2, 3]);
    let old = card.flip_to(vec![4, 5, 6]);
    assert_eq!(old, vec![1, 2, 3]);
    assert_eq!(card.read(), vec![4, 5, 6]);
}

#[test]
fn test_concurrent_reads() {
    let card = Arc::new(Mutex::new(FlipCard::new(42)));
    let gate = Arc::new(StartGate::new(THREADS));
    let handles: Vec<_> = (0..THREADS)
        .map(|_| {
            let (card, gate) = (Arc::clone(&card), Arc::clone(&gate));
            wasm_lite_std::spawn(move || {
                gate.wait();
                shared_read(&card)
            })
        })
        .collect();
    for handle in handles {
        assert_eq!(handle.join().unwrap(), 42);
    }
}

#[test]
fn test_concurrent_read_write() {
    let card = Arc::new(Mutex::new(FlipCard::new(0)));
    let gate = Arc::new(StartGate::new(THREADS + 1));
    let writer = {
        let (card, gate) = (Arc::clone(&card), Arc::clone(&gate));
        wasm_lite_std::spawn(move || {
            gate.wait();
            for i in 1..=100 {
                shared_flip_to(&card, i);
            }
        })
    };
    let readers: Vec<_> = (0..THREADS)
        .map(|_| {
            let (card, gate) = (Arc::clone(&card), Arc::clone(&gate));
            wasm_lite_std::spawn(move || {
                gate.wait();
                let mut values = Vec::new();
                for _ in 0..10 {
                    values.push(shared_read(&card));
                }
                values
            })
        })
        .collect();

    writer.join().unwrap();
    for handle in readers {
        let values = handle.join().unwrap();
        for window in values.windows(2) {
            assert!(
                window[0] <= window[1],
                "Values should be monotonic: {:?}",
                values
            );
        }
    }
    assert_eq!(card.lock().unwrap().read(), 100);
}

#[test]
fn test_clone() {
    let mut card1 = FlipCard::new(42);
    let mut card2 = card1.clone();
    assert_eq!(card1.read(), 42);
    assert_eq!(card2.read(), 42);

    card1.flip_to(100);
    assert_eq!(card1.read(), 100);
    assert_eq!(card2.read(), 42);

    card2.flip_to(200);
    assert_eq!(card1.read(), 100);
    assert_eq!(card2.read(), 200);
}

#[test]
fn test_from() {
    let card: FlipCard<i32> = 42.into();
    assert_eq!(card.read(), 42);

    let card = FlipCard::from("hello");
    assert_eq!(card.read(), "hello");
}

#[test]
fn a_default_card_holds_the_default_value() {
    let card: FlipCard<u8> = FlipCard::default();
    assert_eq!(card.read(), 0);
}

#[test]
fn test_sequential_writes() {
    let mut card = FlipCard::new(0);
    for i in 1..=1000 {
        let old = card.flip_to(i);
        assert_eq!(old, i - 1);
    }
    assert_eq!(card.read(), 1000);
}

#[derive(Clone, Debug, PartialEq)]
struct Config {
    name: String,
    value: i32,
}

#[test]
fn test_custom_type() {
    let mut card = FlipCard::new(Config {
        name: "initial".to_string(),
        value: 0,
    });
    let config = card.read();
    assert_eq!(config.name, "initial");
    assert_eq!(config.value, 0);

    let old = card.flip_to(Config {
        name: "updated".to_string(),
        value: 42,
    });
    assert_eq!(old.name, "initial");
    assert_eq!(old.value, 0);

    let new = card.read();
    assert_eq!(new.name, "updated");
    assert_eq!(new.value, 42);
}

/// Concurrent writers lose no value, and none is handed out twice.
#[test]
fn test_concurrent_writers() {
    let card = Arc::new(Mutex::new(FlipCard::new(0u64)));
    let gate = Arc::new(StartGate::new(4));
    let writers: Vec<_> = (0..4)
        .map(|t| {
            let (card, gate) = (Arc::clone(&card), Arc::clone(&gate));
            wasm_lite_std::spawn(move || {
                gate.wait();
                let mut returned = Vec::new();
                for i in 0..100_000 {
                    returned.push(shared_flip_to(&card, t * 1_000_000 + i));
                }
                returned
            })
        })
        .collect();
    let mut accounted = Vec::new();
    for writer in writers {
        accounted.extend(writer.join().unwrap());
    }
    accounted.push(card.lock().unwrap().read());
    accounted.sort();

    // The card held a zero to begin with, and another was written.
    let mut expected = vec![0u64];
    expected.extend((0..4).flat_map(|t| (0..100_000).map(move |i| t * 1_000_000 + i)));
    assert_eq!(accounted, expected);
}

/// A value whose `Clone` panics on demand.
#[derive(Debug)]
struct Fussy {
    number: u32,
    boom: Arc<AtomicBool>,
}

impl Clone for Fussy {
    fn clone(&self) -> Self {
        if self.boom.load(Ordering::Relaxed) {
            panic!("clone failed");
        }
        Fussy {
            number: self.number,
            boom: Arc::clone(&self.boom),
        }
    }
}

/// The card, though somebody panicked while holding it.
fn recovered<T>(card: &Mutex<FlipCard<T>>) -> std::sync::MutexGuard<'_, FlipCard<T>> {
    card.lock().unwrap_or_else(|poisoned| poisoned.into_inner())
}

/// A `T::clone` that unwinds out of `read` must not leak the read lock.
#[test]
fn panicking_clone_does_not_leak_read_lock() {
    let boom = Arc::new(AtomicBool::new(false));
    let fussy = |number| Fussy {
        number,
        boom: Arc::clone(&boom),
    };
    let card = Arc::new(Mutex::new(FlipCard::new(fussy(1))));
    assert_eq!(card.lock().unwrap().read().number, 1);

    boom.store(true, Ordering::Relaxed);
    let reader = Arc::clone(&card);
    let result = wasm_lite_std::spawn(move || {
        reader.lock().unwrap().read();
    })
    .join();
    assert!(result.is_err(), "expected the clone to panic");
    boom.store(false, Ordering::Relaxed);

    let old = recovered(&card).flip_to(fussy(2));
    assert_eq!(old.number, 1);
    assert_eq!(recovered(&card).read().number, 2);
}

/// A reader that shares the card and whose clone panics can still leave.
#[test]
fn a_reader_that_gives_up_leaves_the_slot() {
    let boom = Arc::new(AtomicBool::new(true));
    let card = Arc::new(Mutex::new(FlipCard::new(Fussy {
        number: 1,
        boom: Arc::clone(&boom),
    })));
    let reader = Arc::new(Mutex::new(FlipReader::new()));
    for _ in 0..3 {
        reader.lock().unwrap().step(&mut card.lock().unwrap());
    }
    assert_eq!(reader.lock().unwrap().phase(), ReaderPhase::Copy(true));

    let (their_card, their_reader) = (Arc::clone(&card), Arc::clone(&reader));
    let result = wasm_lite_std::spawn(move || {
        their_reader
            .lock()
            .unwrap()
            .step(&mut their_card.lock().unwrap());
    })
    .join();
    assert!(result.is_err());

    let mut reader = reader.lock().unwrap_or_else(|poisoned| poisoned.into_inner());
    reader.abandon();
    assert_eq!(reader.phase(), ReaderPhase::Leave(true));
    reader.step(&mut recovered(&card));
    assert_eq!(reader.phase(), ReaderPhase::Look);
    assert!(reader.copied().is_none());

    boom.store(false, Ordering::Relaxed);
    let next = Fussy { number: 2, boom };
    assert_eq!(recovered(&card).flip_to(next).number, 1);
}

#[test]
fn reproduce_panic() {
    let card = Arc::new(Mutex::new(FlipCard::new(0)));
    let card_clone = card.clone();
    let writer = wasm_lite_std::spawn(move || {
        for i in 1..1000000 {
            shared_flip_to(&card_clone, i);
        }
    });
    let reader = wasm_lite_std::spawn(move || {
        for _ in 0..1000000 {
            let _ = shared_read(&card);
        }
    });
    writer.join().unwrap();
    reader.join().unwrap();
}

#[test]
fn a_slot_admits_many_readers_or_one_writer() {
    let mut slot = Slot::new(Some(1));
    assert!(slot.begin_read());
    assert!(slot.begin_read());
    assert_eq!(*slot.data(), Some(1));
    assert!(!slot.begin_write());
    assert_eq!(slot.try_write(Some(2)), Err(Some(2)));
    assert_eq!(slot.try_read(), Some(Some(1)));
    slot.end_read();
    slot.end_read();

    assert!(slot.begin_write());
    assert!(!slot.begin_read());
    assert!(!slot.begin_write());
    assert_eq!(slot.try_read(), None);
    assert_eq!(slot.replace(Some(3)), Some(1));
    slot.end_write();

    assert_eq!(slot.try_write(Some(4)), Ok(Some(3)));
    assert_eq!(slot.take(), Some(4));
    assert_eq!(slot.take(), None);
    assert_eq!(slot.try_read(), Some(None));
}

#[test]
fn an_undisturbed_reader_takes_five_steps() {
    let mut card = FlipCard::new(7);
    let mut reader = FlipReader::new();
    let expected = [
        ReaderPhase::Enter(true),
        ReaderPhase::Check(true),
        ReaderPhase::Copy(true),
        ReaderPhase::Leave(true),
        ReaderPhase::Done,
    ];
    for phase in expected {
        reader.step(&mut card);
        assert_eq!(reader.phase(), phase);
    }
    assert_eq!(reader.copied(), Some(&7));
    assert_eq!(reader.into_copy(), Some(7));
}

#[test]
fn an_undisturbed_writer_takes_ten_steps() {
    let mut card = FlipCard::new(7);
    let mut writer = FlipWriter::new(8);
    let expected = [
        WriterPhase::Choose,
        WriterPhase::Enter(false),
        WriterPhase::Fill(false),
        WriterPhase::Seal(false),
        WriterPhase::Publish(false),
        WriterPhase::Reenter(true),
        WriterPhase::Empty(true),
        WriterPhase::Release(true),
        WriterPhase::Unlock,
        WriterPhase::Done,
    ];
    for (k, phase) in expected.into_iter().enumerate() {
        assert_eq!(card.read(), if k < 6 { 7 } else { 8 });
        writer.step(&mut card);
        assert_eq!(writer.phase(), phase);
    }
    assert_eq!(writer.into_previous(), Some(7));
}

/// A reader that looked before a flip and enters after it must not see the slot
/// that is being prepared for the next value.
#[test]
fn a_late_reader_does_not_see_an_unpublished_value() {
    let mut card = FlipCard::new(0);
    let mut late = FlipReader::new();
    late.step(&mut card);
    assert_eq!(late.phase(), ReaderPhase::Enter(true));

    card.flip_to(1);
    let mut writer = FlipWriter::new(2);
    while writer.phase() != WriterPhase::Publish(true) {
        writer.step(&mut card);
    }

    late.step(&mut card);
    assert_eq!(late.phase(), ReaderPhase::Check(true));
    late.step(&mut card);
    assert_eq!(late.phase(), ReaderPhase::Leave(true));
    late.step(&mut card);
    assert_eq!(late.phase(), ReaderPhase::Look);
    while late.phase() != ReaderPhase::Done {
        late.step(&mut card);
    }
    assert_eq!(late.into_copy(), Some(1));
}

/// A writer waits until the last reader has left the slot that it empties.
#[test]
fn a_writer_waits_for_readers_of_the_old_value() {
    let mut card = FlipCard::new(1);
    let mut reader = FlipReader::new();
    reader.step(&mut card);
    reader.step(&mut card);

    let mut writer = FlipWriter::new(2);
    for _ in 0..100 {
        writer.step(&mut card);
    }
    assert_eq!(writer.phase(), WriterPhase::Reenter(true));
    assert_eq!(card.read(), 2);

    while reader.phase() != ReaderPhase::Look {
        reader.step(&mut card);
    }
    for _ in 0..4 {
        writer.step(&mut card);
    }
    assert_eq!(writer.phase(), WriterPhase::Done);
    assert_eq!(writer.into_previous(), Some(1));
}

/// Many readers and writers, scheduled at random: values come out in the order
/// in which they went in, each is handed back once, and the card ends settled.
#[test]
fn random_schedules_are_safe() {
    for seed in 1..40u64 {
        let mut dice = Dice(seed * 0x9e37_79b9_7f4a_7c15);
        let mut card = FlipCard::new(0u32);
        let mut next = 1u32;
        let mut writers: Vec<FlipWriter<u32>> = Vec::new();
        let mut readers: Vec<FlipReader<u32>> = (0..5).map(|_| FlipReader::new()).collect();
        let mut published = vec![0u32];
        let mut seen = [0usize; 5];
        let mut returned = Vec::new();
        for _ in 0..20 {
            writers.push(FlipWriter::new(next));
            next += 1;
        }
        while !writers.is_empty() {
            if dice.roll(2) == 0 {
                let w = dice.roll(writers.len());
                let before = writers[w].phase();
                writers[w].step(&mut card);
                if let WriterPhase::Publish(_) = before {
                    published.push(card.read());
                }
                if writers[w].phase() == WriterPhase::Done {
                    returned.push(writers.remove(w).into_previous().unwrap());
                }
            } else {
                let r = dice.roll(readers.len());
                readers[r].step(&mut card);
                if readers[r].phase() == ReaderPhase::Done {
                    let reader = std::mem::replace(&mut readers[r], FlipReader::new());
                    let value = reader.into_copy().unwrap();
                    let place = published.iter().position(|p| *p == value).unwrap();
                    assert!(place >= seen[r], "reads are monotonic");
                    seen[r] = place;
                }
            }
        }
        assert_eq!(returned, published[..20].to_vec());
        assert_eq!(card.read(), published[20]);
    }
}
