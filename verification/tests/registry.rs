use await_values::registry::{
    configured_capacity, entries, record, record_created, record_observed,
    record_observer_created, record_observer_dropped, record_set, record_value_dropped, stats,
    Counters, Entry, Event, Registry, RegistryStats, DEFAULT_CAPACITY,
};

fn entry(id: u64, alive: bool) -> Entry {
    Entry {
        id,
        created_at_file: "test",
        created_at_line: 1,
        created: 0,
        generation: 0,
        last_change: None,
        live_observers: 0,
        observed_generation: 0,
        alive,
    }
}

fn ids(registry: &Registry) -> Vec<u64> {
    let list = entries(Some(registry)).unwrap();
    list.iter().map(|entry| entry.id).collect()
}

fn only(registry: &Registry) -> Entry {
    let list = entries(Some(registry)).unwrap();
    assert_eq!(list.len(), 1);
    list[0]
}

/// Overflow forgets a dropped value before a live one: a live one is the
/// whole reason to look.
#[test]
fn overflow_forgets_dropped_before_live() {
    let mut registry = Registry::new(2);
    registry.push(entry(1, true));
    registry.push(entry(2, false));
    assert_eq!(registry.push(entry(3, true)), 1);
    assert_eq!(ids(&registry), vec![1, 3]);
}

#[test]
fn overflow_of_all_live_drops_the_oldest_and_counts_it() {
    let mut registry = Registry::new(2);
    registry.push(entry(1, true));
    registry.push(entry(2, true));
    assert_eq!(registry.push(entry(3, true)), 1);
    assert_eq!(ids(&registry), vec![2, 3]);
}

/// Staleness is the gap between what has been produced and what has been
/// caught up to, and it never goes negative if the counters race.
#[test]
fn staleness_is_the_generation_gap_and_saturates() {
    let mut entry = entry(1, true);
    entry.generation = 5;
    entry.observed_generation = 2;
    assert_eq!(entry.stale_by(), 3);
    entry.observed_generation = 7;
    assert_eq!(entry.stale_by(), 0, "a race must not underflow");
}

/// An observer count that went to zero and back is not negative in between.
#[test]
fn dropping_more_observers_than_exist_saturates() {
    let mut registry = Registry::new(4);
    registry.push(entry(1, true));
    record_observer_dropped(Some(&mut registry), 1);
    assert_eq!(only(&registry).live_observers, 0);
}

#[test]
fn nothing_is_forgotten_while_there_is_room() {
    let mut registry = Registry::new(3);
    for id in 1..=3 {
        assert_eq!(registry.push(entry(id, id != 1)), 0);
    }
    assert_eq!(ids(&registry), vec![1, 2, 3]);
    assert_eq!(registry.push(entry(4, true)), 1);
    assert_eq!(ids(&registry), vec![2, 3, 4]);
}

#[test]
fn the_oldest_of_the_dropped_goes_first() {
    let mut registry = Registry::new(4);
    for (id, alive) in [(1, true), (2, false), (3, false), (4, true)] {
        registry.push(entry(id, alive));
    }
    registry.push(entry(5, true));
    assert_eq!(ids(&registry), vec![1, 3, 4, 5]);
    registry.push(entry(6, true));
    assert_eq!(ids(&registry), vec![1, 4, 5, 6]);
    registry.push(entry(7, true));
    assert_eq!(ids(&registry), vec![4, 5, 6, 7]);
}

#[test]
fn creations_are_counted_and_numbered() {
    let mut counters = Counters::new();
    let mut registry = Registry::new(1);
    assert_eq!(
        record_created(&mut counters, Some(&mut registry), "a.rs", 7, 99),
        1
    );
    let first = only(&registry);
    assert_eq!((first.created_at_file, first.created_at_line), ("a.rs", 7));
    assert_eq!((first.created, first.last_change), (99, None));
    assert_eq!((first.generation, first.observed_generation), (0, 0));
    assert_eq!((first.live_observers, first.alive), (0, true));
    assert_eq!(counters.dropped, 0);

    // The record is full: the first is forgotten.
    assert_eq!(
        record_created(&mut counters, Some(&mut registry), "b.rs", 8, 100),
        2
    );
    assert_eq!(ids(&registry), vec![2]);
    assert_eq!(counters.dropped, 1);

    // The record is in use: the third is never recorded.
    assert_eq!(record_created(&mut counters, None, "c.rs", 9, 101), 3);
    assert_eq!(ids(&registry), vec![2]);
    assert_eq!(
        counters,
        Counters {
            created: 3,
            dropped: 2,
            next_id: 4
        }
    );

    // Every value is accounted for.
    let stats = stats(&counters, Some(&registry), 1024);
    assert_eq!(stats.created, stats.dropped + stats.retained as u64);
}

#[test]
fn what_happens_to_a_value_is_recorded() {
    let mut registry = Registry::new(4);
    registry.push(entry(1, true));
    let before = only(&registry);

    record_observer_created(Some(&mut registry), 1);
    record_observer_created(Some(&mut registry), 1);
    record_observer_dropped(Some(&mut registry), 1);
    assert_eq!(only(&registry).live_observers, 1);

    record_set(Some(&mut registry), 1, 55);
    record_set(Some(&mut registry), 1, 66);
    assert_eq!(only(&registry).generation, 2);
    assert_eq!(only(&registry).last_change, Some(66));
    assert_eq!(only(&registry).stale_by(), 2);

    record_observed(Some(&mut registry), 1);
    assert_eq!(only(&registry).observed_generation, 2);
    assert_eq!(only(&registry).stale_by(), 0);

    record_value_dropped(Some(&mut registry), 1);
    assert!(!only(&registry).alive);
    assert_eq!(only(&registry).created_at_file, before.created_at_file);
}

#[test]
fn events_are_recorded_under_the_id_of_the_value() {
    let mut registry = Registry::new(4);
    registry.push(entry(1, true));
    registry.push(entry(2, true));
    for event in [
        Event::ObserverCreated,
        Event::ValueSet,
        Event::Observed,
        Event::ValueSet,
        Event::ObserverCreated,
        Event::ObserverDropped,
        Event::ValueDropped,
    ] {
        assert!(registry.can_count(2, event));
        record(Some(&mut registry), 2, event, 10);
        // Nobody knows value 9, and a record that is in use stays as it is.
        record(Some(&mut registry), 9, event, 10);
        record(None, 1, event, 10);
    }
    let list = entries(Some(&registry)).unwrap();
    assert_eq!(list.len(), 2);
    assert_eq!((list[0].generation, list[0].live_observers), (0, 0));
    assert!(list[0].alive);
    assert_eq!((list[1].generation, list[1].live_observers), (2, 1));
    assert_eq!((list[1].observed_generation, list[1].stale_by()), (1, 1));
    assert_eq!(list[1].last_change, Some(10));
    assert!(!list[1].alive);
}

#[test]
fn a_full_counter_is_noticed() {
    let mut registry = Registry::new(4);
    let mut full = entry(1, true);
    full.generation = u64::MAX;
    full.live_observers = u64::MAX;
    registry.push(full);
    assert!(!registry.can_count(1, Event::ValueSet));
    assert!(!registry.can_count(1, Event::ObserverCreated));
    assert!(registry.can_count(1, Event::ObserverDropped));
    assert!(registry.can_count(2, Event::ValueSet));
}

#[test]
fn stats_tell_of_the_record() {
    let counters = Counters {
        created: 9,
        dropped: 4,
        next_id: 10,
    };
    let mut registry = Registry::new(7);
    registry.push(entry(1, true));
    assert_eq!(
        stats(&counters, Some(&registry), 1024),
        RegistryStats {
            created: 9,
            dropped: 4,
            retained: 1,
            capacity: 7
        }
    );
    assert_eq!(
        stats(&counters, None, 1024),
        RegistryStats {
            created: 9,
            dropped: 4,
            retained: 0,
            capacity: 1024
        }
    );
}

#[test]
fn a_record_in_use_has_no_entries_to_give() {
    assert!(entries(None).is_none());
    assert_eq!(entries(Some(&Registry::new(1))).unwrap().len(), 0);
}

#[test]
fn the_capacity_can_be_asked_for() {
    assert_eq!(DEFAULT_CAPACITY, 1024);
    assert_eq!(configured_capacity(None), 1024);
    assert_eq!(configured_capacity(Some("16")), 16);
    assert_eq!(configured_capacity(Some("+16")), 16);
    for nonsense in ["", "0", "-1", "many", "1 ", "99999999999999999999999"] {
        assert_eq!(configured_capacity(Some(nonsense)), 1024);
    }
}
