use std::sync::{Arc, Mutex};

use await_values::exfiltrate_provider::{snapshot, snapshot_given, Answer, Listing};
use await_values::registry::{
    entries, record, record_created, stats, Counters, Entry, Registry, RegistryStats,
};
use await_values::value::Value;
use exfiltrate::provider::{add_provider, Provider, ProviderResult, SnapshotRequest};
use exfiltrate_internal::command::{Command, Response};
use exfiltrate_internal::snapshot::{
    FieldPrivacy, SnapshotOutcome, SnapshotResponse, SnapshotRow, SnapshotSet, SnapshotValue,
};

/// A registry with a clock that stands where it is put.
struct Records {
    counters: Counters,
    registry: Registry,
    now: u64,
    busy: bool,
    slow: bool,
}

struct Values(Arc<Mutex<Records>>);

impl Provider for Values {
    fn subsystem(&self) -> &'static str {
        "values"
    }

    fn description(&self) -> &'static str {
        "values under test"
    }

    fn snapshot(&self, request: &SnapshotRequest<'_>) -> ProviderResult {
        let records = self.0.lock().unwrap();
        let begun = std::time::Instant::now();
        while records.slow && begun.elapsed().as_millis() < 20 {
            std::hint::spin_loop();
        }
        let registry = if records.busy {
            None
        } else {
            Some(&records.registry)
        };
        let stats = stats(&records.counters, registry, 1024);
        match snapshot(request, entries(registry), stats, records.now) {
            Answer::Rows(rows) => ProviderResult::Rows(rows),
            Answer::Partial(rows, why) => ProviderResult::Partial(rows, why),
            Answer::Unavailable(why) => ProviderResult::Unavailable(why),
            Answer::Busy => ProviderResult::Busy,
        }
    }
}

fn install(capacity: usize) -> Arc<Mutex<Records>> {
    let records = Arc::new(Mutex::new(Records {
        counters: Counters::new(),
        registry: Registry::new(capacity),
        now: 0,
        busy: false,
        slow: false,
    }));
    add_provider(Values(Arc::clone(&records)));
    records
}

/// Sets a value and wakes whoever waits, as one does who has it to oneself.
fn set<T: Clone>(value: &mut Value<T>, next: T) -> T {
    let (old, woken) = value.set(next);
    for waker in woken {
        waker.wake();
    }
    old
}

fn create(records: &Mutex<Records>, line: u32) -> u64 {
    let mut guard = records.lock().unwrap();
    let records = &mut *guard;
    record_created(
        &mut records.counters,
        Some(&mut records.registry),
        "src/here.rs",
        line,
        records.now,
    )
}

/// Tells the registry what has happened to a value.
fn tell(records: &Mutex<Records>, value: &mut Value<u32>) {
    let mut guard = records.lock().unwrap();
    let records = &mut *guard;
    let (id, events) = value.take_events();
    for event in events {
        record(Some(&mut records.registry), id.unwrap(), event, records.now);
    }
}

fn ask(args: &[&str]) -> SnapshotResponse {
    let mut all = vec!["--subsystem".to_string(), "values".to_string()];
    all.extend(args.iter().map(|arg| arg.to_string()));
    let response = exfiltrate::provider::Snapshot
        .execute(all)
        .expect("snapshot should not fail");
    let set: SnapshotSet = match response {
        Response::Bytes(bytes) => rmp_serde::from_slice(&bytes).expect("decode"),
        other => panic!("expected a structured response, got {other:?}"),
    };
    set.snapshots.into_iter().next().unwrap()
}

fn row_for(id: u64) -> SnapshotRow {
    let answer = ask(&["--id", &id.to_string()]);
    assert_eq!(answer.returned, 1, "{:?}", answer);
    answer.rows[0].clone()
}

fn u64_of(row: &SnapshotRow, name: &str) -> u64 {
    match row.get(name).unwrap().value {
        Some(SnapshotValue::U64(value)) => value,
        ref other => panic!("{name} was {other:?}"),
    }
}

fn bool_of(row: &SnapshotRow, name: &str) -> bool {
    match row.get(name).unwrap().value {
        Some(SnapshotValue::Bool(value)) => value,
        ref other => panic!("{name} was {other:?}"),
    }
}

#[test]
fn the_registry_reports_observers_and_staleness_but_never_values() {
    let records = install(8);
    let id = create(&records, 12);
    let mut value = Value::registered(1_u32, id);
    let row = row_for(id);
    assert_eq!(u64_of(&row, "id"), id);

    // A brand new value has changed nothing and has nobody listening.
    assert_eq!(u64_of(&row, "generation"), 0);
    assert_eq!(u64_of(&row, "live_observers"), 0);
    assert!(bool_of(&row, "alive"));
    assert!(
        bool_of(&row, "never_changed"),
        "distinguishable from unchanged-for-a-long-time"
    );

    // The value itself is never reported, at any point.
    for field in ["value", "current", "contents"] {
        assert!(
            row.get(field).is_none(),
            "the registry must not carry the value itself: {field}"
        );
    }

    let mut observer = value.observe();
    tell(&records, &mut value);
    assert_eq!(u64_of(&row_for(id), "live_observers"), 1);

    // Setting advances the generation and makes the observer stale.
    set(&mut value, 2);
    set(&mut value, 3);
    tell(&records, &mut value);
    let row = row_for(id);
    assert_eq!(u64_of(&row, "generation"), 2);
    assert_eq!(u64_of(&row, "stale_by"), 2, "nobody has caught up yet");
    assert!(row.get("never_changed").is_none());
    assert!(row.get("since_change_ms").is_some());

    // Observing catches up.
    assert_eq!(observer.current_value(&mut value), Some(3));
    tell(&records, &mut value);
    let row = row_for(id);
    assert_eq!(u64_of(&row, "observed_generation"), 2);
    assert_eq!(u64_of(&row, "stale_by"), 0);

    // Dropping the observer is visible, and so is dropping the value.
    assert!(observer.close(&mut value).is_empty());
    tell(&records, &mut value);
    assert_eq!(u64_of(&row_for(id), "live_observers"), 0);
    assert_eq!(value.hang_up().0, Some(3));
    tell(&records, &mut value);
    assert!(!bool_of(&row_for(id), "alive"));
}

#[test]
fn a_row_has_these_fields_in_this_order() {
    let records = install(8);
    records.lock().unwrap().now = 1_000_000;
    let id = create(&records, 34);
    records.lock().unwrap().now = 8_999_999;
    let row = row_for(id);
    let names: Vec<&str> = row.fields.iter().map(|f| f.name.as_str()).collect();
    assert_eq!(
        names,
        [
            "id",
            "generation",
            "observed_generation",
            "stale_by",
            "live_observers",
            "alive",
            "age_ms",
            "created_at_file",
            "created_at_line",
            "never_changed",
        ]
    );
    for field in &row.fields {
        assert_eq!(field.privacy, FieldPrivacy::SupportSafe);
    }
    assert_eq!(u64_of(&row, "age_ms"), 7);
    assert_eq!(u64_of(&row, "created_at_line"), 34);
    assert_eq!(
        row.get("created_at_file").unwrap().value,
        Some(SnapshotValue::String("src/here.rs".to_string()))
    );

    let mut value = Value::registered(0, id);
    set(&mut value, 1);
    tell(&records, &mut value);
    records.lock().unwrap().now = 12_000_000;
    let row = row_for(id);
    assert_eq!(row.fields.last().unwrap().name, "since_change_ms");
    assert_eq!(u64_of(&row, "since_change_ms"), 3);
    assert_eq!(u64_of(&row, "age_ms"), 11);
}

#[test]
fn all_values_are_listed_oldest_first() {
    let records = install(8);
    for line in 1..=3 {
        create(&records, line);
    }
    let answer = ask(&[]);
    assert_eq!(answer.outcome, SnapshotOutcome::Ready);
    assert_eq!(answer.reason, None);
    let ids: Vec<u64> = answer.rows.iter().map(|row| u64_of(row, "id")).collect();
    assert_eq!(ids, [1, 2, 3]);
    assert_eq!(ask(&["--id", "7"]).returned, 0);
}

#[test]
fn a_selector_must_be_an_id() {
    let records = install(8);
    create(&records, 1);
    let answer = ask(&["--id", "fi\"ve"]);
    assert_eq!(answer.outcome, SnapshotOutcome::Unavailable);
    assert_eq!(
        answer.reason.as_deref(),
        Some(r#"--id must be a value id; got "fi\"ve""#)
    );
    let answer = ask(&["--id", "18446744073709551616"]);
    assert_eq!(answer.outcome, SnapshotOutcome::Unavailable);
}

#[test]
fn a_registry_in_use_is_busy() {
    let records = install(8);
    records.lock().unwrap().busy = true;
    assert_eq!(ask(&[]).outcome, SnapshotOutcome::Busy);
    // Whatever was asked for.
    assert_eq!(ask(&["--id", "x"]).outcome, SnapshotOutcome::Busy);
}

#[test]
fn what_was_forgotten_is_admitted() {
    let records = install(2);
    for line in 1..=5 {
        create(&records, line);
    }
    let answer = ask(&[]);
    assert_eq!(answer.outcome, SnapshotOutcome::Partial);
    assert_eq!(answer.returned, 2);
    assert_eq!(
        answer.reason.as_deref(),
        Some(
            "the registry has dropped 3 value(s) to stay within its capacity of 2; \
             raise AWAIT_VALUES_REGISTRY_CAPACITY to keep more"
        )
    );
}

#[test]
fn a_deadline_cuts_the_list_short() {
    let records = install(8);
    for line in 1..=3 {
        create(&records, line);
    }
    records.lock().unwrap().slow = true;
    let answer = ask(&["--timeout-ms", "1"]);
    assert_eq!(answer.outcome, SnapshotOutcome::Partial);
    assert_eq!(answer.reason.as_deref(), Some("deadline"));
    assert_eq!(answer.returned, 0);
}

fn entry(id: u64) -> Entry {
    Entry {
        id,
        created_at_file: "f",
        created_at_line: 1,
        created: 0,
        generation: 0,
        last_change: None,
        live_observers: 0,
        observed_generation: 0,
        alive: true,
    }
}

/// The answer, as a function of when the time is up.
#[test]
fn answers_depend_on_when_the_time_is_up() {
    let none_lost = RegistryStats {
        created: 3,
        dropped: 0,
        retained: 3,
        capacity: 8,
    };
    let some_lost = RegistryStats {
        dropped: 1,
        ..none_lost
    };
    let list = || Some(vec![entry(1), entry(2), entry(3)]);
    let rows_and_reason = |answer: Answer| match answer {
        Answer::Rows(rows) => (rows.len(), None),
        Answer::Partial(rows, why) => (rows.len(), Some(why)),
        other => panic!("{other:?}"),
    };

    for stop in 0..3 {
        let answer = snapshot_given(list(), none_lost, None, stop, 0);
        assert_eq!(
            rows_and_reason(answer),
            (stop, Some("deadline".to_string()))
        );
        // A deadline is the reason given, though values were forgotten too.
        let answer = snapshot_given(list(), some_lost, None, stop, 0);
        assert_eq!(
            rows_and_reason(answer),
            (stop, Some("deadline".to_string()))
        );
    }
    for stop in 3..5 {
        let answer = snapshot_given(list(), none_lost, None, stop, 0);
        assert_eq!(rows_and_reason(answer), (3, None));
        let answer = snapshot_given(list(), some_lost, None, stop, 0);
        assert_eq!(rows_and_reason(answer).0, 3);
    }

    // Entries that are not selected are looked at all the same.
    let answer = snapshot_given(list(), none_lost, Some("3"), 2, 0);
    assert_eq!(rows_and_reason(answer), (0, Some("deadline".to_string())));
    let answer = snapshot_given(list(), none_lost, Some("+3"), 3, 0);
    assert_eq!(rows_and_reason(answer), (1, None));

    assert!(matches!(
        snapshot_given(None, none_lost, None, 9, 0),
        Answer::Busy
    ));
    assert!(matches!(
        snapshot_given(list(), none_lost, Some(""), 9, 0),
        Answer::Unavailable(_)
    ));
}

/// One entry is looked at, if there is time.
#[test]
fn an_answer_goes_on_until_the_time_is_up() {
    let known = || Some(vec![entry(1), entry(2)]);
    let figures = RegistryStats {
        created: 2,
        dropped: 0,
        retained: 2,
        capacity: 10,
    };

    let mut all = Listing::begin(known(), None, 0).unwrap();
    assert!(all.has_more());
    assert!(all.go_on(false));
    assert_eq!(all.at(), 1);
    assert!(all.go_on(false));
    assert!(!all.has_more());
    match all.finish(figures) {
        Answer::Rows(rows) => assert_eq!(rows.len(), 2),
        other => panic!("not all rows: {other:?}"),
    }

    let mut second = Listing::begin(known(), Some("2"), 0).unwrap();
    assert!(second.go_on(false));
    assert!(!second.go_on(true));
    assert_eq!(second.at(), 1);
    match second.finish(figures) {
        Answer::Partial(rows, reason) => {
            assert!(rows.is_empty());
            assert_eq!(reason, "deadline");
        }
        other => panic!("not cut short: {other:?}"),
    }

    assert!(matches!(
        Listing::begin(None, Some("2"), 0),
        Err(Answer::Busy)
    ));
    assert!(matches!(
        Listing::begin(known(), Some("two"), 0),
        Err(Answer::Unavailable(_))
    ));
}

/// Records what has happened to a value, unless the registry is in use.
fn report<T: Clone>(registry: &mut Registry, in_use: bool, value: &mut Value<T>, now: u64) {
    let (id, events) = value.take_events();
    for event in events {
        let registry = if in_use { None } else { Some(&mut *registry) };
        record(registry, id.unwrap(), event, now);
    }
}

/// What there is to report after some things have been done to three values, of
/// which one is never recorded and one is set while the registry is in use.
fn reports<T: Clone + PartialEq>(contents: [T; 5]) -> Vec<String> {
    let [a, b, c, d, e] = contents;
    let mut counters = Counters::new();
    let mut registry = Registry::new(2);
    let mut reports = Vec::new();

    let id = record_created(&mut counters, Some(&mut registry), "one.rs", 1, 10);
    let mut one = Value::registered(a, id);
    let id = record_created(&mut counters, Some(&mut registry), "two.rs", 2, 11);
    let mut two = Value::registered(b, id);
    let id = record_created(&mut counters, None, "three.rs", 3, 12);
    let mut three = Value::registered(c, id);

    let mut observer = one.observe();
    set(&mut two, d);
    report(&mut registry, false, &mut two, 13);
    set(&mut one, e.clone());
    set(&mut three, e.clone());
    report(&mut registry, false, &mut one, 14);
    report(&mut registry, false, &mut three, 15);
    set(&mut two, e);
    report(&mut registry, true, &mut two, 16);
    observer.current_value(&mut one);
    drop(two.hang_up());
    report(&mut registry, false, &mut two, 17);
    report(&mut registry, false, &mut one, 18);

    for seen in [Some(&registry), None] {
        for (selector, stop) in [(None, 9), (None, 1), (Some("2"), 9), (Some("x"), 9)] {
            let figures = stats(&counters, seen, 1024);
            let answer = snapshot_given(entries(seen), figures, selector, stop, 20);
            reports.push(format!("{answer:?}"));
        }
    }
    reports
}

/// Reports are the same whatever the values hold.
#[test]
fn contents_are_never_reported() {
    let numbers = reports([1, 2, 3, 4, 5]);
    let texts = reports(["v1", "v2", "v2", "v2", "v2"]);
    assert_eq!(numbers, texts);
    assert!(numbers[0].contains("one.rs") && numbers[0].contains("two.rs"));
    assert!(!numbers[0].contains("three.rs"));
    assert_eq!(numbers[4], "Busy");
}
