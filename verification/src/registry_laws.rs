//! What holds of the [`Registry`](crate::registry::Registry) as a whole.

use vstd::prelude::*;

use crate::registry::{
    first, stats_of, trimmed, victim, Counters, Entry, Event, RegistryView,
};

verus! {

proof fn lemma_first_bounds(entries: Seq<Entry>, p: spec_fn(Entry) -> bool)
    ensures
        0 <= first(entries, p) <= entries.len(),
        first(entries, p) < entries.len() ==> p(entries[first(entries, p)]),
        forall|k: int| 0 <= k < first(entries, p) ==> !p(#[trigger] entries[k]),
    decreases entries.len(),
{
    if entries.len() > 0 && !p(entries[0]) {
        let rest = entries.skip(1);
        lemma_first_bounds(rest, p);
        assert forall|k: int| 0 <= k < first(entries, p) implies !p(#[trigger] entries[k]) by {
            if k > 0 {
                assert(entries[k] == rest[k - 1]);
            }
        }
        if first(entries, p) < entries.len() {
            assert(entries[first(entries, p)] == rest[first(rest, p)]);
        }
    }
}

/// As long as there is room, nothing is forgotten.
pub proof fn law_nothing_is_forgotten_in_vain(registry: RegistryView, entry: Entry)
    requires
        registry.wf(),
        registry.entries.len() < registry.capacity,
    ensures
        registry.pushed(entry).entries == registry.entries.push(entry),
        registry.pushed(entry).wf(),
{
}

/// A full record forgets exactly one entry, so it never exceeds its capacity.
pub proof fn law_the_record_is_bounded(registry: RegistryView, entry: Entry)
    requires
        registry.wf(),
        registry.entries.len() == registry.capacity,
    ensures
        registry.pushed(entry).entries == registry.entries.remove(victim(registry.entries)).push(
            entry,
        ),
        registry.pushed(entry).entries.len() == registry.capacity,
        registry.pushed(entry).wf(),
{
    let entries = registry.entries;
    lemma_first_bounds(entries, |entry: Entry| !entry.alive);
    let rest = entries.remove(victim(entries));
    assert(trimmed(rest, registry.capacity) == rest);
}

/// A full record forgets values that have been dropped before it forgets
/// others: while it holds one that has been dropped, every other stays.
pub proof fn law_the_dropped_go_first(registry: RegistryView, entry: Entry, dead: int)
    requires
        registry.wf(),
        0 <= dead < registry.entries.len(),
        !registry.entries[dead].alive,
    ensures
        forall|i: int|
            0 <= i < registry.entries.len() && (#[trigger] registry.entries[i]).alive
                ==> registry.pushed(entry).entries.contains(registry.entries[i]),
        registry.entries.len() == registry.capacity ==> !registry.entries[victim(
            registry.entries,
        )].alive,
{
    let entries = registry.entries;
    let pushed = registry.pushed(entry).entries;
    let p = |entry: Entry| !entry.alive;
    lemma_first_bounds(entries, p);
    assert(p(entries[dead]));
    let gone = victim(entries);
    if entries.len() == registry.capacity {
        law_the_record_is_bounded(registry, entry);
    }
    assert forall|i: int| 0 <= i < entries.len() && (#[trigger] entries[i]).alive implies
        pushed.contains(entries[i]) by {
        if entries.len() < registry.capacity {
            assert(pushed[i] == entries[i]);
        } else if i < gone {
            assert(pushed[i] == entries[i]);
        } else {
            assert(i != gone);
            assert(pushed[i - 1] == entries[i]);
        }
    }
}

/// A full record of values none of which has been dropped forgets the oldest.
pub proof fn law_else_the_oldest_goes(registry: RegistryView, entry: Entry)
    requires
        registry.wf(),
        registry.entries.len() == registry.capacity,
        forall|i: int|
            0 <= i < registry.entries.len() ==> (#[trigger] registry.entries[i]).alive,
    ensures
        registry.pushed(entry).entries == registry.entries.skip(1).push(entry),
{
    let entries = registry.entries;
    law_the_record_is_bounded(registry, entry);
    lemma_first_bounds(entries, |entry: Entry| !entry.alive);
    assert(entries.remove(0) =~= entries.skip(1));
}

/// Every value is accounted for: as many have been created as have been
/// forgotten or are held. So it is at first, and so it stays when one more is
/// created, recorded or not, and when something happens to one.
pub proof fn law_every_value_is_accounted_for(
    counters: Counters,
    registry: RegistryView,
    entry: Entry,
    id: u64,
    event: Event,
    now: u64,
)
    requires
        registry.wf(),
        counters.created == counters.dropped + registry.entries.len(),
        counters.created < u64::MAX,
    ensures
        ({
            let pushed = registry.pushed(entry);
            let forgotten = (registry.entries.len() + 1 - pushed.entries.len()) as u64;
            let after = counters.after_creation(forgotten);
            after.created == after.dropped + pushed.entries.len()
        }),
        ({
            let after = counters.after_creation(1);
            after.created == after.dropped + registry.entries.len()
        }),
        counters.created == counters.dropped + registry.after(id, event, now).entries.len(),
{
    if registry.entries.len() < registry.capacity {
        law_nothing_is_forgotten_in_vain(registry, entry);
    } else {
        law_the_record_is_bounded(registry, entry);
    }
    law_events_concern_one_value(registry, id, event, now);
}

/// What happens to one value concerns no other: every other entry stays as it
/// is, where it is. If the record does not know the value, nothing changes.
pub proof fn law_events_concern_one_value(
    registry: RegistryView,
    id: u64,
    event: Event,
    now: u64,
)
    ensures
        registry.after(id, event, now).entries.len() == registry.entries.len(),
        forall|i: int|
            #![trigger registry.entries[i]]
            0 <= i < registry.entries.len() && registry.entries[i].id != id ==> registry.after(
                id,
                event,
                now,
            ).entries[i] == registry.entries[i],
        forall|i: int|
            #![trigger registry.entries[i]]
            0 <= i < registry.entries.len() ==> registry.after(id, event, now).entries[i].id
                == registry.entries[i].id,
        (forall|i: int|
            0 <= i < registry.entries.len() ==> (#[trigger] registry.entries[i]).id != id)
            ==> registry.after(id, event, now) == registry,
        registry.wf() ==> registry.after(id, event, now).wf(),
{
    lemma_first_bounds(registry.entries, |entry: Entry| entry.id == id);
}

/// The value was recorded: what happens to a value that is among the entries
/// reaches its entry.
pub proof fn law_events_reach_their_value(
    registry: RegistryView,
    id: u64,
    event: Event,
    now: u64,
    at: int,
)
    requires
        0 <= at < registry.entries.len(),
        registry.entries[at].id == id,
        forall|i: int|
            0 <= i < registry.entries.len() && (#[trigger] registry.entries[i]).id == id
                ==> i == at,
    ensures
        registry.after(id, event, now).entries[at] == registry.entries[at].after(event, now),
{
    lemma_first_bounds(registry.entries, |entry: Entry| entry.id == id);
}

/// Each event leaves its mark in one place. A set is counted, and its time is
/// that of the last change; observers that come and go are counted; a look
/// catches up with all that was set; and the end of the value is the end. What
/// else is recorded stays: which value it is, where and when it came to be.
pub proof fn law_events_are_told_apart(entry: Entry, event: Event, now: u64)
    requires
        event == Event::ValueSet ==> entry.generation < u64::MAX,
        event == Event::ObserverCreated ==> entry.live_observers < u64::MAX,
    ensures
        entry.can_count(event),
        ({
            let after = entry.after(event, now);
            &&& after.id == entry.id
            &&& after.created == entry.created
            &&& after.created_at_file == entry.created_at_file
            &&& after.created_at_line == entry.created_at_line
            &&& after.generation - entry.generation == if event == Event::ValueSet {
                1int
            } else {
                0
            }
            &&& after.last_change == if event == Event::ValueSet {
                Some(now)
            } else {
                entry.last_change
            }
            &&& after.observed_generation == if event == Event::Observed {
                after.generation
            } else {
                entry.observed_generation
            }
            &&& after.alive == (entry.alive && event != Event::ValueDropped)
            &&& event == Event::ObserverCreated ==> after.live_observers == entry.live_observers + 1
            &&& event == Event::ObserverDropped ==> entry.live_observers == after.live_observers + 1
                || (entry.live_observers == 0 && after.live_observers == 0)
            &&& event != Event::ObserverCreated && event != Event::ObserverDropped
                ==> after.live_observers == entry.live_observers
        }),
{
}

/// A value that has just been created has not been set, has no observers, and is
/// alive; its entry says which value it is, and where and when it came to be.
pub proof fn law_creation_is_recorded(id: u64, file: &'static str, line: u32, now: u64)
    ensures
        ({
            let entry = Entry::fresh(id, file, line, now);
            &&& entry.id == id
            &&& entry.created_at_file == file
            &&& entry.created_at_line == line
            &&& entry.created == now
            &&& entry.generation == 0
            &&& entry.observed_generation == 0
            &&& entry.last_change is None
            &&& entry.live_observers == 0
            &&& entry.alive
        }),
{
}

/// How far observers are behind is what was observed short of what there is,
/// and never less than nothing.
pub proof fn law_lag_is_what_was_not_observed(entry: Entry)
    ensures
        entry.lag() >= 0,
        entry.observed_generation <= entry.generation ==> entry.observed_generation + entry.lag()
            == entry.generation,
        entry.observed_generation > entry.generation ==> entry.lag() == 0,
{
}

/// A record that keeps to its capacity takes every new entry, behind all others,
/// which stay in order. It forgets one only if it is full: the first whose value
/// has been dropped, or the first of all if there is no such.
pub proof fn law_one_entry_makes_room(registry: RegistryView, entry: Entry, gone: int)
    requires
        0 < registry.capacity,
        registry.entries.len() <= registry.capacity,
        registry.entries.len() == registry.capacity ==> {
            &&& 0 <= gone < registry.entries.len()
            &&& !registry.entries[gone].alive || gone == 0
            &&& forall|i: int|
                0 <= i < gone ==> (#[trigger] registry.entries[i]).alive
            &&& registry.entries[gone].alive ==> forall|i: int|
                0 <= i < registry.entries.len() ==> (#[trigger] registry.entries[i]).alive
        },
    ensures
        registry.wf(),
        registry.pushed(entry).wf(),
        registry.pushed(entry).capacity == registry.capacity,
        registry.pushed(entry).entries.last() == entry,
        registry.pushed(entry).entries.len() <= registry.capacity,
        registry.pushed(entry).entries == if registry.entries.len() < registry.capacity {
            registry.entries.push(entry)
        } else {
            registry.entries.remove(gone).push(entry)
        },
{
    let entries = registry.entries;
    let p = |entry: Entry| !entry.alive;
    lemma_first_bounds(entries, p);
    if entries.len() == registry.capacity {
        law_the_record_is_bounded(registry, entry);
        let dead = first(entries, p);
        if entries[gone].alive {
            assert(victim(entries) == 0);
        } else {
            assert(p(entries[gone]));
            assert(dead <= gone);
            if dead < gone {
                assert(p(entries[dead]));
                assert(entries[dead].alive);
            }
        }
    }
}

/// An event changes the first entry of its value, and only that one; how much
/// the record can hold, and the order of the entries, stay.
pub proof fn law_events_change_one_entry(
    registry: RegistryView,
    id: u64,
    event: Event,
    now: u64,
    at: int,
)
    requires
        0 <= at < registry.entries.len(),
        registry.entries[at].id == id,
        forall|i: int| 0 <= i < at ==> (#[trigger] registry.entries[i]).id != id,
    ensures
        registry.after(id, event, now).capacity == registry.capacity,
        registry.after(id, event, now).entries == registry.entries.update(
            at,
            registry.entries[at].after(event, now),
        ),
        registry.can_count(id, event) == registry.entries[at].can_count(event),
{
    let p = |entry: Entry| entry.id == id;
    lemma_first_bounds(registry.entries, p);
    assert(p(registry.entries[at]));
    let place = first(registry.entries, p);
    if place < at {
        assert(p(registry.entries[place]));
    }
}

/// The record can count an event as long as no counter is full; and it always
/// can if it does not know the value.
pub proof fn law_only_full_counters_cannot_count(
    registry: RegistryView,
    entry: Entry,
    id: u64,
    event: Event,
)
    ensures
        entry.can_count(event) <==> !(event == Event::ValueSet && entry.generation == u64::MAX)
            && !(event == Event::ObserverCreated && entry.live_observers == u64::MAX),
        (forall|i: int|
            0 <= i < registry.entries.len() ==> (#[trigger] registry.entries[i]).id != id)
            ==> registry.can_count(id, event),
{
    lemma_first_bounds(registry.entries, |entry: Entry| entry.id == id);
}

/// Each creation is counted once, and gets an id of its own; what was forgotten
/// is added to what was forgotten before.
pub proof fn law_creations_are_counted(counters: Counters, forgotten: u64)
    ensures
        counters.created < u64::MAX ==> counters.after_creation(forgotten).created
            == counters.created + 1,
        counters.next_id < u64::MAX ==> counters.after_creation(forgotten).next_id
            == counters.next_id + 1,
        counters.dropped + forgotten <= u64::MAX ==> counters.after_creation(forgotten).dropped
            == counters.dropped + forgotten,
{
}

/// The figures are those of the counters and of the record itself; of a record
/// that is in use there is nothing to see but what it was meant to hold.
pub proof fn law_figures_are_those_of_the_record(
    counters: Counters,
    registry: Option<RegistryView>,
    configured: usize,
)
    requires
        registry matches Some(r) ==> r.entries.len() <= r.capacity,
    ensures
        stats_of(counters, registry, configured).created == counters.created,
        stats_of(counters, registry, configured).dropped == counters.dropped,
        registry matches Some(r) ==> {
            &&& stats_of(counters, registry, configured).retained == r.entries.len()
            &&& stats_of(counters, registry, configured).capacity == r.capacity
        },
        registry is None ==> {
            &&& stats_of(counters, registry, configured).retained == 0
            &&& stats_of(counters, registry, configured).capacity == configured
        },
{
}

/// Nobody has observed a generation that does not exist yet.
pub open spec fn in_order(entry: Entry) -> bool {
    entry.observed_generation <= entry.generation
}

/// Each change adds one to how far observers are behind, a look at the value
/// takes it back to zero, and nothing else affects it.
pub proof fn law_staleness_is_counted(entry: Entry, event: Event, now: u64)
    requires
        in_order(entry),
        entry.can_count(event),
    ensures
        in_order(entry.after(event, now)),
        entry.after(event, now).lag() == match event {
            Event::ValueSet => entry.lag() + 1,
            Event::Observed => 0,
            _ => entry.lag(),
        },
{
}

/// A value says when it last changed if and only if it has ever been set.
pub open spec fn dated(entry: Entry) -> bool {
    entry.last_change is None <==> entry.generation == 0
}

/// "Never set" cannot be mistaken for "unchanged for long": an entry has a time
/// of its last change exactly once the value has been set.
pub proof fn law_changes_are_dated(entry: Entry, event: Event, now: u64)
    requires
        dated(entry),
        entry.can_count(event),
    ensures
        dated(entry.after(event, now)),
{
}

/// The entry after all of `events`, each at time `now`.
pub open spec fn after_all(entry: Entry, events: Seq<Event>, now: u64) -> Entry
    decreases events.len(),
{
    if events.len() == 0 {
        entry
    } else {
        after_all(entry, events.drop_last(), now).after(events.last(), now)
    }
}

/// How often `event` is among `events`.
pub open spec fn count(events: Seq<Event>, event: Event) -> nat
    decreases events.len(),
{
    if events.len() == 0 {
        0
    } else {
        count(events.drop_last(), event) + if events.last() == event {
            1nat
        } else {
            0nat
        }
    }
}

/// No observer is dropped before it has been created.
pub open spec fn plausible(events: Seq<Event>) -> bool
    decreases events.len(),
{
    events.len() == 0 || (plausible(events.drop_last()) && count(events, Event::ObserverDropped)
        <= count(events, Event::ObserverCreated))
}

/// The record is honest: the generation of a value is the number of times that
/// it was set, its observers are those created and not dropped, and it is alive
/// until it has been dropped.
pub proof fn law_the_record_is_honest(
    id: u64,
    file: &'static str,
    line: u32,
    created: u64,
    events: Seq<Event>,
    now: u64,
)
    requires
        events.len() < u64::MAX,
        plausible(events),
    ensures
        ({
            let entry = after_all(Entry::fresh(id, file, line, created), events, now);
            &&& entry.id == id
            &&& entry.generation == count(events, Event::ValueSet)
            &&& entry.live_observers == count(events, Event::ObserverCreated) - count(
                events,
                Event::ObserverDropped,
            )
            &&& entry.alive <==> count(events, Event::ValueDropped) == 0
            &&& in_order(entry)
            &&& dated(entry)
        }),
    decreases events.len(),
{
    if events.len() > 0 {
        let rest = events.drop_last();
        law_the_record_is_honest(id, file, line, created, rest, now);
        lemma_count_bound(rest, Event::ValueSet);
        lemma_count_bound(rest, Event::ObserverCreated);
    }
}

/// The entry after all of `events`, each at its time.
pub open spec fn after_each(entry: Entry, events: Seq<Event>, times: Seq<u64>) -> Entry
    decreases events.len(),
{
    if events.len() == 0 {
        entry
    } else {
        after_each(entry, events.drop_last(), times.drop_last()).after(events.last(), times.last())
    }
}

/// The record has a memory: the time of the last change is that of the last set,
/// however much has happened since, and what was observed is all that had been
/// set when somebody last looked.
pub proof fn law_the_last_of_each_counts(
    entry: Entry,
    events: Seq<Event>,
    times: Seq<u64>,
    at: int,
)
    requires
        times.len() == events.len(),
        0 <= at < events.len(),
        entry.generation + events.len() < u64::MAX,
        entry.live_observers + events.len() < u64::MAX,
    ensures
        ({
            let after = after_each(entry, events, times);
            &&& after.id == entry.id
            &&& after.created == entry.created
            &&& after.created_at_file == entry.created_at_file
            &&& after.created_at_line == entry.created_at_line
            &&& entry.generation <= after.generation <= entry.generation + events.len()
            &&& after.live_observers <= entry.live_observers + events.len()
            &&& events[at] == Event::ValueSet && (forall|i: int|
                at < i < events.len() ==> #[trigger] events[i] != Event::ValueSet)
                ==> after.last_change == Some(times[at])
            &&& events[at] == Event::Observed && (forall|i: int|
                at < i < events.len() ==> #[trigger] events[i] != Event::Observed)
                ==> after.observed_generation == after_each(
                entry,
                events.take(at),
                times.take(at),
            ).generation
        }),
    decreases events.len(),
{
    let rest = events.drop_last();
    let before = after_each(entry, rest, times.drop_last());
    if at < rest.len() {
        law_the_last_of_each_counts(entry, rest, times.drop_last(), at);
        assert(rest.take(at) =~= events.take(at));
        assert(times.drop_last().take(at) =~= times.take(at));
        if forall|i: int| at < i < events.len() ==> #[trigger] events[i] != Event::ValueSet {
            assert forall|i: int| at < i < rest.len() implies #[trigger] rest[i]
                != Event::ValueSet by {
                assert(rest[i] == events[i]);
            }
        }
        if forall|i: int| at < i < events.len() ==> #[trigger] events[i] != Event::Observed {
            assert forall|i: int| at < i < rest.len() implies #[trigger] rest[i]
                != Event::Observed by {
                assert(rest[i] == events[i]);
            }
        }
        assert(events[events.len() - 1] == events.last());
    } else {
        assert(events.take(at) =~= rest);
        assert(times.take(at) =~= times.drop_last());
        if rest.len() > 0 {
            law_the_last_of_each_counts(entry, rest, times.drop_last(), 0);
        }
    }
    assert(before.can_count(events.last()));
    law_events_are_told_apart(before, events.last(), times.last());
}

proof fn lemma_count_bound(events: Seq<Event>, event: Event)
    ensures
        count(events, event) <= events.len(),
    decreases events.len(),
{
    if events.len() > 0 {
        lemma_count_bound(events.drop_last(), event);
    }
}

} // verus!
