//! A bounded record of the values that there are.
//!
//! It answers two questions that nothing else can:
//!
//! * **Is anyone listening?** A value without observers is a publisher that
//!   nobody subscribed to, which is no error: it just stays silent.
//! * **Is a listener falling behind?** A value that has changed since anybody
//!   last looked is stale, and one that stays stale has observers that stopped
//!   polling.
//!
//! What the values hold is never recorded. An [`Entry`] has the *generation*,
//! how many times the value has changed, and when it last changed.
//!
//! The record keeps the most recent values, up to a capacity. When there are
//! more it forgets values that have been dropped before it forgets others, and
//! counts how many it forgot.
//!
//! Points in time are nanoseconds since some fixed moment.

use std::collections::VecDeque;
use vstd::prelude::*;

use crate::decimal::{meaning, parse_usize};

verus! {

/// How many values the record keeps if nothing else is asked for.
pub const DEFAULT_CAPACITY: usize = 1024;

/// Something that happened to a value.
#[derive(Clone, Copy, Debug, PartialEq, Eq, Structural)]
pub enum Event {
    /// It was set.
    ValueSet,
    /// An observer of it was created.
    ObserverCreated,
    /// An observer of it was dropped.
    ObserverDropped,
    /// An observer looked at it, and has thereby caught up.
    Observed,
    /// It was dropped itself.
    ValueDropped,
}

/// What is recorded of one value.
#[derive(Clone, Copy, Debug)]
pub struct Entry {
    pub id: u64,
    pub created_at_file: &'static str,
    pub created_at_line: u32,
    pub created: u64,
    /// How many times the value has been set. Never what it was set to.
    pub generation: u64,
    pub last_change: Option<u64>,
    /// Observers of this value that have not been dropped.
    pub live_observers: u64,
    /// The highest generation that any observer has caught up to.
    pub observed_generation: u64,
    pub alive: bool,
}

impl Entry {
    /// A value that has just been created.
    pub open spec fn fresh(id: u64, file: &'static str, line: u32, now: u64) -> Self {
        Entry {
            id,
            created_at_file: file,
            created_at_line: line,
            created: now,
            generation: 0,
            last_change: None,
            live_observers: 0,
            observed_generation: 0,
            alive: true,
        }
    }

    /// How many generations nobody has observed yet.
    pub open spec fn lag(self) -> int {
        if self.generation >= self.observed_generation {
            self.generation - self.observed_generation
        } else {
            0
        }
    }

    /// How many generations nobody has observed yet.
    pub fn stale_by(&self) -> (lag: u64)
        ensures
            lag == self.lag(),
    {
        self.generation.saturating_sub(self.observed_generation)
    }

    /// There is room in the counters for `event`.
    pub open spec fn can_count(self, event: Event) -> bool {
        match event {
            Event::ValueSet => self.generation < u64::MAX,
            Event::ObserverCreated => self.live_observers < u64::MAX,
            _ => true,
        }
    }

    /// The entry after `event`, at time `now`.
    pub open spec fn after(self, event: Event, now: u64) -> Self {
        match event {
            Event::ValueSet => Entry {
                generation: (self.generation + 1) as u64,
                last_change: Some(now),
                ..self
            },
            Event::ObserverCreated => Entry {
                live_observers: (self.live_observers + 1) as u64,
                ..self
            },
            Event::ObserverDropped => Entry {
                live_observers: if self.live_observers > 0 {
                    (self.live_observers - 1) as u64
                } else {
                    0
                },
                ..self
            },
            Event::Observed => Entry { observed_generation: self.generation, ..self },
            Event::ValueDropped => Entry { alive: false, ..self },
        }
    }
}

impl Entry {
    /// The entry after `event`, at time `now`. The count of observers stays at
    /// zero if one is dropped when there is none.
    fn update(&self, event: Event, now: u64) -> (entry: Entry)
        requires
            self.can_count(event),
        ensures
            entry == self.after(event, now),
    {
        let mut entry = *self;
        match event {
            Event::ValueSet => {
                entry.generation = entry.generation + 1;
                entry.last_change = Some(now);
            },
            Event::ObserverCreated => {
                entry.live_observers = entry.live_observers + 1;
            },
            Event::ObserverDropped => {
                entry.live_observers = entry.live_observers.saturating_sub(1);
            },
            Event::Observed => {
                entry.observed_generation = entry.generation;
            },
            Event::ValueDropped => {
                entry.alive = false;
            },
        }
        entry
    }
}

/// Where the first of `entries` is that satisfies `p`: behind the last, if none
/// does.
pub open spec fn first(entries: Seq<Entry>, p: spec_fn(Entry) -> bool) -> int
    decreases entries.len(),
{
    if entries.len() == 0 || p(entries[0]) {
        0
    } else {
        1 + first(entries.skip(1), p)
    }
}

proof fn lemma_first(entries: Seq<Entry>, p: spec_fn(Entry) -> bool, i: int)
    requires
        0 <= i <= entries.len(),
        forall|k: int| 0 <= k < i ==> !p(#[trigger] entries[k]),
        i < entries.len() ==> p(entries[i]),
    ensures
        first(entries, p) == i,
    decreases entries.len(),
{
    if i > 0 {
        let rest = entries.skip(1);
        assert forall|k: int| 0 <= k < i - 1 implies !p(#[trigger] rest[k]) by {
            assert(rest[k] == entries[k + 1]);
        }
        if i < entries.len() {
            assert(rest[i - 1] == entries[i]);
        }
        assert(!p(entries[0]));
        lemma_first(rest, p, i - 1);
    }
}

/// What a record holds.
#[verifier::ext_equal]
pub struct RegistryView {
    pub capacity: usize,
    /// The entries, oldest first.
    pub entries: Seq<Entry>,
}

/// Which entry is forgotten when there is one too many: the oldest whose value
/// has been dropped, and if there is none, the oldest.
pub open spec fn victim(entries: Seq<Entry>) -> int {
    let dead = first(entries, |entry: Entry| !entry.alive);
    if dead < entries.len() {
        dead
    } else {
        0
    }
}

/// What is left of `entries` when room has been made for one more.
pub open spec fn trimmed(entries: Seq<Entry>, capacity: usize) -> Seq<Entry>
    decreases entries.len(),
{
    if entries.len() > 0 && entries.len() >= capacity && 0 <= victim(entries) < entries.len() {
        trimmed(entries.remove(victim(entries)), capacity)
    } else {
        entries
    }
}

impl RegistryView {
    /// The record keeps to its capacity.
    pub open spec fn wf(self) -> bool {
        0 < self.capacity && self.entries.len() <= self.capacity
    }

    /// Where the entry of value `id` is.
    pub open spec fn place(self, id: u64) -> int {
        first(self.entries, |entry: Entry| entry.id == id)
    }

    /// There is an entry of value `id`.
    pub open spec fn knows(self, id: u64) -> bool {
        self.place(id) < self.entries.len()
    }

    /// One more entry.
    pub open spec fn pushed(self, entry: Entry) -> Self {
        RegistryView { entries: trimmed(self.entries, self.capacity).push(entry), ..self }
    }

    /// There is room in the counters of value `id` for `event`.
    pub open spec fn can_count(self, id: u64, event: Event) -> bool {
        self.knows(id) ==> self.entries[self.place(id)].can_count(event)
    }

    /// The record after `event` happened to value `id`, at time `now`.
    pub open spec fn after(self, id: u64, event: Event, now: u64) -> Self {
        if self.knows(id) {
            let place = self.place(id);
            RegistryView {
                entries: self.entries.update(place, self.entries[place].after(event, now)),
                ..self
            }
        } else {
            self
        }
    }
}

/// A bounded record of the values that there are.
#[derive(Debug)]
pub struct Registry {
    capacity: usize,
    entries: VecDeque<Entry>,
}

impl View for Registry {
    type V = RegistryView;

    closed spec fn view(&self) -> RegistryView {
        RegistryView { capacity: self.capacity, entries: self.entries@ }
    }
}

impl Registry {
    /// An empty record for up to `capacity` values.
    pub fn new(capacity: usize) -> (registry: Self)
        requires
            capacity > 0,
        ensures
            registry@ == (RegistryView { capacity, entries: Seq::empty() }),
            registry@.wf(),
    {
        let registry = Registry { capacity, entries: VecDeque::new() };
        assert(registry@ =~= (RegistryView { capacity, entries: Seq::empty() }));
        registry
    }

    /// Adds an entry, and forgets others if the record is full. Returns how
    /// many it forgot.
    pub fn push(&mut self, entry: Entry) -> (forgotten: u64)
        requires
            old(self)@.wf(),
        ensures
            final(self)@ == old(self)@.pushed(entry),
            final(self)@.wf(),
            forgotten == old(self)@.entries.len() + 1 - final(self)@.entries.len(),
    {
        let mut forgotten: u64 = 0;
        while self.entries.len() >= self.capacity
            invariant
                self.capacity == old(self)@.capacity,
                0 < self.capacity,
                self.entries@.len() <= self.capacity,
                trimmed(self.entries@, self.capacity) == trimmed(
                    old(self)@.entries,
                    self.capacity,
                ),
                forgotten == old(self)@.entries.len() - self.entries@.len(),
                old(self)@.entries.len() <= self.capacity,
                self.entries@.len() + 1 >= self.capacity || forgotten == 0,
            decreases self.entries@.len(),
        {
            let victim: usize = self.victim();
            self.entries.remove(victim);
            forgotten = forgotten + 1;
        }
        self.entries.push_back(entry);
        assert(self@ =~= old(self)@.pushed(entry));
        forgotten
    }

    /// Which entry is forgotten when there is one too many.
    fn victim(&self) -> (at: usize)
        requires
            self@.entries.len() > 0,
        ensures
            at == victim(self@.entries),
            at < self@.entries.len(),
    {
        let ghost dead = |entry: Entry| !entry.alive;
        let mut i: usize = 0;
        while i < self.entries.len()
            invariant
                0 <= i <= self.entries@.len(),
                dead == |entry: Entry| !entry.alive,
                forall|k: int| 0 <= k < i ==> !dead(#[trigger] self.entries@[k]),
            decreases self.entries@.len() - i,
        {
            if !self.entries[i].alive {
                proof {
                    lemma_first(self.entries@, dead, i as int);
                }
                return i;
            }
            i = i + 1;
        }
        proof {
            lemma_first(self.entries@, dead, i as int);
        }
        0
    }

    /// Where the entry of value `id` is.
    fn find(&self, id: u64) -> (at: Option<usize>)
        ensures
            at is Some <==> self@.knows(id),
            at matches Some(i) ==> i == self@.place(id) && i < self@.entries.len(),
    {
        let ghost same = |entry: Entry| entry.id == id;
        let mut i: usize = 0;
        while i < self.entries.len()
            invariant
                0 <= i <= self.entries@.len(),
                same == |entry: Entry| entry.id == id,
                forall|k: int| 0 <= k < i ==> !same(#[trigger] self.entries@[k]),
            decreases self.entries@.len() - i,
        {
            if self.entries[i].id == id {
                proof {
                    lemma_first(self.entries@, same, i as int);
                }
                return Some(i);
            }
            i = i + 1;
        }
        proof {
            lemma_first(self.entries@, same, i as int);
        }
        None
    }
}

/// How many values there have been.
#[derive(Clone, Copy, Debug, PartialEq, Eq, Structural)]
pub struct Counters {
    /// Values that were created.
    pub created: u64,
    /// Values that the record does not hold any more, or never did.
    pub dropped: u64,
    /// The id of the next value.
    pub next_id: u64,
}

impl Counters {
    /// No value has been created yet. The first one gets the id 1.
    pub fn new() -> (counters: Self)
        ensures
            counters == (Counters { created: 0, dropped: 0, next_id: 1 }),
    {
        Counters { created: 0, dropped: 0, next_id: 1 }
    }

    /// The counters when one more value has been created, and `forgotten` have
    /// been forgotten. All of them wrap around.
    pub open spec fn after_creation(self, forgotten: u64) -> Self {
        Counters {
            created: self.created.wrapping_add(1),
            dropped: self.dropped.wrapping_add(forgotten),
            next_id: self.next_id.wrapping_add(1),
        }
    }
}

/// Records that a value was created, at `line` of `file` and at time `now`, and
/// returns its id. If the record is in use by somebody else (`None`), the value
/// is counted as forgotten.
pub fn record_created(
    counters: &mut Counters,
    registry: Option<&mut Registry>,
    file: &'static str,
    line: u32,
    now: u64,
) -> (id: u64)
    requires
        registry matches Some(r) ==> r@.wf(),
    ensures
        id == old(counters).next_id,
        registry is None ==> *final(counters) == old(counters).after_creation(1),
        registry matches Some(r) ==> {
            &&& final(r)@ == r@.pushed(Entry::fresh(id, file, line, now))
            &&& final(r)@.wf()
            &&& *final(counters) == old(counters).after_creation(
                (r@.entries.len() + 1 - final(r)@.entries.len()) as u64,
            )
        },
{
    counters.created = counters.created.wrapping_add(1);
    let id: u64 = counters.next_id;
    counters.next_id = id.wrapping_add(1);
    let forgotten: u64 = match registry {
        Some(registry) => registry.push(
            Entry {
                id,
                created_at_file: file,
                created_at_line: line,
                created: now,
                generation: 0,
                last_change: None,
                live_observers: 0,
                observed_generation: 0,
                alive: true,
            },
        ),
        None => 1,
    };
    counters.dropped = counters.dropped.wrapping_add(forgotten);
    id
}

impl Registry {
    /// Puts `entry` in the place of entry `at`.
    fn replace(&mut self, at: usize, entry: Entry)
        requires
            at < old(self)@.entries.len(),
        ensures
            final(self)@ == (RegistryView {
                entries: old(self)@.entries.update(at as int, entry),
                ..old(self)@
            }),
    {
        self.entries.remove(at);
        self.entries.insert(at, entry);
        assert(self@ =~= (RegistryView {
            entries: old(self)@.entries.update(at as int, entry),
            ..old(self)@
        }));
    }

    /// Whether there is room in the counters of value `id` for `event`.
    pub fn can_count(&self, id: u64, event: Event) -> (room: bool)
        ensures
            room == self@.can_count(id, event),
    {
        match self.find(id) {
            Some(at) => match event {
                Event::ValueSet => self.entries[at].generation < u64::MAX,
                Event::ObserverCreated => self.entries[at].live_observers < u64::MAX,
                _ => true,
            },
            None => true,
        }
    }
}

/// Records that `event` happened to value `id`, at time `now`.
///
/// Nothing happens if the record is in use by somebody else (`None`), or does
/// not hold the value.
pub fn record(registry: Option<&mut Registry>, id: u64, event: Event, now: u64)
    requires
        registry matches Some(r) ==> r@.wf() && r@.can_count(id, event),
    ensures
        registry matches Some(r) ==> final(r)@ == r@.after(id, event, now),
        registry matches Some(r) ==> final(r)@.wf(),
{
    match registry {
        Some(registry) => match registry.find(id) {
            Some(at) => {
                let entry = registry.entries[at].update(event, now);
                registry.replace(at, entry);
            },
            None => {},
        },
        None => {},
    }
}

/// Records that value `id` was set, at time `now`.
pub fn record_set(registry: Option<&mut Registry>, id: u64, now: u64)
    requires
        registry matches Some(r) ==> r@.wf() && r@.can_count(id, Event::ValueSet),
    ensures
        registry matches Some(r) ==> final(r)@ == r@.after(id, Event::ValueSet, now),
        registry matches Some(r) ==> final(r)@.wf(),
{
    record(registry, id, Event::ValueSet, now);
}

/// Records that an observer of value `id` was created.
pub fn record_observer_created(registry: Option<&mut Registry>, id: u64)
    requires
        registry matches Some(r) ==> r@.wf() && r@.can_count(id, Event::ObserverCreated),
    ensures
        registry matches Some(r) ==> final(r)@ == r@.after(id, Event::ObserverCreated, 0),
        registry matches Some(r) ==> final(r)@.wf(),
{
    record(registry, id, Event::ObserverCreated, 0);
}

/// Records that an observer of value `id` was dropped. The count of observers
/// stays at zero if it is there already.
pub fn record_observer_dropped(registry: Option<&mut Registry>, id: u64)
    requires
        registry matches Some(r) ==> r@.wf(),
    ensures
        registry matches Some(r) ==> final(r)@ == r@.after(id, Event::ObserverDropped, 0),
        registry matches Some(r) ==> final(r)@.wf(),
{
    record(registry, id, Event::ObserverDropped, 0);
}

/// Records that an observer has caught up with value `id`.
pub fn record_observed(registry: Option<&mut Registry>, id: u64)
    requires
        registry matches Some(r) ==> r@.wf(),
    ensures
        registry matches Some(r) ==> final(r)@ == r@.after(id, Event::Observed, 0),
        registry matches Some(r) ==> final(r)@.wf(),
{
    record(registry, id, Event::Observed, 0);
}

/// Records that value `id` was dropped.
pub fn record_value_dropped(registry: Option<&mut Registry>, id: u64)
    requires
        registry matches Some(r) ==> r@.wf(),
    ensures
        registry matches Some(r) ==> final(r)@ == r@.after(id, Event::ValueDropped, 0),
        registry matches Some(r) ==> final(r)@.wf(),
{
    record(registry, id, Event::ValueDropped, 0);
}

/// What there is to say of the record as a whole.
#[derive(Clone, Copy, Debug, Default, Eq, PartialEq, Structural)]
pub struct RegistryStats {
    /// Values that were created.
    pub created: u64,
    /// Values that the record does not hold any more, or never did.
    pub dropped: u64,
    /// Values that the record holds.
    pub retained: usize,
    /// How many it can hold.
    pub capacity: usize,
}

/// What there is to say of the record as a whole, given what it holds and how
/// many values there have been.
pub open spec fn stats_of(
    counters: Counters,
    registry: Option<RegistryView>,
    configured: usize,
) -> RegistryStats {
    RegistryStats {
        created: counters.created,
        dropped: counters.dropped,
        retained: match registry {
            Some(r) => r.entries.len() as usize,
            None => 0,
        },
        capacity: match registry {
            Some(r) => r.capacity,
            None => configured,
        },
    }
}

/// The record, as far as it is not in use by somebody else.
pub open spec fn seen(registry: Option<&Registry>) -> Option<RegistryView> {
    match registry {
        Some(r) => Some(r@),
        None => None,
    }
}

/// What there is to say of the record as a whole. If it is in use by somebody
/// else (`None`), it counts as empty, with the capacity `configured`.
pub fn stats(counters: &Counters, registry: Option<&Registry>, configured: usize) -> (stats:
    RegistryStats)
    requires
        registry matches Some(r) ==> r@.wf(),
    ensures
        stats == stats_of(*counters, seen(registry), configured),
        stats.retained == (match registry {
            Some(r) => r@.entries.len(),
            None => 0,
        }),
{
    let (retained, capacity): (usize, usize) = match registry {
        Some(registry) => (registry.entries.len(), registry.capacity),
        None => (0, configured),
    };
    RegistryStats { created: counters.created, dropped: counters.dropped, retained, capacity }
}

/// The entries of the record, oldest first; `None` if it is in use by somebody
/// else.
pub fn entries(registry: Option<&Registry>) -> (entries: Option<Vec<Entry>>)
    ensures
        entries is None <==> registry is None,
        entries matches Some(list) ==> list@ == registry->0@.entries,
{
    match registry {
        Some(registry) => {
            let mut list: Vec<Entry> = Vec::new();
            let mut i: usize = 0;
            while i < registry.entries.len()
                invariant
                    0 <= i <= registry.entries@.len(),
                    list@ == registry.entries@.take(i as int),
                decreases registry.entries@.len() - i,
            {
                list.push(registry.entries[i]);
                i = i + 1;
                assert(list@ =~= registry.entries@.take(i as int));
            }
            assert(list@ =~= registry.entries@);
            Some(list)
        },
        None => None,
    }
}

/// How many values to keep, given what was asked for: `asked` if that is the
/// notation of a positive number that fits, and otherwise
/// [`DEFAULT_CAPACITY`].
pub fn configured_capacity(asked: Option<&str>) -> (capacity: usize)
    ensures
        capacity == match asked {
            Some(text) => match meaning(text@) {
                Some(n) => if 0 < n <= usize::MAX {
                    n as usize
                } else {
                    DEFAULT_CAPACITY
                },
                None => DEFAULT_CAPACITY,
            },
            None => DEFAULT_CAPACITY,
        },
        capacity > 0,
        asked is None ==> capacity == 1024,
{
    match asked {
        Some(text) => match parse_usize(text) {
            Some(capacity) => if capacity > 0 {
                capacity
            } else {
                DEFAULT_CAPACITY
            },
            None => DEFAULT_CAPACITY,
        },
        None => DEFAULT_CAPACITY,
    }
}

} // verus!
