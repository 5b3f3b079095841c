//! What a report of the registry tells, and what it cannot tell.
//!
//! A [`Process`] is everything that a report depends on, and more: all values
//! that have been created, with what they hold, the registry, and its counters.
//! It changes by [`Deed`]s, in any order. Calls and steps at one value, and the
//! recording of what has happened to it, may come between those at another, and
//! the registry may be in use by somebody else at any time.

use exfiltrate::provider::{Row, SnapshotRequest};
use vstd::prelude::*;

use crate::decimal::{law_numerals_are_read_back, meaning, numeral};
use crate::exfiltrate_provider::{
    all_fields, answer, fields_of, listed, loss, millis_between, quoted, row_fields, rows_of,
    selected, selectors, text_of, Answer, AnswerView, FieldValue, ListingView,
};
use crate::registry::{stats_of, Counters, Entry, Event, RegistryStats, RegistryView};
use crate::value::ValueView;
use crate::value_laws::{alike, Call};

verus! {

/// All values, and what is recorded of them. `T` has everything that any of
/// them may hold.
pub struct Process<T> {
    /// Every value that has been created.
    pub values: Seq<ValueView<T>>,
    pub registry: RegistryView,
    pub counters: Counters,
}

/// Something that is done in a process.
pub enum Deed<T> {
    /// A value that holds `first` is created, at `line` of `file` and at time
    /// `now`. If the registry is in use it is not recorded.
    Create { first: T, file: &'static str, line: u32, now: u64, in_use: bool },
    /// Something is done to value number `which`.
    Do { which: int, call: Call<T> },
    /// What has happened to value number `which` is recorded: each event at its
    /// time, unless the registry is in use just then.
    Report { which: int, times: Seq<u64>, skipped: Seq<bool> },
}

/// The registry once all of `events` have been recorded of value `id`, each at
/// its time, except those that came when it was in use.
pub open spec fn recorded(
    registry: RegistryView,
    id: u64,
    events: Seq<Event>,
    times: Seq<u64>,
    skipped: Seq<bool>,
) -> RegistryView
    decreases events.len(),
{
    if events.len() == 0 {
        registry
    } else {
        let last = events.len() - 1;
        let before = recorded(registry, id, events.drop_last(), times, skipped);
        if skipped[last] {
            before
        } else {
            before.after(id, events[last], times[last])
        }
    }
}

impl<T> Process<T> {
    /// No values yet, and an empty registry.
    pub open spec fn start(capacity: usize) -> Self {
        Process {
            values: Seq::empty(),
            registry: RegistryView { capacity, entries: Seq::empty() },
            counters: Counters { created: 0, dropped: 0, next_id: 1 },
        }
    }

    /// The process after `deed`.
    pub open spec fn after(self, deed: Deed<T>) -> Self {
        match deed {
            Deed::Create { first, file, line, now, in_use } => {
                let id = self.counters.next_id;
                let pushed = self.registry.pushed(Entry::fresh(id, file, line, now));
                Process {
                    values: self.values.push(ValueView::start(first, Some(id))),
                    registry: if in_use {
                        self.registry
                    } else {
                        pushed
                    },
                    counters: self.counters.after_creation(
                        if in_use {
                            1
                        } else {
                            (self.registry.entries.len() + 1 - pushed.entries.len()) as u64
                        },
                    ),
                }
            },
            Deed::Do { which, call } => if 0 <= which < self.values.len() {
                Process {
                    values: self.values.update(which, call.made(self.values[which])),
                    ..self
                }
            } else {
                self
            },
            Deed::Report { which, times, skipped } => if 0 <= which < self.values.len()
                && self.values[which].registry_id is Some {
                let value = self.values[which];
                Process {
                    values: self.values.update(
                        which,
                        ValueView { events: Seq::empty(), ..value },
                    ),
                    registry: recorded(
                        self.registry,
                        value.registry_id->0,
                        value.events,
                        times,
                        skipped,
                    ),
                    ..self
                }
            } else {
                self
            },
        }
    }

    /// The process after all of `deeds`.
    pub open spec fn after_all(self, deeds: Seq<Deed<T>>) -> Self
        decreases deeds.len(),
    {
        if deeds.len() == 0 {
            self
        } else {
            self.after_all(deeds.drop_last()).after(deeds.last())
        }
    }

    /// The answer to a request for `selector`, at time `now`, if the time is up
    /// when `stop` entries have been looked at. The registry may be in use when
    /// its entries are asked for, or when its figures are.
    pub open spec fn report(
        self,
        listing_in_use: bool,
        stats_in_use: bool,
        configured: usize,
        selector: Option<Seq<char>>,
        stop: int,
        now: u64,
    ) -> AnswerView {
        answer(
            if listing_in_use {
                None
            } else {
                Some(self.registry.entries)
            },
            stats_of(
                self.counters,
                if stats_in_use {
                    None
                } else {
                    Some(self.registry)
                },
                configured,
            ),
            selector,
            stop,
            now,
        )
    }
}

impl<T> Deed<T> {
    /// The same deed, but for what values hold and are set to.
    pub open spec fn like<U>(self, other: Deed<U>) -> bool {
        match (self, other) {
            (
                Deed::Create { first: _, file, line, now, in_use },
                Deed::Create { first: _, file: file2, line: line2, now: now2, in_use: in_use2 },
            ) => file == file2 && line == line2 && now == now2 && in_use == in_use2,
            (
                Deed::Do { which, call },
                Deed::Do { which: which2, call: call2 },
            ) => which == which2 && call.like(call2),
            (
                Deed::Report { which, times, skipped },
                Deed::Report { which: which2, times: times2, skipped: skipped2 },
            ) => which == which2 && times == times2 && skipped == skipped2,
            _ => false,
        }
    }
}

/// Two processes are the same but for what their values hold.
pub open spec fn same_but_for_contents<T, U>(a: Process<T>, b: Process<U>) -> bool {
    &&& a.values.len() == b.values.len()
    &&& forall|i: int|
        #![trigger a.values[i]]
        #![trigger b.values[i]]
        0 <= i < a.values.len() ==> alike(a.values[i], b.values[i])
    &&& a.registry == b.registry
    &&& a.counters == b.counters
}

/// What the values hold leaves no trace in a process: after the same deeds, two
/// processes are the same but for that.
pub proof fn law_contents_leave_no_trace_anywhere<T, U>(
    a: Process<T>,
    b: Process<U>,
    a_deeds: Seq<Deed<T>>,
    b_deeds: Seq<Deed<U>>,
)
    requires
        same_but_for_contents(a, b),
        a_deeds.len() == b_deeds.len(),
        forall|k: int| 0 <= k < a_deeds.len() ==> (#[trigger] a_deeds[k]).like(b_deeds[k]),
    ensures
        same_but_for_contents(a.after_all(a_deeds), b.after_all(b_deeds)),
    decreases a_deeds.len(),
{
    if a_deeds.len() > 0 {
        let a_rest = a_deeds.drop_last();
        let b_rest = b_deeds.drop_last();
        assert forall|k: int| 0 <= k < a_rest.len() implies (#[trigger] a_rest[k]).like(
            b_rest[k],
        ) by {
            assert(a_deeds[k].like(b_deeds[k]));
        }
        law_contents_leave_no_trace_anywhere(a, b, a_rest, b_rest);
        assert(a_deeds[a_deeds.len() - 1].like(b_deeds[b_deeds.len() - 1]));
        let a_before = a.after_all(a_rest);
        let b_before = b.after_all(b_rest);
        let a_after = a_before.after(a_deeds.last());
        let b_after = b_before.after(b_deeds.last());
        match a_deeds.last() {
            Deed::Do { which, call } => {
                if 0 <= which < a_before.values.len() {
                    assert(alike(a_before.values[which], b_before.values[which]));
                }
            },
            Deed::Report { which, times, skipped } => {
                if 0 <= which < a_before.values.len() {
                    assert(alike(a_before.values[which], b_before.values[which]));
                }
            },
            _ => {},
        }
        assert forall|i: int|
            #![trigger a_after.values[i]]
            #![trigger b_after.values[i]]
            0 <= i < a_after.values.len() implies alike(a_after.values[i], b_after.values[i]) by {
            if i < a_before.values.len() {
                assert(alike(a_before.values[i], b_before.values[i]));
            }
        }
    }
}

/// What the values of a process hold is never reported: however many values
/// there are, whatever is done to them in whatever order, and whenever the
/// registry was in use, the answer to a request is the same as if they had held
/// something else.
pub proof fn law_contents_are_never_reported<T, U>(
    capacity: usize,
    a_deeds: Seq<Deed<T>>,
    b_deeds: Seq<Deed<U>>,
    listing_in_use: bool,
    stats_in_use: bool,
    configured: usize,
    selector: Option<Seq<char>>,
    stop: int,
    now: u64,
)
    requires
        a_deeds.len() == b_deeds.len(),
        forall|k: int| 0 <= k < a_deeds.len() ==> (#[trigger] a_deeds[k]).like(b_deeds[k]),
    ensures
        Process::<T>::start(capacity).after_all(a_deeds).report(
            listing_in_use,
            stats_in_use,
            configured,
            selector,
            stop,
            now,
        ) == Process::<U>::start(capacity).after_all(b_deeds).report(
            listing_in_use,
            stats_in_use,
            configured,
            selector,
            stop,
            now,
        ),
{
    law_contents_leave_no_trace_anywhere(
        Process::<T>::start(capacity),
        Process::<U>::start(capacity),
        a_deeds,
        b_deeds,
    );
}

/// Times are told in whole milliseconds that have passed, and none if the
/// moment is still to come.
pub proof fn law_milliseconds_are_whole_and_past(then: u64, now: u64)
    ensures
        then <= now ==> millis_between(then, now) * 1_000_000 <= now - then < (millis_between(
            then,
            now,
        ) + 1) * 1_000_000,
        then > now ==> millis_between(then, now) == 0,
{
}

/// A row tells what was recorded: each field that is named after a part of the
/// entry says what that part is, and how far observers are behind is what the
/// generation that was observed is short of the generation.
pub proof fn law_rows_tell_what_was_recorded(entry: Entry, now: u64)
    ensures
        ({
            let fields = fields_of(entry, now);
            &&& fields.len() == 10
            &&& fields[0] == ("id"@, FieldValue::Number(entry.id))
            &&& fields[1] == ("generation"@, FieldValue::Number(entry.generation))
            &&& fields[2] == ("observed_generation"@, FieldValue::Number(entry.observed_generation))
            &&& fields[3].0 == "stale_by"@
            &&& fields[3].1 is Number
            &&& entry.observed_generation <= entry.generation ==> fields[3].1->Number_0
                + fields[2].1->Number_0 == fields[1].1->Number_0
            &&& entry.observed_generation > entry.generation ==> fields[3].1->Number_0 == 0
            &&& fields[4] == ("live_observers"@, FieldValue::Number(entry.live_observers))
            &&& fields[5] == ("alive"@, FieldValue::Flag(entry.alive))
            &&& fields[6].0 == "age_ms"@
            &&& fields[7] == ("created_at_file"@, FieldValue::Text(entry.created_at_file@))
            &&& fields[8].0 == "created_at_line"@
            &&& fields[8].1 is Number
            &&& fields[8].1->Number_0 == entry.created_at_line
        }),
{
}

/// A row tells how long ago the value came to be, and how long ago it was last
/// set, if it ever was, and otherwise that it never was.
pub proof fn law_rows_tell_how_long_ago(entry: Entry, now: u64)
    ensures
        ({
            let age = fields_of(entry, now)[6];
            let change = fields_of(entry, now)[9];
            &&& age.0 == "age_ms"@
            &&& age.1 is Number
            &&& entry.created <= now ==> age.1->Number_0 * 1_000_000 <= now - entry.created < (
            age.1->Number_0 + 1) * 1_000_000
            &&& entry.created > now ==> age.1->Number_0 == 0
            &&& entry.last_change is None ==> change == ("never_changed"@, FieldValue::Flag(true))
            &&& entry.last_change matches Some(at) ==> {
                &&& change.0 == "since_change_ms"@
                &&& change.1 is Number
                &&& at <= now ==> change.1->Number_0 * 1_000_000 <= now - at < (change.1->Number_0
                    + 1) * 1_000_000
                &&& at > now ==> change.1->Number_0 == 0
            }
        }),
{
}

/// The rows are those of the entries that are wanted, one each, in the order of
/// the entries: all of them, or those of one value.
pub proof fn law_rows_are_those_wanted(entries: Seq<Entry>, wanted: Option<u64>, now: u64)
    ensures
        rows_of(entries, wanted, now) == entries.filter(
            |entry: Entry| wanted is None || entry.id == wanted->0,
        ).map_values(|entry: Entry| fields_of(entry, now)),
    decreases entries.len(),
{
    reveal(Seq::filter);
    let wants = |entry: Entry| wanted is None || entry.id == wanted->0;
    let shows = |entry: Entry| fields_of(entry, now);
    if entries.len() > 0 {
        law_rows_are_those_wanted(entries.drop_last(), wanted, now);
        let rest = entries.drop_last().filter(wants);
        assert(rest.push(entries.last()).map_values(shows) =~= rest.map_values(shows).push(
            fields_of(entries.last(), now),
        ));
    }
    assert(rows_of(entries, wanted, now) =~= entries.filter(wants).map_values(shows));
}

/// A registry that is in use is said to be; and nothing else is.
pub proof fn law_busy_means_in_use(
    entries: Option<Seq<Entry>>,
    stats: RegistryStats,
    selector: Option<Seq<char>>,
    stop: int,
    now: u64,
)
    ensures
        answer(entries, stats, selector, stop, now) == AnswerView::Busy <==> entries is None,
{
}

/// A request that selects what is not the id of a value is turned down, and told
/// what it asked for; and no other is.
pub proof fn law_only_ids_can_be_selected(
    entries: Seq<Entry>,
    stats: RegistryStats,
    selector: Option<Seq<char>>,
    stop: int,
    now: u64,
)
    ensures
        answer(Some(entries), stats, selector, stop, now) is Unavailable <==> selector is Some && (
        meaning(selector->0) is None || meaning(selector->0)->0 > u64::MAX),
        answer(Some(entries), stats, selector, stop, now) is Unavailable ==> answer(
            Some(entries),
            stats,
            selector,
            stop,
            now,
        ) == AnswerView::Unavailable("--id must be a value id; got "@ + quoted(selector->0)),
{
}

/// An answer is complete unless it says why not. If the time was not up before
/// all entries had been looked at, all that was asked for is there, and if the
/// registry has forgotten nothing, that is all there is to say. If it has
/// forgotten something, the answer says so, and how much; and if the time was
/// up, it has what was found until then, and says that.
pub proof fn law_answers_are_complete_or_say_why(
    entries: Seq<Entry>,
    stats: RegistryStats,
    wanted: Option<u64>,
    stop: int,
    now: u64,
)
    ensures
        ({
            let selector = match wanted {
                Some(id) => Some(numeral(id as nat)),
                None => None,
            };
            let wants = |entry: Entry| wanted is None || entry.id == wanted->0;
            let shows = |entry: Entry| fields_of(entry, now);
            let said = answer(Some(entries), stats, selector, stop, now);
            if 0 <= stop < entries.len() {
                said == AnswerView::Partial(
                    entries.take(stop).filter(wants).map_values(shows),
                    "deadline"@,
                )
            } else if stats.dropped > 0 {
                said == AnswerView::Partial(
                    entries.filter(wants).map_values(shows),
                    "the registry has dropped "@ + numeral(stats.dropped as nat)
                        + " value(s) to stay within its capacity of "@ + numeral(
                        stats.capacity as nat,
                    ) + "; raise AWAIT_VALUES_REGISTRY_CAPACITY to keep more"@,
                )
            } else {
                said == AnswerView::Rows(entries.filter(wants).map_values(shows))
            }
        }),
{
    if wanted is Some {
        law_numerals_are_read_back(wanted->0 as nat);
    }
    law_rows_are_those_wanted(entries, wanted, now);
    law_rows_are_those_wanted(entries.take(stop), wanted, now);
}

/// Whatever notation the id has, the answer is that to the value of that id.
pub proof fn law_notations_of_an_id_are_alike(
    entries: Option<Seq<Entry>>,
    stats: RegistryStats,
    selector: Seq<char>,
    stop: int,
    now: u64,
)
    requires
        meaning(selector) is Some,
        meaning(selector)->0 <= u64::MAX,
    ensures
        answer(entries, stats, Some(selector), stop, now) == answer(
            entries,
            stats,
            Some(numeral(meaning(selector)->0)),
            stop,
            now,
        ),
{
    law_numerals_are_read_back(meaning(selector)->0);
}

/// What an answer says is what it was made of: the fields of each of its rows,
/// in order, and the reason that it gives.
pub proof fn law_answers_say_what_they_hold(rows: Vec<Row>, why: String)
    ensures
        all_fields(rows@).len() == rows@.len(),
        forall|i: int|
            0 <= i < rows@.len() ==> #[trigger] all_fields(rows@)[i] == row_fields(rows@[i]),
        Answer::Rows(rows)@ == AnswerView::Rows(all_fields(rows@)),
        Answer::Partial(rows, why)@ == AnswerView::Partial(all_fields(rows@), why@),
        Answer::Unavailable(why)@ == AnswerView::Unavailable(why@),
        Answer::Busy@ == AnswerView::Busy,
{
}

/// What is asked for and what there is to list go into the answer as they are.
pub proof fn law_nothing_is_lost_on_the_way(
    entries: Vec<Entry>,
    text: &str,
    request: SnapshotRequest<'_>,
)
    ensures
        listed(Some(entries)) == Some(entries@),
        listed(None::<Vec<Entry>>) is None,
        text_of(Some(text)) == Some(text@),
        text_of(None::<&str>) is None,
        selectors(request).len() == 0 ==> selected(request) is None,
        selectors(request).len() == 1 ==> selected(request) == Some(selectors(request)[0]),
{
}

/// An answer in the making that is ended now has the rows of the entries that
/// have been looked at, and is cut short if there are more.
pub proof fn law_a_listing_answers_for_what_it_looked_at(
    listing: ListingView,
    stats: RegistryStats,
    stop: int,
)
    requires
        0 <= listing.at <= listing.entries.len(),
    ensures
        ({
            let rows = rows_of(listing.entries.take(listing.at), listing.wanted, listing.now);
            let said = listing.answer(stats);
            if listing.at < listing.entries.len() {
                said == AnswerView::Partial(rows, "deadline"@)
            } else if stats.dropped > 0 {
                said is Partial && said->Partial_0 == rows && said->Partial_1 != "deadline"@
            } else {
                said == AnswerView::Rows(rows)
            }
        }),
        ({
            let later = listing.until(stop);
            &&& later.entries == listing.entries
            &&& later.wanted == listing.wanted
            &&& later.now == listing.now
            &&& 0 <= stop < listing.entries.len() ==> later.at == stop
            &&& !(0 <= stop < listing.entries.len()) ==> later.at == listing.entries.len()
        }),
{
    if listing.at == listing.entries.len() && stats.dropped > 0 {
        reveal_strlit("deadline");
        reveal_strlit("the registry has dropped ");
        assert(loss(stats)[0] == 't');
    }
}

} // verus!
