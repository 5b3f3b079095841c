//! Answers to `snapshot` requests of the `exfiltrate` debugging tool.
//!
//! The answer has a row for each value that the registry holds. A row says how
//! often the value changed, how far its observers are behind, and when and where
//! it came to be; never what it holds.

use exfiltrate::provider::{Row, SnapshotRequest};
use vstd::prelude::*;

use crate::decimal::{append_u64, meaning, numeral, parse_u64};
use crate::registry::{Entry, RegistryStats};

verus! {

/// `exfiltrate::provider::Row`.
#[verifier::external_type_specification]
#[verifier::external_body]
pub struct ExRow(Row);

/// `exfiltrate::provider::SnapshotRequest`.
#[verifier::external_type_specification]
#[verifier::external_body]
pub struct ExSnapshotRequest<'a>(SnapshotRequest<'a>);

/// What a field of a row says.
pub enum FieldValue {
    Number(u64),
    Flag(bool),
    Text(Seq<char>),
}

/// The fields of a row, in order: the name of each, and what it says. All of
/// them may be shown to support staff.
pub uninterp spec fn row_fields(row: Row) -> Seq<(Seq<char>, FieldValue)>;

/// `Row::new`: a row without fields.
#[verifier::external_body]
fn empty_row() -> (row: Row)
    ensures
        row_fields(row) == Seq::<(Seq<char>, FieldValue)>::empty(),
{
    Row::new()
}

/// `Row::support` with a number: one more field, at the end.
#[verifier::external_body]
fn with_number(row: Row, name: &str, number: u64) -> (longer: Row)
    ensures
        row_fields(longer) == row_fields(row).push((name@, FieldValue::Number(number))),
{
    row.support(name, number)
}

/// `Row::support` with a truth value: one more field, at the end.
#[verifier::external_body]
fn with_flag(row: Row, name: &str, flag: bool) -> (longer: Row)
    ensures
        row_fields(longer) == row_fields(row).push((name@, FieldValue::Flag(flag))),
{
    row.support(name, flag)
}

/// `Row::support` with a text: one more field, at the end.
#[verifier::external_body]
fn with_text(row: Row, name: &str, text: &str) -> (longer: Row)
    ensures
        row_fields(longer) == row_fields(row).push((name@, FieldValue::Text(text@))),
{
    row.support(name, text)
}

/// What a request selects: nothing in particular, or one thing.
pub uninterp spec fn selectors(request: SnapshotRequest<'_>) -> Seq<Seq<char>>;

/// `SnapshotRequest::selector`: what the request selects, if anything.
#[verifier::external_body]
fn selector<'a>(request: &SnapshotRequest<'a>) -> (selector: Option<&'a str>)
    ensures
        selectors(*request) == (match selector {
            Some(text) => seq![text@],
            None => Seq::empty(),
        }),
{
    request.selector()
}

/// `SnapshotRequest::should_stop`: whether the request was cancelled, or its
/// deadline has passed. That depends on the time, so nothing is said of it.
#[verifier::external_body]
fn should_stop(request: &SnapshotRequest<'_>) -> bool {
    request.should_stop()
}

/// Whether the request says, before entry number `_at` is looked at, that the
/// time is up.
fn time_is_up(request: &SnapshotRequest<'_>, _at: usize) -> (up: bool)
    ensures
        call_ensures(should_stop, (request,), up),
{
    should_stop(request)
}

/// Before entry number `at` was looked at, the request was asked whether the
/// time is up, and said `up`.
pub closed spec fn replied(request: SnapshotRequest<'_>, at: int, up: bool) -> bool {
    call_ensures(time_is_up, (&request, at as usize), up)
}

/// What counts as a reply is what the request itself said when it was asked
/// about that entry: nobody else can say that the time is up, or is not.
proof fn law_replies_are_those_of_the_request(request: SnapshotRequest<'_>, at: int, up: bool)
    requires
        replied(request, at, up),
    ensures
        call_ensures(time_is_up, (&request, at as usize), up),
        call_ensures(should_stop, (&request,), up),
{
}

/// A text in quotation marks, with whatever is not plain in it escaped.
pub uninterp spec fn quoted(text: Seq<char>) -> Seq<char>;

/// `format!("{:?}")` of a `str`.
#[verifier::external_body]
fn quote(text: &str) -> (quotation: String)
    ensures
        quotation@ == quoted(text@),
{
    format!("{:?}", text)
}

/// The milliseconds from `then` to `now`, rounded down; 0 if `then` is the
/// later of the two.
pub open spec fn millis_between(then: u64, now: u64) -> u64 {
    if now >= then {
        ((now - then) / 1_000_000) as u64
    } else {
        0
    }
}

/// The fields of the row for `entry`, at time `now`.
pub open spec fn fields_of(entry: Entry, now: u64) -> Seq<(Seq<char>, FieldValue)> {
    seq![
        ("id"@, FieldValue::Number(entry.id)),
        ("generation"@, FieldValue::Number(entry.generation)),
        ("observed_generation"@, FieldValue::Number(entry.observed_generation)),
        ("stale_by"@, FieldValue::Number(entry.lag() as u64)),
        ("live_observers"@, FieldValue::Number(entry.live_observers)),
        ("alive"@, FieldValue::Flag(entry.alive)),
        ("age_ms"@, FieldValue::Number(millis_between(entry.created, now))),
        ("created_at_file"@, FieldValue::Text(entry.created_at_file@)),
        ("created_at_line"@, FieldValue::Number(entry.created_at_line as u64)),
        match entry.last_change {
            Some(at) => ("since_change_ms"@, FieldValue::Number(millis_between(at, now))),
            None => ("never_changed"@, FieldValue::Flag(true)),
        },
    ]
}

/// The rows for those of `entries` that are `wanted`: all, or that of one
/// value.
pub open spec fn rows_of(entries: Seq<Entry>, wanted: Option<u64>, now: u64) -> Seq<
    Seq<(Seq<char>, FieldValue)>,
>
    decreases entries.len(),
{
    if entries.len() == 0 {
        Seq::empty()
    } else {
        let rest = rows_of(entries.drop_last(), wanted, now);
        if wanted is None || wanted == Some(entries.last().id) {
            rest.push(fields_of(entries.last(), now))
        } else {
            rest
        }
    }
}

/// What several rows say.
pub open spec fn all_fields(rows: Seq<Row>) -> Seq<Seq<(Seq<char>, FieldValue)>> {
    rows.map_values(|row: Row| row_fields(row))
}

/// An answer to a request.
#[derive(Debug)]
pub enum Answer {
    /// Everything that was asked for.
    Rows(Vec<Row>),
    /// Some of what was asked for, and the reason why not all.
    Partial(Vec<Row>, String),
    /// Nothing, and the reason.
    Unavailable(String),
    /// Nothing: the registry is in use.
    Busy,
}

/// What an answer says.
pub enum AnswerView {
    Rows(Seq<Seq<(Seq<char>, FieldValue)>>),
    Partial(Seq<Seq<(Seq<char>, FieldValue)>>, Seq<char>),
    Unavailable(Seq<char>),
    Busy,
}

impl View for Answer {
    type V = AnswerView;

    open spec fn view(&self) -> AnswerView {
        match self {
            Answer::Rows(rows) => AnswerView::Rows(all_fields(rows@)),
            Answer::Partial(rows, why) => AnswerView::Partial(all_fields(rows@), why@),
            Answer::Unavailable(why) => AnswerView::Unavailable(why@),
            Answer::Busy => AnswerView::Busy,
        }
    }
}

/// Why rows are missing that the registry no longer holds.
pub open spec fn loss(stats: RegistryStats) -> Seq<char> {
    "the registry has dropped "@ + numeral(stats.dropped as nat)
        + " value(s) to stay within its capacity of "@ + numeral(stats.capacity as nat)
        + "; raise AWAIT_VALUES_REGISTRY_CAPACITY to keep more"@
}

/// The answer to a request for `selector`, if the time is up when `stop`
/// entries have been looked at, and there are more.
pub open spec fn answer(
    entries: Option<Seq<Entry>>,
    stats: RegistryStats,
    selector: Option<Seq<char>>,
    stop: int,
    now: u64,
) -> AnswerView {
    match entries {
        None => AnswerView::Busy,
        Some(entries) => {
            let wanted = match selector {
                Some(text) => meaning(text),
                None => None,
            };
            if selector is Some && (wanted is None || wanted->0 > u64::MAX) {
                AnswerView::Unavailable("--id must be a value id; got "@ + quoted(selector->0))
            } else {
                let wanted = match wanted {
                    Some(id) => Some(id as u64),
                    None => None,
                };
                if 0 <= stop < entries.len() {
                    AnswerView::Partial(rows_of(entries.take(stop), wanted, now), "deadline"@)
                } else if stats.dropped > 0 {
                    AnswerView::Partial(rows_of(entries, wanted, now), loss(stats))
                } else {
                    AnswerView::Rows(rows_of(entries, wanted, now))
                }
            }
        },
    }
}

/// The entries, if there are any to be had.
pub open spec fn listed(entries: Option<Vec<Entry>>) -> Option<Seq<Entry>> {
    match entries {
        Some(list) => Some(list@),
        None => None,
    }
}

pub open spec fn text_of(text: Option<&str>) -> Option<Seq<char>> {
    match text {
        Some(text) => Some(text@),
        None => None,
    }
}

/// What a request selects, if anything.
pub open spec fn selected(request: SnapshotRequest<'_>) -> Option<Seq<char>> {
    if selectors(request).len() > 0 {
        Some(selectors(request)[0])
    } else {
        None
    }
}

fn millis(then: u64, now: u64) -> (millis: u64)
    ensures
        millis == millis_between(then, now),
{
    now.saturating_sub(then) / 1_000_000
}

/// The row for `entry`, at time `now`.
fn row_of(entry: &Entry, now: u64) -> (row: Row)
    ensures
        row_fields(row) == fields_of(*entry, now),
{
    let row = empty_row();
    let row = with_number(row, "id", entry.id);
    let row = with_number(row, "generation", entry.generation);
    let row = with_number(row, "observed_generation", entry.observed_generation);
    let row = with_number(row, "stale_by", entry.stale_by());
    let row = with_number(row, "live_observers", entry.live_observers);
    let row = with_flag(row, "alive", entry.alive);
    let row = with_number(row, "age_ms", millis(entry.created, now));
    let row = with_text(row, "created_at_file", entry.created_at_file);
    let row = with_number(row, "created_at_line", entry.created_at_line as u64);
    let row = match entry.last_change {
        Some(at) => with_number(row, "since_change_ms", millis(at, now)),
        None => with_flag(row, "never_changed", true),
    };
    assert(row_fields(row) =~= fields_of(*entry, now));
    row
}

/// The answer when all entries have been looked at.
fn whole_answer(rows: Vec<Row>, stats: RegistryStats) -> (answer: Answer)
    ensures
        answer@ == if stats.dropped > 0 {
            AnswerView::Partial(all_fields(rows@), loss(stats))
        } else {
            AnswerView::Rows(all_fields(rows@))
        },
{
    if stats.dropped > 0 {
        let mut why = "the registry has dropped ".to_owned();
        append_u64(&mut why, stats.dropped);
        why.append(" value(s) to stay within its capacity of ");
        append_u64(&mut why, stats.capacity as u64);
        why.append("; raise AWAIT_VALUES_REGISTRY_CAPACITY to keep more");
        Answer::Partial(rows, why)
    } else {
        Answer::Rows(rows)
    }
}

/// Which value a request is about: `Err` has the answer if `selector` is not
/// the id of a value.
fn wanted_value(selector: Option<&str>) -> (wanted: Result<Option<u64>, Answer>)
    ensures
        match selector {
            None => wanted == Ok::<Option<u64>, Answer>(None),
            Some(text) => match meaning(text@) {
                Some(id) if id <= u64::MAX => wanted == Ok::<Option<u64>, Answer>(Some(id as u64)),
                _ => wanted is Err && wanted->Err_0@ == AnswerView::Unavailable(
                    "--id must be a value id; got "@ + quoted(text@),
                ),
            },
        },
{
    match selector {
        Some(text) => match parse_u64(text) {
            Some(id) => Ok(Some(id)),
            None => {
                let mut why = "--id must be a value id; got ".to_owned();
                why.append(quote(text).as_str());
                Err(Answer::Unavailable(why))
            },
        },
        None => Ok(None),
    }
}

/// An answer in the making.
pub struct ListingView {
    /// The entries to look at, in order.
    pub entries: Seq<Entry>,
    /// The value that is asked about; `None` for all.
    pub wanted: Option<u64>,
    pub now: u64,
    /// How many entries have been looked at.
    pub at: int,
}

impl ListingView {
    /// The answer, if no more entries are looked at.
    pub open spec fn answer(self, stats: RegistryStats) -> AnswerView {
        let rows = rows_of(self.entries.take(self.at), self.wanted, self.now);
        if self.at < self.entries.len() {
            AnswerView::Partial(rows, "deadline"@)
        } else if stats.dropped > 0 {
            AnswerView::Partial(rows, loss(stats))
        } else {
            AnswerView::Rows(rows)
        }
    }

    /// The listing when `stop` entries have been looked at, or all.
    pub open spec fn until(self, stop: int) -> Self {
        ListingView {
            at: if 0 <= stop < self.entries.len() {
                stop
            } else {
                self.entries.len() as int
            },
            ..self
        }
    }
}

/// An answer in the making: looks at one entry at a time.
#[derive(Debug)]
pub struct Listing {
    entries: Vec<Entry>,
    wanted: Option<u64>,
    now: u64,
    at: usize,
    rows: Vec<Row>,
}

impl View for Listing {
    type V = ListingView;

    closed spec fn view(&self) -> ListingView {
        ListingView {
            entries: self.entries@,
            wanted: self.wanted,
            now: self.now,
            at: self.at as int,
        }
    }
}

impl Listing {
    /// The rows are those of the entries that have been looked at.
    pub closed spec fn wf(self) -> bool {
        &&& self.at <= self.entries@.len()
        &&& all_fields(self.rows@) == rows_of(
            self.entries@.take(self.at as int),
            self.wanted,
            self.now,
        )
    }

    /// Begins an answer to a request for `selector`. `Err` has the answer if
    /// there is nothing to list: the registry is in use, or `selector` is not
    /// the id of a value.
    pub fn begin(entries: Option<Vec<Entry>>, selector: Option<&str>, now: u64) -> (listing: Result<
        Self,
        Answer,
    >)
        ensures
            match listing {
                Ok(listing) => {
                    &&& listing.wf()
                    &&& listed(entries) == Some(listing@.entries)
                    &&& listing@.now == now
                    &&& listing@.at == 0
                    &&& forall|stats: RegistryStats, stop: int| #[trigger]
                        answer(listed(entries), stats, text_of(selector), stop, now)
                            == listing@.until(stop).answer(stats)
                },
                Err(refusal) => {
                    &&& refusal@ is Busy || refusal@ is Unavailable
                    &&& forall|stats: RegistryStats, stop: int|
                        refusal@ == #[trigger] answer(
                            listed(entries),
                            stats,
                            text_of(selector),
                            stop,
                            now,
                        )
                },
            },
    {
        let entries = match entries {
            Some(entries) => entries,
            None => {
                return Err(Answer::Busy);
            },
        };
        let wanted = match wanted_value(selector) {
            Ok(wanted) => wanted,
            Err(answer) => {
                return Err(answer);
            },
        };
        let listing = Listing { entries, wanted, now, at: 0, rows: Vec::new() };
        assert(all_fields(listing.rows@) =~= rows_of(listing.entries@.take(0), wanted, now));
        assert(listing.entries@.take(listing.entries@.len() as int) =~= listing.entries@);
        Ok(listing)
    }

    /// Whether there are entries that have not been looked at.
    pub fn has_more(&self) -> (more: bool)
        ensures
            more == (self@.at < self@.entries.len()),
    {
        self.at < self.entries.len()
    }

    /// How many entries have been looked at.
    pub fn at(&self) -> (at: usize)
        ensures
            at == self@.at,
    {
        self.at
    }

    /// Looks at the next entry, unless the time is up. Returns whether it did.
    pub fn go_on(&mut self, time_is_up: bool) -> (going: bool)
        requires
            old(self).wf(),
            old(self)@.at < old(self)@.entries.len(),
        ensures
            final(self).wf(),
            going == !time_is_up,
            final(self)@ == (ListingView {
                at: if going {
                    old(self)@.at + 1
                } else {
                    old(self)@.at
                },
                ..old(self)@
            }),
    {
        if time_is_up {
            return false;
        }
        assert(self.at < self.entries.len() <= usize::MAX);
        let entry = self.entries[self.at];
        let wanted = match self.wanted {
            Some(id) => entry.id == id,
            None => true,
        };
        proof {
            let looked_at = self.entries@.take(self.at + 1);
            assert(looked_at.drop_last() =~= self.entries@.take(self.at as int));
        }
        if wanted {
            let ghost before = self.rows@;
            self.rows.push(row_of(&entry, self.now));
            assert(all_fields(self.rows@) =~= all_fields(before).push(fields_of(entry, self.now)));
        }
        self.at = self.at + 1;
        true
    }

    /// Looks at one entry after the other, until `time_is_up` says so of the
    /// number of the next one.
    fn go_on_until<F: Fn(usize) -> bool>(self, time_is_up: F) -> (listing: Self)
        requires
            self.wf(),
            self@.at == 0,
            forall|at: usize| call_requires(time_is_up, (at,)),
        ensures
            listing.wf(),
            0 <= listing@.at <= self@.entries.len() <= usize::MAX,
            listing@ == (ListingView { at: listing@.at, ..self@ }),
            forall|at: usize|
                at < listing@.at ==> #[trigger] call_ensures(time_is_up, (at,), false),
            listing@.at < self@.entries.len() ==> call_ensures(
                time_is_up,
                (listing@.at as usize,),
                true,
            ),
    {
        let mut listing = self;
        assert(listing.entries.len() <= usize::MAX);
        let ghost begun = self@;
        let mut up: bool = false;
        while !up && listing.has_more()
            invariant
                listing.wf(),
                begun.entries.len() <= usize::MAX,
                0 <= listing@.at <= begun.entries.len(),
                listing@ == (ListingView { at: listing@.at, ..begun }),
                forall|at: usize| call_requires(time_is_up, (at,)),
                forall|at: usize|
                    at < listing@.at ==> #[trigger] call_ensures(time_is_up, (at,), false),
                up ==> call_ensures(time_is_up, (listing@.at as usize,), true),
            decreases
                    begun.entries.len() - listing@.at,
                    if up {
                        0int
                    } else {
                        1
                    },
        {
            up = time_is_up(listing.at());
            listing.go_on(up);
        }
        listing
    }

    /// The answer, if no more entries are looked at.
    pub fn finish(self, stats: RegistryStats) -> (answer: Answer)
        requires
            self.wf(),
        ensures
            answer@ == self@.answer(stats),
    {
        if self.at < self.entries.len() {
            Answer::Partial(self.rows, "deadline".to_owned())
        } else {
            whole_answer(self.rows, stats)
        }
    }
}

/// Answers a request for `selector`, if the time is up when `stop` entries have
/// been looked at, and there are more.
pub fn snapshot_given(
    entries: Option<Vec<Entry>>,
    stats: RegistryStats,
    selector: Option<&str>,
    stop: usize,
    now: u64,
) -> (answer: Answer)
    ensures
        answer@ == self::answer(
            listed(entries),
            stats,
            text_of(selector),
            stop as int,
            now,
        ),
{
    let listing = match Listing::begin(entries, selector, now) {
        Ok(listing) => listing,
        Err(answer) => {
            return answer;
        },
    };
    let ghost begun = listing@;
    let at_the_stop = |at: usize| -> (up: bool)
        ensures
            up == (at == stop),
        { at == stop };
    let listing = listing.go_on_until(at_the_stop);
    assert(stop < listing@.at ==> call_ensures(at_the_stop, (stop,), false));
    assert(listing@ == begun.until(stop as int));
    listing.finish(stats)
}

/// Answers a request. How far it gets depends on the time that the request
/// allows. It is asked before each entry, and the answer is cut short where it
/// says that the time is up, and nowhere else.
pub fn snapshot(
    request: &SnapshotRequest<'_>,
    entries: Option<Vec<Entry>>,
    stats: RegistryStats,
    now: u64,
) -> (answer: Answer)
    ensures
        exists|stop: int|
            {
                &&& answer@ == #[trigger] self::answer(
                    listed(entries),
                    stats,
                    selected(*request),
                    stop,
                    now,
                )
                &&& answer@ is Rows || answer@ is Partial ==> {
                    &&& 0 <= stop <= entries->0@.len()
                    &&& forall|at: int| 0 <= at < stop ==> #[trigger] replied(*request, at, false)
                    &&& stop < entries->0@.len() ==> replied(*request, stop, true)
                }
            },
{
    let selector = selector(request);
    assert(text_of(selector) == selected(*request));
    let listing = match Listing::begin(entries, selector, now) {
        Ok(listing) => listing,
        Err(answer) => {
            assert(answer@ == self::answer(listed(entries), stats, selected(*request), 0, now));
            return answer;
        },
    };
    let ghost begun = listing@;
    let at_its_word = |at: usize| -> (up: bool)
        ensures
            replied(*request, at as int, up),
        { time_is_up(request, at) };
    let listing = listing.go_on_until(at_its_word);
    let ghost stop = listing@.at;
    assert(listing@ == begun.until(stop));
    assert forall|at: int| 0 <= at < stop implies #[trigger] replied(*request, at, false) by {
        assert(call_ensures(at_its_word, (at as usize,), false));
    }
    let answer = listing.finish(stats);
    assert(answer@ == self::answer(listed(entries), stats, selected(*request), stop, now));
    answer
}

/// A row has these fields and no others, so it cannot tell what the value
/// holds; and of the last two just one is there, so "never set" cannot be
/// mistaken for "unchanged for long".
pub proof fn law_rows_have_these_fields(entry: Entry, now: u64)
    ensures
        fields_of(entry, now).map_values(|field: (Seq<char>, FieldValue)| field.0) == seq![
            "id"@,
            "generation"@,
            "observed_generation"@,
            "stale_by"@,
            "live_observers"@,
            "alive"@,
            "age_ms"@,
            "created_at_file"@,
            "created_at_line"@,
            if entry.last_change is Some {
                "since_change_ms"@
            } else {
                "never_changed"@
            },
        ],
{
    let names = fields_of(entry, now).map_values(|field: (Seq<char>, FieldValue)| field.0);
    assert(names =~= seq![
        "id"@,
        "generation"@,
        "observed_generation"@,
        "stale_by"@,
        "live_observers"@,
        "alive"@,
        "age_ms"@,
        "created_at_file"@,
        "created_at_line"@,
        if entry.last_change is Some {
            "since_change_ms"@
        } else {
            "never_changed"@
        },
    ]);
}

/// Without a selector, there is a row for each entry, in the same order.
pub proof fn law_every_entry_has_a_row(entries: Seq<Entry>, now: u64)
    ensures
        rows_of(entries, None, now).len() == entries.len(),
        forall|i: int|
            0 <= i < entries.len() ==> rows_of(entries, None, now)[i] == fields_of(
                #[trigger] entries[i],
                now,
            ),
    decreases entries.len(),
{
    if entries.len() > 0 {
        let rest = entries.drop_last();
        law_every_entry_has_a_row(rest, now);
        assert forall|i: int| 0 <= i < entries.len() implies rows_of(entries, None, now)[i]
            == fields_of(#[trigger] entries[i], now) by {
            if i < rest.len() {
                assert(rest[i] == entries[i]);
            }
        }
    }
}

/// With a selector, there is one row, that of the value that it selects; none,
/// if the registry does not hold that value.
pub proof fn law_a_selector_selects_one_value(entries: Seq<Entry>, id: u64, now: u64)
    requires
        forall|i: int, j: int|
            #![trigger entries[i], entries[j]]
            0 <= i < j < entries.len() ==> entries[i].id != entries[j].id,
    ensures
        (forall|i: int| 0 <= i < entries.len() ==> (#[trigger] entries[i]).id != id) ==> rows_of(
            entries,
            Some(id),
            now,
        ) == Seq::<Seq<(Seq<char>, FieldValue)>>::empty(),
        forall|i: int|
            0 <= i < entries.len() && (#[trigger] entries[i]).id == id ==> rows_of(
                entries,
                Some(id),
                now,
            ) == seq![fields_of(entries[i], now)],
    decreases entries.len(),
{
    if entries.len() > 0 {
        let rest = entries.drop_last();
        assert forall|i: int, j: int| 0 <= i < j < rest.len() implies (#[trigger] rest[i]).id != (
        #[trigger] rest[j]).id by {
            assert(rest[i] == entries[i] && rest[j] == entries[j]);
        }
        law_a_selector_selects_one_value(rest, id, now);
        let rows = rows_of(entries, Some(id), now);
        if entries.last().id == id {
            assert forall|i: int| 0 <= i < rest.len() implies (#[trigger] rest[i]).id != id by {
                assert(rest[i] == entries[i]);
            }
            assert(rows =~= seq![fields_of(entries.last(), now)]);
        } else {
            if forall|i: int| 0 <= i < entries.len() ==> (#[trigger] entries[i]).id != id {
                assert forall|i: int| 0 <= i < rest.len() implies (#[trigger] rest[i]).id != id by {
                    assert(rest[i] == entries[i]);
                }
            }
            assert forall|i: int| 0 <= i < entries.len() && (#[trigger] entries[i]).id == id implies
                rows == seq![fields_of(entries[i], now)] by {
                assert(rest[i] == entries[i]);
            }
        }
    }
}

} // verus!
