//! Watching several values, of whatever types, at once.
//!
//! An [`AggregateObserver`] decides; somebody else has the observers, asks them
//! and tells it what they found. It says which observer to ask next
//! ([`Turn::Ask`]) until it has something to give out: the index of an observer
//! that found something.

use vstd::prelude::*;

use crate::observer::Observation;

verus! {

/// What an aggregate observer wants.
#[derive(Clone, Copy, Debug, PartialEq, Eq, Structural)]
pub enum Turn {
    /// Ask observer number so-and-so.
    Ask(usize),
    /// Give out this index: its value changed, or has just hung up.
    Yield(usize),
    /// Wait: nothing is new.
    Pending,
    /// Stop: all values have hung up.
    Ended,
}

/// What to do when the observers before `from` have found nothing: ask the next
/// one whose value has not hung up.
pub open spec fn turn_from(ended: Seq<bool>, from: int) -> Turn
    decreases ended.len() - from,
{
    if from < 0 || from >= ended.len() {
        if ended.len() > 0 && forall|i: int| 0 <= i < ended.len() ==> #[trigger] ended[i] {
            Turn::Ended
        } else {
            Turn::Pending
        }
    } else if !ended[from] {
        Turn::Ask(from as usize)
    } else {
        turn_from(ended, from + 1)
    }
}

/// Observer `i` is to be asked, and finds something.
pub open spec fn ready(ended: Seq<bool>, found: Seq<Observation>, i: int) -> bool {
    !ended[i] && found[i] !is Unchanged
}

/// What one poll gives, if observer `i`, when asked, finds `found[i]`: the
/// lowest index whose observer finds something.
pub open spec fn gives(ended: Seq<bool>, found: Seq<Observation>, turn: Turn) -> bool {
    match turn {
        Turn::Ask(_) => false,
        Turn::Yield(i) => {
            &&& 0 <= i < ended.len()
            &&& ready(ended, found, i as int)
            &&& forall|j: int| 0 <= j < i ==> !#[trigger] ready(ended, found, j)
        },
        Turn::Pending => {
            &&& forall|j: int| 0 <= j < ended.len() ==> !#[trigger] ready(ended, found, j)
            &&& ended.len() == 0 || exists|j: int| 0 <= j < ended.len() && !#[trigger] ended[j]
        },
        Turn::Ended => {
            &&& ended.len() > 0
            &&& forall|j: int| 0 <= j < ended.len() ==> #[trigger] ended[j]
        },
    }
}

/// Which values have hung up, after a poll that gave `turn`.
pub open spec fn ended_after(ended: Seq<bool>, found: Seq<Observation>, turn: Turn) -> Seq<bool> {
    match turn {
        Turn::Yield(i) => if found[i as int] is Hangup {
            ended.update(i as int, true)
        } else {
            ended
        },
        _ => ended,
    }
}

/// Watches several values at once.
#[derive(Debug)]
pub struct AggregateObserver {
    /// For each observer, whether it has found that its value has hung up.
    ended: Vec<bool>,
}

impl View for AggregateObserver {
    type V = Seq<bool>;

    /// For each observer, whether it has found that its value has hung up.
    closed spec fn view(&self) -> Seq<bool> {
        self.ended@
    }
}

impl AggregateObserver {
    /// Watches nothing yet.
    pub fn new() -> (aggregate: Self)
        ensures
            aggregate@ == Seq::<bool>::empty(),
    {
        AggregateObserver { ended: Vec::new() }
    }

    /// One more observer. Returns its index.
    pub fn add_observer(&mut self) -> (index: usize)
        ensures
            index == old(self)@.len(),
            final(self)@ == old(self)@.push(false),
    {
        let index: usize = self.ended.len();
        self.ended.push(false);
        index
    }

    /// How many observers there are.
    pub fn len(&self) -> (len: usize)
        ensures
            len == self@.len(),
    {
        self.ended.len()
    }

    /// What to do when the observers before `from` have found nothing.
    fn turn_from(&self, from: usize) -> (turn: Turn)
        requires
            from <= self@.len(),
        ensures
            turn == turn_from(self@, from as int),
    {
        let mut i: usize = from;
        while i < self.ended.len()
            invariant
                from <= i <= self.ended@.len(),
                turn_from(self@, i as int) == turn_from(self@, from as int),
            decreases self.ended@.len() - i,
        {
            if !self.ended[i] {
                return Turn::Ask(i);
            }
            i = i + 1;
        }
        let mut k: usize = 0;
        while k < self.ended.len()
            invariant
                0 <= k <= self.ended@.len(),
                i == self.ended@.len(),
                turn_from(self@, i as int) == turn_from(self@, from as int),
                forall|j: int| 0 <= j < k ==> #[trigger] self@[j],
            decreases self.ended@.len() - k,
        {
            if !self.ended[k] {
                assert(!self@[k as int]);
                return Turn::Pending;
            }
            k = k + 1;
        }
        if k > 0 {
            Turn::Ended
        } else {
            Turn::Pending
        }
    }

    /// Begins a poll.
    pub fn begin(&self) -> (turn: Turn)
        ensures
            turn == turn_from(self@, 0),
    {
        self.turn_from(0)
    }

    /// Goes on with a poll: observer `index`, which was to be asked, found
    /// `found`.
    pub fn answer(&mut self, index: usize, found: Observation) -> (turn: Turn)
        requires
            index < old(self)@.len(),
        ensures
            turn == (match found {
                Observation::Unchanged => turn_from(old(self)@, index + 1),
                _ => Turn::Yield(index),
            }),
            final(self)@ == (match found {
                Observation::Hangup => old(self)@.update(index as int, true),
                _ => old(self)@,
            }),
    {
        assert(index < self.ended.len() <= usize::MAX);
        match found {
            Observation::NewValue => Turn::Yield(index),
            Observation::Hangup => {
                self.ended.set(index, true);
                Turn::Yield(index)
            },
            Observation::Unchanged => self.turn_from(index + 1),
        }
    }

    /// A whole poll, if observer `i`, when asked, finds `found[i]`.
    pub fn next(&mut self, found: &Vec<Observation>) -> (turn: Turn)
        requires
            found@.len() == old(self)@.len(),
        ensures
            gives(old(self)@, found@, turn),
            final(self)@ == ended_after(old(self)@, found@, turn),
    {
        assert(self@.len() == self.ended.len() <= usize::MAX);
        let mut turn = self.begin();
        let ghost mut at = 0int;
        loop
            invariant
                self@.len() <= usize::MAX,
                found@.len() == self@.len(),
                self@ == old(self)@,
                0 <= at <= self@.len(),
                turn == turn_from(self@, at),
                forall|j: int| 0 <= j < at ==> !#[trigger] ready(self@, found@, j),
            decreases self@.len() - at,
        {
            proof {
                law_nobody_is_passed_over(self@, at);
            }
            match turn {
                Turn::Ask(index) => {
                    assert(forall|j: int|
                        at <= j < index ==> !#[trigger] ready(self@, found@, j));
                    proof {
                        law_nobody_is_passed_over(self@, index + 1);
                    }
                    turn = self.answer(index, found[index]);
                    match turn {
                        Turn::Yield(_) => {
                            return turn;
                        },
                        _ => {},
                    }
                    proof {
                        at = index + 1;
                    }
                },
                _ => {
                    return turn;
                },
            }
        }
    }

    /// Whether one of the observers has something to give out, or its value has
    /// hung up, if `dirty` says so of each.
    pub fn is_dirty(&self, dirty: &Vec<bool>) -> (any: bool)
        requires
            dirty@.len() == self@.len(),
        ensures
            any <==> exists|i: int| 0 <= i < dirty@.len() && #[trigger] dirty@[i],
    {
        let mut i: usize = 0;
        while i < dirty.len()
            invariant
                0 <= i <= dirty@.len(),
                forall|j: int| 0 <= j < i ==> !#[trigger] dirty@[j],
            decreases dirty@.len() - i,
        {
            if dirty[i] {
                assert(dirty@[i as int]);
                return true;
            }
            i = i + 1;
        }
        false
    }
}

impl Clone for AggregateObserver {
    fn clone(&self) -> (copy: Self)
        ensures
            copy@ == self@,
    {
        let copy = AggregateObserver { ended: self.ended.clone() };
        assert(copy@ =~= self@);
        copy
    }
}

impl Default for AggregateObserver {
    /// Watches nothing yet.
    fn default() -> (aggregate: Self)
        ensures
            aggregate@ == Seq::<bool>::empty(),
    {
        AggregateObserver::new()
    }
}

/// Whoever is asked is the next whose value has not hung up, and nobody is left
/// out: when nobody is asked any more, the values of all others have hung up.
/// The end comes only if those of all have.
pub proof fn law_nobody_is_passed_over(ended: Seq<bool>, from: int)
    requires
        0 <= from <= ended.len(),
        ended.len() <= usize::MAX,
    ensures
        match turn_from(ended, from) {
            Turn::Ask(i) => {
                &&& from <= i < ended.len()
                &&& !ended[i as int]
                &&& forall|j: int| from <= j < i ==> #[trigger] ended[j]
            },
            Turn::Yield(_) => false,
            Turn::Pending => {
                &&& forall|j: int| from <= j < ended.len() ==> #[trigger] ended[j]
                &&& ended.len() == 0 || exists|j: int|
                    0 <= j < ended.len() && !#[trigger] ended[j]
            },
            Turn::Ended => {
                &&& ended.len() > 0
                &&& forall|j: int| 0 <= j < ended.len() ==> #[trigger] ended[j]
            },
        },
    decreases ended.len() - from,
{
    if from < ended.len() && ended[from] {
        law_nobody_is_passed_over(ended, from + 1);
    }
}

/// What a poll gives is determined by what the observers find.
pub proof fn law_polls_are_determined(
    ended: Seq<bool>,
    found: Seq<Observation>,
    turn: Turn,
    other: Turn,
)
    requires
        gives(ended, found, turn),
        gives(ended, found, other),
    ensures
        turn == other,
{
    match (turn, other) {
        (Turn::Yield(i), Turn::Yield(j)) => {
            assert(ready(ended, found, i as int));
            assert(ready(ended, found, j as int));
        },
        (Turn::Yield(i), _) => {
            assert(ready(ended, found, i as int));
        },
        (_, Turn::Yield(j)) => {
            assert(ready(ended, found, j as int));
        },
        _ => {},
    }
}

/// A change is given out at once, and so is a hang-up, whoever else has hung up
/// before: the index is the lowest of those whose values have not been found
/// hung up and whose observers find something. If there is none, no index is
/// given.
pub proof fn law_the_lowest_index_is_given_at_once(
    ended: Seq<bool>,
    found: Seq<Observation>,
    turn: Turn,
)
    requires
        found.len() == ended.len(),
        gives(ended, found, turn),
    ensures
        turn !is Ask,
        forall|i: int|
            #![trigger ended[i]]
            #![trigger found[i]]
            0 <= i < ended.len() && !ended[i] && found[i] != Observation::Unchanged
                ==> turn is Yield && turn->Yield_0 <= i,
        turn matches Turn::Yield(k) ==> k < ended.len() && !ended[k as int] && found[k as int]
            != Observation::Unchanged,
{
    assert forall|i: int|
        #![trigger ended[i]]
        #![trigger found[i]]
        0 <= i < ended.len() && !ended[i] && found[i] != Observation::Unchanged implies {
        &&& turn is Yield
        &&& turn->Yield_0 <= i
    } by {
        assert(ready(ended, found, i));
    }
}

/// A value counts as hung up from the poll on that gives out its index for that
/// reason, and for no other reason.
pub proof fn law_only_a_hang_up_ends_a_value(
    ended: Seq<bool>,
    found: Seq<Observation>,
    turn: Turn,
)
    requires
        found.len() == ended.len(),
        gives(ended, found, turn),
    ensures
        ended_after(ended, found, turn).len() == ended.len(),
        forall|i: int|
            #![trigger ended[i]]
            #![trigger ended_after(ended, found, turn)[i]]
            0 <= i < ended.len() ==> ended_after(ended, found, turn)[i] == (ended[i] || (turn
                is Yield && turn->Yield_0 == i && found[i] == Observation::Hangup)),
{
}

/// A value that hangs up has its index given out once, and never again.
pub proof fn law_a_hang_up_is_given_once(
    ended: Seq<bool>,
    found: Seq<Observation>,
    index: usize,
    later: Seq<Observation>,
    turn: Turn,
)
    requires
        gives(ended, found, Turn::Yield(index)),
        found[index as int] is Hangup,
        gives(ended_after(ended, found, Turn::Yield(index)), later, turn),
    ensures
        turn != Turn::Yield(index),
        ended_after(ended_after(ended, found, Turn::Yield(index)), later, turn)[index as int],
{
}

/// The end comes when every value has hung up, and is final.
pub proof fn law_the_end_is_final(ended: Seq<bool>, found: Seq<Observation>, turn: Turn)
    requires
        gives(ended, found, turn),
    ensures
        turn is Ended <==> ended.len() > 0 && forall|i: int|
            0 <= i < ended.len() ==> #[trigger] ended[i],
        turn is Ended ==> ended_after(ended, found, turn) == ended,
{
    match turn {
        Turn::Yield(i) => {
            assert(!ended[i as int]);
        },
        _ => {},
    }
}

/// As long as no value has hung up, `is_dirty` says whether a poll would give
/// something at once.
pub proof fn law_dirty_means_ready(
    ended: Seq<bool>,
    found: Seq<Observation>,
    dirty: Seq<bool>,
    turn: Turn,
)
    requires
        found.len() == ended.len(),
        dirty.len() == ended.len(),
        forall|i: int| 0 <= i < ended.len() ==> !#[trigger] ended[i],
        forall|i: int| 0 <= i < ended.len() ==> #[trigger] dirty[i] == (found[i] !is Unchanged),
        gives(ended, found, turn),
    ensures
        (exists|i: int| 0 <= i < dirty.len() && #[trigger] dirty[i]) <==> turn is Yield,
        (forall|i: int| 0 <= i < dirty.len() ==> !#[trigger] dirty[i]) <==> turn is Pending,
{
    match turn {
        Turn::Yield(i) => {
            assert(ready(ended, found, i as int));
            assert(dirty[i as int]);
        },
        Turn::Pending => {
            assert forall|i: int| 0 <= i < dirty.len() implies !#[trigger] dirty[i] by {
                assert(!ready(ended, found, i));
                assert(!ended[i]);
            }
        },
        Turn::Ended => {
            assert(!ended[0]);
        },
        _ => {},
    }
}

} // verus!
