//! What holds of looks, changes and departures that share one value.
//!
//! A [`Stage`] is a value as a whole: the card that stores it, with its writers,
//! the registrations of its observers, with their sweeps, and the looks at it,
//! each of which leaves a waker in the one and reads the other. Two things
//! happen in both at once. When a writer publishes its value, it begins to owe
//! the observers a sweep; and when the reader of a poll has checked, the poll
//! has read the value.

use core::task::Waker;
use vstd::prelude::*;

use crate::flip_card::ReaderView;
use crate::flip_card_laws::{
    law_fresh_card_is_safe, law_safety_is_kept, law_steps_are_possible, World,
};
use crate::look::{LookPhase, LookView};
use crate::registry::Event;
use crate::value::ValueView;
use crate::wakeup_laws::{
    law_fresh_scene_is_sound, law_no_wakeup_is_lost, law_soundness_is_kept, Scene, Watch,
};

verus! {

/// A value, and everybody who is using it.
pub struct Stage<T> {
    /// The card, its writers, and the readers of the looks.
    pub world: World<Option<T>>,
    /// The registrations, the sweeps, and what each observer is doing.
    pub scene: Scene,
    /// What is noted for the registry.
    pub events: Seq<Event>,
    pub registry_id: Option<u64>,
    /// Every look there has been. The reader of each is the reader of the same
    /// number in `world`.
    pub looks: Seq<LookView<T>>,
    /// For each observer that has been polled, the number of its last poll.
    pub polls: Map<u64, int>,
}

impl<T: Clone> Stage<T> {
    /// A new value, and nobody around.
    pub open spec fn fresh(value: T, registry_id: Option<u64>) -> Self {
        Stage {
            world: World::fresh(true, Some(value)),
            scene: Scene::fresh(),
            events: Seq::empty(),
            registry_id,
            looks: Seq::empty(),
            polls: Map::empty(),
        }
    }

    /// The value itself.
    pub open spec fn value(self) -> ValueView<T> {
        ValueView {
            card: self.world.card,
            regs: self.scene.regs,
            events: self.events,
            registry_id: self.registry_id,
        }
    }

    /// Somebody comes to look.
    pub open spec fn look_comes(self, look: LookView<T>, next: Self) -> bool {
        &&& {
            ||| exists|id: u64, waker: Waker| look == LookView::<T>::poll(id, waker)
            ||| look == LookView::<T>::observe()
            ||| look == LookView::<T>::peek()
        }
        &&& self.world.reader_comes(next.world)
        &&& next == Stage { world: next.world, looks: self.looks.push(look), ..self }
    }

    /// In this step the reader of look `i` finds that it has entered the front
    /// slot.
    pub open spec fn checks(self, i: int, next: Self) -> bool {
        self.looks[i].reader.phase is Check && next.looks[i].reader.phase is Copy
    }

    /// Look `i` is the last poll of observer `id`, and has left its waker but
    /// not read yet.
    pub open spec fn is_poll_of(self, i: int, id: u64) -> bool {
        &&& self.looks[i].registration matches Some((own, _)) && own == id
        &&& self.polls.contains_key(id)
        &&& self.polls[id] == i
        &&& self.scene.watches.contains_key(id)
        &&& self.scene.watches[id] is Registered
    }

    /// Look `i` takes a step.
    pub open spec fn look_steps(self, i: int, next: Self) -> bool {
        let look = self.looks[i];
        &&& 0 <= i < self.looks.len()
        &&& look.steps_to(self.value(), (next.looks[i], next.value()))
        &&& next.looks == self.looks.update(i, next.looks[i])
        &&& match look.phase {
            // The observer is being polled now.
            LookPhase::Register => match look.registration {
                Some((id, waker)) => {
                    &&& self.scene.poll_registers(id, waker, next.scene)
                    &&& next.world == self.world
                    &&& next.polls == self.polls.insert(id, i)
                },
                None => {
                    &&& next.scene == self.scene
                    &&& next.world == self.world
                    &&& next.polls == self.polls
                },
            },
            LookPhase::Read => {
                &&& self.world.reader_steps(i, next.world)
                &&& next.world.readers[i] == next.looks[i].reader
                &&& next.polls == self.polls
                &&& match look.registration {
                    // The poll has read the value.
                    Some((id, _)) if self.checks(i, next) && self.is_poll_of(i, id) =>
                    self.scene.poll_reads(id, next.scene),
                    _ => next.scene == self.scene,
                }
            },
            _ => {
                &&& next.scene == self.scene
                &&& next.world == self.world
                &&& next.polls == self.polls
            },
        }
    }

    /// The cloning of the value by look `i` panics.
    pub open spec fn look_abandons(self, i: int, next: Self) -> bool {
        &&& 0 <= i < self.looks.len()
        &&& self.world.reader_abandons(i, next.world)
        &&& next == Stage {
            world: next.world,
            looks: self.looks.update(i, self.looks[i].abandoned()),
            ..self
        }
    }

    /// Writer `i` takes a step. If this publishes its value, the observers have
    /// to be told.
    pub open spec fn writer_steps(self, i: int, next: Self) -> bool {
        &&& self.world.writer_steps(i, next.world)
        &&& if self.world.writers[i].phase is Publish {
            self.scene.changes(next.scene)
        } else {
            next.scene == self.scene
        }
        &&& next == Stage { world: next.world, scene: next.scene, ..self }
    }

    /// Somebody comes to change the value.
    pub open spec fn writer_comes(self, data: Option<T>, next: Self) -> bool {
        &&& self.world.writer_comes(data, next.world)
        &&& next == Stage { world: next.world, ..self }
    }

    /// Observers come, go, and end their polls, and sweeps go on. An observer
    /// does not go in the middle of its own poll.
    pub open spec fn observers_move(self, next: Self) -> bool {
        &&& {
            ||| exists|i: int| self.scene.sweeps_on(i, next.scene)
            ||| self.scene.observer_comes(next.scene)
            ||| exists|id: u64|
                !(self.scene.watches[id] is Registered) && #[trigger] self.scene.observer_leaves(
                    id,
                    next.scene,
                )
            ||| exists|id: u64| self.scene.poll_ends(id, next.scene)
        }
        &&& next == Stage { scene: next.scene, ..self }
    }

    /// Something is noted for the registry, or what was noted is taken away.
    pub open spec fn events_move(self, next: Self) -> bool {
        next == Stage { events: next.events, ..self }
    }

    /// One thing happens.
    pub open spec fn next(self, next: Self) -> bool {
        ||| exists|look: LookView<T>| self.look_comes(look, next)
        ||| exists|i: int| self.look_steps(i, next)
        ||| exists|i: int| self.look_abandons(i, next)
        ||| exists|i: int| self.writer_steps(i, next)
        ||| exists|data: Option<T>| self.writer_comes(data, next)
        ||| self.observers_move(next)
        ||| self.events_move(next)
    }

    /// `trace` is a run: each of its stages comes from the one before.
    pub open spec fn run(trace: Seq<Self>) -> bool {
        forall|k: int| 0 < k < trace.len() ==> #[trigger] trace[k - 1].next(trace[k])
    }

    /// A look that has yet to leave its waker has not begun to read.
    pub open spec fn look_in_order(self, i: int) -> bool {
        &&& self.looks[i].reader == self.world.readers[i]
        &&& self.looks[i].phase is Register ==> self.looks[i].reader == ReaderView::<
            Option<T>,
        >::start()
        &&& self.looks[i].phase is Note || self.looks[i].phase is Done
            ==> self.looks[i].reader.phase is Done
    }

    /// The last poll of observer `id` has left `waker`.
    pub open spec fn poll_has_left(self, id: u64, waker: Waker) -> bool {
        let i = self.polls[id];
        &&& self.polls.contains_key(id)
        &&& 0 <= i < self.looks.len()
        &&& self.looks[i].registration == Some((id, waker))
        &&& self.looks[i].phase !is Register
    }

    /// The last poll of an observer that waits has left its waker, and its
    /// reader has checked when the poll has read, or later.
    pub open spec fn poll_in_order(self, id: u64) -> bool {
        match self.scene.watches[id] {
            Watch::Idle => true,
            Watch::Registered { waker, mark } => self.poll_has_left(id, waker),
            Watch::Waiting { waker, mark, version } => {
                &&& self.poll_has_left(id, waker)
                &&& version <= self.world.seen[self.polls[id]]
            },
        }
    }

    /// What every reachable stage satisfies.
    pub open spec fn in_order(self) -> bool {
        &&& self.world.safe()
        &&& self.scene.sound()
        &&& self.scene.version == self.world.history.len() - 1
        &&& self.looks.len() == self.world.readers.len()
        &&& forall|i: int| 0 <= i < self.looks.len() ==> #[trigger] self.look_in_order(i)
        &&& forall|id: u64| #[trigger]
            self.scene.watches.contains_key(id) ==> self.poll_in_order(id)
    }
}

/// A new value is in order.
pub proof fn law_fresh_stage_is_in_order<T: Clone>(value: T, registry_id: Option<u64>)
    ensures
        Stage::fresh(value, registry_id).in_order(),
        Stage::fresh(value, registry_id).value() == ValueView::start(value, registry_id),
{
    law_fresh_card_is_safe(true, Some(value));
    law_fresh_scene_is_sound();
    assert(Stage::fresh(value, registry_id).value() =~= ValueView::start(value, registry_id));
}

/// A look can always take its next step, as
/// [`Look::step`](crate::look::Look::step) requires: the one of a poll that has
/// yet to leave its waker if the observer is there, and every other in any case.
pub proof fn law_looks_can_go_on<T: Clone>(stage: Stage<T>, i: int)
    requires
        stage.in_order(),
        0 <= i < stage.looks.len(),
        stage.looks[i].phase is Register ==> (stage.looks[i].registration matches Some((id, _))
            ==> stage.scene.regs.live(id)),
    ensures
        stage.looks[i].fits(stage.value()),
{
    law_steps_are_possible(stage.world);
    assert(stage.look_in_order(i));
    assert(stage.world.readers[i].fits(stage.world.card));
}

/// What polls have read stays read.
proof fn lemma_polls_unmoved<T: Clone>(before: Stage<T>, after: Stage<T>)
    requires
        before.in_order(),
        after.polls == before.polls,
        before.looks.len() <= after.looks.len(),
        forall|i: int|
            0 <= i < before.looks.len() ==> before.world.seen[i] <= #[trigger] after.world.seen[i],
        forall|i: int|
            0 <= i < before.looks.len() ==> (#[trigger] after.looks[i]).registration
                == before.looks[i].registration && (before.looks[i].phase !is Register
                ==> after.looks[i].phase !is Register),
        forall|id: u64| #[trigger]
            after.scene.watches.contains_key(id) ==> after.scene.watches[id] is Idle
                || before.scene.watches.contains_key(id) && after.scene.watches[id]
                == before.scene.watches[id],
    ensures
        forall|id: u64| #[trigger]
            after.scene.watches.contains_key(id) ==> after.poll_in_order(id),
{
    assert forall|id: u64| #[trigger] after.scene.watches.contains_key(id) implies
        after.poll_in_order(id) by {
        if !(after.scene.watches[id] is Idle) {
            assert(before.scene.watches.contains_key(id));
            assert(before.poll_in_order(id));
            assert(after.looks[before.polls[id]].registration
                == before.looks[before.polls[id]].registration);
        }
    }
}

proof fn lemma_seen_grows<T: Clone>(before: World<T>, after: World<T>)
    requires
        before.safe(),
        before.next(after),
    ensures
        before.readers.len() <= after.readers.len(),
        forall|r: int|
            0 <= r < before.readers.len() ==> before.seen[r] <= #[trigger] after.seen[r],
{
    assert forall|r: int| 0 <= r < before.readers.len() implies before.seen[r]
        <= #[trigger] after.seen[r] by {
        assert(before.reader_in_place(r));
    }
}

/// A step of a look keeps the stage in order.
proof fn lemma_look_steps<T: Clone>(before: Stage<T>, i: int, after: Stage<T>)
    requires
        before.in_order(),
        before.look_steps(i, after),
    ensures
        after.in_order(),
{
    let look = before.looks[i];
    assert(before.look_in_order(i));
    if look.phase is Read {
        assert(before.world.next(after.world));
        law_safety_is_kept(before.world, after.world);
        lemma_seen_grows(before.world, after.world);
    }
    if after.scene != before.scene {
        match look.registration {
            Some((id, waker)) => {
                if look.phase is Register {
                    assert(before.scene.poll_registers(id, waker, after.scene));
                } else {
                    assert(before.scene.poll_reads(id, after.scene));
                }
            },
            None => {},
        }
        assert(before.scene.next(after.scene));
        law_soundness_is_kept(before.scene, after.scene);
    }
    assert forall|j: int| 0 <= j < after.looks.len() implies #[trigger] after.look_in_order(j) by {
        assert(before.look_in_order(j));
        if j != i {
            assert(after.looks[j] == before.looks[j]);
            assert(after.world.readers[j] == before.world.readers[j]);
        }
    }
    assert forall|id: u64| #[trigger] after.scene.watches.contains_key(id) implies
        after.poll_in_order(id) by {
        if !(after.scene.watches[id] is Idle) {
            let registers = look.phase is Register && (look.registration matches Some((own, _))
                && own == id);
            if registers {
                assert(after.polls[id] == i);
                assert(after.looks[i].phase is Read);
            } else if before.scene.watches.contains_key(id) && before.scene.watches[id]
                == after.scene.watches[id] {
                assert(before.poll_in_order(id));
                let j = before.polls[id];
                assert(after.polls[id] == j);
                assert(j != i ==> after.looks[j] == before.looks[j]);
            } else {
                assert(before.is_poll_of(i, id));
                assert(before.poll_in_order(id));
                assert(after.world.seen[i] == before.world.history.len() - 1);
            }
        }
    }
}

/// Whatever happens, a stage stays in order.
pub proof fn law_order_is_kept<T: Clone>(before: Stage<T>, after: Stage<T>)
    requires
        before.in_order(),
        before.next(after),
    ensures
        after.in_order(),
{
    if exists|i: int| before.look_steps(i, after) {
        lemma_look_steps(before, choose|i: int| before.look_steps(i, after), after);
    } else {
        if exists|look: LookView<T>| before.look_comes(look, after) {
            assert(before.world.next(after.world));
        } else if exists|i: int| before.look_abandons(i, after) {
            assert(before.world.next(after.world));
        } else if exists|i: int| before.writer_steps(i, after) {
            let i = choose|i: int| before.writer_steps(i, after);
            assert(before.world.next(after.world));
            if before.world.writers[i].phase is Publish {
                assert(before.scene.next(after.scene));
                law_soundness_is_kept(before.scene, after.scene);
            }
        } else if exists|data: Option<T>| before.writer_comes(data, after) {
            assert(before.world.next(after.world));
        } else if before.observers_move(after) {
            assert(before.scene.next(after.scene));
            law_soundness_is_kept(before.scene, after.scene);
        }
        if after.world != before.world {
            law_safety_is_kept(before.world, after.world);
            lemma_seen_grows(before.world, after.world);
        }
        assert forall|j: int| 0 <= j < after.looks.len() implies #[trigger] after.look_in_order(
            j,
        ) by {
            if j < before.looks.len() {
                assert(before.look_in_order(j));
            }
        }
        lemma_polls_unmoved(before, after);
    }
}

/// Every stage of a run that starts with a new value is in order.
pub proof fn law_runs_are_in_order<T: Clone>(
    trace: Seq<Stage<T>>,
    value: T,
    registry_id: Option<u64>,
    k: int,
)
    requires
        Stage::run(trace),
        0 <= k < trace.len(),
        trace[0] == Stage::fresh(value, registry_id),
    ensures
        trace[k].in_order(),
    decreases k,
{
    if k == 0 {
        law_fresh_stage_is_in_order(value, registry_id);
    } else {
        law_runs_are_in_order(trace, value, registry_id, k - 1);
        assert(trace[k - 1].next(trace[k]));
        law_order_is_kept(trace[k - 1], trace[k]);
    }
}

/// What a finished look gives is a copy of a value that was current when its
/// reader checked.
pub proof fn law_looks_give_what_was_current<T: Clone>(stage: Stage<T>, i: int)
    requires
        stage.in_order(),
        0 <= i < stage.looks.len(),
        stage.looks[i].phase is Done,
    ensures
        stage.looks[i].reader.copy is Some,
        0 <= stage.world.seen[i] < stage.world.history.len(),
        cloned::<Option<T>>(
            stage.world.history[stage.world.seen[i]],
            stage.looks[i].reader.copy->0,
        ),
{
    assert(stage.look_in_order(i));
    assert(stage.world.reader_in_place(i));
}

/// A poll is told of every value that is published after it has looked: if the
/// observer waits, and a value has been published since the reader of its last
/// poll checked, then the waker that the poll left has been handed out since, or
/// somebody is on the way to collect it.
pub proof fn law_polls_are_told_of_later_values<T: Clone>(stage: Stage<T>, id: u64)
    requires
        stage.in_order(),
        stage.scene.present(id),
    ensures
        stage.scene.watches[id] matches Watch::Waiting { waker, mark, version } ==> {
            &&& stage.poll_has_left(id, waker)
            &&& stage.world.seen[stage.polls[id]] < stage.world.history.len() - 1
                ==> stage.scene.handed_since(id, waker, mark) || stage.scene.wakeup_coming(id)
        },
{
    law_no_wakeup_is_lost(stage.scene, id);
    assert(stage.scene.observer_in_order(id));
    assert(stage.poll_in_order(id));
}

} // verus!
