//! What holds of [`Registrations`](crate::registrations::Registrations) that any
//! number of threads share.
//!
//! A [`Scene`] is a set of registrations together with the sweeps that are
//! under way and with what each observer is doing. It changes in atomic steps,
//! in whatever order the threads happen to be scheduled. The point of it all is
//! [`law_no_wakeup_is_lost`]: an observer that waits, and is behind, has had
//! its waker handed out, or somebody is on the way to do so.

use core::task::Waker;
use vstd::prelude::*;

use crate::registrations::{RegistrationsView, SweepPhase, SweepView};

verus! {

/// What an observer is doing.
pub enum Watch {
    /// Nothing: no poll of it has left a waker and read the value since the
    /// last one gave something.
    Idle,
    /// It is being polled. It has left `waker`, at a time when `mark` wakers
    /// had been handed out, and will now read the value.
    Registered { waker: Waker, mark: int },
    /// It has then read the value, when the value had changed `version` times.
    Waiting { waker: Waker, mark: int, version: int },
}

/// Registrations, and everybody who is using them.
pub struct Scene {
    pub regs: RegistrationsView,
    pub sweeps: Seq<SweepView>,
    pub watches: Map<u64, Watch>,
    /// How many times the value has changed.
    pub version: int,
    /// Every waker that a sweep has collected, with the observer that left it.
    pub handed: Seq<(u64, Waker)>,
}

impl Scene {
    /// A new value, without observers.
    pub open spec fn fresh() -> Self {
        Scene {
            regs: RegistrationsView::start(),
            sweeps: Seq::empty(),
            watches: Map::empty(),
            version: 0,
            handed: Seq::empty(),
        }
    }

    /// Observer `id` is going away.
    pub open spec fn leaving(self, id: u64) -> bool {
        exists|i: int|
            0 <= i < self.sweeps.len() && (#[trigger] self.sweeps[i]).own == Some(id)
                && self.sweeps[i].phase !is Done
    }

    /// Observer `id` is there, and stays.
    pub open spec fn present(self, id: u64) -> bool {
        self.regs.live(id) && !self.leaving(id)
    }

    /// The value changes; whoever changed it now has to tell the observers.
    pub open spec fn changes(self, next: Self) -> bool {
        next == Scene {
            version: self.version + 1,
            sweeps: self.sweeps.push(SweepView::start(None)),
            ..self
        }
    }

    /// Sweep `i` takes a step.
    pub open spec fn sweeps_on(self, i: int, next: Self) -> bool {
        let sweep = self.sweeps[i];
        let (sweep_after, regs) = sweep.step(self.regs);
        let id = sweep.ids[sweep.at];
        &&& 0 <= i < self.sweeps.len()
        &&& next == Scene {
            regs,
            sweeps: self.sweeps.update(i, sweep_after),
            handed: if sweep.phase is Collect && sweep.at < sweep.ids.len() && self.regs.live(id)
                && self.regs.wakers[id].len() > 0 {
                self.handed.push((id, self.regs.wakers[id][0]))
            } else {
                self.handed
            },
            ..self
        }
    }

    /// An observer comes.
    pub open spec fn observer_comes(self, next: Self) -> bool {
        &&& self.regs.next_id < u64::MAX
        &&& next == Scene {
            regs: self.regs.enrolled(),
            watches: self.watches.insert(self.regs.next_id, Watch::Idle),
            ..self
        }
    }

    /// Observer `id` begins to go away.
    pub open spec fn observer_leaves(self, id: u64, next: Self) -> bool {
        &&& self.present(id)
        &&& next == Scene { sweeps: self.sweeps.push(SweepView::start(Some(id))), ..self }
    }

    /// A poll of observer `id` begins: it leaves `waker`.
    pub open spec fn poll_registers(self, id: u64, waker: Waker, next: Self) -> bool {
        &&& self.present(id)
        &&& next == Scene {
            regs: self.regs.registering(id, waker),
            watches: self.watches.insert(
                id,
                Watch::Registered { waker, mark: self.handed.len() as int },
            ),
            ..self
        }
    }

    /// The poll goes on: it reads the value.
    pub open spec fn poll_reads(self, id: u64, next: Self) -> bool {
        &&& self.present(id)
        &&& self.watches[id] matches Watch::Registered { waker, mark } && next == (Scene {
            watches: self.watches.insert(
                id,
                Watch::Waiting { waker, mark, version: self.version },
            ),
            ..self
        })
    }

    /// The poll gave something, or the task gave up.
    pub open spec fn poll_ends(self, id: u64, next: Self) -> bool {
        next == Scene { watches: self.watches.insert(id, Watch::Idle), ..self }
    }

    /// One thing happens.
    pub open spec fn next(self, next: Self) -> bool {
        ||| self.changes(next)
        ||| exists|i: int| self.sweeps_on(i, next)
        ||| self.observer_comes(next)
        ||| exists|id: u64| self.observer_leaves(id, next)
        ||| exists|id: u64, waker: Waker| self.poll_registers(id, waker, next)
        ||| exists|id: u64| self.poll_reads(id, next)
        ||| exists|id: u64| self.poll_ends(id, next)
    }

    /// `trace` is a run: each of its scenes comes from the one before.
    pub open spec fn run(trace: Seq<Self>) -> bool {
        forall|k: int| 0 < k < trace.len() ==> #[trigger] trace[k - 1].next(trace[k])
    }

    /// Sweep `i` has the registration of observer `id`, and will put it back.
    pub open spec fn holds(self, i: int, id: u64) -> bool {
        let sweep = self.sweeps[i];
        &&& sweep.phase is Gather || sweep.phase is Restore
        &&& exists|k: int| sweep.at <= k < sweep.ids.len() && #[trigger] sweep.ids[k] == id
    }

    /// Sweep `i` will collect the waker of observer `id`.
    pub open spec fn owes(self, i: int, id: u64) -> bool {
        let sweep = self.sweeps[i];
        let from = if sweep.phase is Collect {
            sweep.at
        } else {
            0
        };
        &&& sweep.phase is Gather || sweep.phase is Restore || sweep.phase is Collect
        &&& exists|k: int| from <= k < sweep.ids.len() && #[trigger] sweep.ids[k] == id
    }

    /// Somebody has changed the value and has yet to look who is registered.
    pub open spec fn sweep_coming(self, i: int) -> bool {
        self.sweeps[i].phase is Gather && self.sweeps[i].own is None
    }

    /// Sweep `i` is on the way to collect the waker of observer `id`.
    pub open spec fn will_collect(self, i: int, id: u64) -> bool {
        self.sweep_coming(i) || self.owes(i, id)
    }

    /// Somebody is on the way to collect the waker of observer `id`.
    pub open spec fn wakeup_coming(self, id: u64) -> bool {
        exists|i: int| 0 <= i < self.sweeps.len() && #[trigger] self.will_collect(i, id)
    }

    /// The waker that observer `id` left when `mark` had been handed out has
    /// been handed out since.
    pub open spec fn handed_since(self, id: u64, waker: Waker, mark: int) -> bool {
        exists|k: int| mark <= k < self.handed.len() && #[trigger] self.handed[k] == (id, waker)
    }

    /// The registration of an observer is on the stack, or somebody has it and
    /// will put it back.
    pub open spec fn accounted_for(self, id: u64) -> bool {
        ||| self.regs.stack.contains(id)
        ||| exists|i: int| 0 <= i < self.sweeps.len() && #[trigger] self.holds(i, id)
    }

    /// What holds of an observer that is there, and stays.
    pub open spec fn observer_in_order(self, id: u64) -> bool {
        &&& self.accounted_for(id)
        &&& self.watches.contains_key(id)
        &&& match self.watches[id] {
            Watch::Idle => true,
            Watch::Registered { waker, mark } => {
                &&& 0 <= mark <= self.handed.len()
                &&& self.regs.wakers[id] == seq![waker] || self.handed_since(id, waker, mark)
            },
            Watch::Waiting { waker, mark, version } => {
                &&& 0 <= mark <= self.handed.len()
                &&& self.regs.wakers[id] == seq![waker] || self.handed_since(id, waker, mark)
                &&& version <= self.version
                &&& version < self.version && self.regs.wakers[id] == seq![waker]
                    ==> self.wakeup_coming(id)
            },
        }
    }

    /// What every reachable scene satisfies.
    pub open spec fn sound(self) -> bool {
        &&& forall|i: int|
            0 <= i < self.sweeps.len() ==> 0 <= (#[trigger] self.sweeps[i]).at
                <= self.sweeps[i].ids.len() && (self.sweeps[i].phase is Gather
                ==> self.sweeps[i].at == 0) && (self.sweep_coming(i)
                ==> self.sweeps[i].ids.len() == 0)
        &&& forall|i: int|
            0 <= i < self.sweeps.len() ==> ((#[trigger] self.sweeps[i]).own matches Some(own)
                ==> own < self.regs.next_id)
        &&& forall|id: u64| #[trigger] self.regs.live(id) ==> id < self.regs.next_id
        &&& forall|id: u64| #[trigger]
            self.regs.live(id) ==> self.regs.wakers[id].len() <= 1
        &&& forall|id: u64| #[trigger] self.present(id) ==> self.observer_in_order(id)
    }
}

/// A new value is sound.
pub proof fn law_fresh_scene_is_sound()
    ensures
        Scene::fresh().sound(),
{
}

/// No wakeup is lost: an observer that waits and is behind (the value has
/// changed since it read it) has had the waker that it left handed out since,
/// or somebody is on the way to collect it.
pub proof fn law_no_wakeup_is_lost(scene: Scene, id: u64)
    requires
        scene.sound(),
        scene.present(id),
    ensures
        scene.watches[id] matches Watch::Waiting { waker, mark, version } ==> version
            < scene.version ==> scene.handed_since(id, waker, mark) || scene.wakeup_coming(id),
{
    assert(scene.observer_in_order(id));
}

/// An observer that is there after a step of a sweep was there before.
proof fn lemma_present_before(before: Scene, i: int, after: Scene, id: u64)
    requires
        before.sound(),
        before.sweeps_on(i, after),
        after.present(id),
    ensures
        before.present(id),
        before.observer_in_order(id),
        before.sweeps[i].own == Some(id) ==> before.sweeps[i].phase is Done,
{
    assert(before.regs.live(id));
    if before.leaving(id) {
        let j = choose|j: int|
            0 <= j < before.sweeps.len() && (#[trigger] before.sweeps[j]).own == Some(id)
                && before.sweeps[j].phase !is Done;
        assert(after.sweeps[j].own == Some(id));
        assert(after.sweeps[j].phase !is Done);
    }
    assert(before.present(id));
}

/// A step of a sweep loses no registration.
proof fn lemma_sweep_accounts(before: Scene, i: int, after: Scene, id: u64)
    requires
        before.sound(),
        before.sweeps_on(i, after),
        after.present(id),
    ensures
        after.accounted_for(id),
{
    lemma_present_before(before, i, after, id);
    let sweep = before.sweeps[i];
    let stack = before.regs.stack;
    if stack.contains(id) {
        let p = choose|p: int| 0 <= p < stack.len() && stack[p] == id;
        match sweep.phase {
            SweepPhase::Gather => {
                if sweep.own is None {
                    assert(after.sweeps[i].ids[stack.len() - 1 - p] == id);
                    assert(after.holds(i, id));
                } else if p == stack.len() - 1 {
                    assert(after.sweeps[i].ids[sweep.ids.len() as int] == id);
                    assert(after.holds(i, id));
                } else {
                    assert(after.regs.stack[p] == id);
                }
            },
            _ => {
                assert(after.regs.stack[p] == id);
            },
        }
    } else {
        let j = choose|j: int| 0 <= j < before.sweeps.len() && #[trigger] before.holds(j, id);
        let held = before.sweeps[j];
        let k = choose|k: int| held.at <= k < held.ids.len() && #[trigger] held.ids[k] == id;
        if j == i && sweep.phase is Restore && k == sweep.at {
            assert(after.regs.stack.last() == id);
        } else {
            assert(after.sweeps[j].ids[k] == id);
            assert(after.holds(j, id));
        }
    }
}

/// A step of a sweep cancels no wakeup.
proof fn lemma_sweep_keeps_wakeups(before: Scene, i: int, after: Scene, id: u64)
    requires
        before.sound(),
        before.sweeps_on(i, after),
        after.present(id),
        before.wakeup_coming(id),
    ensures
        after.wakeup_coming(id) || after.regs.wakers[id] == Seq::<Waker>::empty(),
{
    lemma_present_before(before, i, after, id);
    let sweep = before.sweeps[i];
    let j = choose|j: int| 0 <= j < before.sweeps.len() && #[trigger] before.will_collect(j, id);
    if before.sweep_coming(j) {
        if j != i {
            assert(after.will_collect(j, id));
        } else {
            // Whatever is not on the stack is held, and so owed, by somebody else.
            let stack = before.regs.stack;
            if stack.contains(id) {
                let p = choose|p: int| 0 <= p < stack.len() && stack[p] == id;
                assert(after.sweeps[i].ids[stack.len() - 1 - p] == id);
                assert(after.will_collect(i, id));
            } else {
                let h = choose|h: int|
                    0 <= h < before.sweeps.len() && #[trigger] before.holds(h, id);
                let held = before.sweeps[h];
                let k = choose|k: int|
                    held.at <= k < held.ids.len() && #[trigger] held.ids[k] == id;
                assert(after.sweeps[h].ids[k] == id);
                assert(after.will_collect(h, id));
            }
        }
    } else {
        let owing = before.sweeps[j];
        let from = if owing.phase is Collect {
            owing.at
        } else {
            0
        };
        let k = choose|k: int| from <= k < owing.ids.len() && #[trigger] owing.ids[k] == id;
        if j == i && owing.phase is Collect && k == owing.at {
            assert(after.regs.wakers[id] == Seq::<Waker>::empty());
        } else {
            assert(after.sweeps[j].ids[k] == id);
            assert(after.will_collect(j, id));
        }
    }
}

/// A step of a sweep keeps the scene sound.
proof fn lemma_sweeps_on(before: Scene, i: int, after: Scene)
    requires
        before.sound(),
        before.sweeps_on(i, after),
    ensures
        after.sound(),
{
    let sweep = before.sweeps[i];
    assert forall|id: u64| #[trigger] after.regs.live(id) implies after.regs.wakers[id].len() <= 1
        && id < after.regs.next_id by {
        assert(before.regs.live(id));
    }
    assert forall|id: u64| #[trigger] after.present(id) implies after.observer_in_order(id) by {
        lemma_present_before(before, i, after, id);
        lemma_sweep_accounts(before, i, after, id);
        if before.wakeup_coming(id) {
            lemma_sweep_keeps_wakeups(before, i, after, id);
        }
        assert(before.regs.live(id));
        assert forall|waker: Waker, mark: int|
            0 <= mark <= before.handed.len() && (before.regs.wakers[id] == seq![waker]
                || before.handed_since(id, waker, mark)) implies after.regs.wakers[id]
            == seq![waker] || #[trigger] after.handed_since(id, waker, mark) by {
            if before.handed_since(id, waker, mark) {
                let k = choose|k: int|
                    mark <= k < before.handed.len() && #[trigger] before.handed[k] == (id, waker);
                assert(after.handed[k] == (id, waker));
            } else if after.regs.wakers[id] != seq![waker] {
                assert(after.handed[before.handed.len() as int] == (id, waker));
            }
        }
    }
}

/// What has been handed out stays handed out.
proof fn lemma_handed_is_kept(before: Scene, after: Scene, id: u64)
    requires
        after.handed == before.handed,
    ensures
        forall|waker: Waker, mark: int| #[trigger]
            before.handed_since(id, waker, mark) ==> after.handed_since(id, waker, mark),
{
    assert forall|waker: Waker, mark: int| #[trigger] before.handed_since(
        id,
        waker,
        mark,
    ) implies after.handed_since(id, waker, mark) by {
        let k = choose|k: int|
            mark <= k < before.handed.len() && #[trigger] before.handed[k] == (id, waker);
        assert(after.handed[k] == (id, waker));
    }
}

/// One more sweep takes nothing from anybody.
proof fn lemma_sweep_begins(before: Scene, sweep: SweepView, after: Scene, id: u64)
    requires
        before.sound(),
        before.regs == after.regs,
        before.watches == after.watches,
        before.handed == after.handed,
        after.sweeps == before.sweeps.push(sweep),
        after.present(id),
    ensures
        before.present(id),
        after.accounted_for(id),
        before.wakeup_coming(id) ==> after.wakeup_coming(id),
{
    if before.leaving(id) {
        let j = choose|j: int|
            0 <= j < before.sweeps.len() && (#[trigger] before.sweeps[j]).own == Some(id)
                && before.sweeps[j].phase !is Done;
        assert(after.sweeps[j].own == Some(id));
    }
    assert(before.present(id));
    assert(before.observer_in_order(id));
    if !before.regs.stack.contains(id) {
        let j = choose|j: int| 0 <= j < before.sweeps.len() && #[trigger] before.holds(j, id);
        assert(after.sweeps[j] == before.sweeps[j]);
        assert(after.holds(j, id));
    }
    if before.wakeup_coming(id) {
        let j = choose|j: int|
            0 <= j < before.sweeps.len() && #[trigger] before.will_collect(j, id);
        assert(after.sweeps[j] == before.sweeps[j]);
        assert(after.will_collect(j, id));
    }
}

/// A change of the value keeps the scene sound.
proof fn lemma_changes(before: Scene, after: Scene)
    requires
        before.sound(),
        before.changes(after),
    ensures
        after.sound(),
{
    assert forall|id: u64| #[trigger] after.present(id) implies after.observer_in_order(id) by {
        lemma_sweep_begins(before, SweepView::start(None), after, id);
        assert(before.observer_in_order(id));
        assert(after.will_collect(before.sweeps.len() as int, id));
        lemma_handed_is_kept(before, after, id);
    }
}

/// An observer that begins to go away keeps the scene sound.
proof fn lemma_observer_leaves(before: Scene, id: u64, after: Scene)
    requires
        before.sound(),
        before.observer_leaves(id, after),
    ensures
        after.sound(),
{
    assert(before.regs.live(id));
    assert forall|other: u64| #[trigger] after.present(other) implies after.observer_in_order(
        other,
    ) by {
        lemma_sweep_begins(before, SweepView::start(Some(id)), after, other);
        assert(before.observer_in_order(other));
        lemma_handed_is_kept(before, after, other);
    }
}

/// What happens to one observer alone is no concern of another.
proof fn lemma_others_unconcerned(before: Scene, after: Scene, id: u64)
    requires
        before.sound(),
        after.sweeps == before.sweeps,
        after.handed == before.handed,
        after.version == before.version,
        after.present(id) == before.present(id),
        before.regs.stack.contains(id) ==> after.regs.stack.contains(id),
        before.present(id),
        after.regs.wakers[id] == before.regs.wakers[id],
        after.watches.contains_key(id) && after.watches[id] == before.watches[id],
    ensures
        after.observer_in_order(id),
{
    assert(before.observer_in_order(id));
    if !before.regs.stack.contains(id) {
        let j = choose|j: int| 0 <= j < before.sweeps.len() && #[trigger] before.holds(j, id);
        assert(after.holds(j, id));
    }
    if before.wakeup_coming(id) {
        let j = choose|j: int|
            0 <= j < before.sweeps.len() && #[trigger] before.will_collect(j, id);
        assert(after.will_collect(j, id));
    }
    lemma_handed_is_kept(before, after, id);
}

/// An observer that comes keeps the scene sound.
proof fn lemma_observer_comes(before: Scene, after: Scene)
    requires
        before.sound(),
        before.observer_comes(after),
    ensures
        after.sound(),
{
    let new = before.regs.next_id;
    assert forall|id: u64| #[trigger] after.regs.live(id) implies after.regs.wakers[id].len() <= 1
        && id < after.regs.next_id by {
        assert(id == new || before.regs.live(id));
    }
    assert forall|id: u64| #[trigger] after.present(id) implies after.observer_in_order(id) by {
        if id == new {
            assert(after.regs.stack.last() == new);
        } else {
            assert(before.regs.live(id));
            assert(after.leaving(id) == before.leaving(id));
            if before.regs.stack.contains(id) {
                let p = choose|p: int|
                    0 <= p < before.regs.stack.len() && before.regs.stack[p] == id;
                assert(after.regs.stack[p] == id);
            }
            assert(before.present(id));
            assert(before.observer_in_order(id));
            lemma_others_unconcerned(before, after, id);
        }
    }
}

/// What a poll does keeps the scene sound.
proof fn lemma_polls(before: Scene, id: u64, after: Scene)
    requires
        before.sound(),
        before.poll_reads(id, after) || before.poll_ends(id, after) || exists|waker: Waker|
            before.poll_registers(id, waker, after),
    ensures
        after.sound(),
{
    assert forall|other: u64| #[trigger] after.regs.live(other) implies other
        < after.regs.next_id && after.regs.wakers[other].len() <= 1 by {
        assert(before.regs.live(other));
    }
    assert forall|other: u64| #[trigger] after.present(other) implies after.observer_in_order(
        other,
    ) by {
        assert(before.regs.live(other));
        assert(after.leaving(other) == before.leaving(other));
        assert(before.present(other));
        if other != id {
            lemma_others_unconcerned(before, after, other);
        } else {
            assert(after.handed == before.handed);
            assert(before.observer_in_order(id));
            if !before.regs.stack.contains(id) {
                let j = choose|j: int|
                    0 <= j < before.sweeps.len() && #[trigger] before.holds(j, id);
                assert(after.holds(j, id));
            }
            lemma_handed_is_kept(before, after, id);
        }
    }
}

/// Whatever happens, a sound scene stays sound.
pub proof fn law_soundness_is_kept(before: Scene, after: Scene)
    requires
        before.sound(),
        before.next(after),
    ensures
        after.sound(),
{
    if before.changes(after) {
        lemma_changes(before, after);
    } else if exists|i: int| before.sweeps_on(i, after) {
        lemma_sweeps_on(before, choose|i: int| before.sweeps_on(i, after), after);
    } else if before.observer_comes(after) {
        lemma_observer_comes(before, after);
    } else if exists|id: u64| before.observer_leaves(id, after) {
        lemma_observer_leaves(before, choose|id: u64| before.observer_leaves(id, after), after);
    } else if exists|id: u64, waker: Waker| before.poll_registers(id, waker, after) {
        let (id, waker) = choose|id: u64, waker: Waker| before.poll_registers(id, waker, after);
        lemma_polls(before, id, after);
    } else if exists|id: u64| before.poll_reads(id, after) {
        lemma_polls(before, choose|id: u64| before.poll_reads(id, after), after);
    } else {
        lemma_polls(before, choose|id: u64| before.poll_ends(id, after), after);
    }
}

/// Every scene of a run that starts sound is sound.
pub proof fn law_runs_are_sound(trace: Seq<Scene>, k: int)
    requires
        Scene::run(trace),
        0 <= k < trace.len(),
        trace[0].sound(),
    ensures
        trace[k].sound(),
    decreases k,
{
    if k > 0 {
        law_runs_are_sound(trace, k - 1);
        assert(trace[k - 1].next(trace[k]));
        law_soundness_is_kept(trace[k - 1], trace[k]);
    }
}

/// Every waker that is handed out is among those that the sweep which collected
/// it has to wake, and a sweep never loses one.
pub proof fn law_whoever_collects_a_waker_keeps_it(before: Scene, i: int, after: Scene)
    requires
        before.sound(),
        before.sweeps_on(i, after),
    ensures
        after.handed != before.handed ==> {
            &&& after.handed.len() == before.handed.len() + 1
            &&& after.sweeps[i].woken == before.sweeps[i].woken.push(after.handed.last().1)
        },
        after.handed == before.handed ==> after.sweeps[i].woken == before.sweeps[i].woken,
{
    let sweep = before.sweeps[i];
    if sweep.phase is Collect && sweep.at < sweep.ids.len() {
        let id = sweep.ids[sweep.at];
        if before.regs.live(id) {
            let left = before.regs.wakers[id];
            assert(left.len() <= 1);
            if left.len() == 1 {
                assert(left =~= seq![left[0]]);
                assert(after.handed.len() == before.handed.len() + 1);
                assert(after.sweeps[i].woken =~= sweep.woken.push(left[0]));
            } else {
                assert(after.sweeps[i].woken =~= sweep.woken);
            }
        }
    }
}

/// Once every sweep is done, every observer that waits and is behind has had
/// the waker that it left handed out, since it left it, to be woken.
pub proof fn law_everybody_is_told_in_the_end(scene: Scene, id: u64)
    requires
        scene.sound(),
        scene.present(id),
        forall|i: int|
            0 <= i < scene.sweeps.len() ==> (#[trigger] scene.sweeps[i]).phase is Done,
    ensures
        scene.watches[id] matches Watch::Waiting { waker, mark, version } ==> version
            < scene.version ==> scene.handed_since(id, waker, mark),
{
    law_no_wakeup_is_lost(scene, id);
    if scene.wakeup_coming(id) {
        let i = choose|i: int| 0 <= i < scene.sweeps.len() && #[trigger] scene.will_collect(i, id);
        assert(scene.sweeps[i].phase is Done);
    }
}

/// An observer that is there, and stays, never loses its registration: it is on
/// the stack, or a sweep has it and will put it back. Once every sweep is done,
/// it is on the stack.
pub proof fn law_registrations_are_kept(scene: Scene, id: u64)
    requires
        scene.sound(),
        scene.present(id),
    ensures
        scene.accounted_for(id),
        (forall|i: int|
            0 <= i < scene.sweeps.len() ==> (#[trigger] scene.sweeps[i]).phase is Done)
            ==> scene.regs.stack.contains(id),
{
    assert(scene.observer_in_order(id));
    if !scene.regs.stack.contains(id) {
        let i = choose|i: int| 0 <= i < scene.sweeps.len() && #[trigger] scene.holds(i, id);
        assert(scene.sweeps[i].phase !is Done);
    }
}

} // verus!
