//! Who has to be told when a value changes.
//!
//! Each observer has an id, a cell for the waker of the task that waits on it,
//! and a place on a stack of registrations. Whoever changes the value *sweeps*
//! the stack: takes the registrations off, puts back those whose observer is
//! still there, and collects the wakers that they left. An observer that goes
//! away sweeps too, down to its own registration.
//!
//! Sweeps of several threads may run at the same time. What one does is
//! therefore broken into *atomic steps* ([`Sweep::step`]); between two of them
//! anything may happen to the registrations. The module `wakeup_laws` proves
//! that no wakeup gets lost that way.

use atomic_waker::AtomicWaker;
use core::task::Waker;
use std::collections::BTreeMap;
use vstd::prelude::*;

use crate::stack::{contents, IdStack};
use crate::wakers::registered;

verus! {

/// What a set of registrations holds.
#[verifier::ext_equal]
pub struct RegistrationsView {
    /// The ids on the stack, from the bottom to the top.
    pub stack: Seq<u64>,
    /// For each observer that is still there, the waker that it left: none, or
    /// one.
    pub wakers: Map<u64, Seq<Waker>>,
    /// The id of the next observer.
    pub next_id: u64,
}

impl RegistrationsView {
    /// No observers.
    pub open spec fn start() -> Self {
        RegistrationsView { stack: Seq::empty(), wakers: Map::empty(), next_id: 0 }
    }

    /// Observer `id` is still there.
    pub open spec fn live(self, id: u64) -> bool {
        self.wakers.contains_key(id)
    }

    /// Those of `ids` whose observers are still there.
    pub open spec fn kept(self, ids: Seq<u64>) -> Seq<u64> {
        ids.filter(|id: u64| self.live(id))
    }

    /// The wakers that the observers `ids` left, in that order.
    pub open spec fn left_by(self, ids: Seq<u64>) -> Seq<Waker>
        decreases ids.len(),
    {
        if ids.len() == 0 {
            Seq::empty()
        } else {
            self.left_by(ids.drop_last()) + if self.live(ids.last())
                && !ids.drop_last().contains(ids.last()) {
                self.wakers[ids.last()]
            } else {
                Seq::empty()
            }
        }
    }

    /// The wakers once those of the observers `ids` have been taken.
    pub open spec fn wakers_without(self, ids: Seq<u64>) -> Map<u64, Seq<Waker>> {
        Map::new(
            |id: u64| self.live(id),
            |id: u64|
                if ids.contains(id) {
                    Seq::empty()
                } else {
                    self.wakers[id]
                },
        )
    }

    /// One more observer.
    pub open spec fn enrolled(self) -> Self {
        RegistrationsView {
            stack: self.stack.push(self.next_id),
            wakers: self.wakers.insert(self.next_id, Seq::empty()),
            next_id: (self.next_id + 1) as u64,
        }
    }

    /// Observer `id` has left `waker`, in place of any that it left before.
    pub open spec fn registering(self, id: u64, waker: Waker) -> Self {
        RegistrationsView { wakers: self.wakers.insert(id, seq![waker]), ..self }
    }

    /// Everybody has been told of a change.
    pub open spec fn notified(self) -> Self {
        RegistrationsView {
            stack: self.kept(self.stack.reverse()),
            wakers: self.wakers_without(self.stack),
            next_id: self.next_id,
        }
    }

    /// The observers whose registrations are in the way of that of `own`, the
    /// topmost first.
    pub open spec fn displaced(self, own: u64) -> Seq<u64> {
        self.kept(above(self.stack, own).reverse())
    }

    /// Observer `own` has gone away.
    pub open spec fn without(self, own: u64) -> Self {
        RegistrationsView {
            stack: below(self.stack, own) + self.displaced(own),
            wakers: self.wakers_without(self.displaced(own)).remove(own),
            next_id: self.next_id,
        }
    }

    /// Ids are given out in order, one observer each; every observer that is
    /// still there has exactly one registration on the stack, and has left at
    /// most one waker.
    pub open spec fn settled(self) -> bool {
        &&& self.stack.no_duplicates()
        &&& forall|id: u64| #[trigger] self.stack.contains(id) ==> id < self.next_id
        &&& forall|id: u64| #[trigger] self.live(id) ==> self.stack.contains(id)
        &&& forall|id: u64| #[trigger] self.live(id) ==> self.wakers[id].len() <= 1
    }
}

/// What lies on `own` in `stack`, from the bottom to the top: everything, if
/// `own` is not there.
pub open spec fn above(stack: Seq<u64>, own: u64) -> Seq<u64>
    decreases stack.len(),
{
    if stack.len() == 0 || stack.last() == own {
        Seq::empty()
    } else {
        above(stack.drop_last(), own).push(stack.last())
    }
}

/// What lies below `own` in `stack`, from the bottom to the top: nothing, if
/// `own` is not there.
pub open spec fn below(stack: Seq<u64>, own: u64) -> Seq<u64>
    decreases stack.len(),
{
    if stack.len() == 0 {
        Seq::empty()
    } else if stack.last() == own {
        stack.drop_last()
    } else {
        below(stack.drop_last(), own)
    }
}

/// The registrations of the observers of one value.
pub struct Registrations {
    stack: IdStack,
    live: BTreeMap<u64, AtomicWaker>,
    next_id: u64,
}

impl View for Registrations {
    type V = RegistrationsView;

    closed spec fn view(&self) -> RegistrationsView {
        RegistrationsView {
            stack: contents(self.stack),
            wakers: self.live@.map_values(|cell: AtomicWaker| registered(cell)),
            next_id: self.next_id,
        }
    }
}

impl Registrations {
    /// No observers.
    pub fn new() -> (registrations: Self)
        ensures
            registrations@ == RegistrationsView::start(),
    {
        let registrations = Registrations {
            stack: crate::stack::empty(),
            live: BTreeMap::new(),
            next_id: 0,
        };
        assert(registrations@ =~= RegistrationsView::start());
        registrations
    }

    /// Whether there is an id left for one more observer.
    pub fn can_enroll(&self) -> (room: bool)
        ensures
            room == (self@.next_id < u64::MAX),
    {
        self.next_id < u64::MAX
    }

    /// Makes a registration for a new observer, and returns its id. There are
    /// `u64::MAX` ids.
    pub fn enroll(&mut self) -> (id: u64)
        requires
            old(self)@.next_id < u64::MAX,
        ensures
            id == old(self)@.next_id,
            final(self)@ == old(self)@.enrolled(),
    {
        let id: u64 = self.next_id;
        self.next_id = id + 1;
        self.live.insert(id, crate::wakers::new_cell());
        crate::stack::push(&mut self.stack, id);
        assert(self@ =~= old(self)@.enrolled());
        id
    }

    /// Whether observer `id` is still there.
    pub fn is_live(&self, id: u64) -> (live: bool)
        ensures
            live == self@.live(id),
    {
        self.live.contains_key(&id)
    }

    /// Leaves `waker` for observer `id`, in place of any that it left before,
    /// which is returned.
    pub fn register(&mut self, id: u64, waker: &Waker) -> (replaced: Option<Waker>)
        requires
            old(self)@.live(id),
        ensures
            old(self)@.wakers[id] == (match replaced {
                Some(before) => seq![before],
                None => Seq::empty(),
            }),
            final(self)@ == old(self)@.registering(id, *waker),
    {
        let replaced = match self.live.remove(&id) {
            Some(cell) => {
                let mut cell = cell;
                let replaced = crate::wakers::take(&mut cell);
                crate::wakers::register(&mut cell, waker);
                self.live.insert(id, cell);
                replaced
            },
            None => None,
        };
        assert(self@ =~= old(self)@.registering(id, *waker));
        replaced
    }
}

/// What a sweep is about to do.
#[derive(Clone, Copy, Debug, PartialEq, Eq, Structural)]
pub enum SweepPhase {
    /// Take registrations off the stack.
    Gather,
    /// Put the next of them back.
    Restore,
    /// Take the waker that the next of them left.
    Collect,
    /// Strike the observer that is going away off the list.
    Forget,
    /// Nothing: the wakers are there to be woken.
    Done,
}

/// A sweep in the middle of its work.
#[verifier::ext_equal]
pub struct SweepView {
    /// The observer that is going away; `None` if all are to be told of a
    /// change.
    pub own: Option<u64>,
    pub phase: SweepPhase,
    /// The registrations taken off the stack, in the order in which they came
    /// off.
    pub ids: Seq<u64>,
    /// How many of them have been restored, or collected from.
    pub at: int,
    /// The wakers collected so far.
    pub woken: Seq<Waker>,
}

impl SweepView {
    pub open spec fn start(own: Option<u64>) -> Self {
        SweepView { own, phase: SweepPhase::Gather, ids: Seq::empty(), at: 0, woken: Seq::empty() }
    }

    /// The sweep and the registrations after one step of the sweep.
    pub open spec fn step(self, regs: RegistrationsView) -> (Self, RegistrationsView) {
        match self.phase {
            SweepPhase::Gather => match self.own {
                None => (
                    SweepView { phase: SweepPhase::Restore, ids: regs.stack.reverse(), ..self },
                    RegistrationsView { stack: Seq::empty(), ..regs },
                ),
                Some(own) => if regs.stack.len() == 0 {
                    (SweepView { phase: SweepPhase::Restore, ..self }, regs)
                } else {
                    let id = regs.stack.last();
                    (
                        if id == own {
                            SweepView { phase: SweepPhase::Restore, ..self }
                        } else if regs.live(id) {
                            SweepView { ids: self.ids.push(id), ..self }
                        } else {
                            self
                        },
                        RegistrationsView { stack: regs.stack.drop_last(), ..regs },
                    )
                },
            },
            SweepPhase::Restore => if self.at < self.ids.len() {
                let id = self.ids[self.at];
                (
                    SweepView { at: self.at + 1, ..self },
                    if regs.live(id) {
                        RegistrationsView { stack: regs.stack.push(id), ..regs }
                    } else {
                        regs
                    },
                )
            } else {
                (SweepView { phase: SweepPhase::Collect, at: 0, ..self }, regs)
            },
            SweepPhase::Collect => if self.at < self.ids.len() {
                let id = self.ids[self.at];
                if regs.live(id) {
                    (
                        SweepView {
                            at: self.at + 1,
                            woken: self.woken + regs.wakers[id],
                            ..self
                        },
                        RegistrationsView { wakers: regs.wakers.insert(id, Seq::empty()), ..regs },
                    )
                } else {
                    (SweepView { at: self.at + 1, ..self }, regs)
                }
            } else {
                (SweepView { phase: SweepPhase::Forget, ..self }, regs)
            },
            SweepPhase::Forget => (
                SweepView { phase: SweepPhase::Done, ..self },
                match self.own {
                    Some(own) => RegistrationsView { wakers: regs.wakers.remove(own), ..regs },
                    None => regs,
                },
            ),
            SweepPhase::Done => (self, regs),
        }
    }
}

/// A sweep of the registrations, one atomic step at a time.
pub struct Sweep {
    own: Option<u64>,
    phase: SweepPhase,
    ids: Vec<u64>,
    at: usize,
    woken: Vec<Waker>,
    /// The cell of the observer that has gone away, and whatever it left there,
    /// to be dropped with the sweep and not in the middle of a step.
    gone: Option<AtomicWaker>,
}

impl View for Sweep {
    type V = SweepView;

    closed spec fn view(&self) -> SweepView {
        SweepView {
            own: self.own,
            phase: self.phase,
            ids: self.ids@,
            at: self.at as int,
            woken: self.woken@,
        }
    }
}

impl Sweep {
    /// A sweep that tells every observer of a change.
    pub fn all() -> (sweep: Self)
        ensures
            sweep@ == SweepView::start(None),
    {
        let sweep = Sweep {
            own: None,
            phase: SweepPhase::Gather,
            ids: Vec::new(),
            at: 0,
            woken: Vec::new(),
            gone: None,
        };
        assert(sweep@ =~= SweepView::start(None));
        sweep
    }

    /// A sweep for observer `own`, which is going away.
    pub fn down_to(own: u64) -> (sweep: Self)
        ensures
            sweep@ == SweepView::start(Some(own)),
    {
        let sweep = Sweep {
            own: Some(own),
            phase: SweepPhase::Gather,
            ids: Vec::new(),
            at: 0,
            woken: Vec::new(),
            gone: None,
        };
        assert(sweep@ =~= SweepView::start(Some(own)));
        sweep
    }

    /// What the sweep is about to do.
    pub fn phase(&self) -> (phase: SweepPhase)
        ensures
            phase == self@.phase,
    {
        self.phase
    }

    /// The wakers that the sweep collected, for the caller to wake.
    pub fn into_woken(self) -> (woken: Vec<Waker>)
        ensures
            woken@ == self@.woken,
    {
        self.woken
    }

    /// Takes one atomic step.
    pub fn step(&mut self, regs: &mut Registrations)
        ensures
            (final(self)@, final(regs)@) == old(self)@.step(old(regs)@),
    {
        let ghost expected = old(self)@.step(old(regs)@);
        match self.phase {
            SweepPhase::Gather => match self.own {
                None => {
                    self.ids = crate::stack::drain(&mut regs.stack);
                    self.phase = SweepPhase::Restore;
                },
                Some(own) => match crate::stack::pop(&mut regs.stack) {
                    None => {
                        self.phase = SweepPhase::Restore;
                    },
                    Some(id) => {
                        assert(contents(regs.stack) =~= old(regs)@.stack.drop_last());
                        if id == own {
                            self.phase = SweepPhase::Restore;
                        } else if regs.is_live(id) {
                            self.ids.push(id);
                        }
                    },
                },
            },
            SweepPhase::Restore => {
                if self.at < self.ids.len() {
                    let id: u64 = self.ids[self.at];
                    if regs.is_live(id) {
                        crate::stack::push(&mut regs.stack, id);
                    }
                    self.at = self.at + 1;
                } else {
                    self.phase = SweepPhase::Collect;
                    self.at = 0;
                }
            },
            SweepPhase::Collect => {
                if self.at < self.ids.len() {
                    let id: u64 = self.ids[self.at];
                    match regs.live.remove(&id) {
                        Some(cell) => {
                            let mut cell = cell;
                            match crate::wakers::take(&mut cell) {
                                Some(waker) => {
                                    self.woken.push(waker);
                                },
                                None => {},
                            }
                            regs.live.insert(id, cell);
                        },
                        None => {},
                    }
                    self.at = self.at + 1;
                } else {
                    self.phase = SweepPhase::Forget;
                }
            },
            SweepPhase::Forget => {
                match self.own {
                    Some(own) => {
                        self.gone = regs.live.remove(&own);
                    },
                    None => {},
                }
                self.phase = SweepPhase::Done;
            },
            SweepPhase::Done => {},
        }
        assert(self@ =~= expected.0);
        assert(regs@ =~= expected.1);
    }
}

/// Where `own` is in `stack`: at `n - 1`, if anywhere, and nowhere above.
proof fn lemma_above_and_below(stack: Seq<u64>, own: u64, n: int)
    requires
        0 <= n <= stack.len(),
        !stack.skip(n).contains(own),
        n > 0 ==> stack[n - 1] == own,
    ensures
        above(stack, own) == stack.skip(n),
        below(stack, own) == if n > 0 {
            stack.take(n - 1)
        } else {
            Seq::empty()
        },
    decreases stack.len(),
{
    if n < stack.len() {
        assert(stack.skip(n)[stack.len() - n - 1] == stack.last());
        assert(stack.drop_last().skip(n) =~= stack.skip(n).drop_last());
        let rest = stack.drop_last().skip(n);
        assert forall|i: int| 0 <= i < rest.len() implies rest[i] != own by {
            assert(stack.skip(n)[i] != own);
        }
        lemma_above_and_below(stack.drop_last(), own, n);
        assert(stack.skip(n) =~= stack.drop_last().skip(n).push(stack.last()));
        if n > 0 {
            assert(stack.take(n - 1) =~= stack.drop_last().take(n - 1));
        }
    } else {
        assert(stack.skip(n) =~= Seq::empty());
        if n > 0 {
            assert(stack.take(n - 1) =~= stack.drop_last());
        }
    }
}

impl RegistrationsView {
    proof fn lemma_kept_twice(self, ids: Seq<u64>)
        ensures
            self.kept(self.kept(ids)) == self.kept(ids),
        decreases ids.len(),
    {
        reveal(Seq::filter);
        if ids.len() > 0 {
            self.lemma_kept_twice(ids.drop_last());
            let kept = self.kept(ids);
            if self.live(ids.last()) {
                assert(kept.drop_last() =~= self.kept(ids.drop_last()));
            }
        }
    }
}

impl SweepPhase {
    spec fn left(self) -> int {
        match self {
            SweepPhase::Gather => 4,
            SweepPhase::Restore => 3,
            SweepPhase::Collect => 2,
            SweepPhase::Forget => 1,
            SweepPhase::Done => 0,
        }
    }
}

impl SweepView {
    /// What a sweep that nobody disturbs leaves on the stack when it has
    /// gathered.
    spec fn base(own: Option<u64>, before: RegistrationsView) -> Seq<u64> {
        match own {
            None => Seq::empty(),
            Some(own) => below(before.stack, own),
        }
    }

    /// What it has then gathered.
    spec fn gathered(own: Option<u64>, before: RegistrationsView) -> Seq<u64> {
        match own {
            None => before.stack.reverse(),
            Some(own) => before.displaced(own),
        }
    }

    /// This sweep came to the registrations `before`, nobody else has touched
    /// them, and now they are as in `regs`.
    spec fn alone(self, before: RegistrationsView, regs: RegistrationsView) -> bool {
        let base = SweepView::base(self.own, before);
        let gathered = SweepView::gathered(self.own, before);
        &&& regs.next_id == before.next_id
        &&& match self.phase {
            SweepPhase::Gather => {
                let n = regs.stack.len() as int;
                &&& n <= before.stack.len()
                &&& regs.stack == before.stack.take(n)
                &&& regs.wakers == before.wakers
                &&& self.at == 0
                &&& self.woken == Seq::<Waker>::empty()
                &&& match self.own {
                    None => n == before.stack.len() && self.ids == Seq::<u64>::empty(),
                    Some(own) => !before.stack.skip(n).contains(own) && self.ids == before.kept(
                        before.stack.skip(n).reverse(),
                    ),
                }
            },
            SweepPhase::Restore => {
                &&& 0 <= self.at <= self.ids.len()
                &&& self.ids == gathered
                &&& regs.stack == base + before.kept(gathered.take(self.at))
                &&& regs.wakers == before.wakers
                &&& self.woken == Seq::<Waker>::empty()
            },
            SweepPhase::Collect => {
                &&& 0 <= self.at <= self.ids.len()
                &&& self.ids == gathered
                &&& regs.stack == base + before.kept(gathered)
                &&& regs.wakers == before.wakers_without(gathered.take(self.at))
                &&& self.woken == before.left_by(gathered.take(self.at))
            },
            SweepPhase::Forget => {
                &&& regs.stack == base + before.kept(gathered)
                &&& regs.wakers == before.wakers_without(gathered)
                &&& self.woken == before.left_by(gathered)
            },
            SweepPhase::Done => {
                &&& regs.stack == base + before.kept(gathered)
                &&& regs.wakers == match self.own {
                    None => before.wakers_without(gathered),
                    Some(own) => before.wakers_without(gathered).remove(own),
                }
                &&& self.woken == before.left_by(gathered)
            },
        }
    }

    proof fn lemma_alone_step(self, before: RegistrationsView, regs: RegistrationsView)
        requires
            self.alone(before, regs),
        ensures
            self.step(regs).0.alone(before, self.step(regs).1),
            self.step(regs).0.own == self.own,
    {
        let (next, after) = self.step(regs);
        let gathered = SweepView::gathered(self.own, before);
        let base = SweepView::base(self.own, before);
        match self.phase {
            SweepPhase::Gather => {
                let n = regs.stack.len() as int;
                match self.own {
                    None => {
                        assert(before.stack.take(n) =~= before.stack);
                        assert(gathered.take(0) =~= Seq::empty());
                        assert(after.stack =~= base + before.kept(gathered.take(0)));
                    },
                    Some(own) => {
                        if n == 0 || regs.stack.last() == own {
                            lemma_above_and_below(before.stack, own, n);
                            assert(gathered.take(0) =~= Seq::empty());
                            assert(after.stack =~= base + before.kept(gathered.take(0)));
                        } else {
                            let id = regs.stack.last();
                            assert(after.stack =~= before.stack.take(n - 1));
                            let rest = before.stack.skip(n - 1);
                            assert(rest.reverse() =~= before.stack.skip(n).reverse().push(id));
                            assert(rest.reverse().drop_last() =~= before.stack.skip(n).reverse());
                            assert forall|i: int| 0 <= i < rest.len() implies rest[i] != own by {
                                if i > 0 {
                                    assert(before.stack.skip(n)[i - 1] == rest[i]);
                                }
                            }
                            reveal(Seq::filter);
                        }
                    },
                }
            },
            SweepPhase::Restore => {
                if self.at < self.ids.len() {
                    let id = self.ids[self.at];
                    assert(gathered.take(self.at + 1).drop_last() =~= gathered.take(self.at));
                    reveal(Seq::filter);
                    assert(after.stack =~= base + before.kept(gathered.take(self.at + 1)));
                } else {
                    assert(gathered.take(self.at) =~= gathered);
                    assert(after.wakers =~= before.wakers_without(gathered.take(0)));
                }
            },
            SweepPhase::Collect => {
                if self.at < self.ids.len() {
                    let id = self.ids[self.at];
                    let done = gathered.take(self.at);
                    let more = gathered.take(self.at + 1);
                    assert(more.drop_last() =~= done);
                    assert(more =~= done.push(id));
                    assert forall|x: u64| more.contains(x) == (done.contains(x) || x == id) by {
                        if done.contains(x) {
                            let i = choose|i: int| 0 <= i < done.len() && done[i] == x;
                            assert(more[i] == x);
                        }
                        if x == id {
                            assert(more[self.at] == x);
                        }
                    }
                    assert(after.wakers =~= before.wakers_without(more));
                    assert(next.woken =~= before.left_by(more));
                } else {
                    assert(gathered.take(self.at) =~= gathered);
                }
            },
            SweepPhase::Forget => {},
            SweepPhase::Done => {},
        }
    }
}

impl Registrations {
    /// Runs `sweep` from beginning to end.
    fn run(&mut self, sweep: Sweep) -> (woken: Vec<Waker>)
        requires
            sweep@ == SweepView::start(sweep@.own),
        ensures
            exists|last: SweepView|
                {
                    &&& last.phase is Done
                    &&& last.own == sweep@.own
                    &&& last.woken == woken@
                    &&& #[trigger] last.alone(old(self)@, final(self)@)
                },
    {
        let mut sweep = sweep;
        let ghost own = sweep@.own;
        let ghost before = self@;
        proof {
            assert(before.stack.take(before.stack.len() as int) =~= before.stack);
            assert(before.stack.skip(before.stack.len() as int) =~= Seq::empty());
            assert(Seq::<u64>::empty().reverse() =~= Seq::empty());
            reveal(Seq::filter);
        }
        loop
            invariant
                sweep@.own == own,
                sweep@.alone(before, self@),
            ensures
                sweep@.own == own,
                sweep@.phase is Done,
                sweep@.alone(before, self@),
            decreases
                    sweep@.phase.left(),
                    if sweep@.phase is Gather {
                        self@.stack.len() as int
                    } else {
                        sweep@.ids.len() - sweep@.at
                    },
        {
            match sweep.phase() {
                SweepPhase::Done => {
                    break ;
                },
                _ => {},
            }
            proof {
                sweep@.lemma_alone_step(before, self@);
            }
            sweep.step(self);
        }
        sweep.into_woken()
    }

    /// Tells every observer of a change: each registration whose observer is
    /// gone is forgotten, each other one is kept, and the wakers that their
    /// observers left are handed to the caller to be woken.
    pub fn notify(&mut self) -> (woken: Vec<Waker>)
        ensures
            woken@ == old(self)@.left_by(old(self)@.stack.reverse()),
            final(self)@ == old(self)@.notified(),
    {
        let woken = self.run(Sweep::all());
        proof {
            let before = old(self)@;
            assert(self@.stack =~= before.kept(before.stack.reverse()));
            assert forall|id: u64| before.stack.reverse().contains(id) == before.stack.contains(
                id,
            ) by {
                if before.stack.contains(id) {
                    let i = choose|i: int| 0 <= i < before.stack.len() && before.stack[i] == id;
                    assert(before.stack.reverse()[before.stack.len() - 1 - i] == id);
                }
            }
            assert(self@.wakers =~= before.wakers_without(before.stack));
            assert(self@ =~= before.notified());
        }
        woken
    }

    /// Takes the registration of observer `own` away. Those that were in its
    /// way are put back, and told: a change may have gone unnoticed while they
    /// were off the stack.
    pub fn remove(&mut self, own: u64) -> (woken: Vec<Waker>)
        ensures
            woken@ == old(self)@.left_by(old(self)@.displaced(own)),
            final(self)@ == old(self)@.without(own),
    {
        let woken = self.run(Sweep::down_to(own));
        proof {
            let before = old(self)@;
            before.lemma_kept_twice(above(before.stack, own).reverse());
            assert(self@ =~= before.without(own));
        }
        woken
    }
}

/// A new observer gets an id that nobody has, and everybody keeps theirs.
pub proof fn law_ids_are_unique(regs: RegistrationsView)
    requires
        regs.settled(),
        regs.next_id < u64::MAX,
    ensures
        regs.enrolled().settled(),
        !regs.live(regs.next_id),
        !regs.stack.contains(regs.next_id),
        forall|id: u64| #[trigger]
            regs.enrolled().live(id) <==> regs.live(id) || id == regs.next_id,
{
    let after = regs.enrolled();
    assert(!regs.stack.contains(regs.next_id));
    assert(!regs.live(regs.next_id));
    assert forall|id: u64| #[trigger] after.stack.contains(id) <==> regs.stack.contains(id) || id
        == regs.next_id by {
        if regs.stack.contains(id) {
            let i = choose|i: int| 0 <= i < regs.stack.len() && regs.stack[i] == id;
            assert(after.stack[i] == id);
        }
        if id == regs.next_id {
            assert(after.stack.last() == id);
        }
    }
    assert forall|id: u64| #[trigger] after.live(id) implies after.stack.contains(id)
        && after.wakers[id].len() <= 1 by {
        assert(id == regs.next_id || regs.live(id));
    }
}

/// Leaving a waker disturbs no registration.
pub proof fn law_registering_disturbs_nobody(regs: RegistrationsView, id: u64, waker: Waker)
    requires
        regs.settled(),
        regs.live(id),
    ensures
        regs.registering(id, waker).settled(),
        forall|other: u64| #[trigger]
            regs.registering(id, waker).live(other) <==> regs.live(other),
{
    let after = regs.registering(id, waker);
    assert forall|other: u64| #[trigger] after.live(other) implies after.stack.contains(other)
        && after.wakers[other].len() <= 1 by {
        assert(regs.live(other));
    }
}

proof fn lemma_reverse_contains(ids: Seq<u64>)
    ensures
        forall|id: u64| #[trigger] ids.reverse().contains(id) <==> ids.contains(id),
        ids.no_duplicates() ==> ids.reverse().no_duplicates(),
{
    assert forall|id: u64| ids.contains(id) implies #[trigger] ids.reverse().contains(id) by {
        let i = choose|i: int| 0 <= i < ids.len() && ids[i] == id;
        assert(ids.reverse()[ids.len() - 1 - i] == id);
    }
}

impl RegistrationsView {
    proof fn lemma_kept(self, ids: Seq<u64>)
        ensures
            forall|id: u64| #[trigger]
                self.kept(ids).contains(id) <==> ids.contains(id) && self.live(id),
            ids.no_duplicates() ==> self.kept(ids).no_duplicates(),
        decreases ids.len(),
    {
        reveal(Seq::filter);
        if ids.len() > 0 {
            let rest = ids.drop_last();
            let last = ids.last();
            self.lemma_kept(rest);
            assert forall|id: u64| ids.contains(id) <==> rest.contains(id) || id == last by {
                if ids.contains(id) {
                    let i = choose|i: int| 0 <= i < ids.len() && ids[i] == id;
                    assert(i == ids.len() - 1 || rest[i] == id);
                }
                if rest.contains(id) {
                    let i = choose|i: int| 0 <= i < rest.len() && rest[i] == id;
                    assert(ids[i] == id);
                }
                if id == last {
                    assert(ids[ids.len() - 1] == id);
                }
            }
            if self.live(last) {
                let kept = self.kept(rest);
                assert forall|id: u64| #[trigger] self.kept(ids).contains(id) <==> kept.contains(id)
                    || id == last by {
                    if kept.contains(id) {
                        let i = choose|i: int| 0 <= i < kept.len() && kept[i] == id;
                        assert(self.kept(ids)[i] == id);
                    }
                    if id == last {
                        assert(self.kept(ids).last() == id);
                    }
                }
                if ids.no_duplicates() {
                    assert(!rest.contains(last));
                    assert(!kept.contains(last));
                }
            }
            assert forall|id: u64| #[trigger] self.kept(ids).contains(id) <==> ids.contains(id)
                && self.live(id) by {
                assert(self.kept(rest).contains(id) <==> rest.contains(id) && self.live(id));
            }
        }
    }

    /// Whoever is among `ids` has the waker that it left among those that
    /// `ids` left.
    proof fn lemma_left_by(self, ids: Seq<u64>, id: u64)
        requires
            ids.contains(id),
            self.live(id),
            self.wakers[id].len() == 1,
        ensures
            self.left_by(ids).contains(self.wakers[id][0]),
        decreases ids.len(),
    {
        let rest = ids.drop_last();
        let waker = self.wakers[id][0];
        if rest.contains(id) {
            self.lemma_left_by(rest, id);
            let i = choose|i: int|
                0 <= i < self.left_by(rest).len() && self.left_by(rest)[i] == waker;
            assert(self.left_by(ids)[i] == waker);
        } else {
            let i = choose|i: int| 0 <= i < ids.len() && ids[i] == id;
            assert(i == ids.len() - 1 || rest[i] == id);
            assert(self.left_by(ids)[self.left_by(rest).len() as int] == waker);
        }
    }
}

/// A notice of a change reaches every observer: the waker that it left is
/// handed out, once, and its registration stays, for the next change.
pub proof fn law_notice_reaches_everybody(regs: RegistrationsView)
    requires
        regs.settled(),
    ensures
        regs.notified().settled(),
        forall|id: u64| #[trigger] regs.notified().live(id) <==> regs.live(id),
        forall|id: u64| #[trigger]
            regs.live(id) ==> regs.notified().wakers[id] == Seq::<Waker>::empty() && (
            regs.wakers[id].len() == 1 ==> regs.left_by(regs.stack.reverse()).contains(
                regs.wakers[id][0],
            )),
        forall|id: u64| #[trigger]
            regs.notified().stack.contains(id) <==> regs.live(id),
        regs.left_by(regs.stack.reverse()) == regs.waiting(regs.stack.reverse()).map_values(
            |id: u64| regs.wakers[id][0],
        ),
{
    lemma_reverse_contains(regs.stack);
    law_each_waker_is_handed_out_once(regs, regs.stack.reverse());
    regs.lemma_kept(regs.stack.reverse());
    let after = regs.notified();
    assert forall|id: u64| #[trigger] after.stack.contains(id) <==> regs.live(id) by {
        assert(regs.live(id) ==> regs.stack.contains(id));
        assert(regs.stack.reverse().contains(id) <==> regs.stack.contains(id));
    }
    assert forall|id: u64| #[trigger] regs.live(id) implies after.wakers[id] == Seq::<
        Waker,
    >::empty() && (regs.wakers[id].len() == 1 ==> regs.left_by(regs.stack.reverse()).contains(
        regs.wakers[id][0],
    )) by {
        assert(regs.stack.reverse().contains(id));
        if regs.wakers[id].len() == 1 {
            regs.lemma_left_by(regs.stack.reverse(), id);
        }
    }
    assert forall|id: u64| #[trigger] after.stack.contains(id) implies id < after.next_id by {
        assert(regs.stack.contains(id));
    }
}

/// Where `own` is in a stack without repetitions.
proof fn lemma_place_of(stack: Seq<u64>, own: u64) -> (n: int)
    requires
        stack.no_duplicates(),
        stack.contains(own),
    ensures
        0 <= n < stack.len(),
        stack[n] == own,
        above(stack, own) == stack.skip(n + 1),
        below(stack, own) == stack.take(n),
{
    let n = choose|n: int| 0 <= n < stack.len() && stack[n] == own;
    let top = stack.skip(n + 1);
    assert(forall|i: int| 0 <= i < top.len() ==> top[i] != own);
    if n + 1 < stack.len() {
        assert(!top.contains(own));
    }
    lemma_above_and_below(stack, own, n + 1);
    n
}

/// An observer that goes away takes nobody with it: every other registration
/// stays, and every other waker is still there or is handed out.
pub proof fn law_leaving_disturbs_nobody(regs: RegistrationsView, own: u64)
    requires
        regs.settled(),
        regs.live(own),
    ensures
        regs.without(own).settled(),
        forall|id: u64| #[trigger] regs.without(own).live(id) <==> regs.live(id) && id != own,
        !regs.without(own).stack.contains(own),
        forall|id: u64| #[trigger]
            regs.live(id) && id != own ==> {
                ||| regs.without(own).wakers[id] == regs.wakers[id]
                ||| regs.without(own).wakers[id] == Seq::<Waker>::empty() && (
                regs.wakers[id].len() == 1 ==> regs.left_by(regs.displaced(own)).contains(
                    regs.wakers[id][0],
                ))
            },
{
    let stack = regs.stack;
    assert(stack.contains(own));
    let n = lemma_place_of(stack, own);
    let top = stack.skip(n + 1);
    let bottom = stack.take(n);
    let displaced = regs.displaced(own);
    let after = regs.without(own);
    lemma_reverse_contains(top);
    regs.lemma_kept(top.reverse());
    assert(top.no_duplicates());
    assert forall|id: u64| #[trigger] top.contains(id) implies id != own && stack.contains(id)
        && !bottom.contains(id) by {
        let i = choose|i: int| 0 <= i < top.len() && top[i] == id;
        assert(stack[n + 1 + i] == id);
    }
    assert forall|id: u64| #[trigger] displaced.contains(id) implies id != own && stack.contains(id)
        && !bottom.contains(id) by {
        assert(top.reverse().contains(id));
        assert(top.contains(id));
    }
    assert forall|id: u64| #[trigger] bottom.contains(id) implies id != own && stack.contains(
        id,
    ) by {
        let i = choose|i: int| 0 <= i < bottom.len() && bottom[i] == id;
        assert(stack[i] == id);
    }
    assert forall|id: u64| #[trigger] after.stack.contains(id) <==> bottom.contains(id)
        || displaced.contains(id) by {
        if bottom.contains(id) {
            let i = choose|i: int| 0 <= i < bottom.len() && bottom[i] == id;
            assert(after.stack[i] == id);
        }
        if displaced.contains(id) {
            let i = choose|i: int| 0 <= i < displaced.len() && displaced[i] == id;
            assert(after.stack[bottom.len() + i] == id);
        }
    }
    assert(after.stack.no_duplicates()) by {
        assert forall|i: int, j: int|
            0 <= i < j < after.stack.len() implies after.stack[i] != after.stack[j] by {
            if i < bottom.len() && j >= bottom.len() {
                assert(bottom.contains(after.stack[i]));
                assert(displaced.contains(displaced[j - bottom.len()]));
            }
        }
    }
    assert forall|id: u64| #[trigger] after.live(id) implies after.stack.contains(id)
        && after.wakers[id].len() <= 1 by {
        assert(regs.live(id) && id != own);
        assert(stack.contains(id));
        let i = choose|i: int| 0 <= i < stack.len() && stack[i] == id;
        if i < n {
            assert(bottom[i] == id);
        } else {
            assert(top[i - n - 1] == id);
            assert(top.contains(id));
            assert(top.reverse().contains(id));
        }
    }
    assert forall|id: u64| #[trigger] regs.live(id) && id != own implies {
        ||| after.wakers[id] == regs.wakers[id]
        ||| after.wakers[id] == Seq::<Waker>::empty() && (regs.wakers[id].len() == 1
            ==> regs.left_by(displaced).contains(regs.wakers[id][0]))
    } by {
        if displaced.contains(id) && regs.wakers[id].len() == 1 {
            regs.lemma_left_by(displaced, id);
        }
    }
}

impl RegistrationsView {
    /// Those of `ids` whose observers have left a waker.
    pub open spec fn waiting(self, ids: Seq<u64>) -> Seq<u64> {
        ids.filter(|id: u64| self.live(id) && self.wakers[id].len() == 1)
    }
}

/// Each observer that has left a waker has it handed out exactly once, however
/// many others there are: the wakers that `ids` left are those of the observers
/// that have left one, in the same order.
pub proof fn law_each_waker_is_handed_out_once(regs: RegistrationsView, ids: Seq<u64>)
    requires
        ids.no_duplicates(),
        forall|id: u64| #[trigger] regs.live(id) ==> regs.wakers[id].len() <= 1,
    ensures
        regs.left_by(ids) == regs.waiting(ids).map_values(|id: u64| regs.wakers[id][0]),
    decreases ids.len(),
{
    reveal(Seq::filter);
    if ids.len() > 0 {
        let rest = ids.drop_last();
        let last = ids.last();
        law_each_waker_is_handed_out_once(regs, rest);
        assert(!rest.contains(last));
        if regs.live(last) && regs.wakers[last].len() == 1 {
            assert(regs.wakers[last] =~= seq![regs.wakers[last][0]]);
        } else if regs.live(last) {
            assert(regs.wakers[last] =~= Seq::empty());
        }
    }
    assert(regs.left_by(ids) =~= regs.waiting(ids).map_values(|id: u64| regs.wakers[id][0]));
}

/// Everybody who is told of a change keeps a registration; those that are put
/// back come in the opposite order, and those of observers that have gone do not
/// come back.
pub proof fn law_registrations_are_put_back(regs: RegistrationsView)
    ensures
        regs.notified().stack == regs.stack.reverse().filter(
            |id: u64| regs.wakers.contains_key(id),
        ),
        regs.notified().next_id == regs.next_id,
        regs.enrolled().stack == regs.stack.push(regs.next_id),
        RegistrationsView::start().stack == Seq::<u64>::empty(),
        RegistrationsView::start().wakers == Map::<u64, Seq<Waker>>::empty(),
{
    lemma_filters_agree(
        regs.stack.reverse(),
        |id: u64| regs.live(id),
        |id: u64| regs.wakers.contains_key(id),
    );
}

/// An observer that goes moves only those whose registrations lie on its own:
/// they are put back, topmost first, and have their wakers handed out in that
/// order. What lies below stays, and so do the wakers of all others.
pub proof fn law_leaving_moves_what_lies_above(regs: RegistrationsView, own: u64, place: int)
    requires
        regs.settled(),
        0 <= place < regs.stack.len(),
        regs.stack[place] == own,
    ensures
        ({
            let moved = regs.stack.skip(place + 1).reverse().filter(
                |id: u64| regs.wakers.contains_key(id),
            );
            &&& regs.displaced(own) == moved
            &&& regs.without(own).stack == regs.stack.take(place) + moved
            &&& regs.without(own).next_id == regs.next_id
            &&& regs.left_by(regs.displaced(own)) == moved.filter(
                |id: u64| regs.wakers.contains_key(id) && regs.wakers[id].len() == 1,
            ).map_values(|id: u64| regs.wakers[id][0])
            &&& forall|id: u64| #[trigger]
                regs.without(own).wakers.contains_key(id) <==> regs.wakers.contains_key(id) && id
                    != own
            &&& forall|id: u64|
                regs.wakers.contains_key(id) && id != own ==> #[trigger] regs.without(
                    own,
                ).wakers[id] == if moved.contains(id) {
                    Seq::empty()
                } else {
                    regs.wakers[id]
                }
        }),
{
    let n = lemma_place_of(regs.stack, own);
    assert(n == place);
    let top = regs.stack.skip(place + 1).reverse();
    let live = |id: u64| regs.live(id);
    lemma_filters_agree(top, live, |id: u64| regs.wakers.contains_key(id));
    lemma_reverse_contains(regs.stack.skip(place + 1));
    regs.lemma_kept(top);
    let moved = regs.displaced(own);
    law_each_waker_is_handed_out_once(regs, moved);
    lemma_filters_agree(
        moved,
        |id: u64| regs.live(id) && regs.wakers[id].len() == 1,
        |id: u64| regs.wakers.contains_key(id) && regs.wakers[id].len() == 1,
    );
}

/// A sweep begins with nothing gathered and nobody told.
pub proof fn law_a_sweep_begins_empty_handed(own: Option<u64>)
    ensures
        SweepView::start(own).own == own,
        SweepView::start(own).phase == SweepPhase::Gather,
        SweepView::start(own).ids == Seq::<u64>::empty(),
        SweepView::start(own).woken == Seq::<Waker>::empty(),
{
}

pub(crate) proof fn lemma_filters_agree(
    ids: Seq<u64>,
    p: spec_fn(u64) -> bool,
    q: spec_fn(u64) -> bool,
)
    requires
        forall|id: u64| #[trigger] p(id) == q(id),
    ensures
        ids.filter(p) == ids.filter(q),
    decreases ids.len(),
{
    reveal(Seq::filter);
    if ids.len() > 0 {
        lemma_filters_agree(ids.drop_last(), p, q);
    }
}

} // verus!
