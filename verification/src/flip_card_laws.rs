//! What holds of a [`FlipCard`](crate::flip_card::FlipCard) that any number of
//! readers and writers share.
//!
//! A [`World`] is a card together with everybody who is using it. It changes in
//! atomic steps, one reader or one writer at a time, in whatever order they
//! happen to be scheduled. The laws hold in every world that can be reached
//! from a fresh card.

use vstd::multiset::Multiset;
use vstd::prelude::*;

use crate::flip_card::{
    CardView, ReaderPhase, ReaderView, SlotView, WriterPhase, WriterView, READ, WRITE,
};

verus! {

/// A card and everybody who is using it.
pub struct World<T> {
    pub card: CardView<T>,
    pub writers: Seq<WriterView<T>>,
    /// For each writer, the value that it came with.
    pub brought: Seq<T>,
    /// For each writer that has published its value, the place of that value
    /// in `history`.
    pub placed: Seq<int>,
    pub readers: Seq<ReaderView<T>>,
    /// Every value that has been the current one, oldest first.
    pub history: Seq<T>,
    /// For each reader, the place in `history` of the value that was current
    /// when it last checked.
    pub seen: Seq<int>,
}

/// How many of `readers` slot `zero` counts.
pub open spec fn count_inside<T>(readers: Seq<ReaderView<T>>, zero: bool) -> nat
    decreases readers.len(),
{
    if readers.len() == 0 {
        0
    } else {
        count_inside(readers.drop_last(), zero) + if readers.last().inside(zero) {
            1nat
        } else {
            0nat
        }
    }
}

impl<T: Clone> World<T> {
    /// A card that holds `value`, and nobody around.
    pub open spec fn fresh(zero: bool, value: T) -> Self {
        World {
            card: CardView::at_rest(zero, value),
            writers: Seq::empty(),
            brought: Seq::empty(),
            placed: Seq::empty(),
            readers: Seq::empty(),
            history: seq![value],
            seen: Seq::empty(),
        }
    }

    /// Writer `i` takes a step.
    pub open spec fn writer_steps(self, i: int, next: Self) -> bool {
        let (writer, card) = self.writers[i].step(self.card);
        &&& 0 <= i < self.writers.len()
        &&& next == World {
            card,
            writers: self.writers.update(i, writer),
            placed: if self.writers[i].phase is Publish {
                self.placed.update(i, self.history.len() as int)
            } else {
                self.placed
            },
            history: match self.writers[i].phase {
                WriterPhase::Publish(z) => self.history.push(self.card.slot(z).data->0),
                _ => self.history,
            },
            ..self
        }
    }

    /// Reader `i` takes a step.
    pub open spec fn reader_steps(self, i: int, next: Self) -> bool {
        &&& 0 <= i < self.readers.len()
        &&& self.readers[i].steps_to(self.card, (next.readers[i], next.card))
        &&& next.readers == self.readers.update(i, next.readers[i])
        &&& next.writers == self.writers
        &&& next.brought == self.brought
        &&& next.placed == self.placed
        &&& next.history == self.history
        &&& next.seen == if self.readers[i].phase is Check && next.readers[i].phase is Copy {
            self.seen.update(i, self.history.len() - 1)
        } else {
            self.seen
        }
    }

    /// Somebody comes to write `data`.
    pub open spec fn writer_comes(self, data: T, next: Self) -> bool {
        next == World {
            writers: self.writers.push(WriterView::start(data)),
            brought: self.brought.push(data),
            placed: self.placed.push(0),
            ..self
        }
    }

    /// Somebody comes to read.
    pub open spec fn reader_comes(self, next: Self) -> bool {
        next == World {
            readers: self.readers.push(ReaderView::start()),
            seen: self.seen.push(0),
            ..self
        }
    }

    /// The cloning of the value by reader `i` panics.
    pub open spec fn reader_abandons(self, i: int, next: Self) -> bool {
        &&& 0 <= i < self.readers.len()
        &&& next == World {
            readers: self.readers.update(i, self.readers[i].abandoned()),
            ..self
        }
    }

    /// Reader `i` has finished, and reads again.
    pub open spec fn reader_returns(self, i: int, next: Self) -> bool {
        &&& 0 <= i < self.readers.len()
        &&& self.readers[i].phase is Done
        &&& next == World { readers: self.readers.update(i, ReaderView::start()), ..self }
    }

    /// One thing happens.
    pub open spec fn next(self, next: Self) -> bool {
        ||| exists|i: int| self.writer_steps(i, next)
        ||| exists|i: int| self.reader_steps(i, next)
        ||| exists|data: T| self.writer_comes(data, next)
        ||| self.reader_comes(next)
        ||| exists|i: int| self.reader_abandons(i, next)
        ||| exists|i: int| self.reader_returns(i, next)
    }

    /// `trace` is a run: each of its worlds comes from the one before.
    pub open spec fn run(trace: Seq<Self>) -> bool {
        forall|k: int| 0 < k < trace.len() ==> #[trigger] trace[k - 1].next(trace[k])
    }

    /// Writer `i` has made its value the current one.
    pub open spec fn has_published(self, i: int) -> bool {
        match self.writers[i].phase {
            WriterPhase::Reenter(_) | WriterPhase::Empty(_) | WriterPhase::Release(_)
            | WriterPhase::Unlock | WriterPhase::Done => true,
            _ => false,
        }
    }

    /// No two writers have published the same value of the history.
    pub open spec fn places_are_distinct(self) -> bool {
        forall|i: int, j: int|
            0 <= i < self.writers.len() && 0 <= j < self.writers.len() && #[trigger]
            self.has_published(i) && #[trigger] self.has_published(j) && self.placed[i]
                == self.placed[j] ==> i == j
    }

    /// How many of the first `n` writers have published their values.
    pub open spec fn published_count(self, n: int) -> nat
        decreases n,
    {
        if n <= 0 {
            0
        } else {
            self.published_count(n - 1) + if self.has_published(n - 1) {
                1nat
            } else {
                0nat
            }
        }
    }

    /// The values that those of the first `n` writers came with that have
    /// published them.
    pub open spec fn published_values(self, n: int) -> Multiset<T>
        decreases n,
    {
        if n <= 0 {
            Multiset::empty()
        } else if self.has_published(n - 1) {
            self.published_values(n - 1).insert(self.brought[n - 1])
        } else {
            self.published_values(n - 1)
        }
    }

    /// The values that those of the first `n` writers replaced that have
    /// published theirs.
    pub open spec fn replaced_values(self, n: int) -> Multiset<T>
        decreases n,
    {
        if n <= 0 {
            Multiset::empty()
        } else if self.has_published(n - 1) {
            self.replaced_values(n - 1).insert(self.history[self.placed[n - 1] - 1])
        } else {
            self.replaced_values(n - 1)
        }
    }

    /// The history is the first value and what the writers published, each
    /// once; and all of it but the current value has been replaced, each once.
    pub open spec fn history_is_accounted_for(self) -> bool {
        let n = self.writers.len() as int;
        &&& self.history.len() == 1 + self.published_count(n)
        &&& self.history.skip(1).to_multiset() == self.published_values(n)
        &&& self.history.drop_last().to_multiset() == self.replaced_values(n)
    }

    /// Writer `i` has the value that it came with, or has left it in the card;
    /// and once it has published it, it has, or will take out of the card, the
    /// value before it.
    pub open spec fn writer_in_place(self, i: int) -> bool {
        let writer = self.writers[i];
        let value = Some(self.brought[i]);
        let place = self.placed[i];
        let back = !self.card.read_0;
        let data = self.card.back().data;
        let previous = Some(self.history[place - 1]);
        &&& self.has_published(i) ==> {
            &&& 0 < place < self.history.len()
            &&& Some(self.history[place]) == value
        }
        &&& self.has_published(i) && writer.at_work() ==> place == self.history.len() - 1
        &&& match writer.phase {
            WriterPhase::Lock => writer.incoming == value,
            WriterPhase::Choose => data is None && writer.incoming == value,
            WriterPhase::Enter(z) | WriterPhase::Fill(z) => z == back && data is None
                && writer.incoming == value,
            WriterPhase::Seal(z) | WriterPhase::Publish(z) => z == back && data == value,
            WriterPhase::Reenter(z) | WriterPhase::Empty(z) => z == back && data == previous,
            WriterPhase::Release(z) => z == back && data is None && writer.outgoing == previous,
            WriterPhase::Unlock => data is None && writer.outgoing == previous,
            WriterPhase::Done => writer.outgoing == previous,
        }
    }

    /// The lock word of slot `zero` says who is inside.
    pub open spec fn lock_word_tells(self, zero: bool) -> bool {
        let state = self.card.slot(zero).state;
        let count = count_inside(self.readers, zero);
        if exists|i: int| 0 <= i < self.writers.len() && self.writers[i].inside(zero) {
            state == WRITE && count == 0
        } else {
            state == count && count <= READ
        }
    }

    /// A reader holds, or is about to make, a copy of the value that it saw.
    pub open spec fn reader_in_place(self, i: int) -> bool {
        let reader = self.readers[i];
        let value = self.history[self.seen[i]];
        &&& 0 <= self.seen[i] < self.history.len()
        &&& match reader.phase {
            ReaderPhase::Look | ReaderPhase::Enter(_) | ReaderPhase::Check(
                _,
            ) => reader.copy is None,
            ReaderPhase::Copy(z) => reader.copy is None && self.card.slot(z).data == Some(value),
            ReaderPhase::Leave(_) => true,
            ReaderPhase::Done => reader.copy is Some,
        }
        &&& reader.copy is Some ==> cloned::<T>(value, reader.copy->0)
    }

    /// What every reachable world satisfies.
    pub open spec fn safe(self) -> bool {
        &&& self.history.len() > 0
        &&& self.card.front().data == Some(self.history.last())
        &&& self.seen.len() == self.readers.len()
        &&& forall|i: int, j: int|
            #![trigger self.writers[i], self.writers[j]]
            0 <= i < self.writers.len() && 0 <= j < self.writers.len()
                && self.writers[i].at_work() && self.writers[j].at_work() ==> i == j
        &&& self.card.locked <==> exists|i: int|
            0 <= i < self.writers.len() && self.writers[i].at_work()
        &&& !self.card.locked ==> self.card.back().data is None
        &&& self.brought.len() == self.writers.len()
        &&& self.placed.len() == self.writers.len()
        &&& forall|i: int| 0 <= i < self.writers.len() ==> #[trigger] self.writer_in_place(i)
        &&& self.places_are_distinct()
        &&& self.history_is_accounted_for()
        &&& forall|zero: bool| self.lock_word_tells(zero)
        &&& forall|i: int| 0 <= i < self.readers.len() ==> #[trigger] self.reader_in_place(i)
    }
}

proof fn lemma_count_update<T>(
    readers: Seq<ReaderView<T>>,
    i: int,
    reader: ReaderView<T>,
    zero: bool,
)
    requires
        0 <= i < readers.len(),
    ensures
        count_inside(readers.update(i, reader), zero) + (if readers[i].inside(zero) {
            1int
        } else {
            0
        }) == count_inside(readers, zero) + (if reader.inside(zero) {
            1int
        } else {
            0
        }),
    decreases readers.len(),
{
    let updated = readers.update(i, reader);
    if i == readers.len() - 1 {
        assert(updated.drop_last() =~= readers.drop_last());
    } else {
        assert(updated.drop_last() =~= readers.drop_last().update(i, reader));
        lemma_count_update(readers.drop_last(), i, reader, zero);
    }
}

proof fn lemma_count_push<T>(readers: Seq<ReaderView<T>>, reader: ReaderView<T>, zero: bool)
    ensures
        count_inside(readers.push(reader), zero) == count_inside(readers, zero) + (if reader.inside(
            zero,
        ) {
            1nat
        } else {
            0nat
        }),
{
    assert(readers.push(reader).drop_last() =~= readers);
}

proof fn lemma_count_positive<T>(readers: Seq<ReaderView<T>>, i: int, zero: bool)
    requires
        0 <= i < readers.len(),
        readers[i].inside(zero),
    ensures
        count_inside(readers, zero) > 0,
    decreases readers.len(),
{
    if i < readers.len() - 1 {
        lemma_count_positive(readers.drop_last(), i, zero);
    }
}

/// A fresh card is safe.
pub proof fn law_fresh_card_is_safe<T: Clone>(zero: bool, value: T)
    ensures
        World::fresh(zero, value).safe(),
{
    let history = World::fresh(zero, value).history;
    assert(history.skip(1) =~= Seq::empty());
    assert(history.drop_last() =~= Seq::empty());
    Seq::<T>::empty().to_multiset_ensures();
    assert(Seq::<T>::empty().to_multiset() =~= Multiset::empty());
}

/// In a safe world everybody can take the next step: the card is as
/// [`FlipWriter::step`](crate::flip_card::FlipWriter::step) and
/// [`FlipReader::step`](crate::flip_card::FlipReader::step) require.
pub proof fn law_steps_are_possible<T: Clone>(world: World<T>)
    requires
        world.safe(),
    ensures
        forall|i: int|
            0 <= i < world.writers.len() ==> (#[trigger] world.writers[i]).fits(world.card),
        forall|i: int|
            0 <= i < world.readers.len() ==> (#[trigger] world.readers[i]).fits(world.card),
{
    assert forall|i: int| 0 <= i < world.writers.len() implies (
    #[trigger] world.writers[i]).fits(world.card) by {
        assert(world.writer_in_place(i));
        match world.writers[i].phase {
            WriterPhase::Fill(z) | WriterPhase::Seal(z) | WriterPhase::Empty(z)
            | WriterPhase::Release(z) => {
                assert(world.writers[i].inside(z));
                assert(world.lock_word_tells(z));
            },
            _ => {},
        }
    }
    assert forall|i: int| 0 <= i < world.readers.len() implies (
    #[trigger] world.readers[i]).fits(world.card) by {
        assert forall|zero: bool| #[trigger] world.readers[i].inside(zero) implies 1
            <= world.card.slot(zero).state <= READ by {
            lemma_count_positive(world.readers, i, zero);
            assert(world.lock_word_tells(zero));
        }
    }
}

/// What a step of writer `i` does to the lock words.
proof fn lemma_writer_keeps_lock_words<T: Clone>(before: World<T>, i: int, after: World<T>)
    requires
        before.safe(),
        before.writer_steps(i, after),
    ensures
        forall|zero: bool| after.lock_word_tells(zero),
{
    law_steps_are_possible(before);
    let old_writer = before.writers[i];
    let new_writer = after.writers[i];
    assert forall|zero: bool| after.lock_word_tells(zero) by {
        assert(before.lock_word_tells(zero));
        assert(before.writers[i] == old_writer && after.writers[i] == new_writer);
        assert forall|j: int|
            0 <= j < before.writers.len() && j != i implies #[trigger] after.writers[j]
            == before.writers[j] by {}
        if new_writer.inside(zero) {
            assert(old_writer.inside(zero) || before.card.slot(zero).unlocked());
        } else if old_writer.inside(zero) {
            assert forall|j: int| 0 <= j < after.writers.len() implies !(
            #[trigger] after.writers[j]).inside(zero) by {
                if j != i {
                    assert(before.writers[j].at_work() ==> i == j);
                }
            }
        } else if exists|j: int| 0 <= j < before.writers.len() && before.writers[j].inside(zero) {
            let j = choose|j: int| 0 <= j < before.writers.len() && before.writers[j].inside(zero);
            assert(after.writers[j].inside(zero));
        }
    }
}

/// Places stay distinct when writer `moved` alone has moved.
proof fn lemma_places<T: Clone>(before: World<T>, after: World<T>, moved: int)
    requires
        before.safe(),
        before.writers.len() <= after.writers.len(),
        forall|j: int|
            0 <= j < after.writers.len() && j != moved ==> j < before.writers.len() && #[trigger]
            after.writers[j] == before.writers[j] && after.placed[j] == before.placed[j],
        0 <= moved < after.writers.len() && after.has_published(moved) ==> {
            ||| moved < before.writers.len() && before.has_published(moved) && after.placed[moved]
                == before.placed[moved]
            ||| after.placed[moved] == before.history.len()
        },
    ensures
        after.places_are_distinct(),
{
    assert forall|i: int, j: int|
        0 <= i < after.writers.len() && 0 <= j < after.writers.len() && #[trigger]
        after.has_published(i) && #[trigger] after.has_published(j) && after.placed[i]
            == after.placed[j] implies i == j by {
        assert(i != moved ==> after.writers[i] == before.writers[i]);
        assert(j != moved ==> after.writers[j] == before.writers[j]);
        assert(i != moved ==> before.writer_in_place(i) && before.has_published(i));
        assert(j != moved ==> before.writer_in_place(j) && before.has_published(j));
    }
}

/// The accounts of the first `n` writers do not change as long as these writers
/// publish nothing.
proof fn lemma_accounts_unmoved<T: Clone>(before: World<T>, after: World<T>, n: int)
    requires
        before.safe(),
        n <= before.writers.len(),
        forall|j: int|
            0 <= j < n ==> (#[trigger] after.has_published(j) <==> before.has_published(j))
                && after.brought[j] == before.brought[j] && (before.has_published(j)
                ==> after.placed[j] == before.placed[j]),
        before.history.len() <= after.history.len(),
        forall|k: int|
            0 <= k < before.history.len() ==> after.history[k] == #[trigger] before.history[k],
    ensures
        after.published_count(n) == before.published_count(n),
        after.published_values(n) == before.published_values(n),
        after.replaced_values(n) == before.replaced_values(n),
    decreases n,
{
    if n > 0 {
        lemma_accounts_unmoved(before, after, n - 1);
        assert(before.writer_in_place(n - 1));
        assert(after.has_published(n - 1) <==> before.has_published(n - 1));
        if before.has_published(n - 1) {
            assert(after.history[before.placed[n - 1] - 1] == before.history[before.placed[n - 1]
                - 1]);
        }
    }
}

/// When writer `i` publishes its value, that is one more.
proof fn lemma_accounts_publish<T: Clone>(before: World<T>, i: int, after: World<T>, n: int)
    requires
        before.safe(),
        before.writer_steps(i, after),
        before.writers[i].phase is Publish,
        i < n <= before.writers.len(),
    ensures
        after.published_count(n) == before.published_count(n) + 1,
        after.published_values(n) == before.published_values(n).insert(before.brought[i]),
        after.replaced_values(n) == before.replaced_values(n).insert(before.history.last()),
    decreases n,
{
    if n - 1 == i {
        lemma_accounts_unmoved(before, after, i);
        assert(after.has_published(i) && !before.has_published(i));
        assert(after.history[before.history.len() - 1] == before.history.last());
    } else {
        lemma_accounts_publish(before, i, after, n - 1);
        assert(before.writer_in_place(n - 1));
        assert(after.writers[n - 1] == before.writers[n - 1]);
        assert(after.has_published(n - 1) <==> before.has_published(n - 1));
        if before.has_published(n - 1) {
            let replaced = before.history[before.placed[n - 1] - 1];
            assert(after.history[before.placed[n - 1] - 1] == replaced);
            assert(before.published_values(n - 1).insert(before.brought[i]).insert(
                before.brought[n - 1],
            ) =~= before.published_values(n - 1).insert(before.brought[n - 1]).insert(
                before.brought[i],
            ));
            assert(before.replaced_values(n - 1).insert(before.history.last()).insert(replaced)
                =~= before.replaced_values(n - 1).insert(replaced).insert(before.history.last()));
        }
    }
}

/// The accounts stay right when nobody publishes anything.
proof fn lemma_accounts_stay<T: Clone>(before: World<T>, after: World<T>)
    requires
        before.safe(),
        after.history == before.history,
        before.writers.len() <= after.writers.len() <= before.writers.len() + 1,
        forall|j: int|
            0 <= j < before.writers.len() ==> (#[trigger] after.has_published(j)
                <==> before.has_published(j)) && after.brought[j] == before.brought[j]
                && after.placed[j] == before.placed[j],
        before.writers.len() < after.writers.len() ==> !after.has_published(
            before.writers.len() as int,
        ),
    ensures
        after.history_is_accounted_for(),
{
    lemma_accounts_unmoved(before, after, before.writers.len() as int);
}

/// The accounts stay right when a writer takes a step.
proof fn lemma_accounts_step<T: Clone>(before: World<T>, i: int, after: World<T>)
    requires
        before.safe(),
        before.writer_steps(i, after),
    ensures
        after.history_is_accounted_for(),
{
    let n = before.writers.len() as int;
    assert(before.writer_in_place(i));
    if before.writers[i].phase is Publish {
        lemma_accounts_publish(before, i, after, n);
        let value = before.brought[i];
        assert(after.history == before.history.push(value));
        before.history.skip(1).to_multiset_ensures();
        before.history.drop_last().to_multiset_ensures();
        assert(after.history.skip(1) =~= before.history.skip(1).push(value));
        assert(after.history.drop_last() =~= before.history.drop_last().push(
            before.history.last(),
        ));
    } else {
        assert forall|j: int| 0 <= j < n implies (#[trigger] after.has_published(j)
            <==> before.has_published(j)) by {
            assert(j != i ==> after.writers[j] == before.writers[j]);
        }
        lemma_accounts_stay(before, after);
    }
}

/// A step of a writer keeps the world safe.
proof fn lemma_writer_step<T: Clone>(before: World<T>, i: int, after: World<T>)
    requires
        before.safe(),
        before.writer_steps(i, after),
    ensures
        after.safe(),
{
    law_steps_are_possible(before);
    lemma_writer_keeps_lock_words(before, i, after);
    let writer = before.writers[i];
    assert(before.writer_in_place(i));
    // While this writer is at work, it alone is; while it is not, a step of it
    // is to take the lock, or does nothing.
    assert(forall|j: int|
        0 <= j < before.writers.len() && j != i ==> #[trigger] after.writers[j]
            == before.writers[j]);
    lemma_places(before, after, i);
    lemma_accounts_step(before, i, after);
    assert(writer.at_work() ==> before.card.locked);
    assert(after.card.locked <==> exists|j: int|
        0 <= j < after.writers.len() && after.writers[j].at_work()) by {
        if after.writers[i].at_work() {
        } else if before.card.locked && !writer.at_work() {
            let j = choose|j: int| 0 <= j < before.writers.len() && before.writers[j].at_work();
            assert(after.writers[j].at_work());
        }
    }
    assert forall|j: int| 0 <= j < after.writers.len() implies #[trigger] after.writer_in_place(
        j,
    ) by {
        assert(before.writer_in_place(j));
    }
    assert forall|k: int| 0 <= k < after.readers.len() implies #[trigger] after.reader_in_place(
        k,
    ) by {
        assert(before.reader_in_place(k));
        match before.readers[k].phase {
            ReaderPhase::Copy(z) => {
                assert(before.readers[k].inside(z));
                lemma_count_positive(before.readers, k, z);
                assert(before.lock_word_tells(z));
                assert(!writer.inside(z));
            },
            _ => {},
        }
    }
}

/// A step of a reader keeps the world safe.
proof fn lemma_reader_step<T: Clone>(before: World<T>, i: int, after: World<T>)
    requires
        before.safe(),
        before.reader_steps(i, after),
    ensures
        after.safe(),
{
    lemma_places(before, after, -1);
    lemma_accounts_stay(before, after);
    law_steps_are_possible(before);
    assert(before.reader_in_place(i));
    assert(before.readers[i].fits(before.card));
    assert forall|zero: bool| after.lock_word_tells(zero) by {
        assert(before.lock_word_tells(zero));
        lemma_count_update(before.readers, i, after.readers[i], zero);
        if before.readers[i].inside(zero) {
            lemma_count_positive(before.readers, i, zero);
        }
    }
    assert forall|k: int| 0 <= k < after.readers.len() implies #[trigger] after.reader_in_place(
        k,
    ) by {
        assert(before.reader_in_place(k));
    }
    assert forall|j: int| 0 <= j < after.writers.len() implies #[trigger] after.writer_in_place(
        j,
    ) by {
        assert(before.writer_in_place(j));
    }
}

/// Somebody who comes to write keeps the world safe.
proof fn lemma_writer_comes<T: Clone>(before: World<T>, data: T, after: World<T>)
    requires
        before.safe(),
        before.writer_comes(data, after),
    ensures
        after.safe(),
{
    lemma_places(before, after, before.writers.len() as int);
    lemma_accounts_stay(before, after);
    assert forall|j: int| 0 <= j < after.writers.len() implies #[trigger] after.writer_in_place(
        j,
    ) by {
        if j < before.writers.len() {
            assert(before.writer_in_place(j));
        }
    }
    if before.card.locked {
        let j = choose|j: int| 0 <= j < before.writers.len() && before.writers[j].at_work();
        assert(after.writers[j].at_work());
    }
    assert forall|zero: bool| after.lock_word_tells(zero) by {
        assert(before.lock_word_tells(zero));
        if exists|j: int| 0 <= j < before.writers.len() && before.writers[j].inside(zero) {
            let j = choose|j: int| 0 <= j < before.writers.len() && before.writers[j].inside(zero);
            assert(after.writers[j].inside(zero));
        }
    }
    assert forall|k: int| 0 <= k < after.readers.len() implies #[trigger] after.reader_in_place(
        k,
    ) by {
        assert(before.reader_in_place(k));
    }
}

/// Somebody who comes to read keeps the world safe.
proof fn lemma_reader_comes<T: Clone>(before: World<T>, after: World<T>)
    requires
        before.safe(),
        before.reader_comes(after),
    ensures
        after.safe(),
{
    lemma_places(before, after, -1);
    lemma_accounts_stay(before, after);
    assert forall|zero: bool| after.lock_word_tells(zero) by {
        assert(before.lock_word_tells(zero));
        lemma_count_push(before.readers, ReaderView::start(), zero);
    }
    assert forall|k: int| 0 <= k < after.readers.len() implies #[trigger] after.reader_in_place(
        k,
    ) by {
        if k < before.readers.len() {
            assert(before.reader_in_place(k));
        }
    }
    assert forall|j: int| 0 <= j < after.writers.len() implies #[trigger] after.writer_in_place(
        j,
    ) by {
        assert(before.writer_in_place(j));
    }
}

/// A reader that reads again, or gives up, keeps the world safe.
proof fn lemma_reader_returns<T: Clone>(before: World<T>, i: int, after: World<T>)
    requires
        before.safe(),
        before.reader_returns(i, after) || before.reader_abandons(i, after),
    ensures
        after.safe(),
{
    lemma_places(before, after, -1);
    lemma_accounts_stay(before, after);
    assert(before.reader_in_place(i));
    assert forall|zero: bool| after.lock_word_tells(zero) by {
        assert(before.lock_word_tells(zero));
        lemma_count_update(before.readers, i, after.readers[i], zero);
    }
    assert forall|k: int| 0 <= k < after.readers.len() implies #[trigger] after.reader_in_place(
        k,
    ) by {
        assert(before.reader_in_place(k));
    }
    assert forall|j: int| 0 <= j < after.writers.len() implies #[trigger] after.writer_in_place(
        j,
    ) by {
        assert(before.writer_in_place(j));
    }
}

/// Whatever happens, a safe world stays safe.
pub proof fn law_safety_is_kept<T: Clone>(before: World<T>, after: World<T>)
    requires
        before.safe(),
        before.next(after),
    ensures
        after.safe(),
{
    if exists|i: int| before.writer_steps(i, after) {
        lemma_writer_step(before, choose|i: int| before.writer_steps(i, after), after);
    } else if exists|i: int| before.reader_steps(i, after) {
        lemma_reader_step(before, choose|i: int| before.reader_steps(i, after), after);
    } else if exists|data: T| before.writer_comes(data, after) {
        lemma_writer_comes(before, choose|data: T| before.writer_comes(data, after), after);
    } else if before.reader_comes(after) {
        lemma_reader_comes(before, after);
    } else if exists|i: int| before.reader_abandons(i, after) {
        lemma_reader_returns(before, choose|i: int| before.reader_abandons(i, after), after);
    } else {
        lemma_reader_returns(before, choose|i: int| before.reader_returns(i, after), after);
    }
}

/// Every world of a run that starts safe is safe.
pub proof fn law_runs_are_safe<T: Clone>(trace: Seq<World<T>>)
    requires
        World::run(trace),
        trace.len() > 0,
        trace[0].safe(),
    ensures
        forall|k: int| 0 <= k < trace.len() ==> (#[trigger] trace[k]).safe(),
{
    assert forall|k: int| 0 <= k < trace.len() implies (#[trigger] trace[k]).safe() by {
        lemma_run_is_safe_at(trace, k);
    }
}

proof fn lemma_run_is_safe_at<T: Clone>(trace: Seq<World<T>>, k: int)
    requires
        World::run(trace),
        0 <= k < trace.len(),
        trace[0].safe(),
    ensures
        trace[k].safe(),
    decreases k,
{
    if k > 0 {
        lemma_run_is_safe_at(trace, k - 1);
        assert(trace[k - 1].next(trace[k]));
        law_safety_is_kept(trace[k - 1], trace[k]);
    }
}

/// A writer that is inside a slot is alone there: no other writer is inside,
/// and no reader.
pub proof fn law_writers_exclude_everybody<T: Clone>(world: World<T>, i: int, zero: bool)
    requires
        world.safe(),
        0 <= i < world.writers.len(),
        world.writers[i].inside(zero),
    ensures
        forall|j: int|
            0 <= j < world.writers.len() && (#[trigger] world.writers[j]).inside(zero) ==> j == i,
        forall|k: int|
            0 <= k < world.readers.len() ==> !(#[trigger] world.readers[k]).inside(zero),
{
    assert(world.lock_word_tells(zero));
    assert forall|k: int| 0 <= k < world.readers.len() implies !(
    #[trigger] world.readers[k]).inside(zero) by {
        if world.readers[k].inside(zero) {
            lemma_count_positive(world.readers, k, zero);
        }
    }
}

/// A slot counts the readers inside it, and there are never more than 127.
pub proof fn law_readers_are_counted<T: Clone>(world: World<T>, zero: bool)
    requires
        world.safe(),
    ensures
        count_inside(world.readers, zero) <= READ,
        !world.card.slot(zero).writing() ==> world.card.slot(zero).state == count_inside(
            world.readers,
            zero,
        ),
{
    assert(world.lock_word_tells(zero));
}

/// Writers never shut readers out: at any time the front slot holds a value,
/// the one published last, and no writer is inside it. Only a saturated
/// reader count can keep a reader from entering.
pub proof fn law_front_is_open<T: Clone>(world: World<T>)
    requires
        world.safe(),
    ensures
        world.card.front().data == Some(world.history.last()),
        !world.card.front().writing(),
        count_inside(world.readers, world.card.read_0) < READ ==> world.card.front().readable(),
{
    let zero = world.card.read_0;
    assert(world.lock_word_tells(zero));
    assert forall|i: int| 0 <= i < world.writers.len() implies !(
    #[trigger] world.writers[i]).inside(zero) by {
        assert(world.writer_in_place(i));
    }
}

/// A read gives a copy of a value that was current at one moment of the read:
/// when the reader checked, that value was the one published last, and nothing
/// touches the slot until the copy is made.
pub proof fn law_reads_are_current<T: Clone>(before: World<T>, i: int, after: World<T>)
    requires
        before.safe(),
        before.reader_steps(i, after),
    ensures
        before.readers[i].phase is Check && after.readers[i].phase is Copy ==> after.seen[i]
            == before.history.len() - 1,
        before.readers[i].phase is Copy ==> after.readers[i].copy is Some,
        after.readers[i].copy is Some ==> cloned::<T>(
            after.history[after.seen[i]],
            after.readers[i].copy->0,
        ),
{
    lemma_reader_step(before, i, after);
    assert(before.reader_in_place(i));
    assert(after.reader_in_place(i));
}

/// A reader that nobody disturbs, and that finds room in the front slot, has a
/// copy of the current value after five steps, and leaves the card as it was.
pub proof fn law_an_undisturbed_reader_succeeds<T: Clone>(
    card: CardView<T>,
    states: Seq<(ReaderView<T>, CardView<T>)>,
)
    requires
        card.front().data is Some,
        card.front().readable(),
        states.len() == 6,
        states[0] == (ReaderView::<T>::start(), card),
        forall|k: int|
            0 <= k < 5 ==> (#[trigger] states[k]).0.steps_to(states[k].1, states[k + 1]),
    ensures
        states[5].0.phase is Done,
        states[5].0.copy is Some,
        cloned::<T>(card.current(), states[5].0.copy->0),
        states[5].1 == card,
{
    assert(states[0].0.steps_to(states[0].1, states[1]));
    assert(states[1].0.steps_to(states[1].1, states[2]));
    assert(states[2].0.steps_to(states[2].1, states[3]));
    assert(states[3].0.steps_to(states[3].1, states[4]));
    assert(states[4].0.steps_to(states[4].1, states[5]));
}

/// Every value written becomes the current one once, and whoever wrote it gets
/// back exactly the value that it replaced.
pub proof fn law_writers_hand_back_the_replaced<T: Clone>(world: World<T>, i: int)
    requires
        world.safe(),
        0 <= i < world.writers.len(),
        world.writers[i].phase is Done,
    ensures
        0 < world.placed[i] < world.history.len(),
        world.history[world.placed[i]] == world.brought[i],
        world.writers[i].outgoing == Some(world.history[world.placed[i] - 1]),
        forall|j: int|
            0 <= j < world.writers.len() && #[trigger] world.has_published(j) && world.placed[j]
                == world.placed[i] ==> j == i,
{
    assert(world.writer_in_place(i));
    assert(world.has_published(i));
}

/// Nobody keeps the writer that has the writers' lock waiting, except a reader
/// that is inside the slot that it wants to enter.
pub proof fn law_writers_wait_for_readers_only<T: Clone>(world: World<T>, i: int, zero: bool)
    requires
        world.safe(),
        0 <= i < world.writers.len(),
        world.writers[i].phase == WriterPhase::Enter(zero) || world.writers[i].phase
            == WriterPhase::Reenter(zero),
        count_inside(world.readers, zero) == 0,
    ensures
        world.card.slot(zero).unlocked(),
{
    assert(world.lock_word_tells(zero));
    assert forall|j: int| 0 <= j < world.writers.len() implies !(
    #[trigger] world.writers[j]).inside(zero) by {
        if world.writers[j].inside(zero) {
            assert(world.writers[j].at_work() && world.writers[i].at_work());
        }
    }
}

/// Nothing that happens takes back what was published, or lets a reader see an
/// older value than it saw before.
proof fn lemma_history_grows<T: Clone>(before: World<T>, after: World<T>)
    requires
        before.safe(),
        before.next(after),
    ensures
        before.history.len() <= after.history.len(),
        before.history == after.history.take(before.history.len() as int),
        before.readers.len() <= after.readers.len(),
        forall|i: int| 0 <= i < before.readers.len() ==> before.seen[i] <= #[trigger] after.seen[i],
{
    assert(before.history =~= after.history.take(before.history.len() as int));
    assert forall|i: int| 0 <= i < before.readers.len() implies before.seen[i]
        <= #[trigger] after.seen[i] by {
        assert(before.reader_in_place(i));
    }
}

/// Reads are monotonic: in a run, what was published stays published, in its
/// order, and whoever reads twice sees the same value or a later one.
pub proof fn law_reads_are_monotonic<T: Clone>(trace: Seq<World<T>>, a: int, b: int)
    requires
        World::run(trace),
        trace.len() > 0,
        trace[0].safe(),
        0 <= a <= b < trace.len(),
    ensures
        trace[a].history.len() <= trace[b].history.len(),
        trace[a].history == trace[b].history.take(trace[a].history.len() as int),
        trace[a].readers.len() <= trace[b].readers.len(),
        forall|i: int|
            0 <= i < trace[a].readers.len() ==> trace[a].seen[i] <= #[trigger] trace[b].seen[i],
    decreases b - a,
{
    if a == b {
        assert(trace[a].history =~= trace[b].history.take(trace[a].history.len() as int));
    } else {
        law_reads_are_monotonic(trace, a, b - 1);
        lemma_run_is_safe_at(trace, b - 1);
        assert(trace[b - 1].next(trace[b]));
        lemma_history_grows(trace[b - 1], trace[b]);
        assert(trace[a].history =~= trace[b].history.take(trace[a].history.len() as int));
        assert forall|i: int| 0 <= i < trace[a].readers.len() implies trace[a].seen[i]
            <= #[trigger] trace[b].seen[i] by {
            assert(trace[a].seen[i] <= trace[b - 1].seen[i]);
        }
    }
}

/// Where all of the first `n` writers are done, what they came with has been
/// published and what they hold has been replaced.
proof fn lemma_accounts_of_the_done<T: Clone>(world: World<T>, n: int)
    requires
        world.safe(),
        0 <= n <= world.writers.len(),
        forall|i: int| 0 <= i < n ==> (#[trigger] world.writers[i]).phase is Done,
    ensures
        world.published_count(n) == n,
        world.brought.take(n).to_multiset() == world.published_values(n),
        world.returned().take(n).to_multiset() == world.replaced_values(n),
    decreases n,
{
    if n == 0 {
        assert(world.brought.take(0) =~= Seq::empty());
        assert(world.returned().take(0) =~= Seq::empty());
        Seq::<T>::empty().to_multiset_ensures();
        assert(Seq::<T>::empty().to_multiset() =~= Multiset::empty());
    } else {
        lemma_accounts_of_the_done(world, n - 1);
        assert(world.writers[n - 1].phase is Done);
        assert(world.has_published(n - 1));
        assert(world.writer_in_place(n - 1));
        let brought = world.brought.take(n - 1);
        let returned = world.returned().take(n - 1);
        brought.to_multiset_ensures();
        returned.to_multiset_ensures();
        assert(world.brought.take(n) =~= brought.push(world.brought[n - 1]));
        assert(world.returned().take(n) =~= returned.push(world.returned()[n - 1]));
    }
}

impl<T: Clone> World<T> {
    /// What the writers hand back.
    pub open spec fn returned(self) -> Seq<T> {
        Seq::new(self.writers.len(), |i: int| self.writers[i].outgoing->0)
    }

    /// All writers are done.
    pub open spec fn writers_are_done(self) -> bool {
        forall|i: int| 0 <= i < self.writers.len() ==> (#[trigger] self.writers[i]).phase is Done
    }

    /// Only the writer that came last may be at work still, as when one thread
    /// does all the writing.
    pub open spec fn writers_take_turns(self) -> bool {
        forall|i: int|
            0 <= i < self.writers.len() - 1 ==> (#[trigger] self.writers[i]).phase is Done
    }
}

/// No value is lost, and none is handed out twice: once all writers are done,
/// what they got back and what is current are together what was there at first
/// and what they brought.
pub proof fn law_no_value_is_lost<T: Clone>(trace: Seq<World<T>>, zero: bool, first: T)
    requires
        World::run(trace),
        trace.len() > 0,
        trace[0] == World::fresh(zero, first),
        trace.last().writers_are_done(),
    ensures
        forall|i: int|
            0 <= i < trace.last().writers.len() ==> (#[trigger] trace.last().writers[i]).outgoing
                is Some,
        trace.last().returned().to_multiset().insert(trace.last().card.current())
            == trace.last().brought.to_multiset().insert(first),
{
    let end = trace.last();
    let n = end.writers.len() as int;
    law_fresh_card_is_safe(zero, first);
    lemma_run_is_safe_at(trace, trace.len() - 1);
    law_reads_are_monotonic(trace, 0, trace.len() - 1);
    assert(end.history[0] == end.history.take(1)[0]);
    assert(end.history[0] == first);
    assert forall|i: int| 0 <= i < end.writers.len() implies (
    #[trigger] end.writers[i]).outgoing is Some by {
        assert(end.writer_in_place(i));
    }
    lemma_accounts_of_the_done(end, n);
    assert(end.brought.take(n) =~= end.brought);
    assert(end.returned().take(n) =~= end.returned());
    end.history.drop_last().to_multiset_ensures();
    assert(end.history =~= end.history.drop_last().push(end.history.last()));
    end.history.to_multiset_ensures();
    assert(end.history.remove(0) =~= end.history.skip(1));
    assert(end.history.contains(first));
    assert(end.brought.to_multiset().insert(first) =~= end.history.to_multiset());
}

/// How long the history is when writers take turns.
proof fn lemma_turns<T: Clone>(world: World<T>)
    requires
        world.safe(),
        world.writers_take_turns(),
        world.writers.len() > 0,
    ensures
        world.history.len() == world.writers.len() + if world.has_published(
            world.writers.len() - 1,
        ) {
            1nat
        } else {
            0nat
        },
{
    lemma_accounts_of_the_done(world, world.writers.len() - 1);
}

/// What one thread writes is published in the order in which it writes it: the
/// history is what was there at first, and then what was brought, up to the
/// last value that has been published.
pub proof fn law_one_thread_writes_in_order<T: Clone>(
    trace: Seq<World<T>>,
    zero: bool,
    first: T,
    k: int,
)
    requires
        World::run(trace),
        0 <= k < trace.len(),
        trace[0] == World::fresh(zero, first),
        forall|m: int| 0 <= m <= k ==> (#[trigger] trace[m]).writers_take_turns(),
    ensures
        trace[k].history.len() <= 1 + trace[k].brought.len(),
        trace[k].history == (seq![first] + trace[k].brought).take(
            trace[k].history.len() as int,
        ),
        trace[k].writers_are_done() ==> trace[k].history == seq![first] + trace[k].brought,
    decreases k,
{
    law_fresh_card_is_safe(zero, first);
    lemma_run_is_safe_at(trace, k);
    let world = trace[k];
    assert(world.writers_take_turns());
    if world.writers.len() > 0 {
        lemma_turns(world);
    } else {
        assert(world.published_count(0) == 0);
    }
    if k > 0 {
        law_one_thread_writes_in_order(trace, zero, first, k - 1);
        lemma_run_is_safe_at(trace, k - 1);
        let before = trace[k - 1];
        assert(before.writers_take_turns());
        assert(before.next(world));
        if before.writers.len() > 0 {
            lemma_turns(before);
        }
        let old_line = seq![first] + before.brought;
        if exists|i: int| before.writer_steps(i, world) && before.writers[i].phase is Publish {
            let i = choose|i: int|
                before.writer_steps(i, world) && before.writers[i].phase is Publish;
            assert(before.writer_in_place(i));
            assert(i == before.writers.len() - 1);
            assert(old_line[before.history.len() as int] == before.brought[i]);
        } else {
            assert(world.history == before.history);
        }
        assert forall|p: int| 0 <= p < before.history.len() implies before.history[p]
            == #[trigger] old_line[p] by {
            assert(old_line.take(before.history.len() as int)[p] == old_line[p]);
        }
        assert(before.brought.len() <= world.brought.len());
        assert(forall|p: int|
            0 <= p < before.brought.len() ==> #[trigger] world.brought[p] == before.brought[p]);
    }
    let line = seq![first] + world.brought;
    assert(world.history =~= line.take(world.history.len() as int));
    if world.writers_are_done() {
        if world.writers.len() > 0 {
            assert(world.writers[world.writers.len() - 1].phase is Done);
        }
        assert(line.take(world.history.len() as int) =~= line);
    }
}

/// While one thread writes values that never decrease, what a reader gets never
/// decreases either; and when that thread is done, the last value is current.
pub proof fn law_successive_reads_never_go_back<T: Clone>(
    trace: Seq<World<T>>,
    zero: bool,
    first: T,
    le: spec_fn(T, T) -> bool,
    i: int,
    a: int,
    b: int,
)
    requires
        World::run(trace),
        trace[0] == World::fresh(zero, first),
        0 <= a <= b < trace.len(),
        forall|m: int| 0 <= m <= b ==> (#[trigger] trace[m]).writers_take_turns(),
        forall|p: int, q: int|
            0 <= p <= q <= trace[b].brought.len() ==> #[trigger] le(
                (seq![first] + trace[b].brought)[p],
                (seq![first] + trace[b].brought)[q],
            ),
        forall|x: T, y: T| #[trigger] cloned::<T>(x, y) ==> x == y,
        0 <= i < trace[a].readers.len(),
        trace[a].readers[i].copy is Some,
        trace[b].readers[i].copy is Some,
    ensures
        le(trace[a].readers[i].copy->0, trace[b].readers[i].copy->0),
        trace[b].writers_are_done() && trace[b].brought.len() > 0 ==> trace[b].card.current()
            == trace[b].brought.last(),
{
    law_fresh_card_is_safe(zero, first);
    lemma_run_is_safe_at(trace, a);
    lemma_run_is_safe_at(trace, b);
    law_reads_are_monotonic(trace, a, b);
    law_one_thread_writes_in_order(trace, zero, first, b);
    assert(trace[a].reader_in_place(i));
    assert(trace[b].reader_in_place(i));
    let line = seq![first] + trace[b].brought;
    let p = trace[a].seen[i];
    let q = trace[b].seen[i];
    assert(p <= q);
    let taken = line.take(trace[b].history.len() as int);
    assert(taken[p] == line[p] && taken[q] == line[q]);
    let kept = trace[b].history.take(trace[a].history.len() as int);
    assert(kept[p] == trace[b].history[p]);
    assert(le(line[p], line[q]));
    if trace[b].writers_are_done() && trace[b].brought.len() > 0 {
        assert(trace[b].history.last() == trace[b].brought.last());
    }
}

/// A lock word of zero says that nobody is inside, its top bit that a writer is,
/// and up to 127 readers can be counted in the rest. The lock word and the data
/// do not depend on each other.
pub proof fn law_lock_words_count_readers<T>(slot: SlotView<T>, state: u8, data: T)
    ensures
        slot.unlocked() <==> slot.state == 0,
        slot.writing() <==> slot.state == 128,
        slot.readable() <==> slot.state < 127,
        slot.with_state(state as int).state == state,
        slot.with_state(state as int).data == slot.data,
        slot.with_data(data).data == data,
        slot.with_data(data).state == slot.state,
{
}

/// The current value is what the front slot holds: slot 0 or slot 1, as the flag
/// says. A card at rest holds just the value that it was given.
pub proof fn law_the_flag_tells_where_the_value_is<T>(card: CardView<T>, zero: bool, value: T)
    ensures
        card.read_0 ==> card.front() == card.slot0 && card.back() == card.slot1,
        !card.read_0 ==> card.front() == card.slot1 && card.back() == card.slot0,
        card.front().data == Some(value) ==> card.current() == value,
        CardView::at_rest(zero, value).read_0 == zero,
        CardView::at_rest(zero, value).current() == value,
        CardView::at_rest(zero, value).front().data == Some(value),
        CardView::at_rest(zero, value).back().data is None,
        CardView::at_rest(zero, value).quiet(),
        card.quiet() ==> {
            &&& card.front().data is Some
            &&& card.back().data is None
            &&& card.slot0.state == 0
            &&& card.slot1.state == 0
            &&& !card.locked
        },
{
}

/// A reader that nobody disturbs has its copy after five steps: a clone of the
/// current value. It leaves the card as it was.
pub proof fn law_an_undisturbed_reader_gets_the_current_value<T: Clone>(
    readers: Seq<ReaderView<T>>,
    cards: Seq<CardView<T>>,
)
    requires
        readers.len() == 6,
        cards.len() == 6,
        readers[0] == ReaderView::<T>::start(),
        cards[0].front().data is Some,
        cards[0].front().readable(),
        forall|k: int|
            0 <= k < 5 ==> (#[trigger] readers[k]).steps_to(
                cards[k],
                (readers[k + 1], cards[k + 1]),
            ),
    ensures
        readers[5].phase is Done,
        readers[5].copy is Some,
        cloned::<T>(cards[0].current(), readers[5].copy->0),
        cards[5] == cards[0],
{
    assert(readers[0].steps_to(cards[0], (readers[1], cards[1])));
    assert(readers[1].steps_to(cards[1], (readers[2], cards[2])));
    assert(readers[2].steps_to(cards[2], (readers[3], cards[3])));
    assert(readers[3].steps_to(cards[3], (readers[4], cards[4])));
    assert(readers[4].steps_to(cards[4], (readers[5], cards[5])));
}

/// A writer that nobody disturbs is done after ten steps: its value is the
/// current one, it has the one that was current before, and the card is quiet.
pub proof fn law_an_undisturbed_writer_replaces_the_value<T>(
    writers: Seq<WriterView<T>>,
    cards: Seq<CardView<T>>,
    data: T,
)
    requires
        writers.len() == 11,
        cards.len() == 11,
        writers[0] == WriterView::start(data),
        cards[0].quiet(),
        forall|k: int|
            0 <= k < 10 ==> #[trigger] writers[k].step(cards[k]) == (writers[k + 1], cards[k + 1]),
    ensures
        writers[10].phase is Done,
        writers[10].outgoing == Some(cards[0].current()),
        cards[10].quiet(),
        cards[10].current() == data,
{
    assert(writers[0].step(cards[0]) == (writers[1], cards[1]));
    assert(writers[1].step(cards[1]) == (writers[2], cards[2]));
    assert(writers[2].step(cards[2]) == (writers[3], cards[3]));
    assert(writers[3].step(cards[3]) == (writers[4], cards[4]));
    assert(writers[4].step(cards[4]) == (writers[5], cards[5]));
    assert(writers[5].step(cards[5]) == (writers[6], cards[6]));
    assert(writers[6].step(cards[6]) == (writers[7], cards[7]));
    assert(writers[7].step(cards[7]) == (writers[8], cards[8]));
    assert(writers[8].step(cards[8]) == (writers[9], cards[9]));
    assert(writers[9].step(cards[9]) == (writers[10], cards[10]));
}

} // verus!
