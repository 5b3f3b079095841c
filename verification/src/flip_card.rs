//! Double-buffered storage for one value.
//!
//! A [`FlipCard`] has two slots. One of them, the front, holds the current
//! value and is where readers look; the other, the back, is empty. A writer
//! fills the back slot, flips the card so that it becomes the front, and then
//! empties the slot that was the front before.
//!
//! Readers and writers may share a card. What each of them does is therefore
//! broken into *atomic steps*: [`FlipReader::step`] and [`FlipWriter::step`]
//! each touch one lock word, one slot or the flip flag, and nothing else. Any
//! interleaving of such steps is safe; the module `flip_card_laws` says what
//! "safe" means and proves it. [`FlipCard::read`] and [`FlipCard::flip_to`] are
//! for a caller that has the card to itself.

use vstd::prelude::*;

verus! {

/// The lock word of a slot that is being written.
pub const WRITE: u8 = 0b10000000;

/// The largest number of readers that a lock word can count.
pub const READ: u8 = 0b01111111;

/// The lock word of a slot that nobody is using.
pub const UNLOCKED: u8 = 0b00000000;

/// What a slot holds: its data, and its lock word.
pub struct SlotView<T> {
    pub data: T,
    pub state: u8,
}

impl<T> SlotView<T> {
    /// Nobody is reading or writing.
    pub open spec fn unlocked(self) -> bool {
        self.state == UNLOCKED
    }

    /// A writer has the slot to itself.
    pub open spec fn writing(self) -> bool {
        self.state == WRITE
    }

    /// One more reader can be let in: no writer is inside, and the reader
    /// count is not saturated.
    pub open spec fn readable(self) -> bool {
        self.state < READ
    }

    /// The same slot with another lock word.
    pub open spec fn with_state(self, state: int) -> Self {
        SlotView { data: self.data, state: state as u8 }
    }

    /// The same slot with other data.
    pub open spec fn with_data(self, data: T) -> Self {
        SlotView { data, state: self.state }
    }
}

/// Storage with a lock word that admits up to 127 readers or one writer.
///
/// The lock word is laid out as `wrrrrrrr`: the top bit is set while a writer
/// is inside, the other seven count the readers.
#[derive(Debug)]
pub struct Slot<T> {
    data: T,
    atomic: u8,
}

impl<T> View for Slot<T> {
    type V = SlotView<T>;

    closed spec fn view(&self) -> SlotView<T> {
        SlotView { data: self.data, state: self.atomic }
    }
}

impl<T> Slot<T> {
    /// Creates an unlocked slot that holds `data`.
    pub fn new(data: T) -> (slot: Self)
        ensures
            slot@ == (SlotView { data, state: UNLOCKED }),
    {
        Slot { data, atomic: UNLOCKED }
    }

    /// Lets one more reader in, unless a writer is inside or the reader count
    /// is saturated. Returns whether the reader is in.
    pub fn begin_read(&mut self) -> (entered: bool)
        ensures
            entered == old(self)@.readable(),
            final(self)@ == (if entered {
                old(self)@.with_state(old(self)@.state + 1)
            } else {
                old(self)@
            }),
    {
        if self.is_readable() {
            self.atomic = self.atomic + 1;
            true
        } else {
            false
        }
    }

    /// Lets a reader out.
    pub fn end_read(&mut self)
        requires
            1 <= old(self)@.state <= READ,
        ensures
            final(self)@ == old(self)@.with_state(old(self)@.state - 1),
    {
        self.atomic = self.atomic - 1;
    }

    /// Lets a writer in if nobody else is inside. Returns whether it is in.
    pub fn begin_write(&mut self) -> (entered: bool)
        ensures
            entered == old(self)@.unlocked(),
            final(self)@ == (if entered {
                old(self)@.with_state(WRITE as int)
            } else {
                old(self)@
            }),
    {
        if self.atomic == UNLOCKED {
            self.atomic = WRITE;
            true
        } else {
            false
        }
    }

    /// Lets the writer out.
    pub fn end_write(&mut self)
        requires
            old(self)@.writing(),
        ensures
            final(self)@ == old(self)@.with_state(UNLOCKED as int),
    {
        self.atomic = UNLOCKED;
    }

    /// Exchanges the data. Only the writer that is inside may do this.
    pub fn replace(&mut self, data: T) -> (prior: T)
        requires
            old(self)@.writing(),
        ensures
            prior == old(self)@.data,
            final(self)@ == old(self)@.with_data(data),
    {
        let mut data = data;
        core::mem::swap(&mut self.data, &mut data);
        data
    }

    /// The data, for a reader that is inside.
    pub fn data(&self) -> (data: &T)
        requires
            1 <= self@.state <= READ,
        ensures
            *data == self@.data,
    {
        &self.data
    }

    /// Whether one more reader can be let in.
    pub fn is_readable(&self) -> (readable: bool)
        ensures
            readable == self@.readable(),
    {
        let value: u8 = self.atomic;
        assert((value & 0b10000000u8 != 0) == (value >= 128)) by (bit_vector);
        value & WRITE == 0 && value != READ
    }

    /// Clones the data out, unless no reader can be let in.
    ///
    /// While the slot is borrowed nobody can write to it, so the reader need
    /// not be counted, and a `T::clone` that panics leaves nothing behind.
    pub fn try_read(&self) -> (data: Option<T>)
        where
            T: Clone,
        ensures
            data is Some <==> self@.readable(),
            data matches Some(copy) ==> cloned::<T>(self@.data, copy),
    {
        if self.is_readable() {
            Some(self.data.clone())
        } else {
            None
        }
    }

    /// Exchanges the data under the write lock. If the slot is in use, `data`
    /// is handed back and nothing changes.
    pub fn try_write(&mut self, data: T) -> (prior: Result<T, T>)
        ensures
            prior is Ok <==> old(self)@.unlocked(),
            prior matches Ok(was) ==> {
                &&& was == old(self)@.data
                &&& final(self)@ == old(self)@.with_data(data)
            },
            prior matches Err(back) ==> back == data && final(self)@ == old(self)@,
    {
        if self.begin_write() {
            let was = self.replace(data);
            self.end_write();
            Ok(was)
        } else {
            Err(data)
        }
    }
}

impl<T> Slot<Option<T>> {
    /// Takes the value out and leaves the slot empty.
    pub fn take(&mut self) -> (was: Option<T>)
        requires
            old(self)@.unlocked(),
        ensures
            was == old(self)@.data,
            final(self)@ == old(self)@.with_data(None),
    {
        match self.try_write(None) {
            Ok(was) => was,
            Err(back) => back,
        }
    }
}

/// What a card holds: both slots, the flip flag, and the lock that writers take
/// turns on.
pub struct CardView<T> {
    pub slot0: SlotView<Option<T>>,
    pub slot1: SlotView<Option<T>>,
    /// Slot 0 is the front.
    pub read_0: bool,
    /// A writer is at work.
    pub locked: bool,
}

impl<T> CardView<T> {
    /// Slot 0 if `zero`, slot 1 otherwise.
    pub open spec fn slot(self, zero: bool) -> SlotView<Option<T>> {
        if zero {
            self.slot0
        } else {
            self.slot1
        }
    }

    /// The same card with another slot 0 (if `zero`) or slot 1.
    pub open spec fn with_slot(self, zero: bool, slot: SlotView<Option<T>>) -> Self {
        if zero {
            CardView { slot0: slot, ..self }
        } else {
            CardView { slot1: slot, ..self }
        }
    }

    pub open spec fn front(self) -> SlotView<Option<T>> {
        self.slot(self.read_0)
    }

    pub open spec fn back(self) -> SlotView<Option<T>> {
        self.slot(!self.read_0)
    }

    /// The current value.
    pub open spec fn current(self) -> T {
        self.front().data->0
    }

    /// The front slot holds a value and the back slot does not.
    pub open spec fn settled(self) -> bool {
        self.front().data is Some && self.back().data is None
    }

    /// The card is settled and nobody is using any part of it.
    pub open spec fn quiet(self) -> bool {
        &&& self.settled()
        &&& self.slot0.unlocked()
        &&& self.slot1.unlocked()
        &&& !self.locked
    }

    /// A quiet card whose front, slot 0 if `zero`, holds `value`.
    pub open spec fn at_rest(zero: bool, value: T) -> Self {
        let full = SlotView { data: Some(value), state: UNLOCKED };
        let empty = SlotView { data: None, state: UNLOCKED };
        CardView {
            slot0: if zero { full } else { empty },
            slot1: if zero { empty } else { full },
            read_0: zero,
            locked: false,
        }
    }
}

/// Storage for one value, with room to prepare its successor.
#[derive(Debug)]
pub struct FlipCard<T> {
    data0: Slot<Option<T>>,
    data1: Slot<Option<T>>,
    read_data_0: bool,
    write_lock: bool,
}

impl<T> View for FlipCard<T> {
    type V = CardView<T>;

    closed spec fn view(&self) -> CardView<T> {
        CardView {
            slot0: self.data0@,
            slot1: self.data1@,
            read_0: self.read_data_0,
            locked: self.write_lock,
        }
    }
}

/// What a writer is about to do. The flag in a phase tells which slot it is
/// about: slot 0 if true, slot 1 if false.
#[derive(Clone, Copy, Debug, PartialEq, Eq, Structural)]
pub enum WriterPhase {
    /// Take the writers' lock.
    Lock,
    /// Look which slot is the back.
    Choose,
    /// Enter the back slot.
    Enter(bool),
    /// Put the new value into the back slot.
    Fill(bool),
    /// Leave the filled slot.
    Seal(bool),
    /// Make the filled slot the front.
    Publish(bool),
    /// Enter the slot that was the front before.
    Reenter(bool),
    /// Take the previous value out of it.
    Empty(bool),
    /// Leave the emptied slot.
    Release(bool),
    /// Give the writers' lock back.
    Unlock,
    /// Nothing: the previous value has been handed over.
    Done,
}

/// A writer in the middle of its work: the value that it brings, until it is in
/// the card, and the value that it replaced, once it is out of it.
pub struct WriterView<T> {
    pub phase: WriterPhase,
    pub incoming: Option<T>,
    pub outgoing: Option<T>,
}

impl<T> WriterView<T> {
    pub open spec fn start(data: T) -> Self {
        WriterView { phase: WriterPhase::Lock, incoming: Some(data), outgoing: None }
    }

    /// Slot `zero` is write-locked by this writer.
    pub open spec fn inside(self, zero: bool) -> bool {
        match self.phase {
            WriterPhase::Fill(z) | WriterPhase::Seal(z) | WriterPhase::Empty(z)
            | WriterPhase::Release(z) => z == zero,
            _ => false,
        }
    }

    /// This writer has the writers' lock.
    pub open spec fn at_work(self) -> bool {
        self.phase !is Lock && self.phase !is Done
    }

    /// The card is in a state in which this writer can take its step.
    pub open spec fn fits(self, card: CardView<T>) -> bool {
        match self.phase {
            WriterPhase::Fill(z) => card.slot(z).writing() && card.slot(z).data is None
                && self.incoming is Some,
            WriterPhase::Seal(z) => card.slot(z).writing(),
            WriterPhase::Empty(z) => card.slot(z).writing() && card.slot(z).data is Some,
            WriterPhase::Release(z) => card.slot(z).writing(),
            _ => true,
        }
    }

    /// The writer and the card after one step of the writer.
    pub open spec fn step(self, card: CardView<T>) -> (Self, CardView<T>) {
        match self.phase {
            WriterPhase::Lock => if card.locked {
                (self, card)
            } else {
                (
                    WriterView { phase: WriterPhase::Choose, ..self },
                    CardView { locked: true, ..card },
                )
            },
            WriterPhase::Choose => (
                WriterView { phase: WriterPhase::Enter(!card.read_0), ..self },
                card,
            ),
            WriterPhase::Enter(z) => if card.slot(z).unlocked() {
                (
                    WriterView { phase: WriterPhase::Fill(z), ..self },
                    card.with_slot(z, card.slot(z).with_state(WRITE as int)),
                )
            } else {
                (WriterView { phase: WriterPhase::Choose, ..self }, card)
            },
            WriterPhase::Fill(z) => (
                WriterView { phase: WriterPhase::Seal(z), incoming: None, outgoing: self.outgoing },
                card.with_slot(z, card.slot(z).with_data(self.incoming)),
            ),
            WriterPhase::Seal(z) => (
                WriterView { phase: WriterPhase::Publish(z), ..self },
                card.with_slot(z, card.slot(z).with_state(UNLOCKED as int)),
            ),
            WriterPhase::Publish(z) => (
                WriterView { phase: WriterPhase::Reenter(!z), ..self },
                CardView { read_0: z, ..card },
            ),
            WriterPhase::Reenter(z) => if card.slot(z).unlocked() {
                (
                    WriterView { phase: WriterPhase::Empty(z), ..self },
                    card.with_slot(z, card.slot(z).with_state(WRITE as int)),
                )
            } else {
                (self, card)
            },
            WriterPhase::Empty(z) => (
                WriterView {
                    phase: WriterPhase::Release(z),
                    incoming: self.incoming,
                    outgoing: card.slot(z).data,
                },
                card.with_slot(z, card.slot(z).with_data(None)),
            ),
            WriterPhase::Release(z) => (
                WriterView { phase: WriterPhase::Unlock, ..self },
                card.with_slot(z, card.slot(z).with_state(UNLOCKED as int)),
            ),
            WriterPhase::Unlock => (
                WriterView { phase: WriterPhase::Done, ..self },
                CardView { locked: false, ..card },
            ),
            WriterPhase::Done => (self, card),
        }
    }
}

/// A writer that replaces the value of a card, one atomic step at a time.
#[derive(Debug)]
pub struct FlipWriter<T> {
    phase: WriterPhase,
    incoming: Option<T>,
    outgoing: Option<T>,
}

impl<T> View for FlipWriter<T> {
    type V = WriterView<T>;

    closed spec fn view(&self) -> WriterView<T> {
        WriterView { phase: self.phase, incoming: self.incoming, outgoing: self.outgoing }
    }
}

impl<T> FlipWriter<T> {
    /// A writer that has yet to begin, and brings `data`.
    pub fn new(data: T) -> (writer: Self)
        ensures
            writer@ == WriterView::start(data),
    {
        FlipWriter { phase: WriterPhase::Lock, incoming: Some(data), outgoing: None }
    }

    /// What the writer is about to do.
    pub fn phase(&self) -> (phase: WriterPhase)
        ensures
            phase == self@.phase,
    {
        self.phase
    }

    /// Takes one atomic step on `card`. A step that finds a lock taken changes
    /// nothing but the writer's phase, and is tried again.
    pub fn step(&mut self, card: &mut FlipCard<T>)
        requires
            old(self)@.fits(old(card)@),
        ensures
            (final(self)@, final(card)@) == old(self)@.step(old(card)@),
    {
        match self.phase {
            WriterPhase::Lock => {
                if !card.write_lock {
                    card.write_lock = true;
                    self.phase = WriterPhase::Choose;
                }
            },
            WriterPhase::Choose => {
                self.phase = WriterPhase::Enter(!card.read_data_0);
            },
            WriterPhase::Enter(zero) => {
                if card.begin_write(zero) {
                    self.phase = WriterPhase::Fill(zero);
                } else {
                    self.phase = WriterPhase::Choose;
                }
            },
            WriterPhase::Fill(zero) => {
                let data = self.incoming.take();
                card.replace(zero, data);
                self.phase = WriterPhase::Seal(zero);
            },
            WriterPhase::Seal(zero) => {
                card.end_write(zero);
                self.phase = WriterPhase::Publish(zero);
            },
            WriterPhase::Publish(zero) => {
                card.read_data_0 = zero;
                self.phase = WriterPhase::Reenter(!zero);
            },
            WriterPhase::Reenter(zero) => {
                if card.begin_write(zero) {
                    self.phase = WriterPhase::Empty(zero);
                }
            },
            WriterPhase::Empty(zero) => {
                self.outgoing = card.replace(zero, None);
                self.phase = WriterPhase::Release(zero);
            },
            WriterPhase::Release(zero) => {
                card.end_write(zero);
                self.phase = WriterPhase::Unlock;
            },
            WriterPhase::Unlock => {
                card.write_lock = false;
                self.phase = WriterPhase::Done;
            },
            WriterPhase::Done => {},
        }
    }

    /// The value that this writer replaced.
    pub fn into_previous(self) -> (previous: Option<T>)
        ensures
            previous == self@.outgoing,
    {
        self.outgoing
    }
}

impl<T> FlipCard<T> {
    fn begin_write(&mut self, zero: bool) -> (entered: bool)
        ensures
            entered == old(self)@.slot(zero).unlocked(),
            final(self)@ == (if entered {
                old(self)@.with_slot(zero, old(self)@.slot(zero).with_state(WRITE as int))
            } else {
                old(self)@
            }),
    {
        if zero {
            self.data0.begin_write()
        } else {
            self.data1.begin_write()
        }
    }

    fn replace(&mut self, zero: bool, data: Option<T>) -> (prior: Option<T>)
        requires
            old(self)@.slot(zero).writing(),
        ensures
            prior == old(self)@.slot(zero).data,
            final(self)@ == old(self)@.with_slot(zero, old(self)@.slot(zero).with_data(data)),
    {
        if zero {
            self.data0.replace(data)
        } else {
            self.data1.replace(data)
        }
    }

    fn end_write(&mut self, zero: bool)
        requires
            old(self)@.slot(zero).writing(),
        ensures
            final(self)@ == old(self)@.with_slot(
                zero,
                old(self)@.slot(zero).with_state(UNLOCKED as int),
            ),
    {
        if zero {
            self.data0.end_write()
        } else {
            self.data1.end_write()
        }
    }
}

/// What a reader is about to do. The flag in a phase tells which slot it is
/// about: slot 0 if true, slot 1 if false.
#[derive(Clone, Copy, Debug, PartialEq, Eq, Structural)]
pub enum ReaderPhase {
    /// Look which slot is the front.
    Look,
    /// Enter that slot.
    Enter(bool),
    /// Look whether the slot that it entered is the front still.
    Check(bool),
    /// Clone what the slot holds.
    Copy(bool),
    /// Leave the slot.
    Leave(bool),
    /// Nothing: a copy of the value has been made.
    Done,
}

/// A reader in the middle of its work, and the copy that it made.
pub struct ReaderView<T> {
    pub phase: ReaderPhase,
    pub copy: Option<T>,
}

impl<T> ReaderView<T> {
    pub open spec fn start() -> Self {
        ReaderView { phase: ReaderPhase::Look, copy: None }
    }

    /// Slot `zero` counts this reader.
    pub open spec fn inside(self, zero: bool) -> bool {
        match self.phase {
            ReaderPhase::Check(z) | ReaderPhase::Copy(z) | ReaderPhase::Leave(z) => z == zero,
            _ => false,
        }
    }

    /// This reader, if the cloning of the value has panicked.
    pub open spec fn abandoned(self) -> Self {
        match self.phase {
            ReaderPhase::Copy(z) => ReaderView { phase: ReaderPhase::Leave(z), copy: self.copy },
            _ => self,
        }
    }

    /// The card is in a state in which this reader can take its step.
    pub open spec fn fits(self, card: CardView<T>) -> bool {
        forall|zero: bool| #[trigger]
            self.inside(zero) ==> 1 <= card.slot(zero).state <= READ
    }
}

impl<T: Clone> ReaderView<T> {
    /// One step of this reader on `card` can end with the reader and the card
    /// as in `after`. All that is left open is what `T::clone` returns.
    pub open spec fn steps_to(self, card: CardView<T>, after: (Self, CardView<T>)) -> bool {
        match self.phase {
            ReaderPhase::Look => after == (
                ReaderView { phase: ReaderPhase::Enter(card.read_0), copy: self.copy },
                card,
            ),
            ReaderPhase::Enter(z) => after == if card.slot(z).readable() {
                (
                    ReaderView { phase: ReaderPhase::Check(z), copy: self.copy },
                    card.with_slot(z, card.slot(z).with_state(card.slot(z).state + 1)),
                )
            } else {
                (ReaderView { phase: ReaderPhase::Look, copy: self.copy }, card)
            },
            ReaderPhase::Check(z) => after == (
                ReaderView {
                    phase: if card.read_0 == z {
                        ReaderPhase::Copy(z)
                    } else {
                        ReaderPhase::Leave(z)
                    },
                    copy: self.copy,
                },
                card,
            ),
            ReaderPhase::Copy(z) => {
                &&& after.0.phase == ReaderPhase::Leave(z)
                &&& after.1 == card
                &&& match card.slot(z).data {
                    Some(value) => after.0.copy is Some && cloned::<T>(value, after.0.copy->0),
                    None => after.0.copy is None,
                }
            },
            ReaderPhase::Leave(z) => after == (
                ReaderView {
                    phase: if self.copy is Some {
                        ReaderPhase::Done
                    } else {
                        ReaderPhase::Look
                    },
                    copy: self.copy,
                },
                card.with_slot(z, card.slot(z).with_state(card.slot(z).state - 1)),
            ),
            ReaderPhase::Done => after == (self, card),
        }
    }
}

/// A reader that clones the value of a card, one atomic step at a time.
#[derive(Debug)]
pub struct FlipReader<T> {
    phase: ReaderPhase,
    copy: Option<T>,
}

impl<T> View for FlipReader<T> {
    type V = ReaderView<T>;

    closed spec fn view(&self) -> ReaderView<T> {
        ReaderView { phase: self.phase, copy: self.copy }
    }
}

impl<T> FlipReader<T> {
    /// A reader that has yet to begin.
    pub fn new() -> (reader: Self)
        ensures
            reader@ == ReaderView::<T>::start(),
    {
        FlipReader { phase: ReaderPhase::Look, copy: None }
    }

    /// What the reader is about to do.
    pub fn phase(&self) -> (phase: ReaderPhase)
        ensures
            phase == self@.phase,
    {
        self.phase
    }

    /// Takes one atomic step on `card`. A step that finds the slot locked, or
    /// finds that it is no longer the front, sends the reader back to look
    /// again.
    pub fn step(&mut self, card: &mut FlipCard<T>)
        where
            T: Clone,
        requires
            old(self)@.fits(old(card)@),
        ensures
            old(self)@.steps_to(old(card)@, (final(self)@, final(card)@)),
    {
        match self.phase {
            ReaderPhase::Look => {
                self.phase = ReaderPhase::Enter(card.read_data_0);
            },
            ReaderPhase::Enter(zero) => {
                if card.begin_read(zero) {
                    self.phase = ReaderPhase::Check(zero);
                } else {
                    self.phase = ReaderPhase::Look;
                }
            },
            ReaderPhase::Check(zero) => {
                if card.read_data_0 == zero {
                    self.phase = ReaderPhase::Copy(zero);
                } else {
                    self.phase = ReaderPhase::Leave(zero);
                }
            },
            ReaderPhase::Copy(zero) => {
                assert(self@.inside(zero));
                self.copy =
                match card.data(zero) {
                    Some(value) => Some(value.clone()),
                    None => None,
                };
                self.phase = ReaderPhase::Leave(zero);
            },
            ReaderPhase::Leave(zero) => {
                assert(self@.inside(zero));
                card.end_read(zero);
                if self.copy.is_some() {
                    self.phase = ReaderPhase::Done;
                } else {
                    self.phase = ReaderPhase::Look;
                }
            },
            ReaderPhase::Done => {},
        }
    }

    /// What the reader does when the cloning of the value has panicked: it
    /// makes no copy, but still leaves the slot.
    pub fn abandon(&mut self)
        ensures
            final(self)@ == old(self)@.abandoned(),
    {
        match self.phase {
            ReaderPhase::Copy(zero) => {
                self.phase = ReaderPhase::Leave(zero);
            },
            _ => {},
        }
    }

    /// The copy that this reader has made, if it has made one yet.
    pub fn copied(&self) -> (copy: Option<&T>)
        ensures
            copy is Some <==> self@.copy is Some,
            copy matches Some(value) ==> *value == self@.copy->0,
    {
        self.copy.as_ref()
    }

    /// The copy that this reader made.
    pub fn into_copy(self) -> (copy: Option<T>)
        ensures
            copy == self@.copy,
    {
        self.copy
    }
}

impl<T> FlipCard<T> {
    fn begin_read(&mut self, zero: bool) -> (entered: bool)
        ensures
            entered == old(self)@.slot(zero).readable(),
            final(self)@ == (if entered {
                old(self)@.with_slot(
                    zero,
                    old(self)@.slot(zero).with_state(old(self)@.slot(zero).state + 1),
                )
            } else {
                old(self)@
            }),
    {
        if zero {
            self.data0.begin_read()
        } else {
            self.data1.begin_read()
        }
    }

    fn data(&self, zero: bool) -> (data: &Option<T>)
        requires
            1 <= self@.slot(zero).state <= READ,
        ensures
            *data == self@.slot(zero).data,
    {
        if zero {
            self.data0.data()
        } else {
            self.data1.data()
        }
    }

    fn end_read(&mut self, zero: bool)
        requires
            1 <= old(self)@.slot(zero).state <= READ,
        ensures
            final(self)@ == old(self)@.with_slot(
                zero,
                old(self)@.slot(zero).with_state(old(self)@.slot(zero).state - 1),
            ),
    {
        if zero {
            self.data0.end_read()
        } else {
            self.data1.end_read()
        }
    }

    /// Creates a card that holds `data0`, in slot 0.
    pub fn new(data0: T) -> (card: Self)
        ensures
            card@ == CardView::at_rest(true, data0),
    {
        FlipCard {
            data0: Slot::new(Some(data0)),
            data1: Slot::new(None),
            read_data_0: true,
            write_lock: false,
        }
    }

    /// Replaces the value and returns the one that was there before.
    pub fn flip_to(&mut self, data: T) -> (previous: T)
        requires
            old(self)@.quiet(),
        ensures
            previous == old(self)@.current(),
            final(self)@ == CardView::at_rest(!old(self)@.read_0, data),
    {
        let mut writer = FlipWriter::new(data);
        let ghost before = self@;
        assert(writer@.alone(before, data, self@));
        loop
            invariant
                before.quiet(),
                writer@.alone(before, data, self@),
            ensures
                writer@.phase is Done,
                writer@.alone(before, data, self@),
            decreases writer@.phase.left(),
        {
            match writer.phase() {
                WriterPhase::Done => {
                    break ;
                },
                _ => {},
            }
            writer.step(self);
        }
        writer.into_previous().unwrap()
    }

    /// Returns a copy of the value.
    ///
    /// A reader that finds the reader count saturated waits for another to
    /// leave, so there must be room for one more.
    pub fn read(&self) -> (copy: T)
        where
            T: Clone,
        requires
            self@.front().data is Some,
            self@.front().readable(),
        ensures
            cloned::<T>(self@.current(), copy),
    {
        let data = if self.read_data_0 {
            self.data0.try_read()
        } else {
            self.data1.try_read()
        };
        data.unwrap().unwrap()
    }
}

impl<T: Clone> FlipCard<T> {
    /// Creates another card that holds a copy of the value. The two cards have
    /// nothing in common afterwards.
    pub fn clone(&self) -> (card: Self)
        requires
            self@.front().data is Some,
            self@.front().readable(),
        ensures
            cloned::<T>(self@.current(), card@.current()),
            card@ == CardView::at_rest(true, card@.current()),
    {
        FlipCard::new(self.read())
    }
}

impl<T: Default> Default for FlipCard<T> {
    /// Creates a card that holds the default value of `T`.
    fn default() -> (card: Self)
        ensures
            call_ensures(T::default, (), card@.current()),
            card@ == CardView::at_rest(true, card@.current()),
    {
        FlipCard::new(T::default())
    }
}

impl<T> vstd::std_specs::convert::FromSpecImpl<T> for FlipCard<T> {
    open spec fn obeys_from_spec() -> bool {
        true
    }

    closed spec fn from_spec(value: T) -> Self {
        FlipCard {
            data0: Slot { data: Some(value), atomic: UNLOCKED },
            data1: Slot { data: None, atomic: UNLOCKED },
            read_data_0: true,
            write_lock: false,
        }
    }
}

impl<T> From<T> for FlipCard<T> {
    /// Creates a card that holds `value`.
    fn from(value: T) -> (card: Self)
        ensures
            card@ == CardView::at_rest(true, value),
    {
        FlipCard::new(value)
    }
}

impl WriterPhase {
    /// How many steps a writer that meets no other has still to take.
    spec fn left(self) -> int {
        match self {
            WriterPhase::Lock => 10,
            WriterPhase::Choose => 9,
            WriterPhase::Enter(_) => 8,
            WriterPhase::Fill(_) => 7,
            WriterPhase::Seal(_) => 6,
            WriterPhase::Publish(_) => 5,
            WriterPhase::Reenter(_) => 4,
            WriterPhase::Empty(_) => 3,
            WriterPhase::Release(_) => 2,
            WriterPhase::Unlock => 1,
            WriterPhase::Done => 0,
        }
    }
}

impl<T> WriterView<T> {
    /// This writer brought `data` to the quiet card `before`, nobody else has
    /// touched the card, and now it is as in `card`.
    spec fn alone(self, before: CardView<T>, data: T, card: CardView<T>) -> bool {
        let old_zero = before.read_0;
        let new_zero = !old_zero;
        let full = SlotView { data: Some(data), state: UNLOCKED };
        let empty = SlotView { data: None::<T>, state: UNLOCKED };
        let busy = CardView { locked: true, ..before };
        let filled = busy.with_slot(new_zero, full);
        let flipped = CardView { read_0: new_zero, ..filled };
        &&& match self.phase {
            WriterPhase::Lock => card == before,
            WriterPhase::Choose => card == busy,
            WriterPhase::Enter(z) => z == new_zero && card == busy,
            WriterPhase::Fill(z) => z == new_zero && card == busy.with_slot(
                z,
                empty.with_state(WRITE as int),
            ),
            WriterPhase::Seal(z) => z == new_zero && card == busy.with_slot(
                z,
                full.with_state(WRITE as int),
            ),
            WriterPhase::Publish(z) => z == new_zero && card == filled,
            WriterPhase::Reenter(z) => z == old_zero && card == flipped,
            WriterPhase::Empty(z) => z == old_zero && card == flipped.with_slot(
                z,
                before.front().with_state(WRITE as int),
            ),
            WriterPhase::Release(z) => z == old_zero && card == flipped.with_slot(
                z,
                empty.with_state(WRITE as int),
            ),
            WriterPhase::Unlock => card == flipped.with_slot(old_zero, empty),
            WriterPhase::Done => card == CardView::at_rest(new_zero, data),
        }
        &&& match self.phase {
            WriterPhase::Lock | WriterPhase::Choose | WriterPhase::Enter(_)
            | WriterPhase::Fill(_) => self.incoming == Some(data),
            _ => true,
        }
        &&& match self.phase {
            WriterPhase::Release(_) | WriterPhase::Unlock
            | WriterPhase::Done => self.outgoing == Some(before.current()),
            _ => true,
        }
    }
}

} // verus!
