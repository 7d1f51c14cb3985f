//! Data model of the card store.
//!
//! A [`Card`] holds an immutable front/back text pair (as raw bytes of the
//! store file) and two independent review schedules, one per direction.  A
//! [`Record`] is a card together with the byte offset of its encoded line in
//! the backing file.  A [`DueEntry`] names one direction of one record that
//! is due for review in the current round.

use crate::dates::{date_le, Date};
use vstd::prelude::*;

verus! {

/// Which of a card's two independent schedules is being reviewed.
#[derive(Clone, Copy, PartialEq, Eq, Structural, Debug)]
pub enum Direction {
    /// Front is prompted, back is the answer.
    Forward,
    /// Back is prompted, front is the answer.
    Backward,
}

/// A flashcard: a front/back text pair and a review schedule per direction.
///
/// Texts are kept as the raw bytes of the store file; the review engine
/// never changes them, only the four date fields.
#[derive(Clone, PartialEq, Eq, Debug)]
pub struct Card {
    pub front: Vec<u8>,
    pub back: Vec<u8>,
    pub last_forward_review: Date,
    pub next_forward_review: Date,
    pub last_backward_review: Date,
    pub next_backward_review: Date,
}

/// Mathematical view of a [`Card`]: the texts as byte sequences.
#[verifier::ext_equal]
pub ghost struct CardModel {
    pub front: Seq<u8>,
    pub back: Seq<u8>,
    pub last_forward_review: Date,
    pub next_forward_review: Date,
    pub last_backward_review: Date,
    pub next_backward_review: Date,
}

impl View for Card {
    type V = CardModel;

    open spec fn view(&self) -> CardModel {
        CardModel {
            front: self.front@,
            back: self.back@,
            last_forward_review: self.last_forward_review,
            next_forward_review: self.next_forward_review,
            last_backward_review: self.last_backward_review,
            next_backward_review: self.next_backward_review,
        }
    }
}

/// A card together with the byte offset in the backing file at which its
/// encoded line begins.  Valid only for the session in which it was scanned.
#[derive(Clone, PartialEq, Eq, Debug)]
pub struct Record {
    pub byte_offset: u64,
    pub card: Card,
}

/// Mathematical view of a [`Record`].
#[verifier::ext_equal]
pub ghost struct RecordModel {
    pub byte_offset: u64,
    pub card: CardModel,
}

impl View for Record {
    type V = RecordModel;

    open spec fn view(&self) -> RecordModel {
        RecordModel { byte_offset: self.byte_offset, card: self.card@ }
    }
}

/// One due direction of one record, as collected for a review round.
#[derive(Clone, Copy, PartialEq, Eq, Structural, Debug)]
pub struct DueEntry {
    /// Index of the record in the session's record sequence.
    pub index: usize,
    /// Which schedule of that record is due.
    pub direction: Direction,
}

/// The direction-specific reading of a card: the prompted side, the answer
/// side, and the schedule pair of that direction, copied out as values.
#[derive(Clone, PartialEq, Eq, Debug)]
pub struct CardRef {
    pub front: Vec<u8>,
    pub back: Vec<u8>,
    pub last_review: Date,
    pub next_review: Date,
}

/// The next-review date of the given direction.
pub open spec fn next_of(c: CardModel, dir: Direction) -> Date {
    match dir {
        Direction::Forward => c.next_forward_review,
        Direction::Backward => c.next_backward_review,
    }
}

/// The last-review date of the given direction.
pub open spec fn last_of(c: CardModel, dir: Direction) -> Date {
    match dir {
        Direction::Forward => c.last_forward_review,
        Direction::Backward => c.last_backward_review,
    }
}

/// A direction of a card is due when its next-review date is on or before
/// today.
pub open spec fn is_due(c: CardModel, dir: Direction, today: Date) -> bool {
    date_le(next_of(c, dir), today)
}

/// The card with the given direction's schedule replaced and everything
/// else unchanged.
pub open spec fn with_schedule(c: CardModel, dir: Direction, last: Date, next: Date) -> CardModel {
    match dir {
        Direction::Forward => CardModel { last_forward_review: last, next_forward_review: next, ..c },
        Direction::Backward => CardModel { last_backward_review: last, next_backward_review: next, ..c },
    }
}

impl Card {
    /// The direction-specific view used to drive one review: forward
    /// prompts the front, backward prompts the back.
    pub fn direction_view(&self, dir: Direction) -> (r: CardRef)
        ensures
            r.front@ == (if dir is Forward { self@.front } else { self@.back }),
            r.back@ == (if dir is Forward { self@.back } else { self@.front }),
            r.last_review == last_of(self@, dir),
            r.next_review == next_of(self@, dir),
    {
        match dir {
            Direction::Forward => CardRef {
                front: self.front.clone(),
                back: self.back.clone(),
                last_review: self.last_forward_review,
                next_review: self.next_forward_review,
            },
            Direction::Backward => CardRef {
                front: self.back.clone(),
                back: self.front.clone(),
                last_review: self.last_backward_review,
                next_review: self.next_backward_review,
            },
        }
    }

    /// Replaces the given direction's schedule pair; the texts and the other
    /// direction's schedule are untouched.
    pub fn set_schedule(&mut self, dir: Direction, last: Date, next: Date)
        ensures
            final(self)@ == with_schedule(old(self)@, dir, last, next),
    {
        match dir {
            Direction::Forward => {
                self.last_forward_review = last;
                self.next_forward_review = next;
            }
            Direction::Backward => {
                self.last_backward_review = last;
                self.next_backward_review = next;
            }
        }
    }
}

} // verus!
