//! The review engine: scheduling policy, due-set collection, and the
//! round-based review session.
//!
//! A session walks the due entries of its records round by round.  Each
//! review reschedules one direction of one card, either by an explicit
//! day-count override from the user or by doubling the elapsed interval
//! (with a small random jitter), and yields the positional write command
//! that persists the updated record in place.  Rounds repeat while any
//! review chose a zero-day interval, so a card rescheduled for the same
//! day is revisited in the very next round.

use crate::codec::{spec_encode, valid_card};
use crate::dates::{
    day_number, day_of, date_of_day_number, in_store_range, Date, DAY_MAX, DAY_MIN,
};
use crate::models::{
    is_due, last_of, next_of, with_schedule, Card, CardModel, CardRef, Direction, DueEntry, Record,
    RecordModel,
};
use crate::persist::PersistCmd;
use rand::seq::{IndexedRandom, SliceRandom};
use vstd::prelude::*;

verus! {

/// Why a review step failed.  Either the user's override is not a usable
/// day count, or the requested interval lands outside the dates the store
/// can hold.
#[derive(Clone, Copy, PartialEq, Eq, Structural, Debug)]
pub enum ReviewError {
    /// The override input is not a valid signed day count.
    InvalidInterval,
    /// The next-review date would fall outside years 0 through 9999.
    DateOutOfRange,
}

/// The default interval before jitter: twice the elapsed days since the
/// last review, but never less than one day.
pub open spec fn doubled_interval(now_n: int, last_n: int) -> int {
    if 2 * (now_n - last_n) >= 1 {
        2 * (now_n - last_n)
    } else {
        1
    }
}

/// The day count a review moves the schedule by: the override when one was
/// given, otherwise the doubled elapsed interval plus the jitter draw.
pub open spec fn chosen_interval(now: Date, last: Date, ovr: Option<i64>, jitter: int) -> int {
    match ovr {
        Some(k) => k as int,
        None => doubled_interval(day_of(now), day_of(last)) + jitter,
    }
}

/// The day number the next review lands on.
pub open spec fn target_day(now: Date, last: Date, ovr: Option<i64>, jitter: int) -> int {
    day_of(now) + chosen_interval(now, last, ovr, jitter)
}

/// The scheduling policy.  Given today's date, the date of the last review
/// of this direction, the user's optional day-count override and a jitter
/// draw, computes the next-review date and whether the chosen interval was
/// exactly zero days (which makes the card due again within the session).
///
/// With an override of zero the next review is today itself; with no
/// override the interval is the doubled elapsed time plus jitter, at least
/// one day.  Fails exactly when the requested date cannot be stored.
pub fn compute_next(now: Date, last: Date, ovr: Option<i64>, jitter: i64) -> (r: Result<
    (Date, bool),
    ReviewError,
>)
    requires
        in_store_range(now),
        in_store_range(last),
        0 <= jitter <= 2,
    ensures
        r.is_ok() <==> DAY_MIN <= target_day(now, last, ovr, jitter as int) <= DAY_MAX,
        DAY_MIN <= day_of(now) <= DAY_MAX,
        (ovr == Some(0i64) ==> r.is_ok()),
        (r matches Ok(v) ==> {
            &&& in_store_range(v.0)
            &&& day_of(v.0) == target_day(now, last, ovr, jitter as int)
            &&& v.1 == (ovr == Some(0i64))
            &&& (ovr == Some(0i64) ==> v.0 == now)
        }),
        (r matches Err(e) ==> e == ReviewError::DateOutOfRange),
{
    let now_n = day_number(now);
    match ovr {
        Some(k) => {
            if k == 0 {
                return Ok((now, true));
            }
            if k < -8000000 || k > 8000000 {
                return Err(ReviewError::DateOutOfRange);
            }
            let t = now_n + k;
            if t < DAY_MIN || t > DAY_MAX {
                return Err(ReviewError::DateOutOfRange);
            }
            match date_of_day_number(t) {
                Some(d) => Ok((d, false)),
                None => {
                    // Unreachable: every day number between DAY_MIN and
                    // DAY_MAX has a date.
                    proof {
                        assert(false);
                    }
                    Err(ReviewError::DateOutOfRange)
                },
            }
        },
        None => {
            let last_n = day_number(last);
            let diff2 = 2 * (now_n - last_n);
            let base = if diff2 >= 1 {
                diff2
            } else {
                1
            };
            let t = now_n + base + jitter;
            if t < DAY_MIN || t > DAY_MAX {
                return Err(ReviewError::DateOutOfRange);
            }
            match date_of_day_number(t) {
                Some(d) => Ok((d, false)),
                None => {
                    // Unreachable: every day number between DAY_MIN and
                    // DAY_MAX has a date.
                    proof {
                        assert(false);
                    }
                    Err(ReviewError::DateOutOfRange)
                },
            }
        },
    }
}

/// A zero override always reschedules for today itself and reports a
/// zero-day interval: the card stays due within the session.
pub proof fn lemma_zero_override_is_today(now: Date, last: Date, jitter: int)
    ensures
        target_day(now, last, Some(0i64), jitter) == day_of(now),
        chosen_interval(now, last, Some(0i64), jitter) == 0,
{
}

/// With no override, a last review three days in the past doubles to a
/// six-day base interval, and the next review lands at least six days out.
pub proof fn lemma_three_days_doubles_to_six(now: Date, last: Date, jitter: int)
    requires
        day_of(last) == day_of(now) - 3,
        0 <= jitter,
    ensures
        doubled_interval(day_of(now), day_of(last)) == 6,
        target_day(now, last, None, jitter) >= day_of(now) + 6,
{
}

/// The mathematical view of a record sequence.
pub open spec fn records_model(records: Seq<Record>) -> Seq<RecordModel> {
    records.map_values(|r: Record| r@)
}

/// The due entries contributed by record `i`: its forward direction when
/// the forward schedule is due, then its backward direction when the
/// backward schedule is due.
pub open spec fn entries_for(i: int, c: CardModel, today: Date) -> Seq<DueEntry> {
    let f = if is_due(c, Direction::Forward, today) {
        seq![DueEntry { index: i as usize, direction: Direction::Forward }]
    } else {
        Seq::empty()
    };
    let b = if is_due(c, Direction::Backward, today) {
        seq![DueEntry { index: i as usize, direction: Direction::Backward }]
    } else {
        Seq::empty()
    };
    f + b
}

/// The due set of a round: for each record in order, its due directions,
/// forward before backward.
pub open spec fn due_entries(records: Seq<RecordModel>, today: Date) -> Seq<DueEntry>
    decreases records.len(),
{
    if records.len() == 0 {
        Seq::empty()
    } else {
        due_entries(records.drop_last(), today) + entries_for(
            records.len() - 1,
            records.last().card,
            today,
        )
    }
}

/// Every due entry points into the record sequence.
pub proof fn lemma_due_entries_indices(records: Seq<RecordModel>, today: Date)
    ensures
        forall|k: int|
            0 <= k < due_entries(records, today).len() ==> (#[trigger] due_entries(
                records,
                today,
            )[k]).index < records.len(),
    decreases records.len(),
{
    if records.len() > 0 {
        lemma_due_entries_indices(records.drop_last(), today);
    }
}

/// A due direction of a record always appears in the round's due set.
pub proof fn lemma_due_entry_present(records: Seq<RecordModel>, today: Date, i: int, dir: Direction)
    requires
        0 <= i < records.len(),
        is_due(records[i].card, dir, today),
    ensures
        due_entries(records, today).contains(DueEntry { index: i as usize, direction: dir }),
    decreases records.len(),
{
    let e = DueEntry { index: i as usize, direction: dir };
    if i == records.len() - 1 {
        let part = entries_for(i, records[i].card, today);
        assert(part.contains(e)) by {
            if dir is Forward {
                assert(part[0] == e);
            } else {
                if is_due(records[i].card, Direction::Forward, today) {
                    assert(part[1] == e);
                } else {
                    assert(part[0] == e);
                }
            }
        };
        let k = choose|k: int| 0 <= k < part.len() && part[k] == e;
        assert(due_entries(records, today)[due_entries(records.drop_last(), today).len() + k]
            == e);
    } else {
        lemma_due_entry_present(records.drop_last(), today, i, dir);
        let sub = due_entries(records.drop_last(), today);
        let k = choose|k: int| 0 <= k < sub.len() && sub[k] == e;
        assert(due_entries(records, today)[k] == e);
    }
}

/// No direction of any record is collected twice: the due set of a round
/// holds each entry at most once, so every entry is visited exactly once
/// per round.
pub proof fn lemma_due_entries_distinct(records: Seq<RecordModel>, today: Date)
    requires
        records.len() <= usize::MAX,
    ensures
        forall|k1: int, k2: int|
            0 <= k1 < k2 < due_entries(records, today).len() ==> due_entries(records, today)[k1]
                != due_entries(records, today)[k2],
    decreases records.len(),
{
    let due = due_entries(records, today);
    if records.len() > 0 {
        lemma_due_entries_distinct(records.drop_last(), today);
        lemma_due_entries_indices(records.drop_last(), today);
        let sub = due_entries(records.drop_last(), today);
        let part = entries_for(records.len() - 1, records.last().card, today);
        assert forall|k1: int, k2: int| 0 <= k1 < k2 < due.len() implies due[k1] != due[k2] by {
            if k2 < sub.len() {
                assert(due[k1] == sub[k1] && due[k2] == sub[k2]);
            } else if k1 < sub.len() {
                assert(due[k1] == sub[k1]);
                assert(due[k1].index < records.len() - 1);
                assert(due[k2] == part[k2 - sub.len()]);
                let last = records.last().card;
                assert(due[k2].index == records.len() - 1) by {
                    let j = k2 - sub.len();
                    if is_due(last, Direction::Forward, today) {
                        if is_due(last, Direction::Backward, today) {
                            assert(part[0].index == records.len() - 1);
                            assert(part[1].index == records.len() - 1);
                        } else {
                            assert(part[0].index == records.len() - 1);
                        }
                    } else {
                        assert(part[0].index == records.len() - 1);
                    }
                };
            } else {
                assert(due[k1] == part[k1 - sub.len()] && due[k2] == part[k2 - sub.len()]);
                assert(part.len() == 2 && k1 - sub.len() == 0 && k2 - sub.len() == 1);
                assert(part[0].direction is Forward && part[1].direction is Backward);
            }
        };
    }
}

/// A due direction survives the shuffle: any reordering of the due set —
/// round one's queue in particular — still holds the entry of each due
/// direction of each record.
pub proof fn lemma_due_entry_in_round(
    records: Seq<RecordModel>,
    today: Date,
    queue: Seq<DueEntry>,
    i: int,
    dir: Direction,
)
    requires
        queue.to_multiset() == due_entries(records, today).to_multiset(),
        0 <= i < records.len(),
        is_due(records[i].card, dir, today),
    ensures
        queue.contains((DueEntry { index: i as usize, direction: dir })),
{
    broadcast use vstd::seq_lib::group_to_multiset_ensures;

    let e = DueEntry { index: i as usize, direction: dir };
    lemma_due_entry_present(records, today, i, dir);
    assert(due_entries(records, today).to_multiset().count(e) > 0);
}

/// A card rescheduled for today itself is due again: a due set computed
/// afterwards, on the same day, is never empty.  Together with the round
/// transition this is what makes a zero-day interval open another round
/// instead of completing the session.
pub proof fn lemma_same_day_reschedule_keeps_due(
    records: Seq<RecordModel>,
    today: Date,
    i: int,
    dir: Direction,
)
    requires
        0 <= i < records.len(),
        next_of(records[i].card, dir) == today,
    ensures
        due_entries(records, today).len() > 0,
{
    lemma_due_entry_present(records, today, i, dir);
    let due = due_entries(records, today);
    let e = DueEntry { index: i as usize, direction: dir };
    let k = choose|k: int| 0 <= k < due.len() && due[k] == e;
}

/// A record with both directions due contributes two distinct entries to
/// the same round's due set.
pub proof fn lemma_both_directions_present(records: Seq<RecordModel>, today: Date, i: int)
    requires
        0 <= i < records.len(),
        is_due(records[i].card, Direction::Forward, today),
        is_due(records[i].card, Direction::Backward, today),
    ensures
        due_entries(records, today).contains(
            (DueEntry { index: i as usize, direction: Direction::Forward }),
        ),
        due_entries(records, today).contains(
            (DueEntry { index: i as usize, direction: Direction::Backward }),
        ),
        (DueEntry { index: i as usize, direction: Direction::Forward }) != (DueEntry {
            index: i as usize,
            direction: Direction::Backward,
        }),
{
    lemma_due_entry_present(records, today, i, Direction::Forward);
    lemma_due_entry_present(records, today, i, Direction::Backward);
}

/// Collects the due entries of the current round, in record order, the
/// forward direction before the backward one, one entry per due schedule.
pub fn collect_due_card_indices(records: &Vec<Record>, today: Date) -> (r: Vec<DueEntry>)
    ensures
        r@ == due_entries(records_model(records@), today),
{
    let ghost m = records_model(records@);
    let mut r: Vec<DueEntry> = Vec::new();
    let mut i = 0usize;
    while i < records.len()
        invariant
            i <= records.len(),
            m == records_model(records@),
            r@ == due_entries(m.subrange(0, i as int), today),
        decreases records.len() - i,
    {
        let rec = records.get(i).unwrap();
        if crate::dates::date_le_exec(rec.card.next_forward_review, today) {
            r.push(DueEntry { index: i, direction: Direction::Forward });
        }
        if crate::dates::date_le_exec(rec.card.next_backward_review, today) {
            r.push(DueEntry { index: i, direction: Direction::Backward });
        }
        proof {
            let pre = m.subrange(0, i as int);
            let post = m.subrange(0, i + 1);
            assert(post.drop_last() =~= pre);
            assert(post.last() == m[i as int]);
            assert(r@ =~= due_entries(pre, today) + entries_for(i as int, m[i as int].card, today));
        }
        i = i + 1;
    }
    proof {
        assert(m.subrange(0, records@.len() as int) =~= m);
    }
    r
}

/// Relies on rand's `SliceRandom::shuffle`: an unbiased in-place
/// permutation of the slice (Durstenfeld's algorithm); entries are only
/// rearranged, never added, lost or changed.
#[verifier::external_body]
fn shuffle_entries(v: &mut Vec<DueEntry>)
    ensures
        final(v)@.to_multiset() == old(v)@.to_multiset(),
{
    v.as_mut_slice().shuffle(&mut rand::rng());
}

/// Relies on rand's `IndexedRandom::choose`: one uniformly sampled element
/// of the slice, or nothing exactly when the slice is empty.
#[verifier::external_body]
fn choose_one(xs: &Vec<i64>) -> (r: Option<i64>)
    ensures
        (r matches Some(v) ==> xs@.contains(v)),
        r.is_some() <==> xs@.len() > 0,
{
    xs.as_slice().choose(&mut rand::rng()).copied()
}

/// The jitter candidates a default interval may be stretched by: zero, one
/// or two days, to spread otherwise identical review dates.
pub fn jitter_options() -> (r: Vec<i64>)
    ensures
        r@ == seq![0i64, 1i64, 2i64],
{
    let mut v: Vec<i64> = Vec::new();
    v.push(0);
    v.push(1);
    v.push(2);
    proof {
        assert(v@ =~= seq![0i64, 1i64, 2i64]);
    }
    v
}

/// One random draw from the fixed jitter candidates.
pub fn pick_jitter() -> (j: i64)
    ensures
        0 <= j <= 2,
{
    let opts = jitter_options();
    match choose_one(&opts) {
        Some(j) => {
            proof {
                let k = choose|k: int| 0 <= k < opts@.len() && opts@[k] == j;
            }
            j
        },
        None => {
            // Unreachable: the candidate set is never empty.
            proof {
                assert(false);
            }
            0
        },
    }
}

/// The phases of a review session: not yet started, walking the entries of
/// a round, or finished.
#[derive(Clone, Copy, PartialEq, Eq, Structural, Debug)]
pub enum SessionState {
    Idle,
    RoundActive,
    Complete,
}

/// A review session over a scanned set of records.
///
/// The session is a state machine driven from outside: `start` opens round
/// one, `next_entry` hands out the entry under review, `apply_review`
/// reschedules it and yields the positional write that persists it, and
/// `finish_round` either opens the next round (when some review chose a
/// zero-day interval) or completes the session.
pub struct Session {
    /// The scanned records, updated in memory as reviews happen.
    pub records: Vec<Record>,
    /// The date every due test and reschedule is relative to.
    pub today: Date,
    /// The entries of the current round, in (shuffled) review order.
    pub queue: Vec<DueEntry>,
    /// How many entries of the current round are already reviewed.
    pub pos: usize,
    /// The current round, counted from one.
    pub round: u64,
    /// Total reviews across all rounds.
    pub num_reviews: u64,
    /// The size of round one's due set, reported as the card count.
    pub num_cards: u64,
    /// Whether some review of this round chose a zero-day interval.
    pub rescheduled: bool,
    pub state: SessionState,
}

impl Session {
    /// Internal consistency: storable cards, a queue that points into the
    /// records, a position inside the queue.
    pub open spec fn wf(self) -> bool {
        &&& in_store_range(self.today)
        &&& forall|i: int|
            0 <= i < self.records@.len() ==> valid_card((#[trigger] self.records@[i])@.card)
        &&& self.pos <= self.queue@.len()
        &&& forall|k: int|
            0 <= k < self.queue@.len() ==> (#[trigger] self.queue@[k]).index
                < self.records@.len()
    }

    /// The due set that a round started now would walk.
    pub open spec fn session_due(self) -> Seq<DueEntry> {
        due_entries(records_model(self.records@), self.today)
    }

    /// A fresh, not yet started session over the given records.
    pub fn new(records: Vec<Record>, today: Date) -> (s: Session)
        requires
            in_store_range(today),
            forall|i: int|
                0 <= i < records@.len() ==> valid_card((#[trigger] records@[i])@.card),
        ensures
            s.wf(),
            s.state is Idle,
            s.records@ == records@,
            s.today == today,
            s.num_reviews == 0,
            s.num_cards == 0,
            s.round == 0,
    {
        Session {
            records,
            today,
            queue: Vec::new(),
            pos: 0,
            round: 0,
            num_reviews: 0,
            num_cards: 0,
            rescheduled: false,
            state: SessionState::Idle,
        }
    }

    /// Starts the session.  With nothing due the session is complete at
    /// once — in particular it will never issue a write.  Otherwise round
    /// one opens over the (shuffled) due set, whose size is reported as
    /// the session's card count.
    pub fn start(&mut self)
        requires
            old(self).wf(),
            old(self).state is Idle,
        ensures
            final(self).wf(),
            final(self).records@ == old(self).records@,
            final(self).today == old(self).today,
            final(self).num_reviews == old(self).num_reviews,
            old(self).session_due().len() == 0 ==> final(self).state is Complete
                && final(self).num_cards == 0,
            old(self).session_due().len() > 0 ==> {
                &&& final(self).state is RoundActive
                &&& final(self).round == 1
                &&& final(self).pos == 0
                &&& final(self).num_cards == old(self).session_due().len()
                &&& final(self).queue@.to_multiset() == old(self).session_due().to_multiset()
                &&& final(self).rescheduled == false
            },
    {
        let mut q = collect_due_card_indices(&self.records, self.today);
        if q.len() == 0 {
            self.num_cards = 0;
            self.state = SessionState::Complete;
            return;
        }
        let ghost due = self.session_due();
        shuffle_entries(&mut q);
        proof {
            broadcast use vstd::seq_lib::group_to_multiset_ensures;

            lemma_due_entries_indices(records_model(self.records@), self.today);
            assert forall|k: int| 0 <= k < q@.len() implies (#[trigger] q@[k]).index
                < self.records@.len() by {
                let e = q@[k];
                assert(q@.contains(e));
                assert(due.to_multiset().count(e) > 0);
                assert(due.contains(e));
                let k0 = choose|k0: int| 0 <= k0 < due.len() && due[k0] == e;
            };
            assert(q@.len() == q@.to_multiset().len());
            assert(due.len() == due.to_multiset().len());
        }
        self.num_cards = q.len() as u64;
        self.queue = q;
        self.pos = 0;
        self.round = 1;
        self.rescheduled = false;
        self.state = SessionState::RoundActive;
    }

    /// The entry under review, while the round still has one.
    pub fn next_entry(&self) -> (r: Option<DueEntry>)
        requires
            self.wf(),
        ensures
            (self.state is RoundActive && self.pos < self.queue@.len()) <==> (r == Some(
                self.queue@[self.pos as int],
            )),
            r is None ==> !(self.state is RoundActive && self.pos < self.queue@.len()),
    {
        match self.state {
            SessionState::RoundActive => {
                if self.pos < self.queue.len() {
                    Some(*self.queue.get(self.pos).unwrap())
                } else {
                    None
                }
            },
            _ => None,
        }
    }

    /// The direction-specific reading of the card under review: prompt
    /// side, answer side and the schedule pair being rescheduled.
    pub fn current_card_ref(&self) -> (r: CardRef)
        requires
            self.wf(),
            self.state is RoundActive,
            self.pos < self.queue@.len(),
        ensures
            ({
                let e = self.queue@[self.pos as int];
                let c = self.records@[e.index as int]@.card;
                &&& r.front@ == (if e.direction is Forward { c.front } else { c.back })
                &&& r.back@ == (if e.direction is Forward { c.back } else { c.front })
                &&& r.last_review == last_of(c, e.direction)
                &&& r.next_review == next_of(c, e.direction)
            }),
    {
        let e = *self.queue.get(self.pos).unwrap();
        self.records.get(e.index).unwrap().card.direction_view(e.direction)
    }

    /// Days elapsed since the last review of the entry under review, as
    /// shown to the user alongside the answer.
    pub fn days_since_last(&self) -> (r: i64)
        requires
            self.wf(),
            self.state is RoundActive,
            self.pos < self.queue@.len(),
        ensures
            ({
                let e = self.queue@[self.pos as int];
                let c = self.records@[e.index as int]@.card;
                r == day_of(self.today) - day_of(last_of(c, e.direction))
            }),
    {
        let e = *self.queue.get(self.pos).unwrap();
        let last = self.records.get(e.index).unwrap().card.direction_view(e.direction).last_review;
        let now_n = day_number(self.today);
        let last_n = day_number(last);
        now_n - last_n
    }

    /// Reviews the entry under review: reschedules its direction by the
    /// user's override (or the doubled default with the given jitter),
    /// counts the review, remembers a zero-day reschedule, and returns the
    /// positional write that persists the updated record — with exactly as
    /// many bytes as the record's previous encoding, so the write can
    /// replace the old line in place.
    pub fn apply_review(&mut self, ovr: Option<i64>, jitter: i64) -> (r: Result<
        PersistCmd,
        ReviewError,
    >)
        requires
            old(self).wf(),
            old(self).state is RoundActive,
            old(self).pos < old(self).queue@.len(),
            0 <= jitter <= 2,
            old(self).num_reviews < u64::MAX,
        ensures
            final(self).wf(),
            (ovr == Some(0i64) ==> r.is_ok()),
            ({
                let e = old(self).queue@[old(self).pos as int];
                let oldrec = old(self).records@[e.index as int]@;
                let tgt = target_day(
                    old(self).today,
                    last_of(oldrec.card, e.direction),
                    ovr,
                    jitter as int,
                );
                match r {
                    Ok(cmd) => {
                        let newrec = final(self).records@[e.index as int]@;
                        &&& DAY_MIN <= tgt <= DAY_MAX
                        &&& newrec.byte_offset == oldrec.byte_offset
                        &&& newrec.card == with_schedule(
                            oldrec.card,
                            e.direction,
                            old(self).today,
                            next_of(newrec.card, e.direction),
                        )
                        &&& day_of(next_of(newrec.card, e.direction)) == tgt
                        &&& in_store_range(next_of(newrec.card, e.direction))
                        &&& (ovr == Some(0i64) ==> next_of(newrec.card, e.direction)
                            == old(self).today)
                        &&& final(self).records@.len() == old(self).records@.len()
                        &&& (forall|i: int|
                            0 <= i < old(self).records@.len() && i != e.index
                                ==> final(self).records@[i] == old(self).records@[i])
                        &&& cmd.byte_offset == oldrec.byte_offset
                        &&& cmd.bytes@ == spec_encode(newrec.card)
                        &&& cmd.bytes@.len() == spec_encode(oldrec.card).len()
                        &&& final(self).pos == old(self).pos + 1
                        &&& final(self).num_reviews == old(self).num_reviews + 1
                        &&& final(self).rescheduled == (old(self).rescheduled
                            || ovr == Some(0i64))
                        &&& final(self).queue@ == old(self).queue@
                        &&& final(self).state is RoundActive
                        &&& final(self).round == old(self).round
                        &&& final(self).num_cards == old(self).num_cards
                        &&& final(self).today == old(self).today
                    },
                    Err(err) => {
                        &&& !(DAY_MIN <= tgt <= DAY_MAX)
                        &&& err == ReviewError::DateOutOfRange
                        &&& *final(self) == *old(self)
                    },
                }
            }),
    {
        let e = *self.queue.get(self.pos).unwrap();
        let old_rec = self.records.get(e.index).unwrap();
        let view = old_rec.card.direction_view(e.direction);
        let offset = old_rec.byte_offset;
        match compute_next(self.today, view.last_review, ovr, jitter) {
            Ok((next, zero)) => {
                let src = self.records.get(e.index).unwrap();
                let mut new_card = Card {
                    front: src.card.front.clone(),
                    back: src.card.back.clone(),
                    last_forward_review: src.card.last_forward_review,
                    next_forward_review: src.card.next_forward_review,
                    last_backward_review: src.card.last_backward_review,
                    next_backward_review: src.card.next_backward_review,
                };
                new_card.set_schedule(e.direction, self.today, next);
                let new_rec = Record { byte_offset: offset, card: new_card };
                proof {
                    crate::codec::lemma_encode_len(old(self).records@[e.index as int]@.card);
                    crate::codec::lemma_encode_len(new_rec.card@);
                }
                let cmd = crate::persist::update_record(&new_rec);
                self.records[e.index] = new_rec;
                self.pos = self.pos + 1;
                self.num_reviews = self.num_reviews + 1;
                if zero {
                    self.rescheduled = true;
                }
                Ok(cmd)
            },
            Err(err) => Err(err),
        }
    }

    /// Closes the current round once all its entries are reviewed.  If any
    /// review of the round chose a zero-day interval, the next round opens
    /// over the freshly recomputed due set (which reflects every reschedule
    /// of this round); otherwise the session completes.  Returns whether a
    /// further round follows.
    pub fn finish_round(&mut self) -> (more: bool)
        requires
            old(self).wf(),
            old(self).state is RoundActive,
            old(self).pos == old(self).queue@.len(),
            old(self).round < u64::MAX,
        ensures
            final(self).wf(),
            final(self).records@ == old(self).records@,
            final(self).today == old(self).today,
            final(self).num_reviews == old(self).num_reviews,
            final(self).num_cards == old(self).num_cards,
            !old(self).rescheduled ==> !more && final(self).state is Complete,
            old(self).rescheduled ==> {
                let due = old(self).session_due();
                &&& (due.len() == 0 ==> !more && final(self).state is Complete)
                &&& (due.len() > 0 ==> {
                    &&& more
                    &&& final(self).state is RoundActive
                    &&& final(self).round == old(self).round + 1
                    &&& final(self).pos == 0
                    &&& final(self).rescheduled == false
                    &&& final(self).queue@.to_multiset() == due.to_multiset()
                })
            },
    {
        if !self.rescheduled {
            self.state = SessionState::Complete;
            return false;
        }
        let mut q = collect_due_card_indices(&self.records, self.today);
        if q.len() == 0 {
            self.state = SessionState::Complete;
            return false;
        }
        let ghost due = self.session_due();
        shuffle_entries(&mut q);
        proof {
            broadcast use vstd::seq_lib::group_to_multiset_ensures;

            lemma_due_entries_indices(records_model(self.records@), self.today);
            assert forall|k: int| 0 <= k < q@.len() implies (#[trigger] q@[k]).index
                < self.records@.len() by {
                let e = q@[k];
                assert(q@.contains(e));
                assert(due.to_multiset().count(e) > 0);
                assert(due.contains(e));
                let k0 = choose|k0: int| 0 <= k0 < due.len() && due[k0] == e;
            };
        }
        self.queue = q;
        self.pos = 0;
        self.round = self.round + 1;
        self.rescheduled = false;
        self.state = SessionState::RoundActive;
        true
    }

    /// Whether the session has finished.
    pub fn is_complete(&self) -> (r: bool)
        ensures
            r == (self.state is Complete),
    {
        match self.state {
            SessionState::Complete => true,
            _ => false,
        }
    }

    /// How many entries the current round holds.
    pub fn round_size(&self) -> (r: usize)
        ensures
            r == self.queue@.len(),
    {
        self.queue.len()
    }
}

} // verus!
