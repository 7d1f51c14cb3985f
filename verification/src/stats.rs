//! Interval statistics over the whole store.
//!
//! Every schedule pair of every card contributes its latest review
//! interval — the days between its last and next review — to one of seven
//! buckets, from "due the same day" up to "a year or more out".  The
//! rendering of the table is left to the caller; here live the counts and
//! the fold over the store.

use crate::dates::{day_number, day_of};
use crate::models::RecordModel;
use crate::review::records_model;
use crate::store::{scan_records, spec_scan_store, StoreError};
use vstd::prelude::*;

verus! {

/// How many schedule pairs fall in each latest-interval bucket.
#[derive(Clone, Copy, PartialEq, Eq, Structural, Debug)]
pub struct Counts {
    /// Interval of exactly zero days: due again the same day.
    pub today: u64,
    /// Exactly one day.
    pub day: u64,
    /// Under a week.
    pub week: u64,
    /// Under a month.
    pub month: u64,
    /// Under a quarter.
    pub quarter: u64,
    /// Under a year.
    pub year: u64,
    /// A year or more — or a negative (overdue-reversed) interval.
    pub more: u64,
}

/// The sum of all buckets.
pub open spec fn spec_total(c: Counts) -> int {
    c.today + c.day + c.week + c.month + c.quarter + c.year + c.more
}

/// The counts with the bucket for an interval of `days` raised by one.
pub open spec fn spec_bumped(c: Counts, days: int) -> Counts {
    if days == 0 {
        Counts { today: (c.today + 1) as u64, ..c }
    } else if days == 1 {
        Counts { day: (c.day + 1) as u64, ..c }
    } else if 2 <= days < 7 {
        Counts { week: (c.week + 1) as u64, ..c }
    } else if 7 <= days < 30 {
        Counts { month: (c.month + 1) as u64, ..c }
    } else if 30 <= days < 90 {
        Counts { quarter: (c.quarter + 1) as u64, ..c }
    } else if 90 <= days < 365 {
        Counts { year: (c.year + 1) as u64, ..c }
    } else {
        Counts { more: (c.more + 1) as u64, ..c }
    }
}

/// All buckets empty.
pub open spec fn spec_zero_counts() -> Counts {
    Counts { today: 0, day: 0, week: 0, month: 0, quarter: 0, year: 0, more: 0 }
}

impl Default for Counts {
    /// The empty statistic: every bucket at zero.
    fn default() -> (r: Counts)
        ensures
            r == spec_zero_counts(),
    {
        Counts { today: 0, day: 0, week: 0, month: 0, quarter: 0, year: 0, more: 0 }
    }
}

impl Counts {
    /// Raises the bucket that the interval of `days` falls in.
    pub fn increment_count(&mut self, days: i64)
        requires
            spec_total(*old(self)) < u64::MAX,
        ensures
            *final(self) == spec_bumped(*old(self), days as int),
            spec_total(*final(self)) == spec_total(*old(self)) + 1,
    {
        if days == 0 {
            self.today = self.today + 1;
        } else if days == 1 {
            self.day = self.day + 1;
        } else if 2 <= days && days < 7 {
            self.week = self.week + 1;
        } else if 7 <= days && days < 30 {
            self.month = self.month + 1;
        } else if 30 <= days && days < 90 {
            self.quarter = self.quarter + 1;
        } else if 90 <= days && days < 365 {
            self.year = self.year + 1;
        } else {
            self.more = self.more + 1;
        }
    }

    /// The number of schedule pairs counted so far.
    pub fn total(&self) -> (r: u64)
        requires
            spec_total(*self) <= u64::MAX,
        ensures
            r as int == spec_total(*self),
    {
        self.today + self.day + self.week + self.month + self.quarter + self.year + self.more
    }
}

/// The latest forward-review interval of a card, in days.
pub open spec fn forward_interval(rm: RecordModel) -> int {
    day_of(rm.card.next_forward_review) - day_of(rm.card.last_forward_review)
}

/// The latest backward-review interval of a card, in days.
pub open spec fn backward_interval(rm: RecordModel) -> int {
    day_of(rm.card.next_backward_review) - day_of(rm.card.last_backward_review)
}

/// The statistic of a record sequence: each record's forward interval,
/// then its backward interval, folded into the buckets.
pub open spec fn spec_stats(records: Seq<RecordModel>) -> Counts
    decreases records.len(),
{
    if records.len() == 0 {
        spec_zero_counts()
    } else {
        spec_bumped(
            spec_bumped(spec_stats(records.drop_last()), forward_interval(records.last())),
            backward_interval(records.last()),
        )
    }
}

/// Statistics over the whole store: every record's two schedule pairs
/// counted into the interval buckets.  Fails exactly when some stored
/// line is malformed.
#[verifier::rlimit(100)]
#[verifier::loop_isolation(false)]
pub fn stats(bytes: &Vec<u8>) -> (r: Result<Counts, StoreError>)
    ensures
        r.is_ok() <==> spec_scan_store(bytes@) is Some,
        (r matches Ok(c) ==> {
            &&& c == spec_stats(spec_scan_store(bytes@)->Some_0)
            &&& spec_total(c) <= u64::MAX
        }),
        (r matches Err(e) ==> e matches StoreError::Decode { line } && line as int == 2
            + crate::store::spec_scan_store_count(bytes@)),
{
    let all = match scan_records(bytes) {
        Ok(v) => v,
        Err(e) => {
            return Err(e);
        },
    };
    let ghost m = records_model(all@);
    let blen = bytes.len();
    let mut counts = Counts::default();
    let mut i = 0usize;
    while i < all.len()
        invariant
            i <= all.len(),
            m == records_model(all@),
            46 * all@.len() <= bytes@.len(),
            counts == spec_stats(m.subrange(0, i as int)),
            spec_total(counts) == 2 * i,
        decreases all.len() - i,
    {
        proof {
            assert(46 * all@.len() <= blen as int);
            assert(2 * (i as int) + 2 <= 46 * all@.len());
            assert(spec_total(counts) + 2 <= u64::MAX);
        }
        let rec = all.get(i).unwrap();
        let fdiff = day_number(rec.card.next_forward_review) - day_number(
            rec.card.last_forward_review,
        );
        let bdiff = day_number(rec.card.next_backward_review) - day_number(
            rec.card.last_backward_review,
        );
        counts.increment_count(fdiff);
        counts.increment_count(bdiff);
        proof {
            let pre = m.subrange(0, i as int);
            let post = m.subrange(0, i + 1);
            assert(post.drop_last() =~= pre);
            assert(post.last() == m[i as int]);
        }
        i = i + 1;
    }
    proof {
        assert(m.subrange(0, all@.len() as int) =~= m);
    }
    Ok(counts)
}

} // verus!
