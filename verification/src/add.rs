//! Adding new cards, with duplicate detection.
//!
//! Both sides of every card must be unique across the store: a front that
//! already exists would make a prompt ambiguous, a back that already
//! exists would make an answer ambiguous.  Two lookup tables — front text
//! to file line, back text to file line — are built from the store once,
//! then extended as cards are added, so a duplicate within the same
//! sitting is caught too.  A new card starts with every schedule date set
//! to today.

use crate::codec::{spec_encode, text_ok, text_ok_exec, valid_card, encode_card};
use crate::dates::{in_store_range, Date};
use crate::models::{Card, CardModel, RecordModel};
use crate::review::records_model;
use crate::store::{scan_records, spec_scan_store, StoreError};
use vstd::prelude::*;

verus! {

/// Why a card could not be added, or a store not be indexed.
#[derive(Clone, Copy, PartialEq, Eq, Structural, Debug)]
pub enum AddError {
    /// The store itself does not scan.
    Store(StoreError),
    /// Two stored cards share a front side: the line found now and the
    /// earlier line it collides with.
    StoreDuplicateFront { line: u64, prior: u64 },
    /// Two stored cards share a back side.
    StoreDuplicateBack { line: u64, prior: u64 },
    /// The new card's front side already exists, at this file line.
    DuplicateFront { line: u64 },
    /// The new card's back side already exists, at this file line.
    DuplicateBack { line: u64 },
    /// A side holds a byte the store cannot carry in a text field.
    InvalidText,
}

/// One lookup-table entry: a text side and the file line it lives on.
#[derive(Clone, PartialEq, Eq, Debug)]
pub struct TableEntry {
    pub text: Vec<u8>,
    pub line: u64,
}

/// Mathematical view of a table entry.
#[verifier::ext_equal]
pub ghost struct TableEntryModel {
    pub text: Seq<u8>,
    pub line: u64,
}

impl View for TableEntry {
    type V = TableEntryModel;

    open spec fn view(&self) -> TableEntryModel {
        TableEntryModel { text: self.text@, line: self.line }
    }
}

/// Mathematical view of a lookup table.
pub open spec fn table_model(t: Seq<TableEntry>) -> Seq<TableEntryModel> {
    t.map_values(|e: TableEntry| e@)
}

/// The line number of the first entry holding this text, if any.
pub open spec fn spec_lookup(entries: Seq<TableEntryModel>, key: Seq<u8>) -> Option<u64>
    decreases entries.len(),
{
    if entries.len() == 0 {
        None
    } else if entries.first().text == key {
        Some(entries.first().line)
    } else {
        spec_lookup(entries.drop_first(), key)
    }
}

/// Whether two byte vectors hold the same bytes.
pub fn bytes_eq(a: &Vec<u8>, b: &Vec<u8>) -> (r: bool)
    ensures
        r == (a@ == b@),
{
    if a.len() != b.len() {
        return false;
    }
    let mut i = 0usize;
    while i < a.len()
        invariant
            i <= a.len(),
            a@.len() == b@.len(),
            forall|j: int| 0 <= j < i ==> a@[j] == b@[j],
        decreases a.len() - i,
    {
        if *a.get(i).unwrap() != *b.get(i).unwrap() {
            return false;
        }
        i = i + 1;
    }
    proof {
        assert(a@ =~= b@);
    }
    true
}

/// The first table line holding this text, scanning in insertion order.
pub fn lookup_line(t: &Vec<TableEntry>, key: &Vec<u8>) -> (r: Option<u64>)
    ensures
        r == spec_lookup(table_model(t@), key@),
{
    let ghost m = table_model(t@);
    proof {
        assert(m.skip(0) =~= m);
    }
    let mut i = 0usize;
    while i < t.len()
        invariant
            i <= t.len(),
            m == table_model(t@),
            spec_lookup(m, key@) == spec_lookup(m.skip(i as int), key@),
        decreases t.len() - i,
    {
        proof {
            assert(m.skip(i as int).first() == m[i as int]);
            assert(m.skip(i as int).drop_first() =~= m.skip(i + 1));
        }
        if bytes_eq(&t.get(i).unwrap().text, key) {
            return Some(t.get(i).unwrap().line);
        }
        i = i + 1;
    }
    proof {
        assert(m.skip(t@.len() as int) =~= Seq::<TableEntryModel>::empty());
    }
    None
}

/// The front and back lookup tables that indexing a record sequence
/// yields: each card's sides at its file line (the header is line one, the
/// first card line two), or the first duplicate found.
pub open spec fn spec_build_tables(
    records: Seq<RecordModel>,
    fwd: Seq<TableEntryModel>,
    bwd: Seq<TableEntryModel>,
    line: int,
) -> Result<(Seq<TableEntryModel>, Seq<TableEntryModel>), AddError>
    decreases records.len(),
{
    if records.len() == 0 {
        Ok((fwd, bwd))
    } else {
        let c = records.first().card;
        match spec_lookup(fwd, c.front) {
            Some(j) => Err(AddError::StoreDuplicateFront { line: line as u64, prior: j }),
            None => match spec_lookup(bwd, c.back) {
                Some(j) => Err(AddError::StoreDuplicateBack { line: line as u64, prior: j }),
                None => spec_build_tables(
                    records.drop_first(),
                    fwd.push(TableEntryModel { text: c.front, line: line as u64 }),
                    bwd.push(TableEntryModel { text: c.back, line: line as u64 }),
                    line + 1,
                ),
            },
        }
    }
}

/// Scans the store and indexes every card's front and back side by its
/// file line.  Fails on a store that does not scan, and on the first pair
/// of cards sharing a side.
#[verifier::rlimit(100)]
#[verifier::loop_isolation(false)]
pub fn build_lookup_tables(bytes: &Vec<u8>) -> (r: Result<
    (Vec<TableEntry>, Vec<TableEntry>),
    AddError,
>)
    ensures
        (spec_scan_store(bytes@) is None ==> (r matches Err(e) && e matches AddError::Store(inner)
            && inner matches StoreError::Decode { line } && line as int == 2
            + crate::store::spec_scan_store_count(bytes@))),
        (spec_scan_store(bytes@) matches Some(all) ==> (match spec_build_tables(
            all,
            Seq::empty(),
            Seq::empty(),
            2,
        ) {
            Ok(t) => (r matches Ok(v) && table_model(v.0@) == t.0 && table_model(v.1@) == t.1),
            Err(e) => r == Err::<(Vec<TableEntry>, Vec<TableEntry>), AddError>(e),
        })),
{
    let all = match scan_records(bytes) {
        Ok(v) => v,
        Err(e) => {
            return Err(AddError::Store(e));
        },
    };
    let ghost m = records_model(all@);
    let blen = bytes.len();
    let mut fwd: Vec<TableEntry> = Vec::new();
    let mut bwd: Vec<TableEntry> = Vec::new();
    proof {
        assert(m.skip(0) =~= m);
        assert(table_model(fwd@) =~= Seq::<TableEntryModel>::empty());
        assert(table_model(bwd@) =~= Seq::<TableEntryModel>::empty());
    }
    let mut i = 0usize;
    while i < all.len()
        invariant
            i <= all.len(),
            m == records_model(all@),
            46 * all@.len() <= blen as int,
            spec_build_tables(m, Seq::empty(), Seq::empty(), 2) == spec_build_tables(
                m.skip(i as int),
                table_model(fwd@),
                table_model(bwd@),
                i + 2,
            ),
        decreases all.len() - i,
    {
        proof {
            assert(m.skip(i as int).first() == m[i as int]);
            assert(m.skip(i as int).drop_first() =~= m.skip(i + 1));
        }
        let rec = all.get(i).unwrap();
        let line = (i as u64) + 2;
        proof {
            assert(i + 2 <= 46 * all@.len());
        }
        match lookup_line(&fwd, &rec.card.front) {
            Some(j) => {
                return Err(AddError::StoreDuplicateFront { line, prior: j });
            },
            None => {},
        }
        match lookup_line(&bwd, &rec.card.back) {
            Some(j) => {
                return Err(AddError::StoreDuplicateBack { line, prior: j });
            },
            None => {},
        }
        let ghost fm = table_model(fwd@);
        let ghost bm = table_model(bwd@);
        fwd.push(TableEntry { text: rec.card.front.clone(), line });
        bwd.push(TableEntry { text: rec.card.back.clone(), line });
        proof {
            assert(table_model(fwd@) =~= fm.push(
                (TableEntryModel { text: m[i as int].card.front, line }),
            ));
            assert(table_model(bwd@) =~= bm.push(
                (TableEntryModel { text: m[i as int].card.back, line }),
            ));
        }
        i = i + 1;
    }
    proof {
        assert(m.skip(m.len() as int) =~= Seq::<RecordModel>::empty());
    }
    Ok((fwd, bwd))
}

/// An interactive add sitting: the two lookup tables, extended card by
/// card, and today's date, which every new card starts scheduled at.
pub struct AddSession {
    pub forward: Vec<TableEntry>,
    pub backward: Vec<TableEntry>,
    pub now: Date,
}

impl AddSession {
    /// The session's date is storable.
    pub open spec fn wf(self) -> bool {
        in_store_range(self.now)
    }

    /// A sitting over existing lookup tables.
    pub fn new(forward: Vec<TableEntry>, backward: Vec<TableEntry>, now: Date) -> (s: AddSession)
        requires
            in_store_range(now),
        ensures
            s.wf(),
            s.forward@ == forward@,
            s.backward@ == backward@,
            s.now == now,
    {
        AddSession { forward, backward, now }
    }

    /// The file line already holding this front side, if any.
    pub fn lookup_front(&self, front: &Vec<u8>) -> (r: Option<u64>)
        ensures
            r == spec_lookup(table_model(self.forward@), front@),
    {
        lookup_line(&self.forward, front)
    }

    /// The file line already holding this back side, if any.
    pub fn lookup_back(&self, back: &Vec<u8>) -> (r: Option<u64>)
        ensures
            r == spec_lookup(table_model(self.backward@), back@),
    {
        lookup_line(&self.backward, back)
    }

    /// Adds one card: both sides must be storable texts and new to their
    /// tables.  Returns the encoded line to append to the store — the new
    /// card scheduled entirely at today — and indexes both sides at the
    /// next file line.  A rejected card leaves the sitting unchanged.
    pub fn add_card(&mut self, front: &Vec<u8>, back: &Vec<u8>) -> (r: Result<Vec<u8>, AddError>)
        requires
            old(self).wf(),
            old(self).forward@.len() + 2 <= u64::MAX,
            old(self).backward@.len() + 2 <= u64::MAX,
        ensures
            final(self).wf(),
            final(self).now == old(self).now,
            (!(text_ok(front@) && text_ok(back@)) ==> r == Err::<Vec<u8>, AddError>(
                AddError::InvalidText,
            ) && *final(self) == *old(self)),
            (text_ok(front@) && text_ok(back@) ==> (match spec_lookup(
                table_model(old(self).forward@),
                front@,
            ) {
                Some(j) => r == Err::<Vec<u8>, AddError>(AddError::DuplicateFront { line: j })
                    && *final(self) == *old(self),
                None => (match spec_lookup(table_model(old(self).backward@), back@) {
                    Some(j) => r == Err::<Vec<u8>, AddError>(AddError::DuplicateBack { line: j })
                        && *final(self) == *old(self),
                    None => {
                        &&& (r matches Ok(line) && line@ == spec_encode(
                            (CardModel {
                                front: front@,
                                back: back@,
                                last_forward_review: old(self).now,
                                next_forward_review: old(self).now,
                                last_backward_review: old(self).now,
                                next_backward_review: old(self).now,
                            }),
                        ))
                        &&& table_model(final(self).forward@) == table_model(
                            old(self).forward@,
                        ).push(
                            (TableEntryModel {
                                text: front@,
                                line: (old(self).forward@.len() + 2) as u64,
                            }),
                        )
                        &&& table_model(final(self).backward@) == table_model(
                            old(self).backward@,
                        ).push(
                            (TableEntryModel {
                                text: back@,
                                line: (old(self).backward@.len() + 2) as u64,
                            }),
                        )
                    },
                }),
            })),
    {
        if !text_ok_exec(front) || !text_ok_exec(back) {
            return Err(AddError::InvalidText);
        }
        match self.lookup_front(front) {
            Some(j) => {
                return Err(AddError::DuplicateFront { line: j });
            },
            None => {},
        }
        match self.lookup_back(back) {
            Some(j) => {
                return Err(AddError::DuplicateBack { line: j });
            },
            None => {},
        }
        let card = Card {
            front: front.clone(),
            back: back.clone(),
            last_forward_review: self.now,
            next_forward_review: self.now,
            last_backward_review: self.now,
            next_backward_review: self.now,
        };
        let line = encode_card(&card);
        let fline = (self.forward.len() as u64) + 2;
        let bline = (self.backward.len() as u64) + 2;
        self.forward.push(TableEntry { text: front.clone(), line: fline });
        self.backward.push(TableEntry { text: back.clone(), line: bline });
        proof {
            assert(table_model(self.forward@) =~= table_model(old(self).forward@).push(
                (TableEntryModel { text: front@, line: fline }),
            ));
            assert(table_model(self.backward@) =~= table_model(old(self).backward@).push(
                (TableEntryModel { text: back@, line: bline }),
            ));
        }
        Ok(line)
    }
}

} // verus!
