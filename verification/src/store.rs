//! Scanning the backing store: every line decoded, its byte offset kept.
//!
//! The store file is one header line followed by one encoded card per
//! line.  A scan walks the bytes once, remembers where each line begins,
//! decodes every record, and fails on the first malformed line — a
//! malformed store must never silently lose cards.  The due-set collector
//! keeps, in file order, exactly the records with at least one due
//! direction.

use crate::codec::{find_byte, find_byte_exec, decode_line, lemma_find_byte, spec_decode,
    spec_encode, valid_card, copy_range, lemma_decode_then_encode, NL};
use crate::dates::Date;
use crate::models::{is_due, Direction, Record, RecordModel};
use crate::review::records_model;
use vstd::prelude::*;

verus! {

/// Why a scan failed: some stored line does not decode.  The line number
/// counts from the top of the file, the header being line one.
#[derive(Clone, Copy, PartialEq, Eq, Structural, Debug)]
pub enum StoreError {
    /// The stored line with this (one-based) file line number is malformed.
    Decode { line: u64 },
}

/// The records encoded from `pos` to the end of the store, each paired
/// with the byte offset its line begins at, or nothing if some line
/// (including an unterminated final one) does not decode.
pub open spec fn spec_scan(bytes: Seq<u8>, pos: int) -> Option<Seq<RecordModel>>
    decreases bytes.len() - pos,
        via spec_scan_decreases
{
    if pos < 0 || pos >= bytes.len() {
        Some(Seq::empty())
    } else {
        let nl = find_byte(bytes, NL, pos);
        if nl >= bytes.len() {
            None
        } else {
            match spec_decode(bytes.subrange(pos, nl + 1)) {
                None => None,
                Some(c) => match spec_scan(bytes, nl + 1) {
                    None => None,
                    Some(rest) => Some(
                        seq![RecordModel { byte_offset: pos as u64, card: c }] + rest,
                    ),
                },
            }
        }
    }
}

#[via_fn]
proof fn spec_scan_decreases(bytes: Seq<u8>, pos: int) {
    if 0 <= pos < bytes.len() {
        lemma_find_byte(bytes, NL, pos);
    }
}

/// How many lines, from `pos` on, decode before the scan first stops —
/// whether at a malformed line, an unterminated one, or the file's end.
pub open spec fn spec_scan_count(bytes: Seq<u8>, pos: int) -> int
    decreases bytes.len() - pos,
        via spec_scan_count_decreases
{
    if pos < 0 || pos >= bytes.len() {
        0
    } else {
        let nl = find_byte(bytes, NL, pos);
        if nl >= bytes.len() {
            0
        } else {
            match spec_decode(bytes.subrange(pos, nl + 1)) {
                None => 0,
                Some(c) => 1 + spec_scan_count(bytes, nl + 1),
            }
        }
    }
}

#[via_fn]
proof fn spec_scan_count_decreases(bytes: Seq<u8>, pos: int) {
    if 0 <= pos < bytes.len() {
        lemma_find_byte(bytes, NL, pos);
    }
}

/// How many lines of the whole store decode before the scan first stops.
pub open spec fn spec_scan_store_count(bytes: Seq<u8>) -> int {
    let h = find_byte(bytes, NL, 0);
    if h >= bytes.len() {
        0
    } else {
        spec_scan_count(bytes, h + 1)
    }
}

/// The records of a whole store file: everything after the header line.
/// A file with no line break holds no records at all.
pub open spec fn spec_scan_store(bytes: Seq<u8>) -> Option<Seq<RecordModel>> {
    let h = find_byte(bytes, NL, 0);
    if h >= bytes.len() {
        Some(Seq::empty())
    } else {
        spec_scan(bytes, h + 1)
    }
}

/// A record is due when either of its directions is.
pub open spec fn due_any(rm: RecordModel, today: Date) -> bool {
    is_due(rm.card, Direction::Forward, today) || is_due(rm.card, Direction::Backward, today)
}

/// The subsequence of records with at least one due direction, in their
/// original order.
pub open spec fn due_records(all: Seq<RecordModel>, today: Date) -> Seq<RecordModel>
    decreases all.len(),
{
    if all.len() == 0 {
        Seq::empty()
    } else {
        due_records(all.drop_last(), today) + (if due_any(all.last(), today) {
            seq![all.last()]
        } else {
            Seq::empty()
        })
    }
}

/// The record's line is stored at its byte offset: the bytes there are
/// exactly the record's encoding.  This is what makes a later in-place
/// rewrite of the same length safe.
pub open spec fn record_matches_store(bytes: Seq<u8>, rm: RecordModel) -> bool {
    &&& rm.byte_offset + spec_encode(rm.card).len() <= bytes.len()
    &&& spec_encode(rm.card) == bytes.subrange(
        rm.byte_offset as int,
        rm.byte_offset + spec_encode(rm.card).len(),
    )
}

/// Prepending already-scanned records to a scan outcome.
pub open spec fn scan_prepend(done: Seq<RecordModel>, rest: Option<Seq<RecordModel>>) -> Option<
    Seq<RecordModel>,
> {
    match rest {
        None => None,
        Some(r) => Some(done + r),
    }
}

/// Decodes every record of the store, in file order, with its byte
/// offset.  Succeeds exactly when every stored line decodes; the error
/// names the first malformed line.  Every returned record is a storable
/// card whose encoding sits verbatim at its byte offset.
#[verifier::rlimit(100)]
#[verifier::loop_isolation(false)]
pub fn scan_records(bytes: &Vec<u8>) -> (r: Result<Vec<Record>, StoreError>)
    ensures
        r.is_ok() <==> spec_scan_store(bytes@) is Some,
        (r matches Ok(v) ==> {
            &&& Some(records_model(v@)) == spec_scan_store(bytes@)
            &&& 46 * v@.len() <= bytes@.len()
            &&& forall|i: int|
                0 <= i < v@.len() ==> valid_card((#[trigger] v@[i])@.card)
            &&& forall|i: int|
                0 <= i < v@.len() ==> record_matches_store(bytes@, (#[trigger] v@[i])@)
        }),
        (r matches Err(e) ==> e matches StoreError::Decode { line } && line as int == 2
            + spec_scan_store_count(bytes@)),
{
    let header_end = find_byte_exec(bytes, NL, 0);
    proof {
        lemma_find_byte(bytes@, NL, 0);
    }
    if header_end == bytes.len() {
        return Ok(Vec::new());
    }
    let mut pos = header_end + 1;
    let mut out: Vec<Record> = Vec::new();
    let ghost start = pos as int;
    loop
        invariant
            header_end < bytes.len(),
            header_end < pos <= bytes.len(),
            spec_scan(bytes@, start) == scan_prepend(records_model(out@), spec_scan(bytes@, pos as int)),
            spec_scan_count(bytes@, start) == out@.len() + spec_scan_count(bytes@, pos as int),
            forall|i: int| 0 <= i < out@.len() ==> valid_card((#[trigger] out@[i])@.card),
            forall|i: int|
                0 <= i < out@.len() ==> record_matches_store(bytes@, (#[trigger] out@[i])@),
            46 * out@.len() <= pos as int,
        decreases bytes.len() - pos,
    {
        if pos == bytes.len() {
            proof {
                assert(records_model(out@) + Seq::<RecordModel>::empty() =~= records_model(out@));
            }
            return Ok(out);
        }
        let nl = find_byte_exec(bytes, NL, pos);
        proof {
            lemma_find_byte(bytes@, NL, pos as int);
        }
        if nl == bytes.len() {
            proof {
                assert(out@.len() + 2 <= usize::MAX);
            }
            return Err(StoreError::Decode { line: (out.len() + 2) as u64 });
        }
        let line = copy_range(bytes, pos, nl + 1);
        match decode_line(&line) {
            None => {
                proof {
                    assert(out@.len() + 2 <= usize::MAX);
                }
                return Err(StoreError::Decode { line: (out.len() + 2) as u64 });
            },
            Some(card) => {
                proof {
                    lemma_decode_then_encode(line@);
                }
                let rec = Record { byte_offset: pos as u64, card };
                proof {
                    let rm = rec@;
                    assert(spec_encode(rm.card) == bytes@.subrange(pos as int, nl + 1));
                    assert(record_matches_store(bytes@, rm));
                    let rest = spec_scan(bytes@, pos as int);
                    let rest2 = spec_scan(bytes@, nl + 1);
                    assert(rest == scan_prepend(seq![rm], rest2));
                    assert(records_model(out@.push(rec)) =~= records_model(out@) + seq![rm]);
                    if rest2 is Some {
                        assert(records_model(out@) + (seq![rm] + rest2->Some_0) =~= (
                        records_model(out@) + seq![rm]) + rest2->Some_0);
                    }
                }
                out.push(rec);
                pos = nl + 1;
            },
        }
    }
}

/// Scans the store and keeps, in file order, exactly the records with at
/// least one direction due today.  Fails exactly when some stored line is
/// malformed: a broken store aborts the session rather than losing cards.
#[verifier::rlimit(100)]
#[verifier::loop_isolation(false)]
pub fn collect_due_cards(bytes: &Vec<u8>, today: Date) -> (r: Result<Vec<Record>, StoreError>)
    ensures
        r.is_ok() <==> spec_scan_store(bytes@) is Some,
        (r matches Ok(v) ==> {
            &&& records_model(v@) == due_records(spec_scan_store(bytes@)->Some_0, today)
            &&& forall|i: int|
                0 <= i < v@.len() ==> valid_card((#[trigger] v@[i])@.card)
            &&& forall|i: int|
                0 <= i < v@.len() ==> record_matches_store(bytes@, (#[trigger] v@[i])@)
        }),
        (r matches Err(e) ==> e matches StoreError::Decode { line } && line as int == 2
            + spec_scan_store_count(bytes@)),
{
    let all = match scan_records(bytes) {
        Ok(v) => v,
        Err(e) => {
            return Err(e);
        },
    };
    let ghost m = records_model(all@);
    let mut out: Vec<Record> = Vec::new();
    let mut i = 0usize;
    while i < all.len()
        invariant
            i <= all.len(),
            records_model(out@) == due_records(m.subrange(0, i as int), today),
            forall|k: int| 0 <= k < out@.len() ==> valid_card((#[trigger] out@[k])@.card),
            forall|k: int|
                0 <= k < out@.len() ==> record_matches_store(bytes@, (#[trigger] out@[k])@),
        decreases all.len() - i,
    {
        let rec = all.get(i).unwrap();
        let due_f = crate::dates::date_le_exec(rec.card.next_forward_review, today);
        let due_b = crate::dates::date_le_exec(rec.card.next_backward_review, today);
        proof {
            let pre = m.subrange(0, i as int);
            let post = m.subrange(0, i + 1);
            assert(post.drop_last() =~= pre);
            assert(post.last() == m[i as int]);
        }
        if due_f || due_b {
            let copy = Record {
                byte_offset: rec.byte_offset,
                card: crate::models::Card {
                    front: rec.card.front.clone(),
                    back: rec.card.back.clone(),
                    last_forward_review: rec.card.last_forward_review,
                    next_forward_review: rec.card.next_forward_review,
                    last_backward_review: rec.card.last_backward_review,
                    next_backward_review: rec.card.next_backward_review,
                },
            };
            proof {
                assert(copy@ =~= m[i as int]);
            }
            out.push(copy);
            proof {
                assert(records_model(out@) =~= due_records(m.subrange(0, i + 1), today));
            }
        } else {
            proof {
                assert(records_model(out@) =~= due_records(m.subrange(0, i + 1), today));
            }
        }
        i = i + 1;
    }
    proof {
        assert(m.subrange(0, all@.len() as int) =~= m);
    }
    Ok(out)
}

} // verus!
