//! The record persister's computational half: the positional write command.
//!
//! Persisting a reviewed record means seeking to its byte offset in the
//! backing file and overwriting its line in place, blindly, without
//! touching anything after it.  That is only safe because a card's encoded
//! length depends on nothing but its immutable texts (the codec renders
//! every date at the same fixed width), so a rewrite that changed only
//! dates writes exactly as many bytes as the line it replaces.  The actual
//! seek and write are I/O and live with the caller; this module computes
//! what to write and where.

use crate::codec::{encode_card, lemma_encode_len, spec_encode, valid_card};
use crate::models::{CardModel, Record, RecordModel};
use crate::store::record_matches_store;
use vstd::prelude::*;

verus! {

/// One positional write against the backing file: `bytes`, placed at
/// `byte_offset` from the start of the file.
#[derive(Clone, PartialEq, Eq, Debug)]
pub struct PersistCmd {
    pub byte_offset: u64,
    pub bytes: Vec<u8>,
}

/// Computes the in-place rewrite for a record: the record's line, encoded,
/// at the record's stored byte offset.  The byte count is a function of the
/// text lengths alone, so it equals the length of any encoding of the same
/// record with other (storable) dates — the stable-length guarantee the
/// blind overwrite relies on.
pub fn update_record(record: &Record) -> (cmd: PersistCmd)
    requires
        valid_card(record.card@),
    ensures
        cmd.byte_offset == record.byte_offset,
        cmd.bytes@ == spec_encode(record.card@),
        cmd.bytes@.len() == record.card@.front.len() + record.card@.back.len() + 46,
{
    proof {
        lemma_encode_len(record.card@);
    }
    PersistCmd { byte_offset: record.byte_offset, bytes: encode_card(&record.card) }
}

/// Rewriting a scanned record in place never changes the file's byte
/// length: as long as the texts are untouched, the new encoding is exactly
/// as long as the line it overwrites, and it stays inside the file.
pub proof fn lemma_rewrite_covers_old_line(bytes: Seq<u8>, rm: RecordModel, c2: CardModel)
    requires
        record_matches_store(bytes, rm),
        c2.front == rm.card.front,
        c2.back == rm.card.back,
    ensures
        spec_encode(c2).len() == spec_encode(rm.card).len(),
        rm.byte_offset + spec_encode(c2).len() <= bytes.len(),
{
    lemma_encode_len(rm.card);
    lemma_encode_len(c2);
}

} // verus!
