use vmn::codec::{encode_card, header_line};
use vmn::dates::Date;
use vmn::models::{Card, Direction, Record};
use vmn::persist::update_record;
use vmn::review::Session;
use vmn::stats::stats;
use vmn::store::{collect_due_cards, scan_records, StoreError};

fn d(year: i32, month: u8, day: u8) -> Date {
    Date { year, month, day }
}

fn card(front: &[u8], back: &[u8], lf: Date, nf: Date, lb: Date, nb: Date) -> Card {
    Card {
        front: front.to_vec(),
        back: back.to_vec(),
        last_forward_review: lf,
        next_forward_review: nf,
        last_backward_review: lb,
        next_backward_review: nb,
    }
}

fn store_of(cards: &[Card]) -> Vec<u8> {
    let mut bytes = header_line();
    for c in cards {
        bytes.extend_from_slice(&encode_card(c));
    }
    bytes
}

#[test]
fn scan_keeps_byte_offsets_in_file_order() {
    let past = d(2025, 5, 1);
    let today = d(2025, 5, 10);
    let c1 = card(b"aa", b"b", past, today, past, today);
    let c2 = card(b"c", b"dd", past, today, past, today);
    let bytes = store_of(&[c1.clone(), c2.clone()]);
    let records = scan_records(&bytes).unwrap();
    assert_eq!(records.len(), 2);
    let header_len = header_line().len() as u64;
    assert_eq!(records[0].byte_offset, header_len);
    assert_eq!(records[0].card, c1);
    let line1_len = encode_card(&c1).len() as u64;
    assert_eq!(records[1].byte_offset, header_len + line1_len);
    assert_eq!(records[1].card, c2);
}

#[test]
fn scan_fails_on_a_malformed_line() {
    let mut bytes = header_line();
    bytes.extend_from_slice(b"a|b|2025-05-08|2025-05-10|2025-05-09|2025-05-10\n");
    bytes.extend_from_slice(b"broken line\n");
    assert_eq!(
        scan_records(&bytes).unwrap_err(),
        StoreError::Decode { line: 3 }
    );
    // An unterminated final line is malformed too.
    let mut bytes2 = header_line();
    bytes2.extend_from_slice(b"a|b|2025-05-08|2025-05-10|2025-05-09|2025-05-10");
    assert_eq!(
        scan_records(&bytes2).unwrap_err(),
        StoreError::Decode { line: 2 }
    );
}

#[test]
fn scan_of_header_only_or_empty_store_is_empty() {
    assert_eq!(scan_records(&header_line()).unwrap(), vec![]);
    assert_eq!(scan_records(&Vec::new()).unwrap(), vec![]);
}

#[test]
fn collector_selects_records_due_in_either_direction() {
    let past = d(2025, 5, 1);
    let today = d(2025, 5, 10);
    let future = d(2025, 6, 1);
    let due_fwd = card(b"a", b"b", past, today, past, future);
    let due_bwd = card(b"c", b"d", past, future, past, past);
    let not_due = card(b"e", b"f", past, future, past, future);
    let bytes = store_of(&[due_fwd.clone(), not_due, due_bwd.clone()]);
    let selected = collect_due_cards(&bytes, today).unwrap();
    assert_eq!(selected.len(), 2);
    assert_eq!(selected[0].card, due_fwd);
    assert_eq!(selected[1].card, due_bwd);
}

#[test]
fn update_record_writes_the_same_number_of_bytes() {
    let past = d(2025, 5, 1);
    let today = d(2025, 5, 10);
    let c = card(b"front text", b"back", past, today, past, today);
    let bytes = store_of(&[c.clone()]);
    let records = collect_due_cards(&bytes, today).unwrap();
    let original_line_len = encode_card(&c).len();

    let mut rewritten = records[0].clone();
    rewritten.card.last_forward_review = today;
    rewritten.card.next_forward_review = d(2025, 5, 20);
    let cmd = update_record(&rewritten);
    assert_eq!(cmd.byte_offset, header_line().len() as u64);
    assert_eq!(cmd.bytes.len(), original_line_len);
    assert_eq!(
        String::from_utf8(cmd.bytes).unwrap(),
        "front text|back|2025-05-10|2025-05-20|2025-05-01|2025-05-10\n"
    );
}

#[test]
fn one_card_due_forward_reviewed_with_override_five() {
    // A store with one card due forward only; the user supplies five days:
    // after one round the forward schedule moved, and the session reports
    // one review of one card.
    let past = d(2025, 5, 8);
    let today = d(2025, 5, 10);
    let future = d(2025, 6, 1);
    let bytes = store_of(&[card(b"a", b"b", past, today, past, future)]);
    let records = collect_due_cards(&bytes, today).unwrap();
    let mut session = Session::new(records, today);
    session.start();
    assert!(!session.is_complete());
    assert_eq!(session.round, 1);
    assert_eq!(session.round_size(), 1);

    let entry = session.next_entry().unwrap();
    assert_eq!(entry.index, 0);
    assert_eq!(entry.direction, Direction::Forward);
    let view = session.current_card_ref();
    assert_eq!(view.front, b"a".to_vec());
    assert_eq!(view.back, b"b".to_vec());
    assert_eq!(session.days_since_last(), 2);

    let cmd = session.apply_review(Some(5), 0).unwrap();
    assert_eq!(cmd.byte_offset, header_line().len() as u64);
    assert!(session.next_entry().is_none());
    assert!(!session.finish_round());
    assert!(session.is_complete());

    assert_eq!(session.num_reviews, 1);
    assert_eq!(session.num_cards, 1);
    assert_eq!(session.records[0].card.next_forward_review, d(2025, 5, 15));
    assert_eq!(session.records[0].card.last_forward_review, today);
    // The backward schedule is untouched.
    assert_eq!(session.records[0].card.next_backward_review, future);
}

#[test]
fn zero_override_forces_a_second_round() {
    // Round one reviews the card with a zero override, so it is due again;
    // round two finds it and the session only completes once a non-zero
    // interval is chosen.
    let today = d(2025, 5, 10);
    let future = d(2025, 6, 1);
    let bytes = store_of(&[card(b"a", b"b", d(2025, 5, 8), today, d(2025, 5, 9), future)]);
    let records = collect_due_cards(&bytes, today).unwrap();
    let mut session = Session::new(records, today);
    session.start();

    assert!(session.next_entry().is_some());
    session.apply_review(Some(0), 0).unwrap();
    assert_eq!(session.records[0].card.next_forward_review, today);
    assert!(session.next_entry().is_none());

    // The zero-day interval opens round two over the same card.
    assert!(session.finish_round());
    assert_eq!(session.round, 2);
    assert_eq!(session.round_size(), 1);
    let entry = session.next_entry().unwrap();
    assert_eq!(entry.index, 0);
    assert_eq!(entry.direction, Direction::Forward);

    session.apply_review(Some(3), 0).unwrap();
    assert!(!session.finish_round());
    assert!(session.is_complete());
    assert_eq!(session.num_reviews, 2);
    assert_eq!(session.num_cards, 1);
    assert_eq!(session.records[0].card.next_forward_review, d(2025, 5, 13));
}

#[test]
fn empty_due_set_completes_without_any_review() {
    // Nothing due: the session is complete at once, with no reviews and
    // no write ever issued.
    let past = d(2025, 5, 1);
    let today = d(2025, 5, 10);
    let future = d(2025, 6, 1);
    let bytes = store_of(&[card(b"a", b"b", past, future, past, future)]);
    let records = collect_due_cards(&bytes, today).unwrap();
    assert!(records.is_empty());
    let mut session = Session::new(records, today);
    session.start();
    assert!(session.is_complete());
    assert!(session.next_entry().is_none());
    assert_eq!(session.num_reviews, 0);
    assert_eq!(session.num_cards, 0);
}

#[test]
fn every_due_entry_appears_exactly_once_per_round() {
    // Three cards, all due in both directions: round one holds each of the
    // six entries exactly once, whatever order the shuffle chose.
    let past = d(2025, 5, 1);
    let today = d(2025, 5, 10);
    let cards = [
        card(b"a", b"b", past, past, past, today),
        card(b"c", b"d", past, today, past, past),
        card(b"e", b"f", past, past, past, past),
    ];
    let bytes = store_of(&cards);
    let records = collect_due_cards(&bytes, today).unwrap();
    let mut session = Session::new(records, today);
    session.start();
    assert_eq!(session.round_size(), 6);
    let mut seen: Vec<(usize, bool)> = session
        .queue
        .iter()
        .map(|e| (e.index, e.direction == Direction::Forward))
        .collect();
    seen.sort();
    assert_eq!(
        seen,
        vec![(0, false), (0, true), (1, false), (1, true), (2, false), (2, true)]
    );
}

#[test]
fn stats_buckets_every_schedule_pair() {
    let today = d(2025, 5, 10);
    let cards = [
        // Forward interval 0 (today), backward interval 1 (day).
        card(b"a", b"b", today, today, d(2025, 5, 9), today),
        // Forward interval 3 (week), backward interval 40 (quarter).
        card(b"c", b"d", today, d(2025, 5, 13), d(2025, 5, 1), d(2025, 6, 10)),
        // Forward interval 100 (year), backward interval 400 (more).
        card(b"e", b"f", today, d(2025, 8, 18), today, d(2026, 6, 14)),
    ];
    let bytes = store_of(&cards);
    let counts = stats(&bytes).unwrap();
    assert_eq!(counts.today, 1);
    assert_eq!(counts.day, 1);
    assert_eq!(counts.week, 1);
    assert_eq!(counts.month, 0);
    assert_eq!(counts.quarter, 1);
    assert_eq!(counts.year, 1);
    assert_eq!(counts.more, 1);
    assert_eq!(counts.total(), 6);
}

#[test]
fn stats_propagates_a_scan_failure() {
    let mut bytes = header_line();
    bytes.extend_from_slice(b"not a record\n");
    assert_eq!(stats(&bytes).unwrap_err(), StoreError::Decode { line: 2 });
}
