use vmn::dates::Date;
use vmn::models::{Card, Direction, DueEntry, Record};
use vmn::review::{collect_due_card_indices, compute_next, pick_jitter, ReviewError};
use vmn::utils::{clear, parse_timespan, read_line};

fn d(year: i32, month: u8, day: u8) -> Date {
    Date { year, month, day }
}

fn card(front: &[u8], back: &[u8], lf: Date, nf: Date, lb: Date, nb: Date) -> Card {
    Card {
        front: front.to_vec(),
        back: back.to_vec(),
        last_forward_review: lf,
        next_forward_review: nf,
        last_backward_review: lb,
        next_backward_review: nb,
    }
}

#[test]
fn test_review_card() {
    // One forward review of a card last seen two days ago, with an explicit
    // override of four days.
    let today = d(2025, 5, 10);
    let mut card = card(
        b"a",
        b"b",
        d(2025, 5, 8),
        today,
        d(2025, 5, 9),
        today,
    );
    let override_days = parse_timespan(&b"4".to_vec()).unwrap();
    let (next, zero) = compute_next(today, card.last_forward_review, Some(override_days), 0)
        .unwrap();
    card.set_schedule(Direction::Forward, today, next);

    // The chosen interval is not zero: no same-day reschedule.
    assert!(!zero);

    // The card was updated: next review in four days, last review today.
    assert_eq!(card.next_forward_review, d(2025, 5, 14));
    assert_eq!(card.last_forward_review, today);
    // The backward schedule is untouched.
    assert_eq!(card.last_backward_review, d(2025, 5, 9));
    assert_eq!(card.next_backward_review, today);
}

#[test]
fn zero_override_reschedules_for_today() {
    let today = d(2025, 5, 10);
    let (next, zero) = compute_next(today, d(2025, 5, 1), Some(0), 2).unwrap();
    assert!(zero);
    assert_eq!(next, today);
}

#[test]
fn default_interval_doubles_three_days_to_at_least_six() {
    let today = d(2025, 5, 10);
    let last = d(2025, 5, 7);
    for jitter in 0..3i64 {
        let (next, zero) = compute_next(today, last, None, jitter).unwrap();
        assert!(!zero);
        // 2025-05-16 is today plus six days.
        assert_eq!(next, d(2025, 5, (16 + jitter) as u8));
    }
}

#[test]
fn first_review_defaults_to_one_day() {
    // A fresh card has last == now; the doubled interval floors at one day.
    let today = d(2025, 5, 10);
    let (next, zero) = compute_next(today, today, None, 0).unwrap();
    assert!(!zero);
    assert_eq!(next, d(2025, 5, 11));
}

#[test]
fn intervals_cross_month_and_year_boundaries() {
    // Calendar arithmetic, not field arithmetic: two days past 2024-12-30
    // is New Year's Day, and the leap day is counted in 2024.
    let (next, _) = compute_next(d(2024, 12, 30), d(2024, 12, 30), Some(2), 0).unwrap();
    assert_eq!(next, d(2025, 1, 1));
    let (next, _) = compute_next(d(2024, 2, 28), d(2024, 2, 28), Some(2), 0).unwrap();
    assert_eq!(next, d(2024, 3, 1));
    // Doubling across a month boundary: last review 2025-04-30, today
    // 2025-05-02 is two days later, so the base interval is four days.
    let (next, _) = compute_next(d(2025, 5, 2), d(2025, 4, 30), None, 0).unwrap();
    assert_eq!(next, d(2025, 5, 6));
}

#[test]
fn negative_override_lands_in_the_past() {
    let (next, zero) = compute_next(d(2025, 5, 10), d(2025, 5, 10), Some(-3), 0).unwrap();
    assert!(!zero);
    assert_eq!(next, d(2025, 5, 7));
}

#[test]
fn override_beyond_storable_dates_is_rejected() {
    let today = d(2025, 5, 10);
    assert_eq!(
        compute_next(today, today, Some(20_000_000), 0).unwrap_err(),
        ReviewError::DateOutOfRange
    );
    assert_eq!(
        compute_next(today, today, Some(-20_000_000), 0).unwrap_err(),
        ReviewError::DateOutOfRange
    );
    // Just past the store's last day.
    assert_eq!(
        compute_next(d(9999, 12, 31), d(9999, 12, 31), Some(1), 0).unwrap_err(),
        ReviewError::DateOutOfRange
    );
}

#[test]
fn due_set_collects_both_directions_independently() {
    let today = d(2025, 5, 10);
    let future = d(2025, 6, 1);
    let past = d(2025, 5, 1);
    let records = vec![
        // Due forward only.
        Record { byte_offset: 0, card: card(b"a", b"b", past, today, past, future) },
        // Due in neither direction.
        Record { byte_offset: 10, card: card(b"c", b"d", past, future, past, future) },
        // Due in both directions: two independent entries.
        Record { byte_offset: 20, card: card(b"e", b"f", past, past, past, today) },
    ];
    let entries = collect_due_card_indices(&records, today);
    assert_eq!(
        entries,
        vec![
            DueEntry { index: 0, direction: Direction::Forward },
            DueEntry { index: 2, direction: Direction::Forward },
            DueEntry { index: 2, direction: Direction::Backward },
        ]
    );
}

#[test]
fn parse_timespan_accepts_signed_day_counts() {
    assert_eq!(parse_timespan(&b"4".to_vec()).unwrap(), 4);
    assert_eq!(parse_timespan(&b"-3".to_vec()).unwrap(), -3);
    assert_eq!(parse_timespan(&b"+7".to_vec()).unwrap(), 7);
    assert_eq!(parse_timespan(&b"0".to_vec()).unwrap(), 0);
    assert_eq!(parse_timespan(&b"007".to_vec()).unwrap(), 7);
    assert_eq!(
        parse_timespan(&b"9223372036854775807".to_vec()).unwrap(),
        i64::MAX
    );
    assert_eq!(
        parse_timespan(&b"-9223372036854775808".to_vec()).unwrap(),
        i64::MIN
    );
}

#[test]
fn parse_timespan_rejects_everything_else() {
    for bad in [
        &b""[..],
        b"-",
        b"+",
        b"abc",
        b"12x",
        b" 4",
        b"4 ",
        b"9223372036854775808",
        b"-9223372036854775809",
        b"99999999999999999999",
    ] {
        assert_eq!(
            parse_timespan(&bad.to_vec()).unwrap_err(),
            ReviewError::InvalidInterval,
            "{:?} should be invalid",
            bad
        );
    }
}

#[test]
fn read_line_trims_trailing_whitespace_only() {
    assert_eq!(read_line(&b"hello \n".to_vec()), b"hello".to_vec());
    assert_eq!(read_line(&b"\n".to_vec()), b"".to_vec());
    assert_eq!(read_line(&b"x\t \r\n".to_vec()), b"x".to_vec());
    assert_eq!(read_line(&b"  a b".to_vec()), b"  a b".to_vec());
    assert_eq!(read_line(&b"".to_vec()), b"".to_vec());
}

#[test]
fn clear_emits_the_erase_and_home_sequence() {
    assert_eq!(clear(), b"\x1b[2J\x1b[1;1H".to_vec());
}

#[test]
fn jitter_draws_stay_in_the_fixed_set() {
    for _ in 0..50 {
        let j = pick_jitter();
        assert!((0..=2).contains(&j));
    }
}
