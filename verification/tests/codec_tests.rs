use vmn::codec::{decode_line, encode_card, header_line};
use vmn::dates::Date;
use vmn::models::Card;

fn d(year: i32, month: u8, day: u8) -> Date {
    Date { year, month, day }
}

fn sample_card() -> Card {
    Card {
        front: b"a".to_vec(),
        back: b"b".to_vec(),
        last_forward_review: d(2025, 5, 8),
        next_forward_review: d(2025, 5, 10),
        last_backward_review: d(2025, 5, 9),
        next_backward_review: d(2025, 5, 10),
    }
}

#[test]
fn encode_produces_pipe_delimited_line() {
    let line = encode_card(&sample_card());
    assert_eq!(
        String::from_utf8(line).unwrap(),
        "a|b|2025-05-08|2025-05-10|2025-05-09|2025-05-10\n"
    );
}

#[test]
fn decode_reads_back_what_encode_wrote() {
    let card = sample_card();
    let line = encode_card(&card);
    let back = decode_line(&line).expect("round trip must decode");
    assert_eq!(back, card);
}

#[test]
fn decode_then_encode_preserves_every_byte() {
    let line = b"some front|answer|1999-12-31|2000-01-01|0000-01-01|9999-12-31\n".to_vec();
    let card = decode_line(&line).expect("well-formed line");
    let again = encode_card(&card);
    assert_eq!(again, line);
    assert_eq!(again.len(), line.len());
}

#[test]
fn decode_accepts_empty_text_fields() {
    let line = b"|x|2025-01-02|2025-01-02|2025-01-02|2025-01-02\n".to_vec();
    let card = decode_line(&line).expect("empty front is a value");
    assert_eq!(card.front, b"".to_vec());
    assert_eq!(card.back, b"x".to_vec());
}

#[test]
fn decode_rejects_malformed_lines() {
    // Missing terminator.
    assert!(decode_line(&b"a|b|2025-05-08|2025-05-10|2025-05-09|2025-05-10".to_vec()).is_none());
    // A date that does not exist.
    assert!(decode_line(&b"a|b|2025-02-30|2025-05-10|2025-05-09|2025-05-10\n".to_vec()).is_none());
    // A date not at the fixed width.
    assert!(decode_line(&b"a|b|2025-5-8|2025-05-10|2025-05-09|2025-05-10\n".to_vec()).is_none());
    // Too few fields.
    assert!(decode_line(&b"a|2025-05-08|2025-05-10|2025-05-09|2025-05-10\n".to_vec()).is_none());
    // The quote byte inside a text field.
    assert!(decode_line(&b"a#c|b|2025-05-08|2025-05-10|2025-05-09|2025-05-10\n".to_vec()).is_none());
    // An extra pipe in the text region.
    assert!(decode_line(&b"a|c|b|2025-05-08|2025-05-10|2025-05-09|2025-05-10\n".to_vec()).is_none());
    // Empty input.
    assert!(decode_line(&b"".to_vec()).is_none());
}

#[test]
fn leap_year_dates_round_trip() {
    let line = b"q|w|2024-02-29|2024-02-29|2024-02-29|2024-02-29\n".to_vec();
    let card = decode_line(&line).expect("leap day exists in 2024");
    assert_eq!(card.last_forward_review, d(2024, 2, 29));
    assert_eq!(encode_card(&card), line);
    // The same day does not exist in 2025.
    assert!(decode_line(&b"q|w|2025-02-29|2024-02-29|2024-02-29|2024-02-29\n".to_vec()).is_none());
}

#[test]
fn header_names_the_six_fields() {
    assert_eq!(
        String::from_utf8(header_line()).unwrap(),
        "front|back|last_forward_review|next_forward_review|last_backward_review|next_backward_review\n"
    );
}
