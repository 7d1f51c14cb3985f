use vmn::add::{build_lookup_tables, AddError, AddSession};
use vmn::codec::header_line;
use vmn::dates::Date;

fn d(year: i32, month: u8, day: u8) -> Date {
    Date { year, month, day }
}

fn fresh_session() -> AddSession {
    AddSession::new(Vec::new(), Vec::new(), d(2025, 5, 10))
}

#[test]
fn test_add_cards_stops_at_duplicate_back() {
    let mut session = fresh_session();
    let mut file: Vec<u8> = Vec::new();

    // The user enters a/b, c/d, and then e with the already-used back b.
    file.extend_from_slice(&session.add_card(&b"a".to_vec(), &b"b".to_vec()).unwrap());
    file.extend_from_slice(&session.add_card(&b"c".to_vec(), &b"d".to_vec()).unwrap());
    let result = session.add_card(&b"e".to_vec(), &b"b".to_vec());

    // The duplicate back points at line 2 of the store file.
    assert_eq!(result.unwrap_err(), AddError::DuplicateBack { line: 2 });

    // Only the two accepted cards were written.
    assert_eq!(
        String::from_utf8(file).unwrap(),
        "a|b|2025-05-10|2025-05-10|2025-05-10|2025-05-10\n\
         c|d|2025-05-10|2025-05-10|2025-05-10|2025-05-10\n"
    );
}

#[test]
fn test_cannot_add_duplicate_front_in_same_session() {
    let mut session = fresh_session();
    let mut file: Vec<u8> = Vec::new();

    file.extend_from_slice(&session.add_card(&b"a".to_vec(), &b"b".to_vec()).unwrap());
    let result = session.add_card(&b"a".to_vec(), &b"c".to_vec());

    assert_eq!(result.unwrap_err(), AddError::DuplicateFront { line: 2 });
    assert_eq!(
        String::from_utf8(file).unwrap(),
        "a|b|2025-05-10|2025-05-10|2025-05-10|2025-05-10\n"
    );
}

#[test]
fn new_cards_start_scheduled_at_today() {
    let mut session = fresh_session();
    let line = session.add_card(&b"wer".to_vec(), &b"who".to_vec()).unwrap();
    assert_eq!(
        String::from_utf8(line).unwrap(),
        "wer|who|2025-05-10|2025-05-10|2025-05-10|2025-05-10\n"
    );
}

#[test]
fn texts_with_reserved_bytes_are_rejected() {
    let mut session = fresh_session();
    assert_eq!(
        session.add_card(&b"a|b".to_vec(), &b"c".to_vec()).unwrap_err(),
        AddError::InvalidText
    );
    assert_eq!(
        session.add_card(&b"a".to_vec(), &b"c#d".to_vec()).unwrap_err(),
        AddError::InvalidText
    );
    // The rejections left the tables unchanged: the sides are still free.
    assert!(session.add_card(&b"a".to_vec(), &b"c".to_vec()).is_ok());
}

#[test]
fn lookup_tables_index_every_stored_side() {
    let mut bytes = header_line();
    bytes.extend_from_slice(b"a|b|2025-05-10|2025-05-10|2025-05-10|2025-05-10\n");
    bytes.extend_from_slice(b"c|d|2025-05-10|2025-05-10|2025-05-10|2025-05-10\n");
    let (forward, backward) = build_lookup_tables(&bytes).unwrap();
    assert_eq!(forward.len(), 2);
    assert_eq!(backward.len(), 2);
    let session = AddSession::new(forward, backward, d(2025, 5, 11));
    assert_eq!(session.lookup_front(&b"a".to_vec()), Some(2));
    assert_eq!(session.lookup_front(&b"c".to_vec()), Some(3));
    assert_eq!(session.lookup_front(&b"b".to_vec()), None);
    assert_eq!(session.lookup_back(&b"d".to_vec()), Some(3));
}

#[test]
fn duplicate_sides_in_the_store_fail_the_indexing() {
    let mut bytes = header_line();
    bytes.extend_from_slice(b"a|b|2025-05-10|2025-05-10|2025-05-10|2025-05-10\n");
    bytes.extend_from_slice(b"a|c|2025-05-10|2025-05-10|2025-05-10|2025-05-10\n");
    assert_eq!(
        build_lookup_tables(&bytes).unwrap_err(),
        AddError::StoreDuplicateFront { line: 3, prior: 2 }
    );

    let mut bytes2 = header_line();
    bytes2.extend_from_slice(b"a|b|2025-05-10|2025-05-10|2025-05-10|2025-05-10\n");
    bytes2.extend_from_slice(b"c|b|2025-05-10|2025-05-10|2025-05-10|2025-05-10\n");
    assert_eq!(
        build_lookup_tables(&bytes2).unwrap_err(),
        AddError::StoreDuplicateBack { line: 3, prior: 2 }
    );
}

#[test]
fn indexing_a_broken_store_reports_the_scan_error() {
    let mut bytes = header_line();
    bytes.extend_from_slice(b"nonsense\n");
    assert!(matches!(
        build_lookup_tables(&bytes).unwrap_err(),
        AddError::Store(_)
    ));
}
