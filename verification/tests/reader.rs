use delphi_lint::reader::{occurs_in, Reader};

#[test]
fn empty() {
    let mut reader = Reader::new(String::from(""));

    assert_eq!(reader.index(), 0);
    let c = reader.next();

    assert_eq!(c, None);
}

#[test]
fn i() {
    let mut reader = Reader::new(String::from("12"));

    let _ = reader.next();

    assert_eq!(reader.index(), 1);
    assert_eq!(reader.col(), 2);

    let _ = reader.next();

    assert_eq!(reader.index(), 2);
    assert_eq!(reader.col(), 3);
}

#[test]
fn col() {
    let mut reader = Reader::new(String::from("1"));

    let _ = reader.next();

    assert_eq!(reader.index(), 1);
    assert_eq!(reader.col(), 2);
}

#[test]
fn row() {
    let mut reader = Reader::new(String::from("\n"));

    let _ = reader.next();

    assert_eq!(reader.col(), 1);
    assert_eq!(reader.row(), 2);
}

#[test]
fn advance_by() {
    let mut reader = Reader::new(String::from("1234"));

    let _ = reader.advance_by(1);

    assert_eq!(reader.index(), 1);

    let _ = reader.advance_by(1);

    assert_eq!(reader.index(), 2);

    let _ = reader.advance_by(2);

    assert_eq!(reader.index(), 4);
}

#[test]
fn new_reader_stands_at_row_one_column_one() {
    let reader = Reader::new(String::from("abc"));
    assert_eq!(reader.position(), (1, 1));
    assert_eq!(reader.index(), 0);
    assert!(!reader.is_eof());
}

#[test]
fn empty_reader_is_at_end() {
    let reader = Reader::new(String::new());
    assert!(reader.is_eof());
    assert_eq!(reader.position(), (1, 1));
}

#[test]
fn next_returns_characters_in_order() {
    let mut reader = Reader::new(String::from("a\u{e9}\u{1F600}"));
    assert_eq!(reader.next(), Some('a'));
    assert_eq!(reader.next(), Some('\u{e9}'));
    assert_eq!(reader.next(), Some('\u{1F600}'));
    assert_eq!(reader.index(), 3);
    assert_eq!(reader.position(), (1, 4));
    assert!(reader.is_eof());
}

#[test]
fn next_past_the_end_changes_nothing() {
    let mut reader = Reader::new(String::from("x"));
    assert_eq!(reader.next(), Some('x'));
    for _ in 0..5 {
        assert_eq!(reader.next(), None);
        assert_eq!(reader.index(), 1);
        assert_eq!(reader.position(), (1, 2));
    }
}

#[test]
fn newline_starts_a_new_row_at_column_one() {
    let mut reader = Reader::new(String::from("ab\ncd\n\nx"));
    reader.advance_by(2);
    assert_eq!(reader.position(), (1, 3));
    reader.advance_by(1);
    assert_eq!(reader.position(), (2, 1));
    reader.advance_by(2);
    assert_eq!(reader.position(), (2, 3));
    reader.advance_by(1);
    assert_eq!(reader.position(), (3, 1));
    reader.advance_by(1);
    assert_eq!(reader.position(), (4, 1));
    reader.advance_by(1);
    assert_eq!(reader.position(), (4, 2));
    assert!(reader.is_eof());
}

#[test]
fn carriage_return_is_an_ordinary_column() {
    let mut reader = Reader::new(String::from("a\r\nb"));
    reader.advance_by(2);
    assert_eq!(reader.position(), (1, 3));
    reader.advance_by(1);
    assert_eq!(reader.position(), (2, 1));
}

#[test]
fn peek_does_not_move() {
    let mut reader = Reader::new(String::from("ab"));
    assert_eq!(reader.peek(), Some('a'));
    assert_eq!(reader.peek(), Some('a'));
    assert_eq!(reader.index(), 0);
    assert_eq!(reader.position(), (1, 1));
    assert_eq!(reader.next(), Some('a'));
    assert_eq!(reader.peek(), Some('b'));
}

#[test]
fn peek_nth_looks_ahead_from_the_cursor() {
    let mut reader = Reader::new(String::from("abc"));
    assert_eq!(reader.peek_nth(0), Some('a'));
    assert_eq!(reader.peek_nth(2), Some('c'));
    assert_eq!(reader.peek_nth(3), None);
    assert_eq!(reader.peek_nth(usize::MAX), None);
    reader.advance_by(1);
    assert_eq!(reader.peek_nth(0), Some('b'));
    assert_eq!(reader.peek_nth(1), Some('c'));
    assert_eq!(reader.peek_nth(2), None);
    assert_eq!(reader.index(), 1);
}

#[test]
fn advance_by_zero_is_a_no_op() {
    let mut reader = Reader::new(String::from("ab"));
    reader.advance_by(0);
    assert_eq!(reader.index(), 0);
    assert_eq!(reader.position(), (1, 1));
}

#[test]
fn advance_by_stops_at_the_end() {
    let mut reader = Reader::new(String::from("a\nb"));
    reader.advance_by(10);
    assert_eq!(reader.index(), 3);
    assert_eq!(reader.position(), (2, 2));
    assert!(reader.is_eof());
    reader.advance_by(usize::MAX);
    assert_eq!(reader.index(), 3);
}

#[test]
fn count_run_counts_without_moving() {
    let reader = Reader::new(String::from("'''x'"));
    assert_eq!(reader.count_run(|c| c == '\''), 3);
    assert_eq!(reader.count_run(|c| c == 'x'), 0);
    assert_eq!(reader.count_run(|_| true), 5);
    assert_eq!(reader.index(), 0);
}

#[test]
fn count_run_at_the_end_is_zero() {
    let mut reader = Reader::new(String::from("aa"));
    reader.advance_by(2);
    assert_eq!(reader.count_run(|c| c == 'a'), 0);
}

#[test]
fn read_while_takes_the_run_and_moves_behind_it() {
    let mut reader = Reader::new(String::from("123abc"));
    let digits = reader.read_while(|c| c.is_ascii_digit());
    assert_eq!(digits, "123");
    assert_eq!(reader.index(), 3);
    assert_eq!(reader.peek(), Some('a'));
    let none = reader.read_while(|c| c.is_ascii_digit());
    assert_eq!(none, "");
    assert_eq!(reader.index(), 3);
    let rest = reader.read_while(|_| true);
    assert_eq!(rest, "abc");
    assert!(reader.is_eof());
}

#[test]
fn read_while_keeps_rows_and_columns_right() {
    let mut reader = Reader::new(String::from(" \n\t x"));
    let blank = reader.read_while(|c| c.is_whitespace());
    assert_eq!(blank, " \n\t ");
    assert_eq!(reader.position(), (2, 3));
}

#[test]
fn read_until_leaves_the_stop_character() {
    let mut reader = Reader::new(String::from("ab}cd"));
    let text = reader.read_until(&['}']);
    assert_eq!(text, "ab");
    assert_eq!(reader.peek(), Some('}'));
    assert_eq!(reader.index(), 2);
    let again = reader.read_until(&['}']);
    assert_eq!(again, "");
    assert_eq!(reader.index(), 2);
}

#[test]
fn read_until_stops_at_any_of_several() {
    let mut reader = Reader::new(String::from("ab\ncd'e"));
    assert_eq!(reader.read_until(&['\n', '\'']), "ab");
    reader.advance_by(1);
    assert_eq!(reader.read_until(&['\n', '\'']), "cd");
    assert_eq!(reader.peek(), Some('\''));
}

#[test]
fn read_until_without_a_stop_reads_to_the_end() {
    let mut reader = Reader::new(String::from("abc"));
    assert_eq!(reader.read_until(&['x']), "abc");
    assert!(reader.is_eof());
    let mut other = Reader::new(String::from("abc"));
    assert_eq!(other.read_until(&[]), "abc");
}

#[test]
fn occurs_in_finds_members_only() {
    assert!(occurs_in(&['a', 'b'], 'b'));
    assert!(!occurs_in(&['a', 'b'], 'c'));
    assert!(!occurs_in(&[], 'a'));
}
