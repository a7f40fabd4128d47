use kascreech::not_once_cell::NotOnceCell;
use kascreech::server_types::{Colour, QAndA};
use kascreech::text::{lowercase_chars, occurs, str_equals};
use std::cell::Cell;

#[test]
fn cell_initialises_once() {
    let calls = Cell::new(0);
    let mut cell: NotOnceCell<String> = NotOnceCell::new();
    let first = cell
        .get_or_init(|| {
            calls.set(calls.get() + 1);
            "client".to_string()
        })
        .clone();
    let second = cell
        .get_or_init(|| {
            calls.set(calls.get() + 1);
            "other".to_string()
        })
        .clone();
    assert_eq!(first, "client");
    assert_eq!(second, "client");
    assert_eq!(calls.get(), 1);
}

#[test]
fn answers_by_colour() {
    let round = QAndA::new(
        "Sky?".to_string(),
        vec![("Green".to_string(), Colour::Green), ("Blue".to_string(), Colour::Blue), ("Teal".to_string(), Colour::Blue)],
        1,
    );
    assert!(round.is_right("Blue"));
    assert!(!round.is_right("blue"));
    assert_eq!(round.get_answer(), "Blue");
    assert_eq!(round.check_colour(Colour::Blue), Some(true));
    assert_eq!(round.check_colour(Colour::Green), Some(false));
    assert_eq!(round.check_colour(Colour::Red), None);
}

#[test]
fn text_helpers() {
    assert!(str_equals("héllo", "héllo"));
    assert!(!str_equals("a", "ab"));
    assert_eq!(lowercase_chars("AbÇ-Z"), vec!['a', 'b', 'Ç', '-', 'z']);
    assert!(occurs(&vec!['b', 'c'], &vec!['a', 'b', 'c']));
    assert!(!occurs(&vec!['c', 'b'], &vec!['a', 'b', 'c']));
    assert!(occurs(&vec![], &vec![]));
}
