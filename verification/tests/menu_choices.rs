//! Choosing a browser by its number.
use cookie_snatch::menu::ChoiceError;
use cookie_snatch::menu::choose_entry;
use cookie_snatch::menu::parse_choice;
use cookie_snatch::menu::parse_number;

#[test]
fn blank_line_takes_the_marked_entry() {
    assert_eq!(parse_choice("\n", 3, 2).unwrap(), 2);
    assert_eq!(parse_choice("", 3, 0).unwrap(), 0);
    assert_eq!(parse_choice(" \u{a0}\t\r\n", 3, 1).unwrap(), 1);
}

#[test]
fn numbers_count_from_one() {
    assert_eq!(parse_choice("1\n", 3, 2).unwrap(), 0);
    assert_eq!(parse_choice("  3 \r\n", 3, 2).unwrap(), 2);
    assert_eq!(parse_choice("+02", 3, 0).unwrap(), 1);
    assert_eq!(choose_entry("2".to_owned(), 3, 0).unwrap(), 1);
}

#[test]
fn numbers_beyond_the_menu_are_refused() {
    for (line, choice) in [("0", 0), ("4", 4), ("99", 99)] {
        let error = parse_choice(line, 3, 0).unwrap_err();
        assert_eq!(error.message(), format!("choice {choice} is out of range 1..=3"));
        assert!(matches!(error, ChoiceError::OutOfRange { count: 3, .. }));
    }
}

#[test]
fn anything_else_is_no_number() {
    for line in ["x", "-1", "1 2", "1.0", "+", "\u{661}", "99999999999999999999999"] {
        let error = parse_choice(line, 3, 0).unwrap_err();
        assert_eq!(error.message(), format!("`{line}` is not a browser number"));
    }
}

#[test]
fn numbers_are_read_as_the_machine_does() {
    for text in ["", "+", "0", "007", "+5", "++5", "5x", "18446744073709551615", "-0"] {
        assert_eq!(parse_number(text), text.parse::<usize>().ok());
    }
    assert_eq!(parse_number("18446744073709551616"), None);
}
