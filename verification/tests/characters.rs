use literature::bibtex::error::Reason;
use literature::bibtex::text::{
    copy_range, is_word, locate, read_number, scan, scan_back, to_chars, to_lower, trim_range,
    CharClass,
};

#[test]
fn runs_of_a_class() {
    let text = to_chars("  ab-1: x9 \t");
    assert_eq!(scan(&text, 0, text.len(), CharClass::Space), 2);
    assert_eq!(scan(&text, 2, text.len(), CharClass::Word), 7);
    assert_eq!(scan(&text, 2, 4, CharClass::Word), 4);
    assert_eq!(scan(&text, 2, text.len(), CharClass::Digit), 2);
    assert_eq!(scan(&text, 0, text.len(), CharClass::Except('x')), 8);
    assert_eq!(scan(&text, 0, text.len(), CharClass::Except('!')), text.len());
    assert_eq!(scan_back(&text, 0, text.len(), CharClass::Space), 10);
    assert_eq!(scan_back(&text, 0, 10, CharClass::NonSpace), 8);
    assert_eq!(trim_range(&text, 0, text.len()), (2, 10));
    assert_eq!(trim_range(&text, 0, 2), (2, 2));
    assert_eq!(copy_range(&text, 2, 7), "ab-1:");
    assert_eq!(copy_range(&text, 3, 3), "");
}

#[test]
fn classes() {
    assert!(CharClass::Space.contains('\r'));
    assert!(CharClass::Space.contains('\x0C'));
    assert!(!CharClass::Space.contains('\u{a0}'));
    assert!(CharClass::Word.contains('_'));
    assert!(CharClass::Word.contains('Z'));
    assert!(!CharClass::Word.contains('.'));
    assert!(!CharClass::Word.contains('é'));
    assert!(CharClass::Digit.contains('0'));
    assert!(!CharClass::Digit.contains('a'));
    assert!(CharClass::NonSpace.contains('a'));
    assert!(!CharClass::Except('a').contains('a'));
}

#[test]
fn words_ignore_ascii_letter_case() {
    let text = to_chars("TiTle!");
    assert!(is_word(&text, 0, 5, "title"));
    assert!(is_word(&text, 0, 5, "TITLE"));
    assert!(!is_word(&text, 0, 6, "title"));
    assert!(!is_word(&text, 0, 4, "title"));
    assert!(!is_word(&text, 0, 5, "titel"));
    assert!(is_word(&text, 2, 2, ""));
    assert_eq!(to_lower('Q'), 'q');
    assert_eq!(to_lower('q'), 'q');
    assert_eq!(to_lower('['), '[');
    assert_eq!(to_lower('@'), '@');
    assert_eq!(to_lower('É'), 'É');
}

#[test]
fn decimal_numbers() {
    let text = to_chars("x0429y");
    assert_eq!(read_number(&text, 1, 5, 429), Ok(429));
    assert_eq!(read_number(&text, 1, 5, 428), Err(Reason::OutOfRange));
    assert_eq!(read_number(&text, 1, 2, 0), Ok(0));
    assert_eq!(read_number(&text, 1, 1, 9), Err(Reason::NotANumber));
    assert_eq!(read_number(&text, 0, 5, 9999), Err(Reason::NotANumber));
    assert_eq!(read_number(&text, 1, 6, 9999), Err(Reason::NotANumber));
    let long = to_chars("18446744073709551616000");
    assert_eq!(read_number(&long, 0, long.len(), u32::MAX), Err(Reason::OutOfRange));
    let max = to_chars("4294967295");
    assert_eq!(read_number(&max, 0, max.len(), u32::MAX), Ok(u32::MAX));
}

#[test]
fn lines_and_columns() {
    let text = to_chars("ab\n\ncdé f\n");
    assert_eq!(locate(&text, 0), (1, 1));
    assert_eq!(locate(&text, 2), (1, 3));
    assert_eq!(locate(&text, 3), (2, 1));
    assert_eq!(locate(&text, 4), (3, 1));
    assert_eq!(locate(&text, 7), (3, 4));
    assert_eq!(locate(&text, 9), (3, 6));
}
