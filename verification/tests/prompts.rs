//! Reading numbers, indexes and command words out of entered lines.

use tasktui::prompt::{ask_index, ask_number_date, minute_suspect, prompt_input, trim_chars, validate_date_fields, DateFieldError};
use tasktui::decimal::{i64_chars, parse_int_chars};
use tasktui::strutil::chars_to_string;

#[test]
fn number_date_reads_numbers() {
    assert_eq!(ask_number_date("42\n"), Some(42));
    assert_eq!(ask_number_date("  7 "), Some(7));
    assert_eq!(ask_number_date("+7"), Some(7));
    assert_eq!(ask_number_date("-3"), Some(-3));
}

#[test]
fn number_date_blank_means_default() {
    assert_eq!(ask_number_date(""), None);
    assert_eq!(ask_number_date("  \n"), None);
}

#[test]
fn number_date_garbage_reads_as_minus_one() {
    assert_eq!(ask_number_date("abc"), Some(-1));
    assert_eq!(ask_number_date("12x"), Some(-1));
    assert_eq!(ask_number_date("99999999999999999999"), Some(-1));
    assert_eq!(ask_number_date("4000000000"), Some(-1));
}

#[test]
fn index_prompt_is_one_based_and_bounded() {
    assert_eq!(ask_index("1", 5), Some(0));
    assert_eq!(ask_index("5\n", 5), Some(4));
    assert_eq!(ask_index("0", 5), None);
    assert_eq!(ask_index("6", 5), None);
    assert_eq!(ask_index("x", 5), None);
    assert_eq!(ask_index("", 5), None);
    assert_eq!(ask_index("1", 0), None);
}

#[test]
fn prompt_input_empty_line_is_nothing() {
    assert_eq!(prompt_input(""), None);
}

#[test]
fn prompt_input_lowercases_and_splits() {
    let words = prompt_input("List  ALL\n").unwrap();
    assert_eq!(words, vec![String::from("list"), String::from("all")]);
}

#[test]
fn prompt_input_drops_empty_words() {
    let words = prompt_input("  one   two  ").unwrap();
    assert_eq!(words, vec![String::from("one"), String::from("two")]);
    let only_spaces = prompt_input("   ").unwrap();
    assert_eq!(only_spaces, Vec::<String>::new());
}

#[test]
fn trim_strips_ascii_whitespace() {
    let v: Vec<char> = "\t hello \r\n".chars().collect();
    assert_eq!(chars_to_string(&trim_chars(&v)), "hello");
    let w: Vec<char> = " ".chars().collect();
    assert_eq!(chars_to_string(&trim_chars(&w)), "");
}

#[test]
fn decimal_printing_and_reading() {
    assert_eq!(chars_to_string(&i64_chars(0)), "0");
    assert_eq!(chars_to_string(&i64_chars(10)), "10");
    assert_eq!(chars_to_string(&i64_chars(-907)), "-907");
    assert_eq!(chars_to_string(&i64_chars(i64::MAX)), "9223372036854775807");
    let v: Vec<char> = "-9223372036854775808".chars().collect();
    assert_eq!(parse_int_chars(&v), Some(i64::MIN));
    let w: Vec<char> = "9223372036854775808".chars().collect();
    assert_eq!(parse_int_chars(&w), None);
    let z: Vec<char> = "007".chars().collect();
    assert_eq!(parse_int_chars(&z), Some(7));
    let bad: Vec<char> = "1 2".chars().collect();
    assert_eq!(parse_int_chars(&bad), None);
    let sign: Vec<char> = "-".chars().collect();
    assert_eq!(parse_int_chars(&sign), None);
}

#[test]
fn date_field_rules() {
    assert_eq!(validate_date_fields(0, 10, 10), Err(DateFieldError::Month));
    assert_eq!(validate_date_fields(13, 10, 10), Err(DateFieldError::Month));
    assert_eq!(validate_date_fields(5, 0, 10), Err(DateFieldError::Day));
    assert_eq!(validate_date_fields(5, 32, 10), Err(DateFieldError::Day));
    assert_eq!(validate_date_fields(5, 10, 24), Err(DateFieldError::Hour));
    assert_eq!(validate_date_fields(5, 10, 23), Ok(()));
    assert!(minute_suspect(60));
    assert!(!minute_suspect(59));
}
