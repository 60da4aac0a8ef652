use gamemaker_plus::front_end::{parse_arguments, Config};
use gamemaker_plus::string_utils::{
    char_at, char_is_digit, char_is_letter, chars_of, decimal_string, is_alphabetic, is_numeric,
    parse_literal, read_number, signed_string,
};

#[test]
fn letters_are_the_ascii_letters() {
    assert!(char_is_letter('a'));
    assert!(char_is_letter('z'));
    assert!(char_is_letter('A'));
    assert!(char_is_letter('Z'));
    assert!(!char_is_letter('_'));
    assert!(!char_is_letter('0'));
    assert!(!char_is_letter('é'));
    assert!(!char_is_letter('['));
    assert!(!char_is_letter('`'));
}

#[test]
fn digits_are_zero_to_nine() {
    assert!(char_is_digit('0'));
    assert!(char_is_digit('9'));
    assert!(!char_is_digit('a'));
    assert!(!char_is_digit('/'));
    assert!(!char_is_digit(':'));
}

#[test]
fn a_text_is_alphabetic_when_it_holds_a_letter() {
    assert!(is_alphabetic(&"a".to_string()));
    assert!(is_alphabetic(&"12b4".to_string()));
    assert!(!is_alphabetic(&"1234".to_string()));
    assert!(!is_alphabetic(&"_".to_string()));
    assert!(!is_alphabetic(&"".to_string()));
}

#[test]
fn a_text_is_numeric_when_it_reads_as_a_byte() {
    assert!(is_numeric(&"0".to_string()));
    assert!(is_numeric(&"7".to_string()));
    assert!(is_numeric(&"255".to_string()));
    assert!(is_numeric(&"+5".to_string()));
    assert!(is_numeric(&"0000255".to_string()));
    assert!(!is_numeric(&"256".to_string()));
    assert!(!is_numeric(&"-1".to_string()));
    assert!(!is_numeric(&"+".to_string()));
    assert!(!is_numeric(&"".to_string()));
    assert!(!is_numeric(&"1a".to_string()));
    assert!(!is_numeric(&" 1".to_string()));
    assert!(!is_numeric(&"a".to_string()));
}

#[test]
fn char_at_counts_in_characters() {
    let text = "aé_z".to_string();
    assert_eq!(char_at(&text, 0), 'a');
    assert_eq!(char_at(&text, 1), 'é');
    assert_eq!(char_at(&text, 2), '_');
    assert_eq!(char_at(&text, 3), 'z');
}

#[test]
fn chars_of_lists_the_characters() {
    assert_eq!(chars_of("aé1"), vec!['a', 'é', '1']);
    assert_eq!(chars_of(""), Vec::<char>::new());
}

#[test]
fn literals_are_read_up_to_the_largest_32_bit_integer() {
    assert_eq!(parse_literal("0"), Some(0));
    assert_eq!(parse_literal("42"), Some(42));
    assert_eq!(parse_literal("007"), Some(7));
    assert_eq!(parse_literal("2147483647"), Some(2147483647));
    assert_eq!(parse_literal("2147483648"), None);
    assert_eq!(parse_literal("99999999999999999999"), None);
    assert_eq!(parse_literal(""), None);
    assert_eq!(parse_literal("-5"), None);
    assert_eq!(parse_literal("+5"), None);
    assert_eq!(parse_literal("12a"), None);
}

#[test]
fn numbers_are_read_from_a_position_and_within_a_limit() {
    let chars = vec!['x', '1', '2', '3'];
    assert_eq!(read_number(&chars, 1, 1000), Some(123));
    assert_eq!(read_number(&chars, 1, 123), Some(123));
    assert_eq!(read_number(&chars, 1, 122), None);
    assert_eq!(read_number(&chars, 0, 1000), None);
    assert_eq!(read_number(&chars, 4, 1000), None);
    assert_eq!(read_number(&chars, 3, 2), None);
    assert_eq!(read_number(&chars, 3, 4294967295), Some(3));
}

#[test]
fn numbers_are_written_in_base_ten() {
    assert_eq!(decimal_string(0), "0");
    assert_eq!(decimal_string(9), "9");
    assert_eq!(decimal_string(10), "10");
    assert_eq!(decimal_string(1234567890), "1234567890");
    assert_eq!(decimal_string(u64::MAX), "18446744073709551615");
}

#[test]
fn signed_numbers_are_written_with_their_sign() {
    assert_eq!(signed_string(0), "0");
    assert_eq!(signed_string(17), "17");
    assert_eq!(signed_string(-17), "-17");
    assert_eq!(signed_string(i32::MAX), "2147483647");
    assert_eq!(signed_string(i32::MIN), "-2147483648");
}

#[test]
fn what_is_written_is_read_back() {
    for n in [0u64, 1, 9, 10, 99, 100, 4096, 2147483647] {
        assert_eq!(parse_literal(&decimal_string(n)), Some(n as i32));
    }
}

#[test]
fn a_config_holds_what_it_was_made_of() {
    let config = Config::new("main.gmp".to_string(), true);
    assert_eq!(config.path, "main.gmp");
    assert!(config.strict);
}

fn arguments(words: &[&str]) -> Vec<String> {
    words.iter().map(|w| w.to_string()).collect()
}

#[test]
fn the_path_is_the_argument_after_the_program_name() {
    let config = parse_arguments(&arguments(&["prog", "file.src"])).unwrap();
    assert_eq!(config.path, "file.src");
    assert!(!config.strict);
}

#[test]
fn the_strict_flag_may_stand_anywhere() {
    let config = parse_arguments(&arguments(&["prog", "file.src", "--strict"])).unwrap();
    assert_eq!(config.path, "file.src");
    assert!(config.strict);
    let config = parse_arguments(&arguments(&["prog", "file.src", "-v", "--strict", "x"])).unwrap();
    assert!(config.strict);
    let config = parse_arguments(&arguments(&["prog", "--strict"])).unwrap();
    assert_eq!(config.path, "--strict");
    assert!(config.strict);
    let config = parse_arguments(&arguments(&["prog", "file.src", "--strictly"])).unwrap();
    assert!(!config.strict);
}

#[test]
fn fewer_than_two_arguments_are_not_enough() {
    assert_eq!(
        parse_arguments(&arguments(&["prog"])).err(),
        Some("not enought arguments".to_string())
    );
    assert_eq!(parse_arguments(&arguments(&[])).err(), Some("not enought arguments".to_string()));
}
