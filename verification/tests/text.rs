use wineshm::text::{decimal_of, parse_uint_of, same_text};

#[test]
fn numbers_are_written_and_read_in_decimal() {
    assert_eq!(decimal_of(0), vec!['0']);
    assert_eq!(decimal_of(1024).into_iter().collect::<String>(), "1024");
    let digits: Vec<char> = "+42".chars().collect();
    assert_eq!(parse_uint_of(&digits, 100), Some(42));
    let too_big: Vec<char> = "101".chars().collect();
    assert_eq!(parse_uint_of(&too_big, 100), None);
    let sign: Vec<char> = "+".chars().collect();
    assert_eq!(parse_uint_of(&sign, 100), None);
    assert!(same_text("a", "a"));
    assert!(!same_text("a", "b"));
}
