use tts_clean::config::NumberConfig;
use tts_clean::numbers::{decimal, parse_decimal, simple_number_to_words, year_to_words};

fn chars(s: &str) -> Vec<char> {
    s.chars().collect()
}

#[test]
fn year_in_the_nineteen_hundreds() {
    let cfg = NumberConfig::default();
    assert_eq!(year_to_words(1994, &cfg), "nineteen hundred and ninety four");
}

#[test]
fn year_after_two_thousand() {
    let cfg = NumberConfig::default();
    assert_eq!(year_to_words(2003, &cfg), "two thousand and three");
    assert_eq!(year_to_words(2000, &cfg), "two thousand");
    assert_eq!(year_to_words(2099, &cfg), "two thousand and ninety nine");
    assert_eq!(year_to_words(2015, &cfg), "two thousand and fifteen");
}

#[test]
fn year_with_round_numbers() {
    let cfg = NumberConfig::default();
    assert_eq!(year_to_words(1000, &cfg), "one thousand");
    assert_eq!(year_to_words(1066, &cfg), "one thousand and sixty six");
    assert_eq!(year_to_words(1900, &cfg), "nineteen hundred");
    assert_eq!(year_to_words(1110, &cfg), "eleven hundred and ten");
    assert_eq!(year_to_words(1520, &cfg), "fifteen hundred and twenty");
}

#[test]
fn year_outside_the_range_stays_digits() {
    let cfg = NumberConfig::default();
    assert_eq!(year_to_words(999, &cfg), "999");
    assert_eq!(year_to_words(2100, &cfg), "2100");
    assert_eq!(year_to_words(0, &cfg), "0");
    assert_eq!(year_to_words(12345, &cfg), "12345");
}

#[test]
fn year_without_and() {
    let cfg = NumberConfig { separator: " ".to_string(), insert_and: false };
    assert_eq!(year_to_words(1994, &cfg), "nineteen hundred ninety four");
    assert_eq!(year_to_words(2003, &cfg), "two thousand three");
}

#[test]
fn year_with_another_separator() {
    let cfg = NumberConfig { separator: ", ".to_string(), insert_and: true };
    assert_eq!(year_to_words(1994, &cfg), "nineteen hundred, and ninety four");
    let bare = NumberConfig { separator: String::new(), insert_and: false };
    assert_eq!(year_to_words(1805, &bare), "eighteen hundredfive");
}

#[test]
fn number_words_are_spaced() {
    assert_eq!(simple_number_to_words(1234), "one thousand two hundred thirty four");
    assert_eq!(simple_number_to_words(9999), "nine thousand nine hundred ninety nine");
    assert_eq!(simple_number_to_words(101), "one hundred one");
    assert_eq!(simple_number_to_words(1000), "one thousand");
    assert_eq!(simple_number_to_words(2010), "two thousand ten");
}

#[test]
fn number_words_for_small_numbers() {
    assert_eq!(simple_number_to_words(0), "zero");
    assert_eq!(simple_number_to_words(5), "five");
    assert_eq!(simple_number_to_words(10), "ten");
    assert_eq!(simple_number_to_words(13), "thirteen");
    assert_eq!(simple_number_to_words(19), "nineteen");
    assert_eq!(simple_number_to_words(20), "twenty");
    assert_eq!(simple_number_to_words(42), "forty two");
    assert_eq!(simple_number_to_words(90), "ninety");
}

#[test]
fn number_words_give_up_at_ten_thousand() {
    assert_eq!(simple_number_to_words(10000), "10000");
    assert_eq!(simple_number_to_words(123456), "123456");
}

#[test]
fn decimal_numerals() {
    assert_eq!(decimal(0), "0");
    assert_eq!(decimal(7), "7");
    assert_eq!(decimal(10), "10");
    assert_eq!(decimal(90817), "90817");
    assert_eq!(decimal(usize::MAX), usize::MAX.to_string());
}

#[test]
fn parse_decimal_reads_what_the_standard_parser_reads() {
    let samples = [
        "", "0", "7", "42", "007", "+5", "+", "-5", "++5", "5+", "1.5", " 5", "5 ", "12a",
        "18446744073709551615", "18446744073709551616", "99999999999999999999999",
        "184467440737095516150", "\u{663}", "1\u{663}33", "4294967295", "4294967296",
    ];
    for sample in samples {
        assert_eq!(parse_decimal(&chars(sample)), sample.parse::<usize>().ok(), "{:?}", sample);
    }
}
