use tts_clean::config::WhitespaceConfig;
use tts_clean::whitespace::{
    collapse_blank_lines, collapse_horizontal, collapse_whitespace, remove_space_before_punct,
};
use tts_clean::patterns::PatternSet;

fn set() -> PatternSet {
    PatternSet::new()
}

#[test]
fn runs_of_spaces_become_one_space() {
    assert_eq!(collapse_horizontal("a  b\t\tc \u{a0} d", &set()), "a b c d");
    assert_eq!(collapse_horizontal("a\n\n  b", &set()), "a\n\n b");
    assert_eq!(collapse_horizontal("\t", &set()), " ");
}

#[test]
fn whitespace_before_punctuation_goes() {
    assert_eq!(remove_space_before_punct("a , b ; c : d ! e ? f .", &set()), "a, b; c: d! e? f.");
    assert_eq!(remove_space_before_punct("end\n. next", &set()), "end. next");
    assert_eq!(remove_space_before_punct("a (b", &set()), "a (b");
}

#[test]
fn blank_lines_are_limited() {
    assert_eq!(collapse_blank_lines("a\n\n\n\nb", 1), "a\n\nb");
    assert_eq!(collapse_blank_lines("a\n\n\n\nb", 2), "a\n\n\nb");
    assert_eq!(collapse_blank_lines("a\n \n\t\nb\n\n\nc", 1), "a\n\nb\n\nc");
}

#[test]
fn a_limit_of_zero_keeps_every_blank_line() {
    assert_eq!(collapse_blank_lines("a\n\n\n\nb\n", 0), "a\n\n\n\nb\n");
}

#[test]
fn the_count_of_blank_lines_starts_again_after_text() {
    assert_eq!(collapse_blank_lines("\n\na\n\n\nb\n\n", 1), "\na\n\nb\n");
}

#[test]
fn whitespace_is_collapsed_in_order() {
    let cfg = WhitespaceConfig::default();
    assert_eq!(collapse_whitespace("a   ,  b\n\n\n\nc  .", &cfg, &set()), "a, b\n\nc.");
}

#[test]
fn whitespace_rules_can_be_switched_off() {
    let cfg = WhitespaceConfig {
        collapse_horizontal: false,
        remove_space_before_punct: false,
        max_consecutive_blank_lines: 0,
    };
    assert_eq!(collapse_whitespace("a   ,  b\n\n\n\nc  .", &cfg, &set()), "a   ,  b\n\n\n\nc  .");
}

#[test]
fn collapsing_blank_lines_twice_changes_nothing_more() {
    for sample in ["a\n\n\n\nb", "a\n \n\t\nb\n\n\nc", "x", "a\n\n\nb\n\n\nc"] {
        let once = collapse_blank_lines(sample, 1);
        assert_eq!(collapse_blank_lines(&once, 1), once, "{:?}", sample);
        assert!(!once.contains("\n\n\n"), "{:?}", sample);
    }
}
