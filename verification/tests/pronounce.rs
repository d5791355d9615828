use tts_clean::config::{
    AbbreviationConfig, AcronymStyle, CasePolicy, NumberConfig, PronunciationConfig,
    SelectorConfig, VersionMode, YearMode,
};
use tts_clean::pronounce::{
    apply_brand_pronunciation, apply_html_pronunciation, apply_replacements,
    apply_selector_pronunciation, apply_version_pronunciation, apply_year_pronunciation,
    expand_acronyms, normalize_acronym_spacing, pronounce,
};
use tts_clean::table::ReplacementTable;
use tts_clean::patterns::PatternSet;

fn set() -> PatternSet {
    PatternSet::new()
}

fn table(entries: &[(&str, &str)]) -> ReplacementTable {
    let mut out = ReplacementTable::new();
    for (key, value) in entries {
        out.insert(key, value);
    }
    out
}

fn spaced() -> AbbreviationConfig {
    let mut cfg = AbbreviationConfig::default();
    cfg.letter_separator = " ".to_string();
    cfg
}

#[test]
fn symbols_are_replaced() {
    let cfg = PronunciationConfig::default();
    assert_eq!(
        apply_replacements("a \u{d7} b :: c; {d} (e)", &cfg.replacements),
        "a  by  b  colon colon  c,  brace d brace  , e, "
    );
}

#[test]
fn the_longest_key_is_replaced_first() {
    let replacements = table(&[("a", "Y"), ("ab", "X")]);
    assert_eq!(apply_replacements("abab a", &replacements), "XX Y");
}

#[test]
fn a_later_entry_sees_what_an_earlier_one_left() {
    let replacements = table(&[("xx", "y"), ("y", "z")]);
    assert_eq!(apply_replacements("xx y", &replacements), "z z");
}

#[test]
fn an_empty_table_replaces_nothing() {
    assert_eq!(apply_replacements("a :: b", &ReplacementTable::new()), "a :: b");
}

#[test]
fn brand_names_are_spoken() {
    let cfg = PronunciationConfig::default();
    assert_eq!(
        apply_brand_pronunciation("MySQL and SQLite and W3C, not MySQLx or mysql", &cfg.brand_map),
        "My S. Q. L. and S. Q. Lite and Double U Three C, not MySQLx or mysql"
    );
}

#[test]
fn a_brand_name_is_matched_literally() {
    let brands = table(&[("a.b", "dot")]);
    assert_eq!(apply_brand_pronunciation("a.b axb", &brands), "dot axb");
    let plus = table(&[("c+d", "sum")]);
    assert_eq!(apply_brand_pronunciation("c+d ccd cd", &plus), "sum ccd cd");
}

#[test]
fn the_longest_brand_name_is_matched_first() {
    let brands = table(&[("Post", "P"), ("Post CSS", "Q")]);
    assert_eq!(apply_brand_pronunciation("Post CSS and Post", &brands), "Q and P");
}

#[test]
fn a_spoken_form_may_refer_to_the_match() {
    let brands = table(&[("Foo", "[$0]")]);
    assert_eq!(apply_brand_pronunciation("a Foo b", &brands), "a [Foo] b");
}

#[test]
fn years_are_spoken() {
    let numbers = NumberConfig::default();
    assert_eq!(
        apply_year_pronunciation(
            "Published in 1994 and 2003.",
            &YearMode::American,
            &numbers,
            &set(),
        ),
        "Published in nineteen hundred and ninety four and two thousand and three."
    );
}

#[test]
fn other_numbers_stay_digits() {
    let numbers = NumberConfig::default();
    let sample = "In 3000 or 999 or 12345 or x1999 or 2100 or 19945.";
    assert_eq!(apply_year_pronunciation(sample, &YearMode::American, &numbers, &set()), sample);
}

#[test]
fn years_can_be_left_alone() {
    let numbers = NumberConfig::default();
    assert_eq!(apply_year_pronunciation("in 1994", &YearMode::Off, &numbers, &set()), "in 1994");
}

#[test]
fn a_year_in_other_digits_is_spoken_as_zero() {
    let numbers = NumberConfig::default();
    assert_eq!(
        apply_year_pronunciation(
            "in 1\u{663}\u{663}\u{663}.",
            &YearMode::American,
            &numbers,
            &set(),
        ),
        "in 0."
    );
}

#[test]
fn version_numbers_are_spoken() {
    assert_eq!(
        apply_version_pronunciation(
            "version 1.2.3 and 10.0 or 3.14",
            &VersionMode::SayDecimal,
            &set(),
        ),
        "version one point two point three and ten point zero or three point fourteen"
    );
}

#[test]
fn a_single_number_is_no_version() {
    assert_eq!(
        apply_version_pronunciation("take 5 or v1.2", &VersionMode::SayDecimal, &set()),
        "take 5 or v1.2"
    );
}

#[test]
fn version_segments_that_are_too_large_stay() {
    assert_eq!(
        apply_version_pronunciation(
            "1.99999 2.05 3.99999999999999999999999",
            &VersionMode::SayDecimal,
            &set(),
        ),
        "one point 99999 two point five three point 99999999999999999999999"
    );
}

#[test]
fn versions_can_be_left_alone() {
    assert_eq!(apply_version_pronunciation("1.2.3", &VersionMode::Off, &set()), "1.2.3");
}

#[test]
fn tags_are_spoken() {
    assert_eq!(
        apply_html_pronunciation("<p class=\"x\">Hello</p><br/>", " ", &set()),
        "p Hellobr "
    );
    assert_eq!(apply_html_pronunciation("< div >x</ div >", ": ", &set()), "div: x");
}

#[test]
fn tags_without_a_separator() {
    assert_eq!(apply_html_pronunciation("<b>x</b>", "", &set()), "bx");
    assert_eq!(apply_html_pronunciation("1 < 2 and 3 > 2", " ", &set()), "1 < 2 and 3 > 2");
}

#[test]
fn selectors_are_spoken() {
    assert_eq!(
        apply_selector_pronunciation(".btn-primary and a.b_c end.", "dot ", &set()),
        "dot btn-primary and adot b_c end."
    );
    assert_eq!(apply_selector_pronunciation("x.y", "point ", &set()), "xpoint y");
}

#[test]
fn an_empty_prefix_leaves_selectors_alone() {
    assert_eq!(apply_selector_pronunciation(".btn", "", &set()), ".btn");
}

#[test]
fn acronyms_are_spelled_out() {
    assert_eq!(
        expand_acronyms("The API uses HTTP2 calls.", &spaced(), &set()),
        "The A P I uses H T T P 2 calls."
    );
}

#[test]
fn an_empty_letter_separator_writes_the_letters_without_a_gap() {
    assert_eq!(
        expand_acronyms("The API uses HTTP2 calls.", &AbbreviationConfig::default(), &set()),
        "The API uses HTTP2 calls."
    );
}

#[test]
fn a_numeric_suffix_is_spoken_with_the_digit_separator() {
    assert_eq!(expand_acronyms("HTTP1.1 is old", &spaced(), &set()), "H T T P 1 dot 1 is old");
    assert_eq!(
        expand_acronyms("HTTP1.1 is old", &AbbreviationConfig::default(), &set()),
        "HTTP1 dot 1 is old"
    );
    let mut cfg = spaced();
    cfg.digit_separator = " point ".to_string();
    assert_eq!(expand_acronyms("CSS2.1.3", &cfg, &set()), "C S S 2 point 1 point 3");
}

#[test]
fn acronyms_are_matched_as_whole_words() {
    assert_eq!(expand_acronyms("an APIs xAPI API", &spaced(), &set()), "an APIs xAPI A P I");
    assert_eq!(expand_acronyms("HTTPS not HTTP", &spaced(), &set()), "H T T P S not H T T P");
}

#[test]
fn the_case_policy_decides_the_token() {
    let mut cfg = AbbreviationConfig::default();
    cfg.map = table(&[("api", "ay pee eye")]);
    cfg.case_policy = CasePolicy::Upper;
    assert_eq!(expand_acronyms("the API and api", &cfg, &set()), "the ay pee eye and api");
    cfg.case_policy = CasePolicy::Exact;
    assert_eq!(expand_acronyms("the API and api", &cfg, &set()), "the API and ay pee eye");
}

#[test]
fn the_dotted_style_puts_periods_after_the_letters() {
    let mut cfg = spaced();
    cfg.map = table(&[("Api", "a p i")]);
    cfg.case_policy = CasePolicy::Exact;
    cfg.acronym_style = AcronymStyle::Dotted;
    assert_eq!(expand_acronyms("the Api here", &cfg, &set()), "the a. p. i here");
    cfg.acronym_style = AcronymStyle::Spaced;
    assert_eq!(expand_acronyms("the Api here", &cfg, &set()), "the a p i here");
}

#[test]
fn acronym_spacing_is_normalized() {
    assert_eq!(normalize_acronym_spacing("U. S. A. and A B", "-", &set()), "U-S-A. and A-B");
    assert_eq!(normalize_acronym_spacing("U. S. A. and A B", "", &set()), "USA. and AB");
    assert_eq!(normalize_acronym_spacing("N A S A 2", " ", &set()), "N A S A 2");
    assert_eq!(normalize_acronym_spacing("NASA or a B c", " ", &set()), "N A S A or a B c");
}

#[test]
fn pronunciation_rules_run_in_order() {
    let out = pronounce(
        "MySQL 5.7 (1995) has an API; see <b>.doc</b>",
        &PronunciationConfig::default(),
        &spaced(),
        &SelectorConfig::default(),
        &set(),
    );
    assert_eq!(
        out,
        "My S Q L 5 7 , nineteen hundred and ninety five,  has an A P I, see b dot doc"
    );
}

#[test]
fn version_numbers_are_spoken_after_acronyms() {
    let out = pronounce(
        "release 5.7 of 2.10.1",
        &PronunciationConfig::default(),
        &AbbreviationConfig::default(),
        &SelectorConfig::default(),
        &set(),
    );
    assert_eq!(out, "release 57 of 2101");
    let mut abbreviations = AbbreviationConfig::default();
    abbreviations.expand_acronyms = false;
    let out = pronounce(
        "release 5.7 of 2.10.1",
        &PronunciationConfig::default(),
        &abbreviations,
        &SelectorConfig::default(),
        &set(),
    );
    assert_eq!(out, "release five point seven of two point ten point one");
}

#[test]
fn pronunciation_rules_can_be_switched_off() {
    let mut pronunciation = PronunciationConfig::default();
    pronunciation.enable_replacements = false;
    pronunciation.brand_map = ReplacementTable::new();
    pronunciation.year_mode = YearMode::Off;
    pronunciation.version_mode = VersionMode::Off;
    pronunciation.html_tag_pronunciation = false;
    let mut abbreviations = AbbreviationConfig::default();
    abbreviations.expand_acronyms = false;
    let selector = SelectorConfig { prefix: String::new() };
    let sample = "MySQL 5.7 (1995) has an A P I; see <b>.doc</b>";
    assert_eq!(pronounce(sample, &pronunciation, &abbreviations, &selector, &set()), sample);
}

#[test]
fn an_empty_acronym_table_switches_the_rule_off() {
    let mut abbreviations = AbbreviationConfig::default();
    abbreviations.map = ReplacementTable::new();
    abbreviations.letter_separator = "-".to_string();
    let mut pronunciation = PronunciationConfig::default();
    pronunciation.version_mode = VersionMode::Off;
    let out = pronounce(
        "A B C", &pronunciation, &abbreviations,
        &SelectorConfig::default(),
        &set(),
    );
    assert_eq!(out, "A B C");
}
