use tts_clean::config::{CitationConfig, MarkdownConfig};
use tts_clean::markup::{strip_citations, strip_markdown};
use tts_clean::patterns::PatternSet;

fn set() -> PatternSet {
    PatternSet::new()
}

fn only(
    stacked: bool,
    numeric: bool,
    parenthetical: bool,
    brackets: bool,
    parentheses: bool,
) -> CitationConfig {
    CitationConfig {
        drop_numeric_brackets: numeric,
        drop_stacked_numeric_brackets: stacked,
        drop_parenthetical_numeric: parenthetical,
        drop_generic_parentheses: parentheses,
        drop_generic_brackets: brackets,
    }
}

#[test]
fn code_fences_are_dropped() {
    let cfg = MarkdownConfig::default();
    assert_eq!(
        strip_markdown("before\n```rust\nlet x = 1;\n```\nafter", &cfg, &set()),
        "before\n\nafter"
    );
}

#[test]
fn code_fences_take_the_configured_replacement() {
    let mut cfg = MarkdownConfig::default();
    cfg.code_fence_replacement = "code omitted".to_string();
    assert_eq!(
        strip_markdown("a ```x``` b ```y\nz``` c", &cfg, &set()),
        "a code omitted b code omitted c"
    );
}

#[test]
fn a_fence_without_its_pair_stays() {
    let cfg = MarkdownConfig::default();
    assert_eq!(strip_markdown("a ``` b", &cfg, &set()), "a ``` b");
}

#[test]
fn inline_code_loses_its_backticks() {
    let cfg = MarkdownConfig::default();
    assert_eq!(strip_markdown("call `foo()` now", &cfg, &set()), "call foo() now");
}

#[test]
fn links_are_reduced_to_their_labels() {
    let cfg = MarkdownConfig::default();
    assert_eq!(
        strip_markdown("see [the docs](https://example.org/a?b=1) here", &cfg, &set()),
        "see the docs here"
    );
}

#[test]
fn markdown_rules_can_be_switched_off() {
    let cfg = MarkdownConfig {
        drop_code_fences: false,
        code_fence_replacement: String::new(),
        strip_inline_code: false,
        strip_markdown_links: false,
    };
    let sample = "```a``` `b` [c](d)";
    assert_eq!(strip_markdown(sample, &cfg, &set()), sample);
}

#[test]
fn stacked_citations_go_as_one() {
    assert_eq!(
        strip_citations("See [1][2][3] prior work.", &CitationConfig::default(), &set()),
        "See  prior work."
    );
    assert_eq!(
        strip_citations("See [1][2][3] and [4].", &only(true, false, false, false, false), &set()),
        "See  and [4]."
    );
}

#[test]
fn a_single_citation_goes_without_the_stacked_rule() {
    assert_eq!(
        strip_citations("Claim [4] holds.", &only(false, true, false, false, false), &set()),
        "Claim  holds."
    );
    assert_eq!(
        strip_citations("See [1][2] there.", &only(false, true, false, false, false), &set()),
        "See  there."
    );
}

#[test]
fn parenthetical_number_lists_stay_by_default() {
    assert_eq!(
        strip_citations(
            "as shown (1, 2, 3) before",
            &only(false, false, true, false, false),
            &set(),
        ),
        "as shown  before"
    );
    assert_eq!(
        strip_citations(
            "as shown (1, 2, 3) before",
            &only(false, false, false, false, false),
            &set(),
        ),
        "as shown (1, 2, 3) before"
    );
    assert!(!CitationConfig::default().drop_parenthetical_numeric);
}

#[test]
fn generic_citations_need_a_digit() {
    assert_eq!(
        strip_citations(
            "a [Smith 2020] b [sic] c",
            &only(false, false, false, true, false),
            &set(),
        ),
        "a  b [sic] c"
    );
    assert_eq!(
        strip_citations(
            "a (Smith, 2020) b (sic) c",
            &only(false, false, false, false, true),
            &set(),
        ),
        "a  b (sic) c"
    );
}

#[test]
fn default_citation_rules_leave_no_bracket() {
    let out = strip_citations(
        "See [1][2][3] prior work [7] (Doe 1999).",
        &CitationConfig::default(),
        &set(),
    );
    assert_eq!(out, "See  prior work  .");
    assert!(!out.contains('['));
    assert!(!out.contains(']'));
}
