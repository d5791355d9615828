use tts_clean::config::{ListConfig, ParagraphBoundary, StructureConfig};
use tts_clean::reflow::{flatten_bullets, reflow, unwrap_paragraphs};

#[test]
fn wrapped_lines_become_paragraphs() {
    let text = "first line\nsecond line\n\nnext\nparagraph\n";
    assert_eq!(
        unwrap_paragraphs(text, " ", &ParagraphBoundary::BlankLines),
        "first line second line\n\nnext paragraph"
    );
}

#[test]
fn lines_are_trimmed_before_they_are_joined() {
    assert_eq!(
        unwrap_paragraphs("  a  \n\tb\t\n", "+", &ParagraphBoundary::BlankLines),
        "a+b"
    );
}

#[test]
fn each_blank_line_is_kept_as_an_empty_line() {
    assert_eq!(
        unwrap_paragraphs("a\n\n \nb", " ", &ParagraphBoundary::BlankLines),
        "a\n\n\nb"
    );
    assert_eq!(unwrap_paragraphs("\na", " ", &ParagraphBoundary::BlankLines), "\na");
}

#[test]
fn without_boundaries_the_text_is_one_paragraph() {
    assert_eq!(unwrap_paragraphs("a\nb\n\n \nc\n", " ", &ParagraphBoundary::Never), "a b c");
}

#[test]
fn an_empty_text_has_no_paragraph() {
    assert_eq!(unwrap_paragraphs("", " ", &ParagraphBoundary::BlankLines), "");
    assert_eq!(unwrap_paragraphs("", " ", &ParagraphBoundary::Never), "");
    assert_eq!(unwrap_paragraphs(" \n\t\n", " ", &ParagraphBoundary::Never), "");
}

#[test]
fn a_bullet_becomes_the_replacement() {
    let cfg = ListConfig::default();
    assert_eq!(flatten_bullets("- first item", &cfg), ", first item");
}

#[test]
fn a_hyphen_inside_a_line_is_left_alone() {
    let cfg = ListConfig::default();
    assert_eq!(flatten_bullets("a line - with a hyphen", &cfg), "a line - with a hyphen");
    assert_eq!(flatten_bullets("-no space", &cfg), "-no space");
}

#[test]
fn every_default_marker_is_flattened() {
    let cfg = ListConfig::default();
    let text = "- a\n* b\n\u{2022} c\n\u{2013} d\n\u{2014} e\nplain";
    assert_eq!(flatten_bullets(text, &cfg), ", a\n, b\n, c\n, d\n, e\nplain");
}

#[test]
fn a_bullet_may_be_indented_and_its_text_is_trimmed() {
    let cfg = ListConfig::default();
    assert_eq!(flatten_bullets("   -    item  ", &cfg), ", item  ");
    assert_eq!(flatten_bullets("  plain  ", &cfg), "  plain  ");
}

#[test]
fn the_first_marker_that_fits_wins() {
    let cfg = ListConfig {
        flatten_bullets: true,
        bullet_replacement: "; ".to_string(),
        bullet_markers: vec!["-".to_string(), "- ".to_string(), "--".to_string()],
    };
    assert_eq!(flatten_bullets("-- x", &cfg), "; - x");
}

#[test]
fn default_markers() {
    assert_eq!(
        ListConfig::default_markers(),
        vec!["- ", "* ", "\u{2022} ", "\u{2013} ", "\u{2014} "]
    );
}

#[test]
fn reflow_unwraps_before_it_flattens() {
    let structure = StructureConfig::default();
    let lists = ListConfig::default();
    assert_eq!(reflow("intro\n- a\n\n- b\n- c", &structure, &lists), "intro - a\n\n, b - c");
}

#[test]
fn reflow_rules_can_be_switched_off() {
    let mut structure = StructureConfig::default();
    structure.unwrap_hard_wrapped_lines = false;
    let mut lists = ListConfig::default();
    assert_eq!(reflow("x\n- a\n- b", &structure, &lists), "x\n, a\n, b");
    lists.flatten_bullets = false;
    assert_eq!(reflow("x\n- a\n- b", &structure, &lists), "x\n- a\n- b");
}
