use tts_clean::config::{
    DashMode, EllipsisMode, IoConfig, UnicodeConfig, UnicodeNormalizationMode,
};
use tts_clean::structural::{
    fold_dashes, fold_ellipses, fold_quotes, normalize_line_endings, normalize_structure,
    normalize_unicode, trim_trailing_whitespace,
};

#[test]
fn line_endings_become_line_feeds() {
    assert_eq!(normalize_line_endings("a\r\nb\rc\nd"), "a\nb\nc\nd");
    assert_eq!(normalize_line_endings("\r\r\n\r"), "\n\n\n");
    assert_eq!(normalize_line_endings(""), "");
}

#[test]
fn normalizing_line_endings_twice_changes_nothing_more() {
    for sample in ["a\r\nb\rc\nd", "\r\r\n\r", "plain", "x\r"] {
        let once = normalize_line_endings(sample);
        assert!(!once.contains('\r'));
        assert_eq!(normalize_line_endings(&once), once);
    }
}

#[test]
fn trailing_whitespace_goes_from_every_line() {
    assert_eq!(trim_trailing_whitespace("a  \nb\t\n  c"), "a\nb\n  c");
    assert_eq!(trim_trailing_whitespace("a \n \nb"), "a\n\nb");
    assert_eq!(trim_trailing_whitespace("a\n"), "a");
    assert_eq!(trim_trailing_whitespace(""), "");
}

#[test]
fn compatibility_normalization_folds_ligatures_and_widths() {
    let mode = UnicodeNormalizationMode::Nfkc;
    assert_eq!(normalize_unicode("\u{fb01}n", mode), "fin");
    assert_eq!(normalize_unicode("\u{ff21}\u{ff11}", mode), "A1");
    assert_eq!(normalize_unicode("e\u{301}", mode), "\u{e9}");
    assert_eq!(normalize_unicode("\u{2026}", mode), "...");
}

#[test]
fn canonical_normalization_composes_and_keeps_ligatures() {
    let mode = UnicodeNormalizationMode::Nfc;
    assert_eq!(normalize_unicode("e\u{301}", mode), "\u{e9}");
    assert_eq!(normalize_unicode("\u{fb01}n", mode), "\u{fb01}n");
}

#[test]
fn normalization_can_be_off() {
    let mode = UnicodeNormalizationMode::Off;
    assert_eq!(normalize_unicode("e\u{301}\u{fb01}", mode), "e\u{301}\u{fb01}");
}

#[test]
fn curly_quotes_become_straight() {
    assert_eq!(
        fold_quotes("\u{201c}It\u{2019}s \u{2018}fine\u{2019},\u{201d} she said"),
        "\"It's 'fine',\" she said"
    );
}

#[test]
fn dashes_fold_as_configured() {
    let sample = "one\u{2014}two\u{2013}three-four";
    assert_eq!(fold_dashes(sample, DashMode::Comma), "one, two, three-four");
    assert_eq!(fold_dashes(sample, DashMode::Hyphen), "one - two - three-four");
    assert_eq!(fold_dashes(sample, DashMode::Keep), sample);
}

#[test]
fn ellipses_fold_as_configured() {
    let sample = "wait\u{2026} and... then....";
    assert_eq!(fold_ellipses(sample, EllipsisMode::Period), "wait. and. then..");
    assert_eq!(fold_ellipses(sample, EllipsisMode::Triple), "wait... and... then....");
    assert_eq!(fold_ellipses(sample, EllipsisMode::Keep), sample);
}

#[test]
fn structure_is_normalized_in_order() {
    let io = IoConfig::default();
    let unicode = UnicodeConfig::default();
    assert_eq!(
        normalize_structure("\u{201c}A\u{201d} \u{2014} b\u{2026}  \r\nnext\t\r\n", &io, &unicode),
        "\"A\" ,  b.\nnext"
    );
}

#[test]
fn structure_rules_can_be_switched_off() {
    let mut io = IoConfig::default();
    io.normalize_line_endings = false;
    io.trim_trailing_whitespace = false;
    let mut unicode = UnicodeConfig::default();
    unicode.normalization = UnicodeNormalizationMode::Off;
    unicode.ascii_quotes = false;
    unicode.dash_mode = DashMode::Keep;
    unicode.ellipsis_mode = EllipsisMode::Keep;
    let sample = "\u{201c}A\u{201d} \u{2014} b\u{2026}  \r\n";
    assert_eq!(normalize_structure(sample, &io, &unicode), sample);
}
