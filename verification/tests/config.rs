use tts_clean::config::{
    AbbreviationConfig, AcronymStyle, CasePolicy, CitationConfig, Config, DashMode, EllipsisMode,
    ExperimentalConfig, GuardrailConfig, IoConfig, ListConfig, LoggingConfig, MarkdownConfig,
    MetaConfig, NumberConfig, OutputFormat, ParagraphBoundary, PronunciationConfig,
    PunctuationConfig, SelectorConfig, StructureConfig, UnicodeConfig, UnicodeNormalizationMode,
    VersionMode, WhitespaceConfig, YearMode,
};
use tts_clean::pipeline::CleanStats;
use tts_clean::table::ReplacementTable;

fn entries(table: &ReplacementTable) -> Vec<(String, String)> {
    let mut out = Vec::new();
    let mut i = 0;
    while i < table.len() {
        out.push((table.key(i).clone(), table.value(i).clone()));
        i += 1;
    }
    out
}

fn pairs(list: &[(&str, &str)]) -> Vec<(String, String)> {
    list.iter().map(|(k, v)| (k.to_string(), v.to_string())).collect()
}

#[test]
fn default_modes() {
    assert_eq!(OutputFormat::default(), OutputFormat::OneParagraphPerLine);
    assert_eq!(UnicodeNormalizationMode::default(), UnicodeNormalizationMode::Nfkc);
    assert_eq!(DashMode::default(), DashMode::Comma);
    assert_eq!(EllipsisMode::default(), EllipsisMode::Period);
    assert_eq!(ParagraphBoundary::default(), ParagraphBoundary::BlankLines);
    assert_eq!(AcronymStyle::default(), AcronymStyle::Spaced);
    assert_eq!(CasePolicy::default(), CasePolicy::Upper);
    assert_eq!(VersionMode::default(), VersionMode::SayDecimal);
    assert_eq!(YearMode::default(), YearMode::American);
}

#[test]
fn default_meta_and_logging() {
    let meta = MetaConfig::default();
    assert_eq!(meta.version, 1);
    assert_eq!(meta.profile, "clean-narration-slightly-expressive");
    assert_eq!(meta.notes, "Targeted for XTTS / Daisy Studio / ebook2audiobook pipelines.");
    let logging = LoggingConfig::default();
    assert_eq!(logging.level, "info");
    assert!(logging.print_summary);
    assert!(!logging.write_report);
    assert_eq!(logging.report_path, "tts-clean.report.txt");
}

#[test]
fn default_io_and_unicode() {
    let io = IoConfig::default();
    assert_eq!(io.output_format, OutputFormat::OneParagraphPerLine);
    assert!(io.normalize_line_endings);
    assert!(io.trim_trailing_whitespace);
    let unicode = UnicodeConfig::default();
    assert_eq!(unicode.normalization, UnicodeNormalizationMode::Nfkc);
    assert!(unicode.ascii_quotes);
    assert_eq!(unicode.dash_mode, DashMode::Comma);
    assert_eq!(unicode.ellipsis_mode, EllipsisMode::Period);
}

#[test]
fn default_whitespace_and_structure() {
    let whitespace = WhitespaceConfig::default();
    assert!(whitespace.collapse_horizontal);
    assert!(whitespace.remove_space_before_punct);
    assert_eq!(whitespace.max_consecutive_blank_lines, 1);
    let structure = StructureConfig::default();
    assert!(structure.unwrap_hard_wrapped_lines);
    assert_eq!(structure.paragraph_boundary, ParagraphBoundary::BlankLines);
    assert_eq!(structure.join_lines_with, " ");
}

#[test]
fn default_markdown_and_citations() {
    let markdown = MarkdownConfig::default();
    assert!(markdown.drop_code_fences);
    assert_eq!(markdown.code_fence_replacement, "");
    assert!(markdown.strip_inline_code);
    assert!(markdown.strip_markdown_links);
    let citations = CitationConfig::default();
    assert!(citations.drop_numeric_brackets);
    assert!(citations.drop_stacked_numeric_brackets);
    assert!(!citations.drop_parenthetical_numeric);
    assert!(citations.drop_generic_parentheses);
    assert!(citations.drop_generic_brackets);
}

#[test]
fn default_lists() {
    let lists = ListConfig::default();
    assert!(lists.flatten_bullets);
    assert_eq!(lists.bullet_replacement, ", ");
    assert_eq!(lists.bullet_markers, ListConfig::default_markers());
}

#[test]
fn default_abbreviations() {
    let cfg = AbbreviationConfig::default();
    assert!(cfg.expand_acronyms);
    assert_eq!(cfg.acronym_style, AcronymStyle::Spaced);
    assert_eq!(cfg.case_policy, CasePolicy::Upper);
    assert_eq!(cfg.letter_separator, "");
    assert_eq!(cfg.digit_separator, " dot ");
    assert_eq!(
        entries(&cfg.map),
        pairs(&[
            ("API", "A P I"),
            ("CPU", "C P U"),
            ("CSS", "C S S"),
            ("GPU", "G P U"),
            ("HTML", "H T M L"),
            ("HTTP", "H T T P"),
            ("HTTPS", "H T T P S"),
            ("JSON", "J S O N"),
            ("LLM", "L L M"),
            ("SQL", "S Q L"),
            ("TTS", "T T S"),
            ("URL", "U R L"),
            ("XML", "X M L"),
            ("XTTS", "X T T S"),
        ])
    );
}

#[test]
fn default_pronunciation() {
    let cfg = PronunciationConfig::default();
    assert!(cfg.enable_replacements);
    assert_eq!(cfg.year_mode, YearMode::American);
    assert!(cfg.html_tag_pronunciation);
    assert_eq!(cfg.html_tag_separator, " ");
    assert_eq!(cfg.version_mode, VersionMode::SayDecimal);
    assert_eq!(cfg.number_config.separator, " ");
    assert!(cfg.number_config.insert_and);
    assert_eq!(
        entries(&cfg.replacements),
        pairs(&[
            ("(", ", "),
            (")", ", "),
            ("::", " colon colon "),
            (";", ","),
            ("{", " brace "),
            ("}", " brace "),
            ("\u{d7}", " by "),
        ])
    );
    assert_eq!(
        entries(&cfg.brand_map),
        pairs(&[
            ("IE4", "I. E. Four"),
            ("JSSS", "J. S. S. S."),
            ("MySQL", "My S. Q. L."),
            ("Mysql", "My S. Q. L."),
            ("PostCSS", "Post C. S. S."),
            ("SQLITE", "S. Q. Lite"),
            ("SQLite", "S. Q. Lite"),
            ("W3C", "Double U Three C"),
        ])
    );
}

#[test]
fn default_numbers() {
    let cfg = NumberConfig::default();
    assert_eq!(cfg.separator, " ");
    assert!(cfg.insert_and);
}

#[test]
fn default_guardrails_and_experimental() {
    let guardrails = GuardrailConfig::default();
    assert_eq!(guardrails.min_output_chars_warn, 200);
    assert_eq!(guardrails.max_paragraph_chars, 0);
    let experimental = ExperimentalConfig::default();
    assert!(!experimental.strip_punct_runs);
    assert_eq!(experimental.punct_run_min_len, 5);
}

#[test]
fn default_punctuation_and_selector() {
    let punctuation = PunctuationConfig::default();
    assert!(punctuation.collapse_commas);
    assert_eq!(punctuation.max_consecutive_commas, 1);
    assert_eq!(punctuation.slash_replacement, " or ");
    assert_eq!(punctuation.stop_precedence, ".:;,?");
    assert_eq!(SelectorConfig::default().prefix, "dot ");
}

#[test]
fn the_default_configuration_holds_the_defaults_of_its_groups() {
    let cfg = Config::default();
    assert_eq!(cfg.meta.version, 1);
    assert!(cfg.io.normalize_line_endings);
    assert_eq!(cfg.unicode.dash_mode, DashMode::Comma);
    assert_eq!(cfg.whitespace.max_consecutive_blank_lines, 1);
    assert_eq!(cfg.structure.join_lines_with, " ");
    assert!(cfg.markdown.drop_code_fences);
    assert!(!cfg.citations.drop_parenthetical_numeric);
    assert_eq!(cfg.lists.bullet_markers.len(), 5);
    assert_eq!(cfg.abbreviations.map.len(), 14);
    assert_eq!(cfg.pronunciation.replacements.len(), 7);
    assert_eq!(cfg.pronunciation.brand_map.len(), 8);
    assert_eq!(cfg.guardrails.min_output_chars_warn, 200);
    assert_eq!(cfg.logging.level, "info");
    assert!(!cfg.experimental.strip_punct_runs);
    assert_eq!(cfg.punctuation.stop_precedence, ".:;,?");
    assert_eq!(cfg.selector.prefix, "dot ");
}

#[test]
fn default_statistics_are_zero() {
    assert_eq!(
        CleanStats::default(),
        CleanStats { input_length: 0, output_length: 0, paragraph_count: 0 }
    );
}
