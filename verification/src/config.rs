//! The configuration model: one option group per concern, each with its
//! defaults. A configuration is built once and read by every stage; no
//! stage changes it.

use vstd::prelude::*;
use crate::chars::texts;
use crate::table::{ascending, key_before, lemma_inserted_last, ReplacementTable};

verus! {

/// How the output is laid out.
#[derive(Debug, Clone, Copy, PartialEq, Eq, Structural)]
pub enum OutputFormat {
    /// Each paragraph takes one line.
    OneParagraphPerLine,
    /// Paragraphs keep their line breaks.
    PreserveParagraphs,
}

impl Default for OutputFormat {
    fn default() -> (out: Self)
        ensures
            out == OutputFormat::OneParagraphPerLine,
    {
        OutputFormat::OneParagraphPerLine
    }
}

/// The Unicode normalisation applied to the text.
#[derive(Debug, Clone, Copy, PartialEq, Eq, Structural)]
pub enum UnicodeNormalizationMode {
    /// Compatibility decomposition followed by canonical composition.
    Nfkc,
    /// Canonical decomposition followed by canonical composition.
    Nfc,
    /// The text is left as it is.
    Off,
}

impl Default for UnicodeNormalizationMode {
    fn default() -> (out: Self)
        ensures
            out == UnicodeNormalizationMode::Nfkc,
    {
        UnicodeNormalizationMode::Nfkc
    }
}

/// What becomes of em dashes and en dashes.
#[derive(Debug, Clone, Copy, PartialEq, Eq, Structural)]
pub enum DashMode {
    /// A comma and a space, for a pause in speech.
    Comma,
    /// A hyphen with a space on either side.
    Hyphen,
    /// The dash stays.
    Keep,
}

impl Default for DashMode {
    fn default() -> (out: Self)
        ensures
            out == DashMode::Comma,
    {
        DashMode::Comma
    }
}

/// What becomes of the ellipsis character and of three periods in a row.
#[derive(Debug, Clone, Copy, PartialEq, Eq, Structural)]
pub enum EllipsisMode {
    /// Both become one period.
    Period,
    /// The ellipsis character becomes three periods.
    Triple,
    /// Both stay.
    Keep,
}

impl Default for EllipsisMode {
    fn default() -> (out: Self)
        ensures
            out == EllipsisMode::Period,
    {
        EllipsisMode::Period
    }
}

/// Where paragraphs end when hard-wrapped lines are joined.
#[derive(Debug, Clone, Copy, PartialEq, Eq, Structural)]
pub enum ParagraphBoundary {
    /// A blank line ends the paragraph and is kept as an empty line.
    BlankLines,
    /// Blank lines end nothing and are dropped.
    Never,
}

impl Default for ParagraphBoundary {
    fn default() -> (out: Self)
        ensures
            out == ParagraphBoundary::BlankLines,
    {
        ParagraphBoundary::BlankLines
    }
}

/// How the letters of a spelled-out acronym are set apart.
#[derive(Debug, Clone, Copy, PartialEq, Eq, Structural)]
pub enum AcronymStyle {
    /// The spelled form is used as the table gives it.
    Spaced,
    /// Every space of the spelled form becomes a period and a space.
    Dotted,
}

impl Default for AcronymStyle {
    fn default() -> (out: Self)
        ensures
            out == AcronymStyle::Spaced,
    {
        AcronymStyle::Spaced
    }
}

/// How the case of an acronym is treated before it is matched.
#[derive(Debug, Clone, Copy, PartialEq, Eq, Structural)]
pub enum CasePolicy {
    /// The token is matched as the table gives it.
    Exact,
    /// The token is folded to upper case first.
    Upper,
}

impl Default for CasePolicy {
    fn default() -> (out: Self)
        ensures
            out == CasePolicy::Upper,
    {
        CasePolicy::Upper
    }
}

/// Whether version numbers are spoken.
#[derive(Debug, Clone, Copy, PartialEq, Eq, Structural)]
pub enum VersionMode {
    /// Version numbers stay as they are.
    Off,
    /// Each segment is spoken, with "point" between segments.
    SayDecimal,
}

impl Default for VersionMode {
    fn default() -> (out: Self)
        ensures
            out == VersionMode::SayDecimal,
    {
        VersionMode::SayDecimal
    }
}

/// Whether years are spoken.
#[derive(Debug, Clone, Copy, PartialEq, Eq, Structural)]
pub enum YearMode {
    /// Years stay as digits.
    Off,
    /// Years are spoken as hundreds and a remainder.
    American,
}

impl Default for YearMode {
    fn default() -> (out: Self)
        ensures
            out == YearMode::American,
    {
        YearMode::American
    }
}

/// What a configuration says of itself.
#[derive(Debug)]
pub struct MetaConfig {
    /// The version of the configuration format.
    pub version: u32,
    /// The name of the profile.
    pub profile: String,
    /// Free remarks.
    pub notes: String,
}

impl MetaConfig {
    /// Whether the group holds its defaults.
    pub open spec fn is_default(self) -> bool {
        &&& self.version == 1
        &&& self.profile@ == "clean-narration-slightly-expressive"@
        &&& self.notes@ == "Targeted for XTTS / Daisy Studio / ebook2audiobook pipelines."@
    }
}

impl Default for MetaConfig {
    fn default() -> (out: Self)
        ensures
            out.is_default(),
    {
        MetaConfig {
            version: 1,
            profile: "clean-narration-slightly-expressive".to_owned(),
            notes: "Targeted for XTTS / Daisy Studio / ebook2audiobook pipelines.".to_owned(),
        }
    }
}

/// Options on input and output.
#[derive(Debug)]
pub struct IoConfig {
    /// The layout of the output.
    pub output_format: OutputFormat,
    /// Whether all line endings become line feeds.
    pub normalize_line_endings: bool,
    /// Whether whitespace at the end of each line goes.
    pub trim_trailing_whitespace: bool,
}

impl IoConfig {
    /// Whether the group holds its defaults.
    pub open spec fn is_default(self) -> bool {
        &&& self.output_format == OutputFormat::OneParagraphPerLine
        &&& self.normalize_line_endings
        &&& self.trim_trailing_whitespace
    }
}

impl Default for IoConfig {
    fn default() -> (out: Self)
        ensures
            out.is_default(),
    {
        IoConfig {
            output_format: OutputFormat::OneParagraphPerLine,
            normalize_line_endings: true,
            trim_trailing_whitespace: true,
        }
    }
}

/// Options on Unicode folding.
#[derive(Debug)]
pub struct UnicodeConfig {
    /// The normalisation form.
    pub normalization: UnicodeNormalizationMode,
    /// Whether curly quotation marks become straight ones.
    pub ascii_quotes: bool,
    /// What becomes of dashes.
    pub dash_mode: DashMode,
    /// What becomes of ellipses.
    pub ellipsis_mode: EllipsisMode,
}

impl UnicodeConfig {
    /// Whether the group holds its defaults.
    pub open spec fn is_default(self) -> bool {
        &&& self.normalization == UnicodeNormalizationMode::Nfkc
        &&& self.ascii_quotes
        &&& self.dash_mode == DashMode::Comma
        &&& self.ellipsis_mode == EllipsisMode::Period
    }
}

impl Default for UnicodeConfig {
    fn default() -> (out: Self)
        ensures
            out.is_default(),
    {
        UnicodeConfig {
            normalization: UnicodeNormalizationMode::Nfkc,
            ascii_quotes: true,
            dash_mode: DashMode::Comma,
            ellipsis_mode: EllipsisMode::Period,
        }
    }
}

/// Options on whitespace.
#[derive(Debug)]
pub struct WhitespaceConfig {
    /// Whether runs of spaces and tabs become one space.
    pub collapse_horizontal: bool,
    /// Whether whitespace before punctuation goes.
    pub remove_space_before_punct: bool,
    /// How many blank lines may follow each other; zero keeps them all.
    pub max_consecutive_blank_lines: usize,
}

impl WhitespaceConfig {
    /// Whether the group holds its defaults.
    pub open spec fn is_default(self) -> bool {
        &&& self.collapse_horizontal
        &&& self.remove_space_before_punct
        &&& self.max_consecutive_blank_lines == 1
    }
}

impl Default for WhitespaceConfig {
    fn default() -> (out: Self)
        ensures
            out.is_default(),
    {
        WhitespaceConfig {
            collapse_horizontal: true,
            remove_space_before_punct: true,
            max_consecutive_blank_lines: 1,
        }
    }
}

/// Options on paragraph structure.
#[derive(Debug)]
pub struct StructureConfig {
    /// Whether hard-wrapped lines are joined into paragraphs.
    pub unwrap_hard_wrapped_lines: bool,
    /// Where paragraphs end.
    pub paragraph_boundary: ParagraphBoundary,
    /// What stands between the joined lines of a paragraph.
    pub join_lines_with: String,
}

impl StructureConfig {
    /// Whether the group holds its defaults.
    pub open spec fn is_default(self) -> bool {
        &&& self.unwrap_hard_wrapped_lines
        &&& self.paragraph_boundary == ParagraphBoundary::BlankLines
        &&& self.join_lines_with@ == " "@
    }
}

impl Default for StructureConfig {
    fn default() -> (out: Self)
        ensures
            out.is_default(),
    {
        StructureConfig {
            unwrap_hard_wrapped_lines: true,
            paragraph_boundary: ParagraphBoundary::BlankLines,
            join_lines_with: " ".to_owned(),
        }
    }
}

/// Options on markdown.
#[derive(Debug)]
pub struct MarkdownConfig {
    /// Whether fenced code blocks are taken out.
    pub drop_code_fences: bool,
    /// What takes the place of a fenced code block.
    pub code_fence_replacement: String,
    /// Whether inline code loses its backticks.
    pub strip_inline_code: bool,
    /// Whether a link is reduced to its label.
    pub strip_markdown_links: bool,
}

impl MarkdownConfig {
    /// Whether the group holds its defaults.
    pub open spec fn is_default(self) -> bool {
        &&& self.drop_code_fences
        &&& self.code_fence_replacement@ == Seq::<char>::empty()
        &&& self.strip_inline_code
        &&& self.strip_markdown_links
    }
}

impl Default for MarkdownConfig {
    fn default() -> (out: Self)
        ensures
            out.is_default(),
    {
        MarkdownConfig {
            drop_code_fences: true,
            code_fence_replacement: String::new(),
            strip_inline_code: true,
            strip_markdown_links: true,
        }
    }
}

/// Options on citation markers.
#[derive(Debug)]
pub struct CitationConfig {
    /// Whether a bracketed number goes.
    pub drop_numeric_brackets: bool,
    /// Whether two or more bracketed numbers in a row go as one.
    pub drop_stacked_numeric_brackets: bool,
    /// Whether a parenthesised list of numbers goes.
    pub drop_parenthetical_numeric: bool,
    /// Whether parentheses that hold a digit go.
    pub drop_generic_parentheses: bool,
    /// Whether brackets that hold a digit go.
    pub drop_generic_brackets: bool,
}

impl CitationConfig {
    /// Whether the group holds its defaults.
    pub open spec fn is_default(self) -> bool {
        &&& self.drop_numeric_brackets
        &&& self.drop_stacked_numeric_brackets
        &&& !self.drop_parenthetical_numeric
        &&& self.drop_generic_parentheses
        &&& self.drop_generic_brackets
    }
}

impl Default for CitationConfig {
    fn default() -> (out: Self)
        ensures
            out.is_default(),
    {
        CitationConfig {
            drop_numeric_brackets: true,
            drop_stacked_numeric_brackets: true,
            drop_parenthetical_numeric: false,
            drop_generic_parentheses: true,
            drop_generic_brackets: true,
        }
    }
}

/// How list bullets are flattened.
#[derive(Debug)]
pub struct ListConfig {
    /// Whether bullets are flattened at all.
    pub flatten_bullets: bool,
    /// What takes the place of a bullet marker.
    pub bullet_replacement: String,
    /// The markers, in the order in which they are tried.
    pub bullet_markers: Vec<String>,
}

/// The default bullet markers: a hyphen, an asterisk, a bullet, an en dash
/// and an em dash, each followed by a space.
pub open spec fn default_marker_texts() -> Seq<Seq<char>> {
    seq!["- "@, "* "@, "\u{2022} "@, "\u{2013} "@, "\u{2014} "@]
}

impl ListConfig {
    /// Whether the group holds its defaults.
    pub open spec fn is_default(self) -> bool {
        &&& self.flatten_bullets
        &&& self.bullet_replacement@ == ", "@
        &&& texts(self.bullet_markers@) == default_marker_texts()
    }

    /// The default bullet markers, in the order in which they are tried.
    pub fn default_markers() -> (out: Vec<String>)
        ensures
            texts(out@) == default_marker_texts(),
    {
        let mut out: Vec<String> = Vec::new();
        out.push("- ".to_owned());
        out.push("* ".to_owned());
        out.push("\u{2022} ".to_owned());
        out.push("\u{2013} ".to_owned());
        out.push("\u{2014} ".to_owned());
        proof {
            assert(texts(out@) =~= default_marker_texts());
        }
        out
    }
}

impl Default for ListConfig {
    fn default() -> (out: Self)
        ensures
            out.is_default(),
    {
        ListConfig {
            flatten_bullets: true,
            bullet_replacement: ", ".to_owned(),
            bullet_markers: ListConfig::default_markers(),
        }
    }
}

/// `table` with `value` stored under a key that comes after all its keys.
fn with_next(table: ReplacementTable, key: &str, value: &str) -> (out: ReplacementTable)
    requires
        ascending(table@),
        table@.len() > 0 ==> key_before(table@.last().0, key@),
    ensures
        out@ == table@.push((key@, value@)),
        ascending(out@),
{
    let mut out = table;
    proof {
        lemma_inserted_last(table@, key@, value@);
    }
    out.insert(key, value);
    out
}

/// The default acronyms with their spelled-out forms, in the order of the
/// table.
pub open spec fn default_acronyms() -> Seq<(Seq<char>, Seq<char>)> {
    seq![
        ("API"@, "A P I"@),
        ("CPU"@, "C P U"@),
        ("CSS"@, "C S S"@),
        ("GPU"@, "G P U"@),
        ("HTML"@, "H T M L"@),
        ("HTTP"@, "H T T P"@),
        ("HTTPS"@, "H T T P S"@),
        ("JSON"@, "J S O N"@),
        ("LLM"@, "L L M"@),
        ("SQL"@, "S Q L"@),
        ("TTS"@, "T T S"@),
        ("URL"@, "U R L"@),
        ("XML"@, "X M L"@),
        ("XTTS"@, "X T T S"@),
    ]
}

proof fn lemma_acronym_keys_ascend()
    ensures
        key_before("API"@, "CPU"@),
        key_before("CPU"@, "CSS"@),
        key_before("CSS"@, "GPU"@),
        key_before("GPU"@, "HTML"@),
        key_before("HTML"@, "HTTP"@),
        key_before("HTTP"@, "HTTPS"@),
        key_before("HTTPS"@, "JSON"@),
        key_before("JSON"@, "LLM"@),
        key_before("LLM"@, "SQL"@),
        key_before("SQL"@, "TTS"@),
        key_before("TTS"@, "URL"@),
        key_before("URL"@, "XML"@),
        key_before("XML"@, "XTTS"@),
{
    reveal_strlit("API");
    reveal_strlit("CPU");
    reveal_strlit("CSS");
    reveal_strlit("GPU");
    reveal_strlit("HTML");
    reveal_strlit("HTTP");
    reveal_strlit("HTTPS");
    reveal_strlit("JSON");
    reveal_strlit("LLM");
    reveal_strlit("SQL");
    reveal_strlit("TTS");
    reveal_strlit("URL");
    reveal_strlit("XML");
    reveal_strlit("XTTS");
    reveal_with_fuel(key_before, 8);
}

/// Options on acronyms.
#[derive(Debug)]
pub struct AbbreviationConfig {
    /// Whether acronyms are spelled out.
    pub expand_acronyms: bool,
    /// How the letters of a spelled form are set apart.
    pub acronym_style: AcronymStyle,
    /// How the case of a token is treated before it is matched.
    pub case_policy: CasePolicy,
    /// The acronyms with their spelled-out forms.
    pub map: ReplacementTable,
    /// What stands between the letters of a spelled-out acronym; empty to
    /// write them without a gap.
    pub letter_separator: String,
    /// What stands for each period of a numeric suffix.
    pub digit_separator: String,
}

impl AbbreviationConfig {
    /// Whether the group holds its defaults.
    pub open spec fn is_default(self) -> bool {
        &&& self.expand_acronyms
        &&& self.acronym_style == AcronymStyle::Spaced
        &&& self.case_policy == CasePolicy::Upper
        &&& self.map@ == default_acronyms()
        &&& self.letter_separator@ == Seq::<char>::empty()
        &&& self.digit_separator@ == " dot "@
    }
}

impl Default for AbbreviationConfig {
    fn default() -> (out: Self)
        ensures
            out.is_default(),
    {
        proof {
            lemma_acronym_keys_ascend();
        }
        let map = ReplacementTable::new();
        let map = with_next(map, "API", "A P I");
        let map = with_next(map, "CPU", "C P U");
        let map = with_next(map, "CSS", "C S S");
        let map = with_next(map, "GPU", "G P U");
        let map = with_next(map, "HTML", "H T M L");
        let map = with_next(map, "HTTP", "H T T P");
        let map = with_next(map, "HTTPS", "H T T P S");
        let map = with_next(map, "JSON", "J S O N");
        let map = with_next(map, "LLM", "L L M");
        let map = with_next(map, "SQL", "S Q L");
        let map = with_next(map, "TTS", "T T S");
        let map = with_next(map, "URL", "U R L");
        let map = with_next(map, "XML", "X M L");
        let map = with_next(map, "XTTS", "X T T S");
        proof {
            assert(map@ =~= default_acronyms());
        }
        AbbreviationConfig {
            expand_acronyms: true,
            acronym_style: AcronymStyle::Spaced,
            case_policy: CasePolicy::Upper,
            map,
            letter_separator: String::new(),
            digit_separator: " dot ".to_owned(),
        }
    }
}

/// How spoken numbers are put together.
#[derive(Debug)]
pub struct NumberConfig {
    /// What stands between the components of a spoken year.
    pub separator: String,
    /// Whether "and" introduces the last two digits of a spoken year.
    pub insert_and: bool,
}

impl NumberConfig {
    /// Whether the group holds its defaults.
    pub open spec fn is_default(self) -> bool {
        &&& self.separator@ == " "@
        &&& self.insert_and
    }
}

impl Default for NumberConfig {
    fn default() -> (out: Self)
        ensures
            out.is_default(),
    {
        NumberConfig { separator: " ".to_owned(), insert_and: true }
    }
}

/// The default symbol replacements, in the order of the table.
pub open spec fn default_replacements() -> Seq<(Seq<char>, Seq<char>)> {
    seq![
        ("("@, ", "@),
        (")"@, ", "@),
        ("::"@, " colon colon "@),
        (";"@, ","@),
        ("{"@, " brace "@),
        ("}"@, " brace "@),
        ("\u{d7}"@, " by "@),
    ]
}

proof fn lemma_replacement_keys_ascend()
    ensures
        key_before("("@, ")"@),
        key_before(")"@, "::"@),
        key_before("::"@, ";"@),
        key_before(";"@, "{"@),
        key_before("{"@, "}"@),
        key_before("}"@, "\u{d7}"@),
{
    reveal_strlit("(");
    reveal_strlit(")");
    reveal_strlit("::");
    reveal_strlit(";");
    reveal_strlit("{");
    reveal_strlit("}");
    reveal_strlit("\u{d7}");
    reveal_with_fuel(key_before, 8);
}

/// The default brand names with their spoken forms, in the order of the
/// table.
pub open spec fn default_brands() -> Seq<(Seq<char>, Seq<char>)> {
    seq![
        ("IE4"@, "I. E. Four"@),
        ("JSSS"@, "J. S. S. S."@),
        ("MySQL"@, "My S. Q. L."@),
        ("Mysql"@, "My S. Q. L."@),
        ("PostCSS"@, "Post C. S. S."@),
        ("SQLITE"@, "S. Q. Lite"@),
        ("SQLite"@, "S. Q. Lite"@),
        ("W3C"@, "Double U Three C"@),
    ]
}

proof fn lemma_brand_keys_ascend()
    ensures
        key_before("IE4"@, "JSSS"@),
        key_before("JSSS"@, "MySQL"@),
        key_before("MySQL"@, "Mysql"@),
        key_before("Mysql"@, "PostCSS"@),
        key_before("PostCSS"@, "SQLITE"@),
        key_before("SQLITE"@, "SQLite"@),
        key_before("SQLite"@, "W3C"@),
{
    reveal_strlit("IE4");
    reveal_strlit("JSSS");
    reveal_strlit("MySQL");
    reveal_strlit("Mysql");
    reveal_strlit("PostCSS");
    reveal_strlit("SQLITE");
    reveal_strlit("SQLite");
    reveal_strlit("W3C");
    reveal_with_fuel(key_before, 8);
}

/// Options on pronunciation.
#[derive(Debug)]
pub struct PronunciationConfig {
    /// Whether the symbol replacements are applied.
    pub enable_replacements: bool,
    /// Symbols with what is spoken in their place.
    pub replacements: ReplacementTable,
    /// Brand names with their spoken forms.
    pub brand_map: ReplacementTable,
    /// Whether years are spoken.
    pub year_mode: YearMode,
    /// Whether markup tags are spoken.
    pub html_tag_pronunciation: bool,
    /// What follows the name of a spoken tag.
    pub html_tag_separator: String,
    /// Whether version numbers are spoken.
    pub version_mode: VersionMode,
    /// How spoken numbers are put together.
    pub number_config: NumberConfig,
}

impl PronunciationConfig {
    /// Whether the group holds its defaults.
    pub open spec fn is_default(self) -> bool {
        &&& self.enable_replacements
        &&& self.replacements@ == default_replacements()
        &&& self.brand_map@ == default_brands()
        &&& self.year_mode == YearMode::American
        &&& self.html_tag_pronunciation
        &&& self.html_tag_separator@ == " "@
        &&& self.version_mode == VersionMode::SayDecimal
        &&& self.number_config.is_default()
    }
}

impl Default for PronunciationConfig {
    fn default() -> (out: Self)
        ensures
            out.is_default(),
    {
        proof {
            lemma_replacement_keys_ascend();
            lemma_brand_keys_ascend();
        }
        let replacements = ReplacementTable::new();
        let replacements = with_next(replacements, "(", ", ");
        let replacements = with_next(replacements, ")", ", ");
        let replacements = with_next(replacements, "::", " colon colon ");
        let replacements = with_next(replacements, ";", ",");
        let replacements = with_next(replacements, "{", " brace ");
        let replacements = with_next(replacements, "}", " brace ");
        let replacements = with_next(replacements, "\u{d7}", " by ");
        let brand_map = ReplacementTable::new();
        let brand_map = with_next(brand_map, "IE4", "I. E. Four");
        let brand_map = with_next(brand_map, "JSSS", "J. S. S. S.");
        let brand_map = with_next(brand_map, "MySQL", "My S. Q. L.");
        let brand_map = with_next(brand_map, "Mysql", "My S. Q. L.");
        let brand_map = with_next(brand_map, "PostCSS", "Post C. S. S.");
        let brand_map = with_next(brand_map, "SQLITE", "S. Q. Lite");
        let brand_map = with_next(brand_map, "SQLite", "S. Q. Lite");
        let brand_map = with_next(brand_map, "W3C", "Double U Three C");
        proof {
            assert(replacements@ =~= default_replacements());
            assert(brand_map@ =~= default_brands());
        }
        PronunciationConfig {
            enable_replacements: true,
            replacements,
            brand_map,
            year_mode: YearMode::American,
            html_tag_pronunciation: true,
            html_tag_separator: " ".to_owned(),
            version_mode: VersionMode::SayDecimal,
            number_config: NumberConfig::default(),
        }
    }
}

/// Options on the checks made of the finished output.
#[derive(Debug)]
pub struct GuardrailConfig {
    /// The least number of characters the output should have; zero for no
    /// check.
    pub min_output_chars_warn: usize,
    /// The greatest number of characters a paragraph should have; zero for
    /// no check.
    pub max_paragraph_chars: usize,
}

impl GuardrailConfig {
    /// Whether the group holds its defaults.
    pub open spec fn is_default(self) -> bool {
        &&& self.min_output_chars_warn == 200
        &&& self.max_paragraph_chars == 0
    }
}

impl Default for GuardrailConfig {
    fn default() -> (out: Self)
        ensures
            out.is_default(),
    {
        GuardrailConfig { min_output_chars_warn: 200, max_paragraph_chars: 0 }
    }
}

/// Options on what a run reports.
#[derive(Debug)]
pub struct LoggingConfig {
    /// The least level of the messages that are shown.
    pub level: String,
    /// Whether a summary of the run is shown.
    pub print_summary: bool,
    /// Whether a report is written.
    pub write_report: bool,
    /// Where the report goes.
    pub report_path: String,
}

impl LoggingConfig {
    /// Whether the group holds its defaults.
    pub open spec fn is_default(self) -> bool {
        &&& self.level@ == "info"@
        &&& self.print_summary
        &&& !self.write_report
        &&& self.report_path@ == "tts-clean.report.txt"@
    }
}

impl Default for LoggingConfig {
    fn default() -> (out: Self)
        ensures
            out.is_default(),
    {
        LoggingConfig {
            level: "info".to_owned(),
            print_summary: true,
            write_report: false,
            report_path: "tts-clean.report.txt".to_owned(),
        }
    }
}

/// Options on stages that are off unless asked for.
#[derive(Debug)]
pub struct ExperimentalConfig {
    /// Whether runs of decorative punctuation shrink to one character.
    pub strip_punct_runs: bool,
    /// The least length of such a run.
    pub punct_run_min_len: usize,
}

impl ExperimentalConfig {
    /// Whether the group holds its defaults.
    pub open spec fn is_default(self) -> bool {
        &&& !self.strip_punct_runs
        &&& self.punct_run_min_len == 5
    }
}

impl Default for ExperimentalConfig {
    fn default() -> (out: Self)
        ensures
            out.is_default(),
    {
        ExperimentalConfig { strip_punct_runs: false, punct_run_min_len: 5 }
    }
}

/// Options on punctuation.
#[derive(Debug)]
pub struct PunctuationConfig {
    /// Whether runs of commas are shortened.
    pub collapse_commas: bool,
    /// How many commas may stay in a run.
    pub max_consecutive_commas: usize,
    /// What takes the place of a forward slash; empty to delete it.
    pub slash_replacement: String,
    /// The stop characters, the strongest first.
    pub stop_precedence: String,
}

impl PunctuationConfig {
    /// Whether the group holds its defaults.
    pub open spec fn is_default(self) -> bool {
        &&& self.collapse_commas
        &&& self.max_consecutive_commas == 1
        &&& self.slash_replacement@ == " or "@
        &&& self.stop_precedence@ == ".:;,?"@
    }
}

impl Default for PunctuationConfig {
    fn default() -> (out: Self)
        ensures
            out.is_default(),
    {
        PunctuationConfig {
            collapse_commas: true,
            max_consecutive_commas: 1,
            slash_replacement: " or ".to_owned(),
            stop_precedence: ".:;,?".to_owned(),
        }
    }
}

/// Options on selector-like tokens.
#[derive(Debug)]
pub struct SelectorConfig {
    /// What is spoken in place of the period before a name; empty to leave
    /// such tokens alone.
    pub prefix: String,
}

impl SelectorConfig {
    /// Whether the group holds its defaults.
    pub open spec fn is_default(self) -> bool {
        self.prefix@ == "dot "@
    }
}

impl Default for SelectorConfig {
    fn default() -> (out: Self)
        ensures
            out.is_default(),
    {
        SelectorConfig { prefix: "dot ".to_owned() }
    }
}

/// The whole configuration.
#[derive(Debug)]
pub struct Config {
    /// What the configuration says of itself.
    pub meta: MetaConfig,
    /// Options on input and output.
    pub io: IoConfig,
    /// Options on Unicode folding.
    pub unicode: UnicodeConfig,
    /// Options on whitespace.
    pub whitespace: WhitespaceConfig,
    /// Options on paragraph structure.
    pub structure: StructureConfig,
    /// Options on markdown.
    pub markdown: MarkdownConfig,
    /// Options on citation markers.
    pub citations: CitationConfig,
    /// Options on list bullets.
    pub lists: ListConfig,
    /// Options on acronyms.
    pub abbreviations: AbbreviationConfig,
    /// Options on pronunciation.
    pub pronunciation: PronunciationConfig,
    /// Options on the checks made of the finished output.
    pub guardrails: GuardrailConfig,
    /// Options on what a run reports.
    pub logging: LoggingConfig,
    /// Options on stages that are off unless asked for.
    pub experimental: ExperimentalConfig,
    /// Options on punctuation.
    pub punctuation: PunctuationConfig,
    /// Options on selector-like tokens.
    pub selector: SelectorConfig,
}

impl Config {
    /// Whether every group holds its defaults.
    pub open spec fn is_default(self) -> bool {
        &&& self.meta.is_default()
        &&& self.io.is_default()
        &&& self.unicode.is_default()
        &&& self.whitespace.is_default()
        &&& self.structure.is_default()
        &&& self.markdown.is_default()
        &&& self.citations.is_default()
        &&& self.lists.is_default()
        &&& self.abbreviations.is_default()
        &&& self.pronunciation.is_default()
        &&& self.guardrails.is_default()
        &&& self.logging.is_default()
        &&& self.experimental.is_default()
        &&& self.punctuation.is_default()
        &&& self.selector.is_default()
    }
}

impl Default for Config {
    fn default() -> (out: Self)
        ensures
            out.is_default(),
    {
        Config {
            meta: MetaConfig::default(),
            io: IoConfig::default(),
            unicode: UnicodeConfig::default(),
            whitespace: WhitespaceConfig::default(),
            structure: StructureConfig::default(),
            markdown: MarkdownConfig::default(),
            citations: CitationConfig::default(),
            lists: ListConfig::default(),
            abbreviations: AbbreviationConfig::default(),
            pronunciation: PronunciationConfig::default(),
            guardrails: GuardrailConfig::default(),
            logging: LoggingConfig::default(),
            experimental: ExperimentalConfig::default(),
            punctuation: PunctuationConfig::default(),
            selector: SelectorConfig::default(),
        }
    }
}

} // verus!
