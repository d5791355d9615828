//! Laws of the pipeline: what holds of every text and every configuration.

use vstd::prelude::*;
use crate::chars::{
    is_blank, is_space, lemma_lines_before_final_feed, lemma_lines_joined, lemma_replace_absent,
    lemma_trim_of_trimmed, lines_of, occurs, plain_endings, trim_of, trim_start_of,
};
use crate::config::{
    AbbreviationConfig, CitationConfig, Config, DashMode, EllipsisMode, ExperimentalConfig,
    GuardrailConfig, IoConfig, ListConfig, MarkdownConfig, ParagraphBoundary,
    PronunciationConfig, PunctuationConfig, SelectorConfig, StructureConfig, UnicodeConfig,
    VersionMode, WhitespaceConfig, YearMode,
};
use crate::engine::{match_count, pattern_found, rewritten, substituted};
use crate::markup::{
    citations_stripped, markdown_stripped, CODE_FENCE, GENERIC_BRACKETS, GENERIC_PARENTHESES,
    INLINE_CODE, MARKDOWN_LINK, NUMERIC_CITATION, PARENTHETICAL_CITATION,
    STACKED_NUMERIC_CITATION,
};
use crate::pipeline::{
    cleaned, finished, long_paragraphs, short_output, warnings_of, Warning,
};
use crate::pronounce::{
    acronym_pattern, acronym_token, brand_pattern, lemma_acronyms_in_turn_stay,
    lemma_brands_in_turn_stay, lemma_replaced_in_turn_stays, pronounced, ACRONYM_SEQUENCE,
    HTML_CLOSE, HTML_OPEN, SELECTOR, VERSION, YEAR,
};
use crate::punctuation::{
    commas_within, lemma_commas_within_limit_stay, lemma_lone_stops_stay, punct_run_pattern,
    punct_runs_stripped, punctuation_disciplined, stops_stand_alone, COMMA_BEFORE_PERIOD,
};
use crate::reflow::{
    first_marker, lemma_flattened_lines_stay, lemma_paragraphs_stay, marker_texts,
    one_paragraph_per_line, reflowed,
};
use crate::structural::{
    lemma_dashes_stay, lemma_ellipses_stay, lemma_line_endings_stay, lemma_quotes_stay,
    lemma_trimmed_lines_stay, lines_end_trimmed, structure_normalized, unicode_normalized,
};
use crate::table::{lemma_longest_first_members, longest_first};
use crate::whitespace::{
    blank_lines_within, lemma_blank_lines_within_limit_stay, whitespace_collapsed,
    SPACE_BEFORE_PUNCT, SPACE_RUN,
};

verus! {

/// A replacement by pattern leaves a text alone in which the pattern does
/// not match.
pub proof fn lemma_rewritten_without_match(
    pattern: Seq<char>,
    text: Seq<char>,
    replacement: Seq<char>,
)
    requires
        !pattern_found(pattern, text),
    ensures
        rewritten(pattern, text, replacement) == text,
{
}

/// A substitution by pattern leaves a text alone in which the pattern has
/// no match, whatever the fills.
pub proof fn lemma_substituted_without_match(
    pattern: Seq<char>,
    text: Seq<char>,
    fills: Seq<Seq<char>>,
)
    requires
        match_count(pattern, text) == 0,
    ensures
        substituted(pattern, text, fills) == text,
{
}

/// Whether the pipeline has nothing left to do on `text`: structural
/// normalisation takes nothing from it but what the finishing touches put
/// back, and no stage between the two finds anything to rewrite.
pub open spec fn settled(text: Seq<char>, cfg: Config) -> bool {
    let body = structure_normalized(text, cfg.io, cfg.unicode);
    &&& citations_stripped(markdown_stripped(body, cfg.markdown), cfg.citations) == body
    &&& reflowed(body, cfg.structure, cfg.lists) == body
    &&& whitespace_collapsed(body, cfg.whitespace) == body
    &&& pronounced(body, cfg.pronunciation, cfg.abbreviations, cfg.selector) == body
    &&& punctuation_disciplined(body, cfg.punctuation) == body
    &&& punct_runs_stripped(body, cfg.experimental) == body
    &&& finished(body, cfg.io) == text
}

/// The pipeline returns a settled text as it is.
pub proof fn lemma_settled_text_stays(text: Seq<char>, cfg: Config)
    requires
        settled(text, cfg),
    ensures
        cleaned(text, cfg) == text,
{
}

/// Running the pipeline on its own output gives that output again, once the
/// output is settled: once no stage finds in it anything to rewrite.
pub proof fn lemma_clean_twice_is_clean_once(text: Seq<char>, cfg: Config)
    requires
        settled(cleaned(text, cfg), cfg),
    ensures
        cleaned(cleaned(text, cfg), cfg) == cleaned(text, cfg),
{
    lemma_settled_text_stays(cleaned(text, cfg), cfg);
}

/// Whether structural normalisation finds nothing to fold in `text`, of
/// which the later stages see `mid`.
pub open spec fn structure_at_rest(
    text: Seq<char>,
    mid: Seq<char>,
    io: IoConfig,
    unicode: UnicodeConfig,
) -> bool {
    &&& io.normalize_line_endings ==> !text.contains('\r')
    &&& unicode_normalized(mid, unicode.normalization) == mid
    &&& unicode.ascii_quotes ==> !mid.contains('\u{2019}') && !mid.contains('\u{2018}')
        && !mid.contains('\u{201c}') && !mid.contains('\u{201d}')
    &&& unicode.dash_mode != DashMode::Keep ==> !mid.contains('\u{2014}') && !mid.contains(
        '\u{2013}',
    )
    &&& unicode.ellipsis_mode != EllipsisMode::Keep ==> !mid.contains('\u{2026}')
    &&& unicode.ellipsis_mode == EllipsisMode::Period ==> !occurs(mid, "..."@)
}

/// Whether no rule for markdown or citations that is switched on matches in
/// `mid`.
pub open spec fn markup_at_rest(
    mid: Seq<char>,
    markdown: MarkdownConfig,
    citations: CitationConfig,
) -> bool {
    &&& markdown.drop_code_fences ==> !pattern_found(CODE_FENCE@, mid)
    &&& markdown.strip_inline_code ==> !pattern_found(INLINE_CODE@, mid)
    &&& markdown.strip_markdown_links ==> !pattern_found(MARKDOWN_LINK@, mid)
    &&& citations.drop_stacked_numeric_brackets ==> !pattern_found(STACKED_NUMERIC_CITATION@, mid)
    &&& citations.drop_numeric_brackets ==> !pattern_found(NUMERIC_CITATION@, mid)
    &&& citations.drop_parenthetical_numeric ==> !pattern_found(PARENTHETICAL_CITATION@, mid)
    &&& citations.drop_generic_brackets ==> !pattern_found(GENERIC_BRACKETS@, mid)
    &&& citations.drop_generic_parentheses ==> !pattern_found(GENERIC_PARENTHESES@, mid)
}

/// Whether `mid` is reflowed already: every line is a paragraph of its own,
/// and no line starts with a bullet marker.
pub open spec fn reflow_at_rest(
    mid: Seq<char>,
    structure: StructureConfig,
    lists: ListConfig,
) -> bool {
    &&& structure.unwrap_hard_wrapped_lines || lists.flatten_bullets ==> plain_endings(mid)
    &&& structure.unwrap_hard_wrapped_lines ==> match structure.paragraph_boundary {
        ParagraphBoundary::BlankLines => one_paragraph_per_line(lines_of(mid)),
        ParagraphBoundary::Never => {
            &&& lines_of(mid).len() <= 1
            &&& lines_of(mid).len() == 1 ==> !is_blank(lines_of(mid)[0]) && trim_of(
                lines_of(mid)[0],
            ) == lines_of(mid)[0]
        },
    }
    &&& lists.flatten_bullets ==> forall|i: int|
        0 <= i < lines_of(mid).len() ==> first_marker(
            trim_start_of(#[trigger] lines_of(mid)[i]),
            marker_texts(lists),
        ) is None
}

/// Whether the whitespace of `mid` is collapsed already.
pub open spec fn whitespace_at_rest(mid: Seq<char>, cfg: WhitespaceConfig) -> bool {
    &&& cfg.collapse_horizontal ==> !pattern_found(SPACE_RUN@, mid)
    &&& cfg.remove_space_before_punct ==> !pattern_found(SPACE_BEFORE_PUNCT@, mid)
    &&& cfg.max_consecutive_blank_lines > 0 ==> plain_endings(mid) && blank_lines_within(
        lines_of(mid),
        cfg.max_consecutive_blank_lines as nat,
    )
}

/// Whether no rule of pronunciation that is switched on finds a key or a
/// match in `mid`.
pub open spec fn pronunciation_at_rest(
    mid: Seq<char>,
    pronunciation: PronunciationConfig,
    abbreviations: AbbreviationConfig,
    selector: SelectorConfig,
) -> bool {
    &&& pronunciation.enable_replacements ==> forall|i: int|
        0 <= i < pronunciation.replacements@.len() ==> !occurs(
            mid,
            (#[trigger] pronunciation.replacements@[i]).0,
        )
    &&& forall|i: int|
        0 <= i < pronunciation.brand_map@.len() ==> !pattern_found(
            brand_pattern((#[trigger] pronunciation.brand_map@[i]).0),
            mid,
        )
    &&& pronunciation.year_mode == YearMode::American ==> match_count(YEAR@, mid) == 0
    &&& abbreviations.expand_acronyms && abbreviations.map@.len() > 0 ==> {
        &&& forall|i: int|
            0 <= i < abbreviations.map@.len() ==> match_count(
                acronym_pattern(
                    acronym_token((#[trigger] abbreviations.map@[i]).0, abbreviations.case_policy),
                ),
                mid,
            ) == 0
        &&& match_count(ACRONYM_SEQUENCE@, mid) == 0
    }
    &&& pronunciation.version_mode == VersionMode::SayDecimal ==> match_count(VERSION@, mid) == 0
    &&& pronunciation.html_tag_pronunciation ==> match_count(HTML_OPEN@, mid) == 0
        && !pattern_found(HTML_CLOSE@, mid)
    &&& selector.prefix@.len() > 0 ==> match_count(SELECTOR@, mid) == 0
}

/// Whether the punctuation of `mid` is disciplined already.
pub open spec fn punctuation_at_rest(mid: Seq<char>, cfg: PunctuationConfig) -> bool {
    &&& cfg.collapse_commas && cfg.max_consecutive_commas > 0 ==> commas_within(
        mid,
        cfg.max_consecutive_commas as nat,
    )
    &&& !mid.contains('/')
    &&& stops_stand_alone(mid, cfg.stop_precedence@)
    &&& !pattern_found(COMMA_BEFORE_PERIOD@, mid)
    &&& !pattern_found(SPACE_RUN@, mid)
}

/// Whether `mid` holds no run of decorative punctuation that the
/// experimental stage would shrink.
pub open spec fn experimental_at_rest(mid: Seq<char>, cfg: ExperimentalConfig) -> bool {
    cfg.strip_punct_runs && cfg.punct_run_min_len > 0 ==> match_count(
        punct_run_pattern(cfg.punct_run_min_len as nat),
        mid,
    ) == 0
}

/// What the stages between structural normalisation and the finishing
/// touches see of a finished text: the text without its last line feed
/// where trailing whitespace is trimmed, the text itself where it is not.
pub open spec fn middle_of(text: Seq<char>, io: IoConfig) -> Seq<char> {
    if io.trim_trailing_whitespace {
        text.drop_last()
    } else {
        text
    }
}

/// Whether `text` is in finished form: one line feed after a text that
/// neither starts nor ends with whitespace and, where trailing whitespace
/// is trimmed, has no line that ends in whitespace.
pub open spec fn finished_form(text: Seq<char>, io: IoConfig) -> bool {
    let body = text.drop_last();
    &&& text.len() > 0 && text.last() == '\n'
    &&& body.len() > 0 ==> !is_space(body[0]) && !is_space(body.last())
    &&& io.trim_trailing_whitespace ==> lines_end_trimmed(body)
}

/// Whether no stage that is switched on finds in `text` anything to
/// rewrite. For the stages that match by pattern this says that the pattern
/// has no match; for the others it says it of the characters and lines
/// themselves.
pub open spec fn nothing_to_rewrite(text: Seq<char>, cfg: Config) -> bool {
    let mid = middle_of(text, cfg.io);
    &&& structure_at_rest(text, mid, cfg.io, cfg.unicode)
    &&& markup_at_rest(mid, cfg.markdown, cfg.citations)
    &&& reflow_at_rest(mid, cfg.structure, cfg.lists)
    &&& whitespace_at_rest(mid, cfg.whitespace)
    &&& pronunciation_at_rest(mid, cfg.pronunciation, cfg.abbreviations, cfg.selector)
    &&& punctuation_at_rest(mid, cfg.punctuation)
    &&& experimental_at_rest(mid, cfg.experimental)
}

/// Whether `text` is at rest under `cfg`: it is in finished form, and no
/// stage finds in it anything to rewrite.
pub open spec fn at_rest(text: Seq<char>, cfg: Config) -> bool {
    finished_form(text, cfg.io) && nothing_to_rewrite(text, cfg)
}

/// What the pipeline returns is in finished form: it ends in exactly one
/// line feed.
pub proof fn lemma_cleaned_is_in_finished_form(text: Seq<char>, cfg: Config)
    ensures
        finished_form(cleaned(text, cfg), cfg.io),
{
    let a = structure_normalized(text, cfg.io, cfg.unicode);
    let b = citations_stripped(markdown_stripped(a, cfg.markdown), cfg.citations);
    let c = reflowed(b, cfg.structure, cfg.lists);
    let d = whitespace_collapsed(c, cfg.whitespace);
    let e = pronounced(d, cfg.pronunciation, cfg.abbreviations, cfg.selector);
    let f = punctuation_disciplined(e, cfg.punctuation);
    let g = punct_runs_stripped(f, cfg.experimental);
    crate::pipeline::lemma_finished_ends_in_one_line_feed(g, cfg.io);
    if cfg.io.trim_trailing_whitespace {
        crate::pipeline::lemma_finished_lines_are_trimmed(g, cfg.io);
    }
    let out = finished(g, cfg.io);
    let body = out.drop_last();
    if body.len() > 0 {
        assert(body[0] == out[0]);
        assert(body.last() == out[out.len() - 2]);
    }
}

proof fn lemma_structure_at_rest(text: Seq<char>, cfg: Config)
    requires
        at_rest(text, cfg),
    ensures
        structure_normalized(text, cfg.io, cfg.unicode) == middle_of(text, cfg.io),
{
    let io = cfg.io;
    let unicode = cfg.unicode;
    let body = text.drop_last();
    let mid = middle_of(text, io);
    assert(body.push('\n') =~= text);
    if io.normalize_line_endings {
        lemma_line_endings_stay(text);
    }
    if io.trim_trailing_whitespace {
        lemma_trimmed_lines_stay(body);
        if body.len() > 0 {
            lemma_lines_before_final_feed(body);
        } else {
            let feed = seq!['\n'];
            assert(text =~= feed);
            let nothing = Seq::<char>::empty();
            assert(feed.take(0) =~= nothing);
            assert(feed.skip(1) =~= nothing);
            assert(lines_of(nothing) =~= Seq::<Seq<char>>::empty());
            assert(lines_of(feed) =~= seq![nothing]);
            assert(crate::structural::lines_trimmed(lines_of(feed)) =~= seq![nothing]);
            assert(body =~= nothing);
        }
    }
    if unicode.ascii_quotes {
        lemma_quotes_stay(mid);
    }
    lemma_dashes_stay(mid, unicode.dash_mode);
    lemma_ellipses_stay(mid, unicode.ellipsis_mode);
}

proof fn lemma_reflow_at_rest(mid: Seq<char>, structure: StructureConfig, lists: ListConfig)
    requires
        reflow_at_rest(mid, structure, lists),
    ensures
        reflowed(mid, structure, lists) == mid,
{
    let lines = lines_of(mid);
    if structure.unwrap_hard_wrapped_lines {
        lemma_lines_joined(mid);
        match structure.paragraph_boundary {
            ParagraphBoundary::BlankLines => {
                lemma_paragraphs_stay(lines, structure.join_lines_with@);
            },
            ParagraphBoundary::Never => {
                let boundary = ParagraphBoundary::Never;
                let joiner = structure.join_lines_with@;
                if lines.len() == 1 {
                    let nothing = Seq::<Seq<char>>::empty();
                    assert(lines.drop_last() =~= nothing);
                    assert(crate::reflow::open_paragraph(nothing, boundary) =~= nothing);
                    assert(crate::reflow::closed_paragraphs(nothing, joiner, boundary) =~= nothing);
                    assert(crate::reflow::open_paragraph(lines, boundary) =~= seq![lines[0]]);
                    assert(crate::reflow::paragraphs_of(lines, joiner, boundary) =~= lines);
                } else {
                    assert(crate::reflow::paragraphs_of(lines, joiner, boundary) =~= lines);
                }
            },
        }
    }
    if lists.flatten_bullets {
        lemma_lines_joined(mid);
        lemma_flattened_lines_stay(lines, marker_texts(lists), lists.bullet_replacement@);
    }
}

proof fn lemma_whitespace_at_rest(mid: Seq<char>, cfg: WhitespaceConfig)
    requires
        whitespace_at_rest(mid, cfg),
    ensures
        whitespace_collapsed(mid, cfg) == mid,
{
    if cfg.max_consecutive_blank_lines > 0 {
        lemma_blank_lines_within_limit_stay(lines_of(mid), cfg.max_consecutive_blank_lines as nat);
        lemma_lines_joined(mid);
    }
}

proof fn lemma_pronunciation_at_rest(
    mid: Seq<char>,
    pronunciation: PronunciationConfig,
    abbreviations: AbbreviationConfig,
    selector: SelectorConfig,
)
    requires
        pronunciation_at_rest(mid, pronunciation, abbreviations, selector),
    ensures
        pronounced(mid, pronunciation, abbreviations, selector) == mid,
{
    if pronunciation.enable_replacements {
        let table = pronunciation.replacements@;
        let order = longest_first(table);
        assert forall|i: int| 0 <= i < order.len() implies !occurs(
            mid,
            (#[trigger] order[i]).0,
        ) by {
            lemma_longest_first_members(table, i);
            let j = choose|j: int| 0 <= j < table.len() && table[j] == order[i];
            assert(!occurs(mid, table[j].0));
        }
        lemma_replaced_in_turn_stays(mid, order);
    }
    let brands = pronunciation.brand_map@;
    let order = longest_first(brands);
    assert forall|i: int| 0 <= i < order.len() implies !pattern_found(
        brand_pattern((#[trigger] order[i]).0),
        mid,
    ) by {
        lemma_longest_first_members(brands, i);
        let j = choose|j: int| 0 <= j < brands.len() && brands[j] == order[i];
        assert(!pattern_found(brand_pattern(brands[j].0), mid));
    }
    lemma_brands_in_turn_stay(mid, order);
    if abbreviations.expand_acronyms && abbreviations.map@.len() > 0 {
        lemma_acronyms_in_turn_stay(mid, abbreviations.map@, abbreviations);
    }
}

proof fn lemma_punctuation_at_rest(mid: Seq<char>, cfg: PunctuationConfig)
    requires
        punctuation_at_rest(mid, cfg),
    ensures
        punctuation_disciplined(mid, cfg) == mid,
{
    if cfg.collapse_commas && cfg.max_consecutive_commas > 0 {
        lemma_commas_within_limit_stay(mid, cfg.max_consecutive_commas as nat);
    }
    let slash = seq!['/'];
    assert(slash[0] == '/');
    lemma_replace_absent(mid, slash, cfg.slash_replacement@);
    lemma_lone_stops_stay(mid, cfg.stop_precedence@);
}

proof fn lemma_finish_at_rest(text: Seq<char>, cfg: Config)
    requires
        at_rest(text, cfg),
    ensures
        finished(middle_of(text, cfg.io), cfg.io) == text,
{
    let body = text.drop_last();
    assert(body.push('\n') =~= text);
    if cfg.io.trim_trailing_whitespace {
        lemma_trimmed_lines_stay(body);
        lemma_trim_of_trimmed(body);
    } else {
        crate::pipeline::lemma_trim_before_final_feed(body);
    }
}

/// A text at rest is settled.
pub proof fn lemma_at_rest_is_settled(text: Seq<char>, cfg: Config)
    requires
        at_rest(text, cfg),
    ensures
        settled(text, cfg),
{
    let mid = middle_of(text, cfg.io);
    lemma_structure_at_rest(text, cfg);
    lemma_reflow_at_rest(mid, cfg.structure, cfg.lists);
    lemma_whitespace_at_rest(mid, cfg.whitespace);
    lemma_pronunciation_at_rest(mid, cfg.pronunciation, cfg.abbreviations, cfg.selector);
    lemma_punctuation_at_rest(mid, cfg.punctuation);
    lemma_finish_at_rest(text, cfg);
}

/// The pipeline returns a text at rest as it is.
pub proof fn lemma_text_at_rest_stays(text: Seq<char>, cfg: Config)
    requires
        at_rest(text, cfg),
    ensures
        cleaned(text, cfg) == text,
{
    lemma_at_rest_is_settled(text, cfg);
    lemma_settled_text_stays(text, cfg);
}

/// Running the pipeline on its own output gives that output again, once no
/// pattern has a match in the output and no other stage finds in it
/// anything to rewrite.
pub proof fn lemma_clean_is_idempotent_at_rest(text: Seq<char>, cfg: Config)
    requires
        nothing_to_rewrite(cleaned(text, cfg), cfg),
    ensures
        cleaned(cleaned(text, cfg), cfg) == cleaned(text, cfg),
{
    lemma_cleaned_is_in_finished_form(text, cfg);
    lemma_text_at_rest_stays(cleaned(text, cfg), cfg);
}

/// How many of `warnings` say that the output is too short.
pub open spec fn short_output_warnings(warnings: Seq<Warning>) -> nat
    decreases warnings.len(),
{
    if warnings.len() == 0 {
        0
    } else if warnings.last() is OutputTooShort {
        short_output_warnings(warnings.drop_last()) + 1
    } else {
        short_output_warnings(warnings.drop_last())
    }
}

proof fn lemma_long_paragraphs_are_not_short_output(lines: Seq<Seq<char>>, limit: usize)
    ensures
        short_output_warnings(long_paragraphs(lines, limit)) == 0,
    decreases lines.len(),
{
    if lines.len() > 0 {
        lemma_long_paragraphs_are_not_short_output(lines.drop_last(), limit);
        let rest = long_paragraphs(lines.drop_last(), limit);
        let all = long_paragraphs(lines, limit);
        if all != rest {
            assert(all.drop_last() =~= rest);
        }
    }
}

/// How many warnings an output gives for being too short: one where a
/// minimum is configured and the output has fewer characters, else none.
pub open spec fn short_output_count(text: Seq<char>, cfg: GuardrailConfig) -> nat {
    if cfg.min_output_chars_warn > 0 && text.len() < cfg.min_output_chars_warn {
        1
    } else {
        0
    }
}

/// An output with fewer characters than the configured minimum gives
/// exactly one warning that says so, and any other output gives none. Where
/// no maximum is configured for paragraphs, there is no other warning.
pub proof fn lemma_short_output_is_warned_of_once(text: Seq<char>, cfg: GuardrailConfig)
    ensures
        short_output_warnings(warnings_of(text, cfg)) == short_output_count(text, cfg),
        cfg.max_paragraph_chars == 0 ==> warnings_of(text, cfg).len() == short_output_count(
            text,
            cfg,
        ),
{
    let long = if cfg.max_paragraph_chars > 0 {
        long_paragraphs(crate::chars::lines_of(text), cfg.max_paragraph_chars)
    } else {
        Seq::empty()
    };
    if cfg.max_paragraph_chars > 0 {
        lemma_long_paragraphs_are_not_short_output(
            crate::chars::lines_of(text),
            cfg.max_paragraph_chars,
        );
    }
    assert(short_output_warnings(long) == 0);
    let short = short_output(text, cfg.min_output_chars_warn);
    let all = long + short;
    assert(all == warnings_of(text, cfg));
    if short.len() == 0 {
        assert(all =~= long);
    } else {
        assert(all.drop_last() =~= long);
        assert(all.last() == short[0]);
        assert(short[0] is OutputTooShort);
        assert(short_output_warnings(all) == short_output_warnings(all.drop_last()) + 1);
    }
}

/// The guardrails do not touch the text: two configurations that differ in
/// nothing but their guardrails clean every text alike.
pub proof fn lemma_guardrails_leave_the_text(
    text: Seq<char>,
    cfg: Config,
    guardrails: GuardrailConfig,
)
    ensures
        cleaned(text, Config { guardrails, ..cfg }) == cleaned(text, cfg),
{
}

} // verus!
