//! The pipeline: every stage in its fixed order, the finishing touches, the
//! statistics of a run and the guardrails on its output.

use vstd::prelude::*;
use crate::chars::{
    byte_length, from_chars, is_blank, is_blank_line, is_space, lemma_lines_before_final_feed,
    lemma_trim, lemma_trim_end, lemma_trim_of_trimmed, lemma_trim_start, lines, lines_of, rows,
    to_chars, trim, trim_end_of, trim_of, trim_start_of,
};
use crate::config::{Config, GuardrailConfig, IoConfig};
use crate::markup::{citations_stripped, markdown_stripped, strip_citations, strip_markdown};
use crate::patterns::PatternSet;
use crate::pronounce::{pronounce, pronounced};
use crate::punctuation::{
    discipline_punctuation, punct_runs_stripped, punctuation_disciplined, strip_punct_runs,
};
use crate::reflow::{reflow, reflowed};
use crate::structural::{
    lemma_trailing_trimmed_is_trimmed, lemma_trimmed_lines_stay, lines_end_trimmed,
    lines_trimmed, normalize_structure, structure_normalized, trailing_trimmed,
    trim_trailing_whitespace,
};
use crate::whitespace::{collapse_whitespace, whitespace_collapsed};

verus! {

/// What a run has read and written.
#[derive(Debug, Clone, Copy, PartialEq, Eq, Structural)]
pub struct CleanStats {
    /// The length of the input in bytes.
    pub input_length: usize,
    /// The length of the output in bytes.
    pub output_length: usize,
    /// The number of lines of the output that are not blank.
    pub paragraph_count: usize,
}

impl Default for CleanStats {
    fn default() -> (out: Self)
        ensures
            out == (CleanStats { input_length: 0, output_length: 0, paragraph_count: 0 }),
    {
        CleanStats { input_length: 0, output_length: 0, paragraph_count: 0 }
    }
}

/// The finished form of a text: its lines trimmed at their ends where the
/// configuration asks for it, the whole trimmed at both ends, and one line
/// feed at the end.
pub open spec fn finished(text: Seq<char>, io: IoConfig) -> Seq<char> {
    let a = if io.trim_trailing_whitespace {
        trailing_trimmed(text)
    } else {
        text
    };
    trim_of(a).push('\n')
}

/// A finished text ends in exactly one line feed: its last character is a
/// line feed, and before it stands a text that neither starts nor ends with
/// whitespace.
pub proof fn lemma_finished_ends_in_one_line_feed(text: Seq<char>, io: IoConfig)
    ensures
        finished(text, io).len() >= 1,
        finished(text, io).last() == '\n',
        finished(text, io).len() >= 2 ==> !is_space(finished(text, io)[0]) && !is_space(
            finished(text, io)[finished(text, io).len() - 2],
        ),
{
    let lined = if io.trim_trailing_whitespace {
        trailing_trimmed(text)
    } else {
        text
    };
    lemma_trim(lined);
    let body = trim_of(lined);
    let out = body.push('\n');
    if out.len() >= 2 {
        assert(out[0] == body[0]);
        assert(out[out.len() - 2] == body.last());
    }
}

proof fn lemma_trim_keeps_lines_trimmed(s: Seq<char>)
    requires
        lines_end_trimmed(s),
    ensures
        lines_end_trimmed(trim_of(s)),
{
    lemma_trim_start(s);
    let head = trim_start_of(s);
    lemma_trim_end(head);
    let body = trim_end_of(head);
    let a = s.len() - head.len();
    assert forall|i: int| 0 <= i < body.len() - 1 && body[i + 1] == '\n' implies !is_space(
        #[trigger] body[i],
    ) || body[i] == '\n' by {
        assert(body[i] == head[i]);
        assert(body[i + 1] == head[i + 1]);
        assert(head[i] == s[a + i]);
        assert(head[i + 1] == s[a + i + 1]);
    }
}

/// Trimming takes the line feed from the end of a finished text and
/// nothing else.
pub proof fn lemma_trim_before_final_feed(body: Seq<char>)
    requires
        body.len() > 0 ==> !is_space(body[0]) && !is_space(body.last()),
    ensures
        trim_of(body.push('\n')) == body,
{
    let fed = body.push('\n');
    assert(is_space('\n'));
    assert(fed.drop_last() =~= body);
    if body.len() > 0 {
        assert(fed[0] == body[0]);
        assert(trim_start_of(fed) == fed);
        lemma_trim_of_trimmed(body);
        assert(trim_end_of(fed) == trim_end_of(body));
    } else {
        let nothing = Seq::<char>::empty();
        assert(body =~= nothing);
        assert(fed.drop_first() =~= nothing);
        assert(trim_start_of(nothing) == nothing);
        assert(trim_start_of(fed) == nothing);
        assert(trim_end_of(nothing) == nothing);
    }
}

/// Where trailing whitespace is trimmed, no line of a finished text ends in
/// whitespace.
pub proof fn lemma_finished_lines_are_trimmed(text: Seq<char>, io: IoConfig)
    requires
        io.trim_trailing_whitespace,
    ensures
        lines_end_trimmed(finished(text, io).drop_last()),
{
    lemma_trailing_trimmed_is_trimmed(text);
    lemma_trim_keeps_lines_trimmed(trailing_trimmed(text));
    let body = trim_of(trailing_trimmed(text));
    assert(body.push('\n').drop_last() =~= body);
}

/// Finishing a finished text changes nothing.
pub proof fn lemma_finish_idempotent(text: Seq<char>, io: IoConfig)
    ensures
        finished(finished(text, io), io) == finished(text, io),
{
    let lined = if io.trim_trailing_whitespace {
        trailing_trimmed(text)
    } else {
        text
    };
    lemma_trim(lined);
    let body = trim_of(lined);
    let once = body.push('\n');
    assert(once == finished(text, io));
    lemma_trim_before_final_feed(body);
    if io.trim_trailing_whitespace {
        lemma_trailing_trimmed_is_trimmed(text);
        lemma_trim_keeps_lines_trimmed(lined);
        lemma_trimmed_lines_stay(body);
        if body.len() > 0 {
            lemma_lines_before_final_feed(body);
            assert(trailing_trimmed(once) == body);
        } else {
            let nothing = Seq::<char>::empty();
            assert(body =~= nothing);
            assert(once =~= seq!['\n']);
            assert(once.take(0) =~= nothing);
            assert(once.skip(1) =~= nothing);
            assert(lines_of(nothing) =~= Seq::<Seq<char>>::empty());
            assert(lines_of(once) =~= seq![nothing]);
            assert(lines_trimmed(lines_of(once)) =~= seq![nothing]);
            assert(trailing_trimmed(once) == nothing);
        }
        lemma_trim_of_trimmed(body);
    }
}

/// Gives a text its finished form.
pub fn finish(text: &str, io: &IoConfig) -> (out: String)
    ensures
        out@ == finished(text@, *io),
{
    let lined = if io.trim_trailing_whitespace {
        trim_trailing_whitespace(text)
    } else {
        text.to_owned()
    };
    let mut body = trim(&to_chars(lined.as_str()));
    body.push('\n');
    from_chars(&body)
}

/// What the pipeline makes of a text: the stages in their fixed order, each
/// on the whole output of the one before it.
pub open spec fn cleaned(text: Seq<char>, cfg: Config) -> Seq<char> {
    let a = structure_normalized(text, cfg.io, cfg.unicode);
    let b = citations_stripped(markdown_stripped(a, cfg.markdown), cfg.citations);
    let c = reflowed(b, cfg.structure, cfg.lists);
    let d = whitespace_collapsed(c, cfg.whitespace);
    let e = pronounced(d, cfg.pronunciation, cfg.abbreviations, cfg.selector);
    let f = punctuation_disciplined(e, cfg.punctuation);
    let g = punct_runs_stripped(f, cfg.experimental);
    finished(g, cfg.io)
}

/// How many of `lines` are not blank.
pub open spec fn paragraph_count_of(lines: Seq<Seq<char>>) -> nat
    decreases lines.len(),
{
    if lines.len() == 0 {
        0
    } else if is_blank(lines.last()) {
        paragraph_count_of(lines.drop_last())
    } else {
        paragraph_count_of(lines.drop_last()) + 1
    }
}

/// There are no more paragraphs than lines.
pub proof fn lemma_paragraph_count_bounded(lines: Seq<Seq<char>>)
    ensures
        paragraph_count_of(lines) <= lines.len(),
    decreases lines.len(),
{
    if lines.len() > 0 {
        lemma_paragraph_count_bounded(lines.drop_last());
    }
}

/// The statistics of a run from `input` to `output`.
pub open spec fn stats_of(input: Seq<char>, output: Seq<char>) -> CleanStats {
    CleanStats {
        input_length: byte_length(input),
        output_length: byte_length(output),
        paragraph_count: paragraph_count_of(lines_of(output)) as usize,
    }
}

fn count_paragraphs(text: &str) -> (count: usize)
    ensures
        count == paragraph_count_of(lines_of(text@)),
{
    let all = lines(&to_chars(text));
    let mut count: usize = 0;
    let mut i: usize = 0;
    while i < all.len()
        invariant
            i <= all.len(),
            count <= i,
            count == paragraph_count_of(rows(all@).take(i as int)),
        decreases all.len() - i,
    {
        proof {
            assert(rows(all@).take(i + 1).drop_last() =~= rows(all@).take(i as int));
            assert(rows(all@).take(i + 1).last() == all@[i as int]@);
        }
        if !is_blank_line(&all[i]) {
            count += 1;
        }
        i += 1;
    }
    proof {
        assert(rows(all@).take(all.len() as int) =~= rows(all@));
    }
    count
}

/// Cleans a text for speech synthesis, with the patterns of a registry. The
/// stages run in their fixed order: structural normalisation, markdown and
/// citation stripping, reflow, whitespace collapse, pronunciation,
/// punctuation, the experimental stage, and the finishing touches. The
/// configuration and the registry are read and never changed. The
/// statistics give the lengths of input and output in bytes and the number
/// of lines of the output that are not blank.
pub fn clean_text_with(s: &str, config: &Config, patterns: &PatternSet) -> (out: (
    String,
    CleanStats,
))
    ensures
        out.0@ == cleaned(s@, *config),
        out.1 == stats_of(s@, out.0@),
{
    let mut text = normalize_structure(s, &config.io, &config.unicode);
    text = strip_markdown(text.as_str(), &config.markdown, patterns);
    text = strip_citations(text.as_str(), &config.citations, patterns);
    text = reflow(text.as_str(), &config.structure, &config.lists);
    text = collapse_whitespace(text.as_str(), &config.whitespace, patterns);
    text = pronounce(
        text.as_str(),
        &config.pronunciation,
        &config.abbreviations,
        &config.selector,
        patterns,
    );
    text = discipline_punctuation(text.as_str(), &config.punctuation, patterns);
    text = strip_punct_runs(text.as_str(), &config.experimental);
    text = finish(text.as_str(), &config.io);

    let stats = CleanStats {
        input_length: s.len(),
        output_length: text.as_str().len(),
        paragraph_count: count_paragraphs(text.as_str()),
    };
    proof {
        lemma_paragraph_count_bounded(lines_of(text@));
    }
    (text, stats)
}

/// Cleans a text for speech synthesis. The fixed patterns are compiled for
/// this one run; to clean several texts, make a registry once and hand it to
/// `clean_text_with`.
pub fn clean_text(s: &str, config: &Config) -> (out: (String, CleanStats))
    ensures
        out.0@ == cleaned(s@, *config),
        out.1 == stats_of(s@, out.0@),
{
    let patterns = PatternSet::new();
    clean_text_with(s, config, &patterns)
}

/// What a guardrail has to say of the output. A warning never changes the
/// output.
#[derive(Debug, Clone, Copy, PartialEq, Eq, Structural)]
pub enum Warning {
    /// The output has fewer characters than the configured minimum.
    OutputTooShort {
        /// The configured minimum.
        minimum: usize,
        /// The number of characters of the output.
        length: usize,
    },
    /// A paragraph has more characters than the configured maximum.
    ParagraphTooLong {
        /// The configured maximum.
        limit: usize,
        /// The number of characters of the paragraph.
        length: usize,
    },
}

/// One warning for each of `lines` that is not blank and has more than
/// `limit` characters, in their order.
pub open spec fn long_paragraphs(lines: Seq<Seq<char>>, limit: usize) -> Seq<Warning>
    decreases lines.len(),
{
    if lines.len() == 0 {
        Seq::empty()
    } else if !is_blank(lines.last()) && lines.last().len() > limit {
        long_paragraphs(lines.drop_last(), limit).push(
            Warning::ParagraphTooLong { limit, length: lines.last().len() as usize },
        )
    } else {
        long_paragraphs(lines.drop_last(), limit)
    }
}

/// The warning for an output that is too short: one where a minimum is
/// configured and the output has fewer characters, none otherwise.
pub open spec fn short_output(text: Seq<char>, minimum: usize) -> Seq<Warning> {
    if minimum > 0 && text.len() < minimum {
        seq![Warning::OutputTooShort { minimum, length: text.len() as usize }]
    } else {
        Seq::empty()
    }
}

/// The warnings for an output: those for its long paragraphs, where a
/// maximum is configured, then the one for its being too short.
pub open spec fn warnings_of(text: Seq<char>, cfg: GuardrailConfig) -> Seq<Warning> {
    let long = if cfg.max_paragraph_chars > 0 {
        long_paragraphs(lines_of(text), cfg.max_paragraph_chars)
    } else {
        Seq::empty()
    };
    long + short_output(text, cfg.min_output_chars_warn)
}

/// Checks the finished output against the guardrails. Each line that is not
/// blank and has more characters than the configured maximum gives a
/// warning; an output with fewer characters than the configured minimum
/// gives one more. A limit of zero switches its check off.
pub fn guardrail_warnings(text: &str, guardrails: &GuardrailConfig) -> (out: Vec<Warning>)
    ensures
        out@ == warnings_of(text@, *guardrails),
{
    let chars = to_chars(text);
    let mut out: Vec<Warning> = Vec::new();
    if guardrails.max_paragraph_chars > 0 {
        let limit = guardrails.max_paragraph_chars;
        let all = lines(&chars);
        let mut i: usize = 0;
        while i < all.len()
            invariant
                i <= all.len(),
                out@ == long_paragraphs(rows(all@).take(i as int), limit),
            decreases all.len() - i,
        {
            proof {
                assert(rows(all@).take(i + 1).drop_last() =~= rows(all@).take(i as int));
                assert(rows(all@).take(i + 1).last() == all@[i as int]@);
            }
            if !is_blank_line(&all[i]) && all[i].len() > limit {
                out.push(Warning::ParagraphTooLong { limit, length: all[i].len() });
            }
            i += 1;
        }
        proof {
            assert(rows(all@).take(all.len() as int) =~= rows(all@));
        }
    }
    let ghost long = out@;
    let minimum = guardrails.min_output_chars_warn;
    if minimum > 0 && chars.len() < minimum {
        out.push(Warning::OutputTooShort { minimum, length: chars.len() });
        proof {
            assert(out@ =~= long + short_output(text@, minimum));
        }
    } else {
        proof {
            assert(out@ =~= long + short_output(text@, minimum));
        }
    }
    out
}

} // verus!
