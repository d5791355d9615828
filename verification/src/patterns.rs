//! The registry of compiled patterns.
//!
//! The patterns that do not depend on the configuration are compiled once,
//! when the registry is made, and handed to the stages by reference. A
//! registry never changes; one is enough for any number of texts. Patterns
//! that are made from the configuration (brand names, acronyms, the least
//! length of a decorative run) are compiled where they are used.

use vstd::prelude::*;
use crate::engine::{compile, compiled_from, Pattern};
use crate::markup::{
    CODE_FENCE, GENERIC_BRACKETS, GENERIC_PARENTHESES, INLINE_CODE, MARKDOWN_LINK,
    NUMERIC_CITATION, PARENTHETICAL_CITATION, STACKED_NUMERIC_CITATION,
};
use crate::pronounce::{ACRONYM_SEQUENCE, HTML_CLOSE, HTML_OPEN, SELECTOR, VERSION, YEAR};
use crate::punctuation::COMMA_BEFORE_PERIOD;
use crate::whitespace::{SPACE_BEFORE_PUNCT, SPACE_RUN};

verus! {

/// The compiled forms of the fixed patterns. Each place holds what the
/// engine made of its pattern, or nothing where the engine did not accept
/// the pattern; a stage whose pattern was not accepted leaves the text as it
/// is.
pub struct PatternSet {
    pub(crate) code_fence: Option<Pattern>,
    pub(crate) inline_code: Option<Pattern>,
    pub(crate) markdown_link: Option<Pattern>,
    pub(crate) stacked_numeric_citation: Option<Pattern>,
    pub(crate) numeric_citation: Option<Pattern>,
    pub(crate) parenthetical_citation: Option<Pattern>,
    pub(crate) generic_brackets: Option<Pattern>,
    pub(crate) generic_parentheses: Option<Pattern>,
    pub(crate) space_run: Option<Pattern>,
    pub(crate) space_before_punct: Option<Pattern>,
    pub(crate) year: Option<Pattern>,
    pub(crate) version: Option<Pattern>,
    pub(crate) html_open: Option<Pattern>,
    pub(crate) html_close: Option<Pattern>,
    pub(crate) selector: Option<Pattern>,
    pub(crate) acronym_sequence: Option<Pattern>,
    pub(crate) comma_before_period: Option<Pattern>,
}

/// The fixed patterns, in the order of the places of a registry.
pub open spec fn fixed_patterns() -> Seq<Seq<char>> {
    seq![
        CODE_FENCE@,
        INLINE_CODE@,
        MARKDOWN_LINK@,
        STACKED_NUMERIC_CITATION@,
        NUMERIC_CITATION@,
        PARENTHETICAL_CITATION@,
        GENERIC_BRACKETS@,
        GENERIC_PARENTHESES@,
        SPACE_RUN@,
        SPACE_BEFORE_PUNCT@,
        YEAR@,
        VERSION@,
        HTML_OPEN@,
        HTML_CLOSE@,
        SELECTOR@,
        ACRONYM_SEQUENCE@,
        COMMA_BEFORE_PERIOD@,
    ]
}

impl PatternSet {
    /// What the places of the registry hold, in their order.
    pub closed spec fn slots(self) -> Seq<Option<Pattern>> {
        seq![
            self.code_fence,
            self.inline_code,
            self.markdown_link,
            self.stacked_numeric_citation,
            self.numeric_citation,
            self.parenthetical_citation,
            self.generic_brackets,
            self.generic_parentheses,
            self.space_run,
            self.space_before_punct,
            self.year,
            self.version,
            self.html_open,
            self.html_close,
            self.selector,
            self.acronym_sequence,
            self.comma_before_period,
        ]
    }

    #[verifier::type_invariant]
    pub(crate) open spec fn compiled(self) -> bool {
        &&& compiled_from(self.code_fence, CODE_FENCE@)
        &&& compiled_from(self.inline_code, INLINE_CODE@)
        &&& compiled_from(self.markdown_link, MARKDOWN_LINK@)
        &&& compiled_from(self.stacked_numeric_citation, STACKED_NUMERIC_CITATION@)
        &&& compiled_from(self.numeric_citation, NUMERIC_CITATION@)
        &&& compiled_from(self.parenthetical_citation, PARENTHETICAL_CITATION@)
        &&& compiled_from(self.generic_brackets, GENERIC_BRACKETS@)
        &&& compiled_from(self.generic_parentheses, GENERIC_PARENTHESES@)
        &&& compiled_from(self.space_run, SPACE_RUN@)
        &&& compiled_from(self.space_before_punct, SPACE_BEFORE_PUNCT@)
        &&& compiled_from(self.year, YEAR@)
        &&& compiled_from(self.version, VERSION@)
        &&& compiled_from(self.html_open, HTML_OPEN@)
        &&& compiled_from(self.html_close, HTML_CLOSE@)
        &&& compiled_from(self.selector, SELECTOR@)
        &&& compiled_from(self.acronym_sequence, ACRONYM_SEQUENCE@)
        &&& compiled_from(self.comma_before_period, COMMA_BEFORE_PERIOD@)
    }

    /// Compiles the fixed patterns. Each place of the registry holds what
    /// the engine made of its pattern: the compiled pattern where the engine
    /// accepts it, nothing where it does not. The stages rely on this, which
    /// is also the invariant of the type.
    pub fn new() -> (out: Self)
        ensures
            out.slots().len() == fixed_patterns().len(),
            forall|i: int|
                0 <= i < fixed_patterns().len() ==> compiled_from(
                    #[trigger] out.slots()[i],
                    fixed_patterns()[i],
                ),
    {
        PatternSet {
            code_fence: compile(CODE_FENCE),
            inline_code: compile(INLINE_CODE),
            markdown_link: compile(MARKDOWN_LINK),
            stacked_numeric_citation: compile(STACKED_NUMERIC_CITATION),
            numeric_citation: compile(NUMERIC_CITATION),
            parenthetical_citation: compile(PARENTHETICAL_CITATION),
            generic_brackets: compile(GENERIC_BRACKETS),
            generic_parentheses: compile(GENERIC_PARENTHESES),
            space_run: compile(SPACE_RUN),
            space_before_punct: compile(SPACE_BEFORE_PUNCT),
            year: compile(YEAR),
            version: compile(VERSION),
            html_open: compile(HTML_OPEN),
            html_close: compile(HTML_CLOSE),
            selector: compile(SELECTOR),
            acronym_sequence: compile(ACRONYM_SEQUENCE),
            comma_before_period: compile(COMMA_BEFORE_PERIOD),
        }
    }
}

} // verus!
