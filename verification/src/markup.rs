//! Markdown and citation stripping: markup that has nothing to be spoken.

use vstd::prelude::*;
use crate::config::{CitationConfig, MarkdownConfig};
use crate::engine::{find_match, replace_matches, rewrite_with, rewritten};
use crate::patterns::PatternSet;

verus! {

/// A fenced code block: from three backticks to the next three, across
/// lines.
pub const CODE_FENCE: &'static str = r"(?s)```.*?```";

/// Inline code: one or more characters between two backticks.
pub const INLINE_CODE: &'static str = r"`([^`]+)`";

/// A markdown link: a label in brackets and a target in parentheses.
pub const MARKDOWN_LINK: &'static str = r"\[([^]]+)\]\([^)]*\)";

/// Two or more bracketed numbers in a row.
pub const STACKED_NUMERIC_CITATION: &'static str = r"(?:\[\s*\d+\s*\]){2,}";

/// One bracketed number.
pub const NUMERIC_CITATION: &'static str = r"\[\s*\d+\s*\]";

/// A parenthesised list of numbers with commas between them.
pub const PARENTHETICAL_CITATION: &'static str = r"\(\s*\d+(?:,\s*\d+)*\s*\)";

/// Brackets that hold at least one digit.
pub const GENERIC_BRACKETS: &'static str = r"\[[^\]]*?\d[^\]]*?\]";

/// Parentheses that hold at least one digit.
pub const GENERIC_PARENTHESES: &'static str = r"\([^)]*?\d[^)]*?\)";

/// What `strip_markdown` returns: the text after each of the three rules
/// that the configuration switches on, in this order: fenced code blocks
/// give way to the configured replacement, inline code and links to what
/// their first group holds.
pub open spec fn markdown_stripped(text: Seq<char>, cfg: MarkdownConfig) -> Seq<char> {
    let a = if cfg.drop_code_fences {
        rewritten(CODE_FENCE@, text, cfg.code_fence_replacement@)
    } else {
        text
    };
    let b = if cfg.strip_inline_code {
        rewritten(INLINE_CODE@, a, "$1"@)
    } else {
        a
    };
    if cfg.strip_markdown_links {
        rewritten(MARKDOWN_LINK@, b, "$1"@)
    } else {
        b
    }
}

/// Takes out markdown: fenced code blocks are replaced by the configured
/// text, inline code loses its backticks, and a link is reduced to its
/// label. Each rule works on what the rule before it left. In the
/// configured text, `$` refers to capture groups of the engine.
pub fn strip_markdown(text: &str, cfg: &MarkdownConfig, patterns: &PatternSet) -> (out: String)
    ensures
        out@ == markdown_stripped(text@, *cfg),
{
    proof {
        use_type_invariant(patterns);
    }
    let mut out = text.to_owned();
    if cfg.drop_code_fences {
        match &patterns.code_fence {
            Some(fence) => {
                if find_match(fence, out.as_str()) {
                    let replacement = cfg.code_fence_replacement.as_str();
                    out = replace_matches(fence, out.as_str(), replacement);
                }
            },
            None => {},
        }
    }
    if cfg.strip_inline_code {
        out = rewrite_with(&patterns.inline_code, out.as_str(), "$1", Ghost(INLINE_CODE@));
    }
    if cfg.strip_markdown_links {
        out = rewrite_with(&patterns.markdown_link, out.as_str(), "$1", Ghost(MARKDOWN_LINK@));
    }
    out
}

/// What `strip_citations` returns: the text after each of the five rules
/// that the configuration switches on, in this order: stacked bracketed
/// numbers, single bracketed numbers, parenthesised lists of numbers,
/// brackets with a digit, parentheses with a digit. What a rule matches is
/// deleted.
pub open spec fn citations_stripped(text: Seq<char>, cfg: CitationConfig) -> Seq<char> {
    let a = if cfg.drop_stacked_numeric_brackets {
        rewritten(STACKED_NUMERIC_CITATION@, text, ""@)
    } else {
        text
    };
    let b = if cfg.drop_numeric_brackets {
        rewritten(NUMERIC_CITATION@, a, ""@)
    } else {
        a
    };
    let c = if cfg.drop_parenthetical_numeric {
        rewritten(PARENTHETICAL_CITATION@, b, ""@)
    } else {
        b
    };
    let d = if cfg.drop_generic_brackets {
        rewritten(GENERIC_BRACKETS@, c, ""@)
    } else {
        c
    };
    if cfg.drop_generic_parentheses {
        rewritten(GENERIC_PARENTHESES@, d, ""@)
    } else {
        d
    }
}

/// Deletes citation markers. The rule for stacked bracketed numbers runs
/// before the rule for single ones, so that a stack goes as one.
pub fn strip_citations(text: &str, cfg: &CitationConfig, patterns: &PatternSet) -> (out: String)
    ensures
        out@ == citations_stripped(text@, *cfg),
{
    proof {
        use_type_invariant(patterns);
    }
    let mut out = text.to_owned();
    if cfg.drop_stacked_numeric_brackets {
        out = rewrite_with(
            &patterns.stacked_numeric_citation,
            out.as_str(),
            "",
            Ghost(STACKED_NUMERIC_CITATION@),
        );
    }
    if cfg.drop_numeric_brackets {
        out = rewrite_with(
            &patterns.numeric_citation,
            out.as_str(),
            "",
            Ghost(NUMERIC_CITATION@),
        );
    }
    if cfg.drop_parenthetical_numeric {
        out = rewrite_with(
            &patterns.parenthetical_citation,
            out.as_str(),
            "",
            Ghost(PARENTHETICAL_CITATION@),
        );
    }
    if cfg.drop_generic_brackets {
        out = rewrite_with(
            &patterns.generic_brackets,
            out.as_str(),
            "",
            Ghost(GENERIC_BRACKETS@),
        );
    }
    if cfg.drop_generic_parentheses {
        out = rewrite_with(
            &patterns.generic_parentheses,
            out.as_str(),
            "",
            Ghost(GENERIC_PARENTHESES@),
        );
    }
    out
}

} // verus!
