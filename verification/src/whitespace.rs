//! Whitespace collapse: runs of spaces, whitespace before punctuation, and
//! runs of blank lines.

use vstd::prelude::*;
use crate::chars::{
    from_chars, is_blank, is_blank_line, join_of, join_rows, lines, lines_of, rows, slice,
    to_chars,
};

use crate::config::WhitespaceConfig;
use crate::engine::{rewrite_with, rewritten};
use crate::patterns::PatternSet;

verus! {

/// A run of spaces, tabs and no-break spaces.
pub const SPACE_RUN: &'static str = r"[ \t\u{00A0}]+";

/// Whitespace before a comma, period, semicolon, colon, exclamation mark or
/// question mark; the first group is the punctuation mark.
pub const SPACE_BEFORE_PUNCT: &'static str = r"\s+([,.;:!?])";

/// What `collapse_horizontal` returns.
pub open spec fn horizontal_collapsed(text: Seq<char>) -> Seq<char> {
    rewritten(SPACE_RUN@, text, " "@)
}

/// Puts one space in place of every run of spaces, tabs and no-break
/// spaces.
pub fn collapse_horizontal(text: &str, patterns: &PatternSet) -> (out: String)
    ensures
        out@ == horizontal_collapsed(text@),
{
    proof {
        use_type_invariant(patterns);
    }
    rewrite_with(&patterns.space_run, text, " ", Ghost(SPACE_RUN@))
}

/// What `remove_space_before_punct` returns.
pub open spec fn space_before_punct_removed(text: Seq<char>) -> Seq<char> {
    rewritten(SPACE_BEFORE_PUNCT@, text, "$1"@)
}

/// Deletes the whitespace that stands directly before a comma, period,
/// semicolon, colon, exclamation mark or question mark.
pub fn remove_space_before_punct(text: &str, patterns: &PatternSet) -> (out: String)
    ensures
        out@ == space_before_punct_removed(text@),
{
    proof {
        use_type_invariant(patterns);
    }
    rewrite_with(&patterns.space_before_punct, text, "$1", Ghost(SPACE_BEFORE_PUNCT@))
}

/// How many blank lines stand at the end of `lines` without a break.
pub open spec fn blank_run(lines: Seq<Seq<char>>) -> nat
    decreases lines.len(),
{
    if lines.len() > 0 && is_blank(lines.last()) {
        blank_run(lines.drop_last()) + 1
    } else {
        0
    }
}

/// `lines` with at most `max` blank lines in a row: a blank line that has
/// `max` or more blank lines directly before it is dropped, each blank line
/// that stays is emptied, and every other line stays as it is.
pub open spec fn blank_lines_collapsed(lines: Seq<Seq<char>>, max: nat) -> Seq<Seq<char>>
    decreases lines.len(),
{
    if lines.len() == 0 {
        lines
    } else if is_blank(lines.last()) {
        if blank_run(lines.drop_last()) < max {
            blank_lines_collapsed(lines.drop_last(), max).push(Seq::empty())
        } else {
            blank_lines_collapsed(lines.drop_last(), max)
        }
    } else {
        blank_lines_collapsed(lines.drop_last(), max).push(lines.last())
    }
}

/// The run at the end of the collapsed lines holds the blank lines of the
/// run at the end of the lines, up to the limit.
pub proof fn lemma_collapsed_blank_run(lines: Seq<Seq<char>>, max: nat)
    requires
        max > 0,
    ensures
        blank_run(blank_lines_collapsed(lines, max)) == (if blank_run(lines) < max {
            blank_run(lines)
        } else {
            max
        }),
    decreases lines.len(),
{
    if lines.len() > 0 {
        let before = lines.drop_last();
        lemma_collapsed_blank_run(before, max);
        let out = blank_lines_collapsed(before, max);
        if is_blank(lines.last()) {
            if blank_run(before) < max {
                let empty = Seq::<char>::empty();
                assert(out.push(empty).drop_last() =~= out);
                assert(is_blank(empty));
            }
        } else {
            assert(out.push(lines.last()).drop_last() =~= out);
        }
    }
}

/// After collapsing, no more than `max` blank lines follow each other:
/// wherever the collapsed lines are cut, the run of blank lines that ends
/// there is within the limit.
pub proof fn lemma_blank_runs_are_bounded(lines: Seq<Seq<char>>, max: nat, k: int)
    requires
        max > 0,
        0 <= k <= blank_lines_collapsed(lines, max).len(),
    ensures
        blank_run(blank_lines_collapsed(lines, max).take(k)) <= max,
    decreases lines.len(),
{
    let out = blank_lines_collapsed(lines, max);
    if k == out.len() {
        lemma_collapsed_blank_run(lines, max);
        assert(out.take(k) =~= out);
    } else {
        let before = blank_lines_collapsed(lines.drop_last(), max);
        assert(out.take(k) =~= before.take(k));
        lemma_blank_runs_are_bounded(lines.drop_last(), max, k);
    }
}

/// Collapsing the blank lines of collapsed lines changes nothing.
pub proof fn lemma_collapse_blank_lines_idempotent(lines: Seq<Seq<char>>, max: nat)
    requires
        max > 0,
    ensures
        blank_lines_collapsed(blank_lines_collapsed(lines, max), max) == blank_lines_collapsed(
            lines,
            max,
        ),
    decreases lines.len(),
{
    if lines.len() > 0 {
        let before = lines.drop_last();
        lemma_collapse_blank_lines_idempotent(before, max);
        lemma_collapsed_blank_run(before, max);
        let out = blank_lines_collapsed(before, max);
        if is_blank(lines.last()) {
            if blank_run(before) < max {
                let empty = Seq::<char>::empty();
                assert(out.push(empty).drop_last() =~= out);
                assert(is_blank(empty));
            }
        } else {
            assert(out.push(lines.last()).drop_last() =~= out);
        }
    }
}

/// Whether `lines` have their blank lines collapsed already: each blank
/// line is empty, and no more than `max` of them follow each other.
pub open spec fn blank_lines_within(lines: Seq<Seq<char>>, max: nat) -> bool {
    &&& forall|i: int| 0 <= i < lines.len() && is_blank(#[trigger] lines[i]) ==> lines[i].len() == 0
    &&& forall|k: int| 0 <= k <= lines.len() ==> blank_run(#[trigger] lines.take(k)) <= max
}

/// Collapsing leaves lines alone whose blank lines are collapsed already.
pub proof fn lemma_blank_lines_within_limit_stay(lines: Seq<Seq<char>>, max: nat)
    requires
        blank_lines_within(lines, max),
    ensures
        blank_lines_collapsed(lines, max) == lines,
    decreases lines.len(),
{
    if lines.len() > 0 {
        let before = lines.drop_last();
        assert(blank_lines_within(before, max)) by {
            assert forall|i: int| 0 <= i < before.len() && is_blank(
                #[trigger] before[i],
            ) implies before[i].len() == 0 by {
                assert(before[i] == lines[i]);
            }
            assert forall|k: int| 0 <= k <= before.len() implies blank_run(
                #[trigger] before.take(k),
            ) <= max by {
                assert(before.take(k) =~= lines.take(k));
            }
        }
        lemma_blank_lines_within_limit_stay(before, max);
        assert(lines.take(lines.len() as int) =~= lines);
        assert(blank_run(lines.take(lines.len() as int)) <= max);
        let last = lines.last();
        assert(last == lines[lines.len() - 1]);
        if is_blank(last) {
            assert(last =~= Seq::<char>::empty());
        }
        assert(before.push(last) =~= lines);
    }
}

/// What `collapse_blank_lines` returns: the text itself for a limit of zero,
/// else its lines, with at most `max` blank ones in a row, joined by line
/// feeds.
pub open spec fn collapse_blank_lines_of(text: Seq<char>, max: nat) -> Seq<char> {
    if max == 0 {
        text
    } else {
        join_of(blank_lines_collapsed(lines_of(text), max), seq!['\n'])
    }
}

/// Leaves at most `max_blank` blank lines in a row. The count starts again
/// after every line that is not blank. A limit of zero leaves the text
/// alone.
pub fn collapse_blank_lines(text: &str, max_blank: usize) -> (out: String)
    ensures
        out@ == collapse_blank_lines_of(text@, max_blank as nat),
{
    if max_blank == 0 {
        return text.to_owned();
    }
    let chars = to_chars(text);
    let all = lines(&chars);
    let mut kept: Vec<Vec<char>> = Vec::new();
    let mut count: usize = 0;
    let mut i: usize = 0;
    while i < all.len()
        invariant
            i <= all.len(),
            count <= i,
            count == blank_run(rows(all@).take(i as int)),
            rows(kept@) == blank_lines_collapsed(rows(all@).take(i as int), max_blank as nat),
        decreases all.len() - i,
    {
        proof {
            assert(rows(all@).take(i + 1).drop_last() =~= rows(all@).take(i as int));
            assert(rows(all@).take(i + 1).last() == all@[i as int]@);
        }
        if is_blank_line(&all[i]) {
            if count < max_blank {
                let empty: Vec<char> = Vec::new();
                proof {
                    assert(rows(kept@.push(empty)) =~= rows(kept@).push(empty@));
                }
                kept.push(empty);
            }
            count += 1;
        } else {
            count = 0;
            let line = slice(&all[i], 0, all[i].len());
            proof {
                assert(line@ =~= all@[i as int]@);
                assert(rows(kept@.push(line)) =~= rows(kept@).push(line@));
            }
            kept.push(line);
        }
        i += 1;
    }
    proof {
        assert(rows(all@).take(all.len() as int) =~= rows(all@));
    }
    let mut newline: Vec<char> = Vec::new();
    newline.push('\n');
    proof {
        assert(newline@ =~= seq!['\n']);
    }
    let joined = join_rows(&kept, &newline);
    from_chars(&joined)
}

/// What `collapse_whitespace` returns: the text after runs of spaces,
/// whitespace before punctuation and runs of blank lines have been seen to,
/// in this order, each as far as the configuration asks for it.
pub open spec fn whitespace_collapsed(text: Seq<char>, cfg: WhitespaceConfig) -> Seq<char> {
    let a = if cfg.collapse_horizontal {
        horizontal_collapsed(text)
    } else {
        text
    };
    let b = if cfg.remove_space_before_punct {
        space_before_punct_removed(a)
    } else {
        a
    };
    collapse_blank_lines_of(b, cfg.max_consecutive_blank_lines as nat)
}

/// Collapses whitespace: runs of spaces become one space, whitespace before
/// punctuation goes, and blank lines are limited.
pub fn collapse_whitespace(text: &str, cfg: &WhitespaceConfig, patterns: &PatternSet) -> (out:
    String)
    ensures
        out@ == whitespace_collapsed(text@, *cfg),
{
    let mut out = text.to_owned();
    if cfg.collapse_horizontal {
        out = collapse_horizontal(out.as_str(), patterns);
    }
    if cfg.remove_space_before_punct {
        out = remove_space_before_punct(out.as_str(), patterns);
    }
    collapse_blank_lines(out.as_str(), cfg.max_consecutive_blank_lines)
}

} // verus!
