//! Structural normalisation: line endings, trailing whitespace, Unicode
//! normalisation, and the folding of quotation marks, dashes and ellipses.

use vstd::prelude::*;
use unicode_normalization::UnicodeNormalization;
use crate::chars::{
    from_chars, is_space, join_of, join_rows, lemma_first_at_bounds, lemma_lines_joined,
    lemma_replace_absent, lemma_replace_removes, lemma_replace_without_occurrence,
    lemma_trim_end, line_end, lines, lines_of, occurs, plain_endings, replace, replace_of, rows,
    strip_cr, to_chars, trim_end, trim_end_of,
};
use crate::config::{DashMode, EllipsisMode, IoConfig, UnicodeConfig, UnicodeNormalizationMode};

verus! {

/// What `nfkc` of the crate `unicode_normalization` yields for `text`: its
/// Normalization Form KC.
pub uninterp spec fn nfkc_of(text: Seq<char>) -> Seq<char>;

/// What `nfc` of the crate `unicode_normalization` yields for `text`: its
/// Normalization Form C.
pub uninterp spec fn nfc_of(text: Seq<char>) -> Seq<char>;

/// `UnicodeNormalization::nfkc` on a string, collected: the text after
/// compatibility decomposition and canonical composition.
#[verifier::external_body]
fn nfkc(text: &str) -> (out: String)
    ensures
        out@ == nfkc_of(text@),
{
    text.nfkc().collect::<String>()
}

/// `UnicodeNormalization::nfc` on a string, collected: the text after
/// canonical decomposition and canonical composition.
#[verifier::external_body]
fn nfc(text: &str) -> (out: String)
    ensures
        out@ == nfc_of(text@),
{
    text.nfc().collect::<String>()
}

/// A text with line feeds for all its line endings: first for each carriage
/// return that a line feed follows, the two taken together, then for each
/// carriage return that is left.
pub open spec fn line_endings_normalized(text: Seq<char>) -> Seq<char> {
    replace_of(replace_of(text, "\r\n"@, "\n"@), "\r"@, "\n"@)
}

/// Turns every line ending into a line feed.
pub fn normalize_line_endings(text: &str) -> (out: String)
    ensures
        out@ == line_endings_normalized(text@),
{
    let chars = to_chars(text);
    let feed = to_chars("\n");
    let first = replace(&chars, &to_chars("\r\n"), &feed);
    let second = replace(&first, &to_chars("\r"), &feed);
    from_chars(&second)
}

/// Normalising line endings leaves no carriage return, so that doing it
/// again changes nothing.
pub proof fn lemma_line_endings_idempotent(text: Seq<char>)
    ensures
        !line_endings_normalized(text).contains('\r'),
        line_endings_normalized(line_endings_normalized(text)) == line_endings_normalized(text),
{
    reveal_strlit("\r\n");
    reveal_strlit("\r");
    reveal_strlit("\n");
    let feed = "\n"@;
    assert(feed =~= seq!['\n']);
    assert("\r"@ =~= seq!['\r']);
    assert(!feed.contains('\r'));
    let once = line_endings_normalized(text);
    lemma_replace_removes(replace_of(text, "\r\n"@, feed), '\r', feed);
    assert("\r\n"@[0] == '\r');
    lemma_replace_absent(once, "\r\n"@, feed);
    lemma_replace_absent(once, "\r"@, feed);
}

/// A text without a carriage return has its line endings normalised
/// already.
pub proof fn lemma_line_endings_stay(text: Seq<char>)
    requires
        !text.contains('\r'),
    ensures
        line_endings_normalized(text) == text,
{
    reveal_strlit("\r\n");
    reveal_strlit("\r");
    assert("\r\n"@[0] == '\r');
    assert("\r"@[0] == '\r');
    lemma_replace_absent(text, "\r\n"@, "\n"@);
    lemma_replace_absent(text, "\r"@, "\n"@);
}

/// Every line of `lines` without the whitespace at its end.
pub open spec fn lines_trimmed(lines: Seq<Seq<char>>) -> Seq<Seq<char>> {
    lines.map_values(|line: Seq<char>| trim_end_of(line))
}

/// A text whose lines have lost the whitespace at their ends. The lines are
/// joined by line feeds, so that the result does not end in one.
pub open spec fn trailing_trimmed(text: Seq<char>) -> Seq<char> {
    join_of(lines_trimmed(lines_of(text)), seq!['\n'])
}

/// Whether no line of `s` ends in whitespace: what stands before a line
/// feed is no whitespace, unless it is a line feed itself.
pub open spec fn lines_end_trimmed(s: Seq<char>) -> bool {
    forall|i: int|
        0 <= i < s.len() - 1 && s[i + 1] == '\n' ==> !is_space(#[trigger] s[i]) || s[i] == '\n'
}

/// No line of a text holds a line feed.
pub proof fn lemma_lines_hold_no_feed(s: Seq<char>, i: int)
    requires
        0 <= i < lines_of(s).len(),
    ensures
        !lines_of(s)[i].contains('\n'),
    decreases s.len(),
{
    lemma_first_at_bounds(s, '\n');
    let k = line_end(s);
    if s.len() > 0 {
        if k >= s.len() {
            if s.contains('\n') {
                let j = choose|j: int| 0 <= j < s.len() && s[j] == '\n';
                assert(s[j] != '\n');
            }
        } else if i == 0 {
            let head = strip_cr(s.take(k));
            if head.contains('\n') {
                let j = choose|j: int| 0 <= j < head.len() && head[j] == '\n';
                assert(head[j] == s[j]);
            }
        } else {
            let rest = s.skip(k + 1);
            assert(lines_of(s)[i] == lines_of(rest)[i - 1]);
            lemma_lines_hold_no_feed(rest, i - 1);
        }
    }
}

/// Lines that hold no line feed and end in no whitespace, joined by line
/// feeds, give a text of which no line ends in whitespace. The text ends in
/// no whitespace but, where the last line is empty, a line feed.
pub proof fn lemma_joined_lines_end_trimmed(lines: Seq<Seq<char>>)
    requires
        forall|i: int| 0 <= i < lines.len() ==> !(#[trigger] lines[i]).contains('\n'),
        forall|i: int|
            0 <= i < lines.len() && lines[i].len() > 0 ==> !is_space((#[trigger] lines[i]).last()),
    ensures
        lines_end_trimmed(join_of(lines, seq!['\n'])),
        join_of(lines, seq!['\n']).len() > 0 ==> !is_space(join_of(lines, seq!['\n']).last())
            || join_of(lines, seq!['\n']).last() == '\n',
    decreases lines.len(),
{
    let feed = seq!['\n'];
    let out = join_of(lines, feed);
    if lines.len() == 1 {
        let only = lines[0];
        assert forall|i: int| 0 <= i < only.len() implies only[i] != '\n' by {
            if only[i] == '\n' {
                assert(only.contains(only[i]));
            }
        }
    } else if lines.len() > 1 {
        let before = lines.drop_last();
        let last = lines.last();
        assert(last == lines[lines.len() - 1]);
        assert forall|i: int| 0 <= i < before.len() implies !(#[trigger] before[i]).contains(
            '\n',
        ) by {
            assert(before[i] == lines[i]);
        }
        assert forall|i: int| 0 <= i < before.len() && before[i].len() > 0 implies !is_space(
            (#[trigger] before[i]).last(),
        ) by {
            assert(before[i] == lines[i]);
        }
        lemma_joined_lines_end_trimmed(before);
        let head = join_of(before, feed);
        assert(out == head + feed + last);
        assert forall|i: int| 0 <= i < last.len() implies last[i] != '\n' by {
            if last[i] == '\n' {
                assert(last.contains(last[i]));
            }
        }
        assert forall|i: int| 0 <= i < out.len() - 1 && out[i + 1] == '\n' implies !is_space(
            #[trigger] out[i],
        ) || out[i] == '\n' by {
            if i + 1 < head.len() {
                assert(out[i] == head[i]);
                assert(out[i + 1] == head[i + 1]);
            } else if i + 1 == head.len() {
                assert(out[i] == head.last());
            } else {
                assert(out[i + 1] == last[i + 1 - head.len() - 1]);
            }
        }
        if last.len() > 0 {
            assert(out.last() == last.last());
        } else {
            assert(out.last() == '\n');
        }
    }
}

/// Trimming the lines of a text leaves a text of which no line ends in
/// whitespace.
pub proof fn lemma_trailing_trimmed_is_trimmed(text: Seq<char>)
    ensures
        lines_end_trimmed(trailing_trimmed(text)),
{
    let lines = lines_of(text);
    let trimmed = lines_trimmed(lines);
    assert forall|i: int| 0 <= i < trimmed.len() implies !(#[trigger] trimmed[i]).contains(
        '\n',
    ) by {
        lemma_lines_hold_no_feed(text, i);
        lemma_trim_end(lines[i]);
        let line = trimmed[i];
        if line.contains('\n') {
            let j = choose|j: int| 0 <= j < line.len() && line[j] == '\n';
            assert(lines[i][j] == '\n');
        }
    }
    assert forall|i: int| 0 <= i < trimmed.len() && trimmed[i].len() > 0 implies !is_space(
        (#[trigger] trimmed[i]).last(),
    ) by {
        lemma_trim_end(lines[i]);
    }
    lemma_joined_lines_end_trimmed(trimmed);
}

/// A text of which no line ends in whitespace, and which does not end in
/// whitespace itself, has plain line endings, and trimming its lines leaves
/// it as it is.
pub proof fn lemma_trimmed_lines_stay(s: Seq<char>)
    requires
        lines_end_trimmed(s),
        s.len() > 0 ==> !is_space(s.last()),
    ensures
        plain_endings(s),
        lines_trimmed(lines_of(s)) == lines_of(s),
        trailing_trimmed(s) == s,
    decreases s.len(),
{
    assert(is_space('\n') && is_space('\r'));
    assert(plain_endings(s));
    lemma_first_at_bounds(s, '\n');
    let k = line_end(s);
    if s.len() > 0 {
        if k < s.len() {
            crate::chars::lemma_plain_endings_rest(s);
            let head = s.take(k);
            let rest = s.skip(k + 1);
            assert(rest.last() == s.last());
            assert forall|i: int| 0 <= i < rest.len() - 1 && rest[i + 1] == '\n' implies !is_space(
                #[trigger] rest[i],
            ) || rest[i] == '\n' by {
                assert(rest[i] == s[k + 1 + i]);
                assert(rest[i + 1] == s[k + 1 + i + 1]);
            }
            lemma_trimmed_lines_stay(rest);
            if head.len() > 0 {
                assert(head.last() == s[k - 1]);
                assert(s[k - 1 + 1] == '\n');
                assert(s[k - 1] != '\n');
            }
            assert(trim_end_of(head) == head);
            assert(lines_trimmed(lines_of(s)) =~= lines_of(s));
        } else {
            assert(lines_of(s) =~= seq![s]);
            assert(trim_end_of(s) == s);
            assert(lines_trimmed(lines_of(s)) =~= lines_of(s));
        }
    } else {
        assert(lines_trimmed(lines_of(s)) =~= lines_of(s));
    }
    lemma_lines_joined(s);
}

/// Takes the whitespace from the end of every line.
pub fn trim_trailing_whitespace(text: &str) -> (out: String)
    ensures
        out@ == trailing_trimmed(text@),
{
    let chars = to_chars(text);
    let all = lines(&chars);
    let mut done: Vec<Vec<char>> = Vec::new();
    let mut i: usize = 0;
    while i < all.len()
        invariant
            i <= all.len(),
            rows(done@) =~= lines_trimmed(rows(all@)).take(i as int),
        decreases all.len() - i,
    {
        let line = trim_end(&all[i]);
        proof {
            let want = lines_trimmed(rows(all@));
            assert(rows(done@.push(line)) =~= rows(done@).push(line@));
            assert(want.take(i + 1) =~= want.take(i as int).push(line@));
        }
        done.push(line);
        i += 1;
    }
    proof {
        let want = lines_trimmed(rows(all@));
        assert(want.take(all.len() as int) =~= want);
    }
    let mut feed: Vec<char> = Vec::new();
    feed.push('\n');
    proof {
        assert(feed@ =~= seq!['\n']);
    }
    let joined = join_rows(&done, &feed);
    from_chars(&joined)
}

/// A text in the normalisation form that `mode` names.
pub open spec fn unicode_normalized(text: Seq<char>, mode: UnicodeNormalizationMode) -> Seq<
    char,
> {
    match mode {
        UnicodeNormalizationMode::Nfkc => nfkc_of(text),
        UnicodeNormalizationMode::Nfc => nfc_of(text),
        UnicodeNormalizationMode::Off => text,
    }
}

/// Brings the text into the normalisation form that `mode` names.
pub fn normalize_unicode(text: &str, mode: UnicodeNormalizationMode) -> (out: String)
    ensures
        out@ == unicode_normalized(text@, mode),
{
    match mode {
        UnicodeNormalizationMode::Nfkc => nfkc(text),
        UnicodeNormalizationMode::Nfc => nfc(text),
        UnicodeNormalizationMode::Off => text.to_owned(),
    }
}

/// A text with straight quotation marks in place of the four curly ones.
pub open spec fn quotes_folded(text: Seq<char>) -> Seq<char> {
    let a = replace_of(text, "\u{2019}"@, "'"@);
    let b = replace_of(a, "\u{2018}"@, "'"@);
    let c = replace_of(b, "\u{201c}"@, "\""@);
    replace_of(c, "\u{201d}"@, "\""@)
}

/// Folds the curly single and double quotation marks to the straight ones.
pub fn fold_quotes(text: &str) -> (out: String)
    ensures
        out@ == quotes_folded(text@),
{
    let single = to_chars("'");
    let double = to_chars("\"");
    let a = replace(&to_chars(text), &to_chars("\u{2019}"), &single);
    let b = replace(&a, &to_chars("\u{2018}"), &single);
    let c = replace(&b, &to_chars("\u{201c}"), &double);
    let d = replace(&c, &to_chars("\u{201d}"), &double);
    from_chars(&d)
}

/// A text without a curly quotation mark is left as it is.
pub proof fn lemma_quotes_stay(text: Seq<char>)
    requires
        !text.contains('\u{2019}'),
        !text.contains('\u{2018}'),
        !text.contains('\u{201c}'),
        !text.contains('\u{201d}'),
    ensures
        quotes_folded(text) == text,
{
    reveal_strlit("\u{2019}");
    reveal_strlit("\u{2018}");
    reveal_strlit("\u{201c}");
    reveal_strlit("\u{201d}");
    assert("\u{2019}"@[0] == '\u{2019}');
    assert("\u{2018}"@[0] == '\u{2018}');
    assert("\u{201c}"@[0] == '\u{201c}');
    assert("\u{201d}"@[0] == '\u{201d}');
    lemma_replace_absent(text, "\u{2019}"@, "'"@);
    lemma_replace_absent(text, "\u{2018}"@, "'"@);
    lemma_replace_absent(text, "\u{201c}"@, "\""@);
    lemma_replace_absent(text, "\u{201d}"@, "\""@);
}

/// A text with its em dashes and en dashes folded as `mode` says.
pub open spec fn dashes_folded(text: Seq<char>, mode: DashMode) -> Seq<char> {
    match mode {
        DashMode::Comma => replace_of(
            replace_of(text, "\u{2014}"@, ", "@),
            "\u{2013}"@,
            ", "@,
        ),
        DashMode::Hyphen => replace_of(
            replace_of(text, "\u{2014}"@, " - "@),
            "\u{2013}"@,
            " - "@,
        ),
        DashMode::Keep => text,
    }
}

/// Folds em dashes and en dashes to a comma and a space, to a spaced
/// hyphen, or not at all.
pub fn fold_dashes(text: &str, mode: DashMode) -> (out: String)
    ensures
        out@ == dashes_folded(text@, mode),
{
    match mode {
        DashMode::Comma => {
            let to = to_chars(", ");
            let a = replace(&to_chars(text), &to_chars("\u{2014}"), &to);
            let b = replace(&a, &to_chars("\u{2013}"), &to);
            from_chars(&b)
        },
        DashMode::Hyphen => {
            let to = to_chars(" - ");
            let a = replace(&to_chars(text), &to_chars("\u{2014}"), &to);
            let b = replace(&a, &to_chars("\u{2013}"), &to);
            from_chars(&b)
        },
        DashMode::Keep => text.to_owned(),
    }
}

/// A text without an em dash or an en dash is left as it is.
pub proof fn lemma_dashes_stay(text: Seq<char>, mode: DashMode)
    requires
        mode != DashMode::Keep ==> !text.contains('\u{2014}') && !text.contains('\u{2013}'),
    ensures
        dashes_folded(text, mode) == text,
{
    reveal_strlit("\u{2014}");
    reveal_strlit("\u{2013}");
    assert("\u{2014}"@[0] == '\u{2014}');
    assert("\u{2013}"@[0] == '\u{2013}');
    if mode == DashMode::Comma {
        lemma_replace_absent(text, "\u{2014}"@, ", "@);
        lemma_replace_absent(text, "\u{2013}"@, ", "@);
    } else if mode == DashMode::Hyphen {
        lemma_replace_absent(text, "\u{2014}"@, " - "@);
        lemma_replace_absent(text, "\u{2013}"@, " - "@);
    }
}

/// A text with its ellipses folded as `mode` says.
pub open spec fn ellipses_folded(text: Seq<char>, mode: EllipsisMode) -> Seq<char> {
    match mode {
        EllipsisMode::Period => replace_of(replace_of(text, "\u{2026}"@, "."@), "..."@, "."@),
        EllipsisMode::Triple => replace_of(text, "\u{2026}"@, "..."@),
        EllipsisMode::Keep => text,
    }
}

/// Folds the ellipsis character and three periods in a row to one period,
/// the ellipsis character to three periods, or nothing at all.
pub fn fold_ellipses(text: &str, mode: EllipsisMode) -> (out: String)
    ensures
        out@ == ellipses_folded(text@, mode),
{
    match mode {
        EllipsisMode::Period => {
            let to = to_chars(".");
            let a = replace(&to_chars(text), &to_chars("\u{2026}"), &to);
            let b = replace(&a, &to_chars("..."), &to);
            from_chars(&b)
        },
        EllipsisMode::Triple => {
            let a = replace(&to_chars(text), &to_chars("\u{2026}"), &to_chars("..."));
            from_chars(&a)
        },
        EllipsisMode::Keep => text.to_owned(),
    }
}

/// A text without an ellipsis is left as it is.
pub proof fn lemma_ellipses_stay(text: Seq<char>, mode: EllipsisMode)
    requires
        mode != EllipsisMode::Keep ==> !text.contains('\u{2026}'),
        mode == EllipsisMode::Period ==> !occurs(text, "..."@),
    ensures
        ellipses_folded(text, mode) == text,
{
    reveal_strlit("\u{2026}");
    assert("\u{2026}"@[0] == '\u{2026}');
    if mode == EllipsisMode::Period {
        lemma_replace_absent(text, "\u{2026}"@, "."@);
        lemma_replace_without_occurrence(text, "..."@, "."@);
    } else if mode == EllipsisMode::Triple {
        lemma_replace_absent(text, "\u{2026}"@, "..."@);
    }
}

/// What `normalize_structure` returns: the text after line endings,
/// trailing whitespace, Unicode normalisation, quotation marks, dashes and
/// ellipses have been seen to, in this order, each as far as the
/// configuration asks for it.
pub open spec fn structure_normalized(text: Seq<char>, io: IoConfig, unicode: UnicodeConfig) -> Seq<
    char,
> {
    let a = if io.normalize_line_endings {
        line_endings_normalized(text)
    } else {
        text
    };
    let b = if io.trim_trailing_whitespace {
        trailing_trimmed(a)
    } else {
        a
    };
    let c = unicode_normalized(b, unicode.normalization);
    let d = if unicode.ascii_quotes {
        quotes_folded(c)
    } else {
        c
    };
    ellipses_folded(dashes_folded(d, unicode.dash_mode), unicode.ellipsis_mode)
}

/// Makes the structure of lines and characters predictable. Unicode
/// normalisation runs before quotation marks, dashes and ellipses are
/// folded, so that these rules meet composed characters.
pub fn normalize_structure(text: &str, io: &IoConfig, unicode: &UnicodeConfig) -> (out: String)
    ensures
        out@ == structure_normalized(text@, *io, *unicode),
{
    let mut out = text.to_owned();
    if io.normalize_line_endings {
        out = normalize_line_endings(out.as_str());
    }
    if io.trim_trailing_whitespace {
        out = trim_trailing_whitespace(out.as_str());
    }
    out = normalize_unicode(out.as_str(), unicode.normalization);
    if unicode.ascii_quotes {
        out = fold_quotes(out.as_str());
    }
    out = fold_dashes(out.as_str(), unicode.dash_mode);
    fold_ellipses(out.as_str(), unicode.ellipsis_mode)
}

} // verus!
