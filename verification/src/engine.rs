//! The pattern engine.
//!
//! Matching is done by the `regex` crate. Nothing here is proved of it: each
//! function that calls it states what the crate's documentation and source
//! say of one of its functions, and the rest of the library is verified
//! against these statements. What a call returns is named by a function of
//! the pattern and the text, so that the stages can say exactly what they
//! hand to the engine and what they do with its answer.

use vstd::prelude::*;
use vstd::string::StringExecFns;
use crate::chars::texts;

verus! {

/// Whether `Regex::new` accepts `pattern`.
pub uninterp spec fn pattern_compiles(pattern: Seq<char>) -> bool;

/// What `Regex::is_match` returns for `text`: whether the pattern matches
/// anywhere in it.
pub uninterp spec fn pattern_found(pattern: Seq<char>, text: Seq<char>) -> bool;

/// What `Regex::replace_all` returns for `text` and a replacement string, in
/// which `$` refers to capture groups.
pub uninterp spec fn pattern_replaced(
    pattern: Seq<char>,
    text: Seq<char>,
    replacement: Seq<char>,
) -> Seq<char>;

/// For each match that `Regex::captures_iter` finds in `text`, from the
/// left, what capture group `group` holds: its text, or nothing where the
/// group took no part in the match or does not exist.
pub uninterp spec fn pattern_groups(pattern: Seq<char>, text: Seq<char>, group: nat) -> Seq<
    Option<Seq<char>>,
>;

/// What `Regex::split` yields for `text`: the pieces of the text that no
/// match covers, from the left.
pub uninterp spec fn pattern_gaps(pattern: Seq<char>, text: Seq<char>) -> Seq<Seq<char>>;

/// The views of a sequence of optional strings.
pub open spec fn option_texts(parts: Seq<Option<String>>) -> Seq<Option<Seq<char>>> {
    parts.map_values(
        |part: Option<String>|
            match part {
                Some(s) => Some(s@),
                None => None,
            },
    )
}

/// How many matches the pattern has in `text`.
pub open spec fn match_count(pattern: Seq<char>, text: Seq<char>) -> nat {
    pattern_groups(pattern, text, 0).len()
}

/// A compiled pattern of the `regex` crate.
#[verifier::external_type_specification]
#[verifier::external_body]
pub struct ExRegex(regex::Regex);

/// A pattern that the engine has accepted, together with its text. Only
/// `compile` makes one, so that the compiled form always belongs to the
/// text.
pub struct Pattern {
    source: String,
    compiled: regex::Regex,
}

impl View for Pattern {
    type V = Seq<char>;

    closed spec fn view(&self) -> Seq<char> {
        self.source@
    }
}

/// `Regex::new`. The result is `None` exactly when the pattern is not
/// accepted; else it holds the compiled pattern with the text it was made
/// from.
#[verifier::external_body]
pub(crate) fn compile(pattern: &str) -> (out: Option<Pattern>)
    ensures
        out is Some <==> pattern_compiles(pattern@),
        out matches Some(p) ==> p@ == pattern@,
{
    regex::Regex::new(pattern).ok().map(
        |compiled| Pattern { source: pattern.to_owned(), compiled },
    )
}

/// Whether `slot` holds what `compile` makes of `source`: the compiled
/// pattern, or nothing where the engine does not accept the pattern.
pub open spec fn compiled_from(slot: Option<Pattern>, source: Seq<char>) -> bool {
    match slot {
        Some(pattern) => pattern@ == source && pattern_compiles(source),
        None => !pattern_compiles(source),
    }
}

/// `Regex::is_match`: whether the pattern matches anywhere in `text`.
#[verifier::external_body]
pub(crate) fn find_match(pattern: &Pattern, text: &str) -> (out: bool)
    ensures
        out == pattern_found(pattern@, text@),
{
    pattern.compiled.is_match(text)
}

/// `Regex::replace_all` with a replacement string: the text with every
/// match replaced. A text in which the pattern does not match comes back
/// unchanged.
#[verifier::external_body]
pub(crate) fn replace_matches(pattern: &Pattern, text: &str, replacement: &str) -> (out: String)
    ensures
        out@ == pattern_replaced(pattern@, text@, replacement@),
        !pattern_found(pattern@, text@) ==> out@ == text@,
{
    pattern.compiled.replace_all(text, replacement).into_owned()
}

/// `Regex::captures_iter`, with `Captures::get` for `group` on each match.
/// The result has one element for each match, from the left, whatever the
/// group: the text of the group, or nothing where the group took no part in
/// the match or does not exist.
#[verifier::external_body]
pub(crate) fn match_groups(pattern: &Pattern, text: &str, group: usize) -> (out: Vec<
    Option<String>,
>)
    ensures
        option_texts(out@) == pattern_groups(pattern@, text@, group as nat),
        out.len() == pattern_groups(pattern@, text@, 0).len(),
{
    pattern.compiled.captures_iter(text).map(
        |caps| caps.get(group).map(|m| m.as_str().to_owned()),
    ).collect()
}

/// `Regex::split`: the pieces of the text that no match covers. There is
/// one piece more than there are matches: what stands before the first
/// match, between each two neighbours, and after the last.
#[verifier::external_body]
pub(crate) fn match_gaps(pattern: &Pattern, text: &str) -> (out: Vec<String>)
    ensures
        texts(out@) == pattern_gaps(pattern@, text@),
        out.len() == pattern_groups(pattern@, text@, 0).len() + 1,
{
    pattern.compiled.split(text).map(|piece| piece.to_owned()).collect()
}

/// Whether `c` has a meaning of its own in a pattern.
pub open spec fn is_meta(c: char) -> bool {
    ||| c == '\\'
    ||| c == '.'
    ||| c == '+'
    ||| c == '*'
    ||| c == '?'
    ||| c == '('
    ||| c == ')'
    ||| c == '|'
    ||| c == '['
    ||| c == ']'
    ||| c == '{'
    ||| c == '}'
    ||| c == '^'
    ||| c == '$'
    ||| c == '#'
    ||| c == '&'
    ||| c == '-'
    ||| c == '~'
}

/// `s` with a backslash before every character that has a meaning of its own
/// in a pattern.
pub open spec fn escaped(s: Seq<char>) -> Seq<char>
    decreases s.len(),
{
    if s.len() == 0 {
        s
    } else if is_meta(s.last()) {
        escaped(s.drop_last()).push('\\').push(s.last())
    } else {
        escaped(s.drop_last()).push(s.last())
    }
}

/// `regex::escape`: the text with a backslash before each of its meta
/// characters, so that the result matches the text literally.
#[verifier::external_body]
pub(crate) fn escape(text: &str) -> (out: String)
    ensures
        out@ == escaped(text@),
{
    regex::escape(text)
}

/// The pieces and the fills in turn: the first piece, the first fill, the
/// second piece, and so on to the last piece.
pub open spec fn woven(gaps: Seq<Seq<char>>, fills: Seq<Seq<char>>) -> Seq<char>
    decreases fills.len(),
{
    if gaps.len() == 0 {
        Seq::empty()
    } else if fills.len() == 0 {
        gaps[0]
    } else {
        woven(gaps.drop_last(), fills.drop_last()) + fills.last() + gaps.last()
    }
}

/// Writes the pieces between the matches and the fills for the matches in
/// turn.
pub fn weave(gaps: &Vec<String>, fills: &Vec<String>) -> (out: String)
    requires
        gaps.len() == fills.len() + 1,
    ensures
        out@ == woven(texts(gaps@), texts(fills@)),
{
    let mut out = gaps[0].clone();
    let mut i: usize = 0;
    proof {
        assert(texts(gaps@).take(1)[0] == gaps@[0]@);
    }
    while i < fills.len()
        invariant
            i <= fills.len(),
            gaps.len() == fills.len() + 1,
            out@ == woven(texts(gaps@).take(i + 1), texts(fills@).take(i as int)),
        decreases fills.len() - i,
    {
        proof {
            assert(texts(gaps@).take(i + 2).drop_last() =~= texts(gaps@).take(i + 1));
            assert(texts(fills@).take(i + 1).drop_last() =~= texts(fills@).take(i as int));
            assert(texts(gaps@).take(i + 2).last() == gaps@[i + 1]@);
            assert(texts(fills@).take(i + 1).last() == fills@[i as int]@);
        }
        out.append(fills[i].as_str());
        out.append(gaps[i + 1].as_str());
        i += 1;
    }
    proof {
        assert(texts(gaps@).take(gaps.len() as int) =~= texts(gaps@));
        assert(texts(fills@).take(fills.len() as int) =~= texts(fills@));
    }
    out
}

/// What a stage returns that puts `fills` in place of the matches of
/// `pattern`: the text itself where the pattern is not accepted or does not
/// match, else the pieces between the matches with the fills woven in.
pub open spec fn substituted(pattern: Seq<char>, text: Seq<char>, fills: Seq<Seq<char>>) -> Seq<
    char,
> {
    if pattern_compiles(pattern) && match_count(pattern, text) > 0 {
        woven(pattern_gaps(pattern, text), fills)
    } else {
        text
    }
}

/// Puts `fills` in place of the matches of `pattern` in `text`, one fill for
/// each match.
pub(crate) fn substitute(pattern: &Pattern, text: &str, fills: &Vec<String>) -> (out: String)
    requires
        pattern_compiles(pattern@),
        fills.len() == match_count(pattern@, text@),
    ensures
        out@ == substituted(pattern@, text@, texts(fills@)),
{
    if fills.len() == 0 {
        return text.to_owned();
    }
    let gaps = match_gaps(pattern, text);
    weave(&gaps, fills)
}

/// The text of a capture group; empty for a group that took no part in the
/// match.
pub open spec fn group_text(group: Option<Seq<char>>) -> Seq<char> {
    match group {
        Some(s) => s,
        None => Seq::empty(),
    }
}

/// The characters of a capture group; none for a group that took no part in
/// the match.
pub(crate) fn group_chars(group: &Option<String>) -> (out: Vec<char>)
    ensures
        out@ == group_text(
            match *group {
                Some(s) => Some(s@),
                None => None,
            },
        ),
{
    match group {
        Some(s) => crate::chars::to_chars(s.as_str()),
        None => Vec::new(),
    }
}

/// What a stage returns that puts a replacement string in place of the
/// matches of `pattern`: the text itself where the pattern is not accepted
/// or does not match, else what the engine's replacement gives.
pub open spec fn rewritten(pattern: Seq<char>, text: Seq<char>, replacement: Seq<char>) -> Seq<
    char,
> {
    if pattern_compiles(pattern) && pattern_found(pattern, text) {
        pattern_replaced(pattern, text, replacement)
    } else {
        text
    }
}

/// Puts `replacement` in place of every match of a compiled pattern in
/// `text`; a pattern that was not accepted leaves the text as it is.
pub(crate) fn rewrite_with(
    slot: &Option<Pattern>,
    text: &str,
    replacement: &str,
    Ghost(source): Ghost<Seq<char>>,
) -> (out: String)
    requires
        compiled_from(*slot, source),
    ensures
        out@ == rewritten(source, text@, replacement@),
{
    match slot {
        Some(compiled) => replace_matches(compiled, text, replacement),
        None => text.to_owned(),
    }
}

/// Puts `replacement` in place of every match of `pattern` in `text`. In the
/// replacement, `$` refers to capture groups. A pattern that the engine does
/// not accept leaves the text as it is.
pub fn rewrite(pattern: &str, text: &str, replacement: &str) -> (out: String)
    ensures
        out@ == rewritten(pattern@, text@, replacement@),
{
    let slot = compile(pattern);
    rewrite_with(&slot, text, replacement, Ghost(pattern@))
}

} // verus!
