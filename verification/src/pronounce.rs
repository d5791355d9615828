//! Pronunciation substitution: symbols, brand names, years, acronyms,
//! version numbers, markup tags and selector-like tokens take a form that
//! can be spoken. Each rule works on what the rule before it left.

use vstd::prelude::*;
use vstd::string::StringExecFns;
use crate::chars::{
    from_chars, join, join_of, lemma_replace_without_occurrence, occurs, replace, replace_of,
    rows, split, split_of, texts, to_chars,
};
use crate::config::{
    AbbreviationConfig, AcronymStyle, CasePolicy, NumberConfig, PronunciationConfig,
    SelectorConfig, VersionMode, YearMode,
};
use crate::engine::{
    compile, escape, escaped, group_chars, group_text, match_count, match_groups, option_texts,
    pattern_found, pattern_groups, rewrite, rewrite_with, rewritten, substitute, substituted,
};
use crate::numbers::{
    number_words, parse_decimal, parsed_usize, simple_number_to_words, year_to_words, year_words,
};
use crate::patterns::PatternSet;
use crate::table::{longest_first, ReplacementTable};

verus! {

/// What `str::to_uppercase` returns for `text`: its upper-case form by the
/// rules of Unicode.
pub uninterp spec fn uppercase_of(text: Seq<char>) -> Seq<char>;

/// `str::to_uppercase` returns the upper-case form of the text.
pub assume_specification[ str::to_uppercase ](text: &str) -> (out: String)
    ensures
        out@ == uppercase_of(text@),
;

/// What `char::is_alphanumeric` returns for `c`: whether it is a letter or
/// a number by the rules of Unicode.
pub uninterp spec fn alphanumeric(c: char) -> bool;

/// `char::is_alphanumeric` says whether the character is a letter or a
/// number.
pub assume_specification[ char::is_alphanumeric ](c: char) -> (out: bool)
    ensures
        out == alphanumeric(c),
;

/// A year: four digits that start with 1 or with 20, between word edges.
pub const YEAR: &'static str = r"\b(1\d{3}|20\d{2})\b";

/// A version number: two or more runs of digits with periods between them,
/// between word edges.
pub const VERSION: &'static str = r"\b\d+(?:\.\d+)+\b";

/// An opening tag; its first group is the name of the tag.
pub const HTML_OPEN: &'static str = r"<\s*([a-zA-Z][a-zA-Z0-9]*)[^>]*>";

/// A closing tag.
pub const HTML_CLOSE: &'static str = r"</\s*[a-zA-Z][a-zA-Z0-9]*\s*>";

/// A period directly followed by a name of letters, digits, hyphens and
/// underscores; its second group is the name.
pub const SELECTOR: &'static str = r"(?P<dot>\.)(?P<name>[a-zA-Z0-9_-]+)";

/// A word edge.
pub const WORD_EDGE: &'static str = r"\b";

/// What may follow an acronym before the word ends: digits, with periods
/// between runs of them; the first group holds them.
pub const NUMERIC_SUFFIX: &'static str = r"(?P<digits>\d+(?:\.\d+)*)?\b";

/// A run of two or more capital letters or digits with nothing but periods
/// and whitespace between them, between word edges.
pub const ACRONYM_SEQUENCE: &'static str = r"\b[A-Z0-9](?:[.\s]*[A-Z0-9])+\b";

/// `text` after each entry of `entries`, in their order, has had every
/// occurrence of its key replaced.
pub open spec fn replaced_in_turn(text: Seq<char>, entries: Seq<(Seq<char>, Seq<char>)>) -> Seq<
    char,
>
    decreases entries.len(),
{
    if entries.len() == 0 {
        text
    } else {
        replace_of(
            replaced_in_turn(text, entries.drop_last()),
            entries.last().0,
            entries.last().1,
        )
    }
}

/// Entries of which no key stands in the text leave the text as it is.
pub proof fn lemma_replaced_in_turn_stays(text: Seq<char>, entries: Seq<(Seq<char>, Seq<char>)>)
    requires
        forall|i: int| 0 <= i < entries.len() ==> !occurs(text, (#[trigger] entries[i]).0),
    ensures
        replaced_in_turn(text, entries) == text,
    decreases entries.len(),
{
    if entries.len() > 0 {
        let before = entries.drop_last();
        assert forall|i: int| 0 <= i < before.len() implies !occurs(
            text,
            (#[trigger] before[i]).0,
        ) by {
            assert(before[i] == entries[i]);
        }
        lemma_replaced_in_turn_stays(text, before);
        assert(entries.last() == entries[entries.len() - 1]);
        lemma_replace_without_occurrence(text, entries.last().0, entries.last().1);
    }
}

/// What `apply_replacements` returns: the text after the entries of the
/// table have been applied, longest key first.
pub open spec fn apply_replacements_of(
    text: Seq<char>,
    table: Seq<(Seq<char>, Seq<char>)>,
) -> Seq<char> {
    replaced_in_turn(text, longest_first(table))
}

/// Replaces every occurrence of every key of the table by its replacement.
/// The entries are applied one after the other, longest key first, each on
/// what the one before it left, so that a key that is part of a longer one
/// does not get in its way.
pub fn apply_replacements(text: &str, replacements: &ReplacementTable) -> (out: String)
    ensures
        out@ == apply_replacements_of(text@, replacements@),
{
    let entries = replacements.longest_first();
    let mut chars = to_chars(text);
    let mut i: usize = 0;
    let ghost order = longest_first(replacements@);
    while i < entries.len()
        invariant
            i <= entries.len(),
            crate::table::pairs(entries@) == order,
            chars@ == replaced_in_turn(text@, order.take(i as int)),
        decreases entries.len() - i,
    {
        proof {
            assert(order.take(i + 1).drop_last() =~= order.take(i as int));
            assert(order.take(i + 1).last() == order[i as int]);
        }
        let from = to_chars(entries[i].0.as_str());
        let to = to_chars(entries[i].1.as_str());
        chars = replace(&chars, &from, &to);
        i += 1;
    }
    proof {
        assert(order.take(entries.len() as int) =~= order);
    }
    from_chars(&chars)
}

/// The pattern for a brand name: the name, taken literally, between word
/// edges.
pub open spec fn brand_pattern(name: Seq<char>) -> Seq<char> {
    WORD_EDGE@ + escaped(name) + WORD_EDGE@
}

/// `text` after each entry of `entries`, in their order, has had every
/// whole-word occurrence of its key rewritten.
pub open spec fn brands_in_turn(text: Seq<char>, entries: Seq<(Seq<char>, Seq<char>)>) -> Seq<
    char,
>
    decreases entries.len(),
{
    if entries.len() == 0 {
        text
    } else {
        rewritten(
            brand_pattern(entries.last().0),
            brands_in_turn(text, entries.drop_last()),
            entries.last().1,
        )
    }
}

/// Entries of which no pattern matches in the text leave the text as it is.
pub proof fn lemma_brands_in_turn_stay(text: Seq<char>, entries: Seq<(Seq<char>, Seq<char>)>)
    requires
        forall|i: int|
            0 <= i < entries.len() ==> !pattern_found(
                brand_pattern((#[trigger] entries[i]).0),
                text,
            ),
    ensures
        brands_in_turn(text, entries) == text,
    decreases entries.len(),
{
    if entries.len() > 0 {
        let before = entries.drop_last();
        assert forall|i: int| 0 <= i < before.len() implies !pattern_found(
            brand_pattern((#[trigger] before[i]).0),
            text,
        ) by {
            assert(before[i] == entries[i]);
        }
        lemma_brands_in_turn_stay(text, before);
        assert(entries.last() == entries[entries.len() - 1]);
    }
}

/// What `apply_brand_pronunciation` returns: the text after the entries of
/// the table have been applied, longest key first.
pub open spec fn brand_pronunciation_of(
    text: Seq<char>,
    table: Seq<(Seq<char>, Seq<char>)>,
) -> Seq<char> {
    brands_in_turn(text, longest_first(table))
}

/// Puts the spoken form in place of every brand name that stands as a whole
/// word. Names are matched in their exact case, longest name first. In a
/// spoken form, `$` refers to capture groups of the engine.
pub fn apply_brand_pronunciation(text: &str, brands: &ReplacementTable) -> (out: String)
    ensures
        out@ == brand_pronunciation_of(text@, brands@),
{
    let entries = brands.longest_first();
    let mut out = text.to_owned();
    let mut i: usize = 0;
    let ghost order = longest_first(brands@);
    while i < entries.len()
        invariant
            i <= entries.len(),
            crate::table::pairs(entries@) == order,
            out@ == brands_in_turn(text@, order.take(i as int)),
        decreases entries.len() - i,
    {
        proof {
            assert(order.take(i + 1).drop_last() =~= order.take(i as int));
            assert(order.take(i + 1).last() == order[i as int]);
        }
        let mut pattern = WORD_EDGE.to_owned();
        pattern.append(escape(entries[i].0.as_str()).as_str());
        pattern.append(WORD_EDGE);
        out = rewrite(pattern.as_str(), out.as_str(), entries[i].1.as_str());
        i += 1;
    }
    proof {
        assert(order.take(entries.len() as int) =~= order);
    }
    out
}

/// What a matched year is spoken as: the words of the number that its
/// digits write, or of zero where they write none that the machine can
/// hold.
pub open spec fn year_fill(group: Option<Seq<char>>, cfg: NumberConfig) -> Seq<char> {
    let year = match parsed_usize(group_text(group)) {
        Some(n) => n as nat,
        None => 0,
    };
    year_words(year, cfg.separator@, cfg.insert_and)
}

/// The fills for the matched years.
pub open spec fn year_fills(groups: Seq<Option<Seq<char>>>, cfg: NumberConfig) -> Seq<Seq<char>> {
    groups.map_values(|group: Option<Seq<char>>| year_fill(group, cfg))
}

/// What `apply_year_pronunciation` returns.
pub open spec fn year_pronunciation_of(text: Seq<char>, mode: YearMode, cfg: NumberConfig) -> Seq<
    char,
> {
    match mode {
        YearMode::Off => text,
        YearMode::American => substituted(
            YEAR@,
            text,
            year_fills(pattern_groups(YEAR@, text, 1), cfg),
        ),
    }
}

/// Speaks years. Each run of four digits that starts with 1 or with 20 and
/// stands between word edges is replaced by its spoken form; any other
/// number stays as it is.
pub fn apply_year_pronunciation(
    text: &str,
    mode: &YearMode,
    number_config: &NumberConfig,
    patterns: &PatternSet,
) -> (out: String)
    ensures
        out@ == year_pronunciation_of(text@, *mode, *number_config),
{
    proof {
        use_type_invariant(patterns);
    }
    match mode {
        YearMode::Off => text.to_owned(),
        YearMode::American => {
            let compiled = match &patterns.year {
                Some(compiled) => compiled,
                None => {
                    return text.to_owned();
                },
            };
            let groups = match_groups(compiled, text, 1);
            let ghost want = year_fills(option_texts(groups@), *number_config);
            let mut fills: Vec<String> = Vec::new();
            let mut i: usize = 0;
            while i < groups.len()
                invariant
                    i <= groups.len(),
                    want == year_fills(option_texts(groups@), *number_config),
                    texts(fills@) =~= want.take(i as int),
                decreases groups.len() - i,
            {
                let digits = group_chars(&groups[i]);
                let year = match parse_decimal(&digits) {
                    Some(n) => n,
                    None => 0,
                };
                let fill = year_to_words(year, number_config);
                proof {
                    assert(texts(fills@.push(fill)) =~= texts(fills@).push(fill@));
                    assert(want.take(i + 1) =~= want.take(i as int).push(fill@));
                }
                fills.push(fill);
                i += 1;
            }
            proof {
                assert(want.take(groups.len() as int) =~= want);
            }
            substitute(compiled, text, &fills)
        },
    }
}

/// What a segment of a version number is spoken as: the words of the number
/// that it writes, or the segment itself where it writes none that the
/// machine can hold.
pub open spec fn segment_words(segment: Seq<char>) -> Seq<char> {
    match parsed_usize(segment) {
        Some(n) => number_words(n as nat),
        None => segment,
    }
}

/// The spoken forms of the segments.
pub open spec fn segments_spoken(segments: Seq<Seq<char>>) -> Seq<Seq<char>> {
    segments.map_values(|segment: Seq<char>| segment_words(segment))
}

/// What a matched version number is spoken as: its segments, spoken, with
/// "point" between them.
pub open spec fn version_fill(group: Option<Seq<char>>) -> Seq<char> {
    join_of(segments_spoken(split_of(group_text(group), '.')), " point "@)
}

/// The fills for the matched version numbers.
pub open spec fn version_fills(groups: Seq<Option<Seq<char>>>) -> Seq<Seq<char>> {
    groups.map_values(|group: Option<Seq<char>>| version_fill(group))
}

/// What `apply_version_pronunciation` returns.
pub open spec fn version_pronunciation_of(text: Seq<char>, mode: VersionMode) -> Seq<char> {
    match mode {
        VersionMode::Off => text,
        VersionMode::SayDecimal => substituted(
            VERSION@,
            text,
            version_fills(pattern_groups(VERSION@, text, 0)),
        ),
    }
}

fn speak_version(matched: &Vec<char>) -> (out: String)
    ensures
        out@ == join_of(segments_spoken(split_of(matched@, '.')), " point "@),
{
    let segments = split(matched, '.');
    let ghost want = segments_spoken(rows(segments@));
    let mut spoken: Vec<String> = Vec::new();
    let mut i: usize = 0;
    while i < segments.len()
        invariant
            i <= segments.len(),
            want == segments_spoken(rows(segments@)),
            texts(spoken@) =~= want.take(i as int),
        decreases segments.len() - i,
    {
        let word = match parse_decimal(&segments[i]) {
            Some(n) => simple_number_to_words(n),
            None => from_chars(&segments[i]),
        };
        proof {
            assert(texts(spoken@.push(word)) =~= texts(spoken@).push(word@));
            assert(want.take(i + 1) =~= want.take(i as int).push(word@));
        }
        spoken.push(word);
        i += 1;
    }
    proof {
        assert(want.take(segments.len() as int) =~= want);
    }
    join(&spoken, " point ")
}

/// Speaks version numbers. Each run of two or more numbers with periods
/// between them, between word edges, is replaced by the words of its
/// segments with "point" between them.
pub fn apply_version_pronunciation(text: &str, mode: &VersionMode, patterns: &PatternSet) -> (out:
    String)
    ensures
        out@ == version_pronunciation_of(text@, *mode),
{
    proof {
        use_type_invariant(patterns);
    }
    match mode {
        VersionMode::Off => text.to_owned(),
        VersionMode::SayDecimal => {
            let compiled = match &patterns.version {
                Some(compiled) => compiled,
                None => {
                    return text.to_owned();
                },
            };
            let groups = match_groups(compiled, text, 0);
            let ghost want = version_fills(option_texts(groups@));
            let mut fills: Vec<String> = Vec::new();
            let mut i: usize = 0;
            while i < groups.len()
                invariant
                    i <= groups.len(),
                    want == version_fills(option_texts(groups@)),
                    texts(fills@) =~= want.take(i as int),
                decreases groups.len() - i,
            {
                let matched = group_chars(&groups[i]);
                let fill = speak_version(&matched);
                proof {
                    assert(texts(fills@.push(fill)) =~= texts(fills@).push(fill@));
                    assert(want.take(i + 1) =~= want.take(i as int).push(fill@));
                }
                fills.push(fill);
                i += 1;
            }
            proof {
                assert(want.take(groups.len() as int) =~= want);
            }
            substitute(compiled, text, &fills)
        },
    }
}

/// The fills for the matched opening tags: the name of each tag followed by
/// the separator.
pub open spec fn tag_fills(groups: Seq<Option<Seq<char>>>, separator: Seq<char>) -> Seq<
    Seq<char>,
> {
    groups.map_values(|group: Option<Seq<char>>| group_text(group) + separator)
}

/// What `apply_html_pronunciation` returns: opening tags give way to their
/// names and the separator, then closing tags are deleted.
pub open spec fn html_pronunciation_of(text: Seq<char>, separator: Seq<char>) -> Seq<char> {
    let opened = substituted(
        HTML_OPEN@,
        text,
        tag_fills(pattern_groups(HTML_OPEN@, text, 1), separator),
    );
    rewritten(HTML_CLOSE@, opened, ""@)
}

/// Speaks markup tags. An opening tag is replaced by its name followed by
/// the separator, whatever attributes it has; a closing tag is deleted.
pub fn apply_html_pronunciation(text: &str, separator: &str, patterns: &PatternSet) -> (out:
    String)
    ensures
        out@ == html_pronunciation_of(text@, separator@),
{
    proof {
        use_type_invariant(patterns);
    }
    let opened = match &patterns.html_open {
        Some(compiled) => {
            let groups = match_groups(compiled, text, 1);
            let ghost want = tag_fills(option_texts(groups@), separator@);
            let mut fills: Vec<String> = Vec::new();
            let mut i: usize = 0;
            while i < groups.len()
                invariant
                    i <= groups.len(),
                    want == tag_fills(option_texts(groups@), separator@),
                    texts(fills@) =~= want.take(i as int),
                decreases groups.len() - i,
            {
                let mut fill = from_chars(&group_chars(&groups[i]));
                fill.append(separator);
                proof {
                    assert(texts(fills@.push(fill)) =~= texts(fills@).push(fill@));
                    assert(want.take(i + 1) =~= want.take(i as int).push(fill@));
                }
                fills.push(fill);
                i += 1;
            }
            proof {
                assert(want.take(groups.len() as int) =~= want);
            }
            substitute(compiled, text, &fills)
        },
        None => text.to_owned(),
    };
    rewrite_with(&patterns.html_close, opened.as_str(), "", Ghost(HTML_CLOSE@))
}

/// The fills for the matched selectors: the prefix followed by each name.
pub open spec fn selector_fills(groups: Seq<Option<Seq<char>>>, prefix: Seq<char>) -> Seq<
    Seq<char>,
> {
    groups.map_values(|group: Option<Seq<char>>| prefix + group_text(group))
}

/// What `apply_selector_pronunciation` returns.
pub open spec fn selector_pronunciation_of(text: Seq<char>, prefix: Seq<char>) -> Seq<char> {
    if prefix.len() == 0 {
        text
    } else {
        substituted(SELECTOR@, text, selector_fills(pattern_groups(SELECTOR@, text, 2), prefix))
    }
}

/// Speaks selector-like tokens. A period directly followed by a name is
/// replaced by the prefix and the name. An empty prefix leaves the text
/// alone.
pub fn apply_selector_pronunciation(text: &str, prefix: &str, patterns: &PatternSet) -> (out:
    String)
    ensures
        out@ == selector_pronunciation_of(text@, prefix@),
{
    proof {
        use_type_invariant(patterns);
    }
    if prefix.is_empty() {
        return text.to_owned();
    }
    let compiled = match &patterns.selector {
        Some(compiled) => compiled,
        None => {
            return text.to_owned();
        },
    };
    let groups = match_groups(compiled, text, 2);
    let ghost want = selector_fills(option_texts(groups@), prefix@);
    let mut fills: Vec<String> = Vec::new();
    let mut i: usize = 0;
    while i < groups.len()
        invariant
            i <= groups.len(),
            want == selector_fills(option_texts(groups@), prefix@),
            texts(fills@) =~= want.take(i as int),
        decreases groups.len() - i,
    {
        let mut fill = prefix.to_owned();
        fill.append(from_chars(&group_chars(&groups[i])).as_str());
        proof {
            assert(texts(fills@.push(fill)) =~= texts(fills@).push(fill@));
            assert(want.take(i + 1) =~= want.take(i as int).push(fill@));
        }
        fills.push(fill);
        i += 1;
    }
    proof {
        assert(want.take(groups.len() as int) =~= want);
    }
    substitute(compiled, text, &fills)
}

/// The letters and numbers of `matched`, each as a text of its own.
pub open spec fn letters_of(matched: Seq<char>) -> Seq<Seq<char>>
    decreases matched.len(),
{
    if matched.len() == 0 {
        Seq::empty()
    } else if alphanumeric(matched.last()) {
        letters_of(matched.drop_last()).push(seq![matched.last()])
    } else {
        letters_of(matched.drop_last())
    }
}

/// The fills for the matched sequences: the letters and numbers of each
/// with the separator between them.
pub open spec fn spacing_fills(groups: Seq<Option<Seq<char>>>, separator: Seq<char>) -> Seq<
    Seq<char>,
> {
    groups.map_values(
        |group: Option<Seq<char>>| join_of(letters_of(group_text(group)), separator),
    )
}

/// What `normalize_acronym_spacing` returns.
pub open spec fn acronym_spacing_normalized(text: Seq<char>, separator: Seq<char>) -> Seq<char> {
    substituted(
        ACRONYM_SEQUENCE@,
        text,
        spacing_fills(pattern_groups(ACRONYM_SEQUENCE@, text, 0), separator),
    )
}

fn respace(matched: &Vec<char>, separator: &str) -> (out: String)
    ensures
        out@ == join_of(letters_of(matched@), separator@),
{
    let mut letters: Vec<String> = Vec::new();
    let mut i: usize = 0;
    while i < matched.len()
        invariant
            i <= matched.len(),
            texts(letters@) =~= letters_of(matched@.take(i as int)),
        decreases matched.len() - i,
    {
        proof {
            assert(matched@.take(i + 1).drop_last() =~= matched@.take(i as int));
        }
        if matched[i].is_alphanumeric() {
            let mut letter = String::new();
            letter.push(matched[i]);
            proof {
                assert(letter@ =~= seq![matched@[i as int]]);
                assert(texts(letters@.push(letter)) =~= texts(letters@).push(letter@));
            }
            letters.push(letter);
        }
        i += 1;
    }
    proof {
        assert(matched@.take(matched.len() as int) =~= matched@);
    }
    join(&letters, separator)
}

/// Gives the letters of spelled-out acronyms one separator. Every run of
/// single capital letters and digits with nothing but periods and
/// whitespace between them is rewritten as its letters and digits with
/// `separator` between them; with an empty separator they are written
/// without a gap.
pub fn normalize_acronym_spacing(text: &str, separator: &str, patterns: &PatternSet) -> (out:
    String)
    ensures
        out@ == acronym_spacing_normalized(text@, separator@),
{
    proof {
        use_type_invariant(patterns);
    }
    let compiled = match &patterns.acronym_sequence {
        Some(compiled) => compiled,
        None => {
            return text.to_owned();
        },
    };
    let groups = match_groups(compiled, text, 0);
    let ghost want = spacing_fills(option_texts(groups@), separator@);
    let mut fills: Vec<String> = Vec::new();
    let mut i: usize = 0;
    while i < groups.len()
        invariant
            i <= groups.len(),
            want == spacing_fills(option_texts(groups@), separator@),
            texts(fills@) =~= want.take(i as int),
        decreases groups.len() - i,
    {
        let matched = group_chars(&groups[i]);
        let fill = respace(&matched, separator);
        proof {
            assert(texts(fills@.push(fill)) =~= texts(fills@).push(fill@));
            assert(want.take(i + 1) =~= want.take(i as int).push(fill@));
        }
        fills.push(fill);
        i += 1;
    }
    proof {
        assert(want.take(groups.len() as int) =~= want);
    }
    substitute(compiled, text, &fills)
}

/// The token that is matched for an entry of the acronym table.
pub open spec fn acronym_token(token: Seq<char>, policy: CasePolicy) -> Seq<char> {
    match policy {
        CasePolicy::Exact => token,
        CasePolicy::Upper => uppercase_of(token),
    }
}

/// The pattern for an acronym: the token, taken literally, after a word
/// edge, with or without a numeric suffix, before a word edge.
pub open spec fn acronym_pattern(token: Seq<char>) -> Seq<char> {
    WORD_EDGE@ + escaped(token) + NUMERIC_SUFFIX@
}

/// The spelled form in the configured style.
pub open spec fn spelled_form(replacement: Seq<char>, style: AcronymStyle) -> Seq<char> {
    match style {
        AcronymStyle::Spaced => replacement,
        AcronymStyle::Dotted => replace_of(replacement, " "@, ". "@),
    }
}

/// What takes the place of a matched acronym: the spelled form, followed,
/// where a numeric suffix was matched, by a space and the suffix with the
/// digit separator in place of each of its periods.
pub open spec fn acronym_fill(
    suffix: Option<Seq<char>>,
    spelled: Seq<char>,
    digit_separator: Seq<char>,
) -> Seq<char> {
    if group_text(suffix).len() > 0 {
        spelled + " "@ + replace_of(group_text(suffix), "."@, digit_separator)
    } else {
        spelled
    }
}

/// The fills for the matches of one acronym.
pub open spec fn acronym_fills(
    suffixes: Seq<Option<Seq<char>>>,
    spelled: Seq<char>,
    digit_separator: Seq<char>,
) -> Seq<Seq<char>> {
    suffixes.map_values(
        |suffix: Option<Seq<char>>| acronym_fill(suffix, spelled, digit_separator),
    )
}

/// `text` with one acronym spelled out.
pub open spec fn acronym_expanded(
    text: Seq<char>,
    entry: (Seq<char>, Seq<char>),
    cfg: AbbreviationConfig,
) -> Seq<char> {
    let pattern = acronym_pattern(acronym_token(entry.0, cfg.case_policy));
    substituted(
        pattern,
        text,
        acronym_fills(
            pattern_groups(pattern, text, 1),
            spelled_form(entry.1, cfg.acronym_style),
            cfg.digit_separator@,
        ),
    )
}

/// `text` after each entry of `entries`, in their order, has been spelled
/// out.
pub open spec fn acronyms_in_turn(
    text: Seq<char>,
    entries: Seq<(Seq<char>, Seq<char>)>,
    cfg: AbbreviationConfig,
) -> Seq<char>
    decreases entries.len(),
{
    if entries.len() == 0 {
        text
    } else {
        acronym_expanded(acronyms_in_turn(text, entries.drop_last(), cfg), entries.last(), cfg)
    }
}

/// Entries of which no pattern matches in the text leave the text as it is.
pub proof fn lemma_acronyms_in_turn_stay(
    text: Seq<char>,
    entries: Seq<(Seq<char>, Seq<char>)>,
    cfg: AbbreviationConfig,
)
    requires
        forall|i: int|
            0 <= i < entries.len() ==> match_count(
                acronym_pattern(acronym_token((#[trigger] entries[i]).0, cfg.case_policy)),
                text,
            ) == 0,
    ensures
        acronyms_in_turn(text, entries, cfg) == text,
    decreases entries.len(),
{
    if entries.len() > 0 {
        let before = entries.drop_last();
        assert forall|i: int| 0 <= i < before.len() implies match_count(
            acronym_pattern(acronym_token((#[trigger] before[i]).0, cfg.case_policy)),
            text,
        ) == 0 by {
            assert(before[i] == entries[i]);
        }
        lemma_acronyms_in_turn_stay(text, before, cfg);
        assert(entries.last() == entries[entries.len() - 1]);
    }
}

/// What `expand_acronyms` returns: the text after every entry of the table
/// has been spelled out, in the order of the table, and the spacing of the
/// spelled forms has been normalised.
pub open spec fn expand_acronyms_of(text: Seq<char>, cfg: AbbreviationConfig) -> Seq<char> {
    acronym_spacing_normalized(acronyms_in_turn(text, cfg.map@, cfg), cfg.letter_separator@)
}

fn expand_acronym(text: &str, token: &str, replacement: &str, cfg: &AbbreviationConfig) -> (out:
    String)
    ensures
        out@ == acronym_expanded(text@, (token@, replacement@), *cfg),
{
    let wanted = match cfg.case_policy {
        CasePolicy::Exact => token.to_owned(),
        CasePolicy::Upper => token.to_uppercase(),
    };
    let spelled = match cfg.acronym_style {
        AcronymStyle::Spaced => to_chars(replacement),
        AcronymStyle::Dotted => replace(&to_chars(replacement), &to_chars(" "), &to_chars(". ")),
    };
    let mut pattern = WORD_EDGE.to_owned();
    pattern.append(escape(wanted.as_str()).as_str());
    pattern.append(NUMERIC_SUFFIX);
    proof {
        assert(pattern@ =~= acronym_pattern(acronym_token(token@, cfg.case_policy)));
    }
    let compiled = match compile(pattern.as_str()) {
        Some(compiled) => compiled,
        None => {
            return text.to_owned();
        },
    };
    let groups = match_groups(&compiled, text, 1);
    let period = to_chars(".");
    let separator = to_chars(cfg.digit_separator.as_str());
    let ghost want = acronym_fills(option_texts(groups@), spelled@, cfg.digit_separator@);
    let mut fills: Vec<String> = Vec::new();
    let mut i: usize = 0;
    while i < groups.len()
        invariant
            i <= groups.len(),
            period@ == "."@,
            separator@ == cfg.digit_separator@,
            want == acronym_fills(option_texts(groups@), spelled@, cfg.digit_separator@),
            texts(fills@) =~= want.take(i as int),
        decreases groups.len() - i,
    {
        let suffix = group_chars(&groups[i]);
        let mut fill = from_chars(&spelled);
        if suffix.len() > 0 {
            fill.append(" ");
            fill.append(from_chars(&replace(&suffix, &period, &separator)).as_str());
        }
        proof {
            assert(texts(fills@.push(fill)) =~= texts(fills@).push(fill@));
            assert(want.take(i + 1) =~= want.take(i as int).push(fill@));
        }
        fills.push(fill);
        i += 1;
    }
    proof {
        assert(want.take(groups.len() as int) =~= want);
    }
    substitute(&compiled, text, &fills)
}

/// Spells out acronyms. For each entry of the table, in its order, the
/// token is matched after a word edge, in upper case where the case policy
/// says so, with or without a numeric suffix glued to it, and replaced by
/// the spelled form; a suffix follows the spelled form after a space, with
/// the digit separator in place of each period. Then the letters of the
/// spelled forms are given the letter separator.
pub fn expand_acronyms(text: &str, cfg: &AbbreviationConfig, patterns: &PatternSet) -> (out:
    String)
    ensures
        out@ == expand_acronyms_of(text@, *cfg),
{
    let mut out = text.to_owned();
    let mut i: usize = 0;
    while i < cfg.map.len()
        invariant
            i <= cfg.map@.len(),
            out@ == acronyms_in_turn(text@, cfg.map@.take(i as int), *cfg),
        decreases cfg.map@.len() - i,
    {
        proof {
            assert(cfg.map@.take(i + 1).drop_last() =~= cfg.map@.take(i as int));
            assert(cfg.map@.take(i + 1).last() == cfg.map@[i as int]);
        }
        out = expand_acronym(out.as_str(), cfg.map.key(i).as_str(), cfg.map.value(i).as_str(), cfg);
        i += 1;
    }
    proof {
        assert(cfg.map@.take(cfg.map@.len() as int) =~= cfg.map@);
    }
    normalize_acronym_spacing(out.as_str(), cfg.letter_separator.as_str(), patterns)
}

/// What `pronounce` returns: the text after symbols, brand names, years,
/// acronyms, version numbers, markup tags and selector-like tokens have been
/// seen to, in this order, each as far as the configuration asks for it.
pub open spec fn pronounced(
    text: Seq<char>,
    pronunciation: PronunciationConfig,
    abbreviations: AbbreviationConfig,
    selector: SelectorConfig,
) -> Seq<char> {
    let a = if pronunciation.enable_replacements {
        apply_replacements_of(text, pronunciation.replacements@)
    } else {
        text
    };
    let b = brand_pronunciation_of(a, pronunciation.brand_map@);
    let c = year_pronunciation_of(b, pronunciation.year_mode, pronunciation.number_config);
    let d = if abbreviations.expand_acronyms && abbreviations.map@.len() > 0 {
        expand_acronyms_of(c, abbreviations)
    } else {
        c
    };
    let e = version_pronunciation_of(d, pronunciation.version_mode);
    let f = if pronunciation.html_tag_pronunciation {
        html_pronunciation_of(e, pronunciation.html_tag_separator@)
    } else {
        e
    };
    selector_pronunciation_of(f, selector.prefix@)
}

/// Rewrites symbols and terms into forms that can be spoken. The rules run
/// one after the other on the whole text, and each sees what the rules
/// before it left.
pub fn pronounce(
    text: &str,
    pronunciation: &PronunciationConfig,
    abbreviations: &AbbreviationConfig,
    selector: &SelectorConfig,
    patterns: &PatternSet,
) -> (out: String)
    ensures
        out@ == pronounced(text@, *pronunciation, *abbreviations, *selector),
{
    let mut out = text.to_owned();
    if pronunciation.enable_replacements {
        out = apply_replacements(out.as_str(), &pronunciation.replacements);
    }
    out = apply_brand_pronunciation(out.as_str(), &pronunciation.brand_map);
    out = apply_year_pronunciation(
        out.as_str(),
        &pronunciation.year_mode,
        &pronunciation.number_config,
        patterns,
    );
    if abbreviations.expand_acronyms && !abbreviations.map.is_empty() {
        out = expand_acronyms(out.as_str(), abbreviations, patterns);
    }
    out = apply_version_pronunciation(out.as_str(), &pronunciation.version_mode, patterns);
    if pronunciation.html_tag_pronunciation {
        out = apply_html_pronunciation(
            out.as_str(),
            pronunciation.html_tag_separator.as_str(),
            patterns,
        );
    }
    apply_selector_pronunciation(out.as_str(), selector.prefix.as_str(), patterns)
}

} // verus!
