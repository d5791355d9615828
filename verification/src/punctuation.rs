//! Punctuation discipline: comma runs, slashes, runs of stop characters,
//! and runs of decorative punctuation.

use vstd::prelude::*;
use vstd::string::StringExecFns;
use crate::chars::{
    contains_char, from_chars, is_space, is_space_char, replace, replace_of, slice, texts,
    to_chars,
};
use crate::config::{ExperimentalConfig, PunctuationConfig};
use crate::engine::{
    compile, group_chars, group_text, match_groups, option_texts, pattern_groups, rewrite_with,
    rewritten, substitute, substituted,
};
use crate::numbers::{decimal, decimal_of};
use crate::patterns::PatternSet;
use crate::whitespace::{collapse_horizontal, horizontal_collapsed};

verus! {

/// How many commas the run at the end of `s` holds. A run is made of commas
/// and whitespace; any other character ends it.
pub open spec fn comma_run(s: Seq<char>) -> nat
    decreases s.len(),
{
    if s.len() == 0 {
        0
    } else if s.last() == ',' {
        comma_run(s.drop_last()) + 1
    } else if is_space(s.last()) {
        comma_run(s.drop_last())
    } else {
        0
    }
}

/// `s` without the commas that have `max` or more commas before them in
/// their run. Every other character stays, in its place.
pub open spec fn commas_collapsed(s: Seq<char>, max: nat) -> Seq<char>
    decreases s.len(),
{
    if s.len() == 0 {
        s
    } else if s.last() == ',' && comma_run(s.drop_last()) >= max {
        commas_collapsed(s.drop_last(), max)
    } else {
        commas_collapsed(s.drop_last(), max).push(s.last())
    }
}

/// What `collapse_commas` returns: the text itself for a limit of zero, else
/// the text with at most `max` commas left in each run.
pub open spec fn collapse_commas_of(s: Seq<char>, max: nat) -> Seq<char> {
    if max == 0 {
        s
    } else {
        commas_collapsed(s, max)
    }
}

/// Leaves at most `max_consecutive` commas in each run of commas and
/// whitespace: the first ones stay, the later ones go, and the whitespace of
/// the run stays as it is. A limit of zero leaves the text alone.
pub fn collapse_commas(text: &str, max_consecutive: usize) -> (out: String)
    ensures
        out@ == collapse_commas_of(text@, max_consecutive as nat),
{
    if max_consecutive == 0 {
        return text.to_owned();
    }
    let chars = to_chars(text);
    let mut out: Vec<char> = Vec::new();
    let mut run: usize = 0;
    let mut i: usize = 0;
    while i < chars.len()
        invariant
            i <= chars.len(),
            run <= i,
            run == comma_run(chars@.take(i as int)),
            out@ == commas_collapsed(chars@.take(i as int), max_consecutive as nat),
        decreases chars.len() - i,
    {
        let c = chars[i];
        proof {
            assert(chars@.take(i + 1).drop_last() =~= chars@.take(i as int));
        }
        if c == ',' {
            if run < max_consecutive {
                out.push(c);
            }
            run += 1;
        } else if is_space_char(c) {
            out.push(c);
        } else {
            run = 0;
            out.push(c);
        }
        i += 1;
    }
    proof {
        assert(chars@.take(chars.len() as int) =~= chars@);
    }
    from_chars(&out)
}

/// The run at the end of the collapsed text holds the commas of the run at
/// the end of the text, up to the limit.
pub proof fn lemma_collapsed_comma_run(s: Seq<char>, max: nat)
    requires
        max > 0,
    ensures
        comma_run(commas_collapsed(s, max)) == (if comma_run(s) < max {
            comma_run(s)
        } else {
            max
        }),
    decreases s.len(),
{
    if s.len() > 0 {
        let before = s.drop_last();
        lemma_collapsed_comma_run(before, max);
        let out = commas_collapsed(before, max);
        if !(s.last() == ',' && comma_run(before) >= max) {
            assert(out.push(s.last()).drop_last() =~= out);
        }
    }
}

/// After collapsing, no run holds more than `max` commas: wherever the
/// collapsed text is cut, the run that ends there is within the limit.
pub proof fn lemma_comma_runs_are_bounded(s: Seq<char>, max: nat, k: int)
    requires
        max > 0,
        0 <= k <= commas_collapsed(s, max).len(),
    ensures
        comma_run(commas_collapsed(s, max).take(k)) <= max,
    decreases s.len(),
{
    let out = commas_collapsed(s, max);
    if k == out.len() {
        lemma_collapsed_comma_run(s, max);
        assert(out.take(k) =~= out);
    } else {
        let before = commas_collapsed(s.drop_last(), max);
        assert(out.take(k) =~= before.take(k));
        lemma_comma_runs_are_bounded(s.drop_last(), max, k);
    }
}

/// `s` without its commas.
pub open spec fn without_commas(s: Seq<char>) -> Seq<char>
    decreases s.len(),
{
    if s.len() == 0 {
        s
    } else if s.last() == ',' {
        without_commas(s.drop_last())
    } else {
        without_commas(s.drop_last()).push(s.last())
    }
}

/// Collapsing takes away commas and nothing else: every other character,
/// whitespace between commas too, stays where it was among the others.
pub proof fn lemma_collapse_takes_only_commas(s: Seq<char>, max: nat)
    ensures
        without_commas(collapse_commas_of(s, max)) == without_commas(s),
    decreases s.len(),
{
    if max > 0 && s.len() > 0 {
        let before = s.drop_last();
        lemma_collapse_takes_only_commas(before, max);
        let out = commas_collapsed(before, max);
        if !(s.last() == ',' && comma_run(before) >= max) {
            assert(out.push(s.last()).drop_last() =~= out);
        }
    }
}

/// Collapsing commas a second time changes nothing.
pub proof fn lemma_collapse_commas_idempotent(s: Seq<char>, max: nat)
    ensures
        collapse_commas_of(collapse_commas_of(s, max), max) == collapse_commas_of(s, max),
    decreases s.len(),
{
    if max > 0 && s.len() > 0 {
        let before = s.drop_last();
        lemma_collapse_commas_idempotent(before, max);
        lemma_collapsed_comma_run(before, max);
        let out = commas_collapsed(before, max);
        if !(s.last() == ',' && comma_run(before) >= max) {
            assert(out.push(s.last()).drop_last() =~= out);
        }
    }
}

/// Whether no run of `s` holds more than `max` commas.
pub open spec fn commas_within(s: Seq<char>, max: nat) -> bool {
    forall|k: int| 0 <= k <= s.len() ==> comma_run(#[trigger] s.take(k)) <= max
}

/// Collapsing leaves a text alone whose runs are all within the limit.
pub proof fn lemma_commas_within_limit_stay(s: Seq<char>, max: nat)
    requires
        commas_within(s, max),
    ensures
        collapse_commas_of(s, max) == s,
    decreases s.len(),
{
    if max > 0 && s.len() > 0 {
        let before = s.drop_last();
        assert forall|k: int| 0 <= k <= before.len() implies comma_run(#[trigger] before.take(k))
            <= max by {
            assert(before.take(k) =~= s.take(k));
        }
        lemma_commas_within_limit_stay(before, max);
        assert(s.take(s.len() as int) =~= s);
        assert(comma_run(s.take(s.len() as int)) <= max);
        assert(before.push(s.last()) =~= s);
    }
}

/// What `replace_slashes` returns: the text with `replacement` in place of
/// every slash.
pub open spec fn replace_slashes_of(s: Seq<char>, replacement: Seq<char>) -> Seq<char> {
    replace_of(s, seq!['/'], replacement)
}

/// Puts `replacement` in place of every forward slash; an empty replacement
/// deletes them.
pub fn replace_slashes(text: &str, replacement: &str) -> (out: String)
    ensures
        out@ == replace_slashes_of(text@, replacement@),
{
    let chars = to_chars(text);
    let to = to_chars(replacement);
    let mut from: Vec<char> = Vec::new();
    from.push('/');
    proof {
        assert(from@ =~= seq!['/']);
    }
    let out = replace(&chars, &from, &to);
    from_chars(&out)
}

/// The character that stands for a run: the first character of
/// `precedence`, from the left, that occurs in the run; the first character
/// of the run where none does; nothing for an empty run where none does.
pub open spec fn chosen_stop(run: Seq<char>, precedence: Seq<char>) -> Option<char>
    decreases precedence.len(),
{
    if precedence.len() == 0 {
        if run.len() > 0 {
            Some(run[0])
        } else {
            None
        }
    } else if run.contains(precedence[0]) {
        Some(precedence[0])
    } else {
        chosen_stop(run, precedence.drop_first())
    }
}

/// Picks the character that stands for a run of stop characters: the one
/// that comes first in `precedence` among those in the run, else the first
/// of the run.
pub fn choose_stop(run: &[char], precedence: &str) -> (out: Option<char>)
    ensures
        out == chosen_stop(run@, precedence@),
{
    let order = to_chars(precedence);
    let mut i: usize = 0;
    proof {
        assert(order@.skip(0) =~= order@);
    }
    while i < order.len()
        invariant
            i <= order.len(),
            order@ == precedence@,
            chosen_stop(run@, order@.skip(i as int)) == chosen_stop(run@, precedence@),
        decreases order.len() - i,
    {
        let wanted = order[i];
        let mut j: usize = 0;
        while j < run.len()
            invariant
                j <= run.len(),
                i < order.len(),
                wanted == order@[i as int],
                chosen_stop(run@, order@.skip(i as int)) == chosen_stop(run@, precedence@),
                forall|k: int| 0 <= k < j ==> run@[k] != wanted,
            decreases run.len() - j,
        {
            if run[j] == wanted {
                proof {
                    assert(run@[j as int] == order@.skip(i as int)[0]);
                }
                return Some(wanted);
            }
            j += 1;
        }
        proof {
            assert(order@.skip(i as int).drop_first() =~= order@.skip(i + 1));
        }
        i += 1;
    }
    if run.len() > 0 {
        Some(run[0])
    } else {
        None
    }
}

/// How many characters of `stops` stand at the start of `s` without a break.
pub open spec fn stop_run_len(s: Seq<char>, stops: Seq<char>) -> nat
    decreases s.len(),
{
    if s.len() > 0 && stops.contains(s[0]) {
        1 + stop_run_len(s.drop_first(), stops)
    } else {
        0
    }
}

/// `s` with every run of characters of `precedence` replaced by the one
/// character that `chosen_stop` picks for it. A run is as long as it can be.
pub open spec fn stops_collapsed(s: Seq<char>, precedence: Seq<char>) -> Seq<char>
    decreases s.len(),
{
    let n = stop_run_len(s, precedence) as int;
    if s.len() == 0 {
        s
    } else if 0 < n <= s.len() {
        match chosen_stop(s.take(n), precedence) {
            Some(c) => seq![c] + stops_collapsed(s.skip(n), precedence),
            None => stops_collapsed(s.skip(n), precedence),
        }
    } else {
        seq![s[0]] + stops_collapsed(s.drop_first(), precedence)
    }
}

/// The run at the start of `s` is `k` long when the first `k` characters are
/// stop characters and the next one is not.
pub proof fn lemma_stop_run_len(s: Seq<char>, stops: Seq<char>, k: int)
    requires
        0 <= k <= s.len(),
        forall|j: int| 0 <= j < k ==> stops.contains(#[trigger] s[j]),
        k == s.len() || !stops.contains(s[k]),
    ensures
        stop_run_len(s, stops) == k,
    decreases k,
{
    if k > 0 {
        let rest = s.drop_first();
        assert forall|j: int| 0 <= j < k - 1 implies stops.contains(#[trigger] rest[j]) by {
            assert(rest[j] == s[j + 1]);
        }
        lemma_stop_run_len(rest, stops, k - 1);
    }
}

/// The run at the start of `s` lies within `s`, holds stop characters only,
/// and ends before a character that is none.
pub proof fn lemma_stop_run(s: Seq<char>, stops: Seq<char>)
    ensures
        stop_run_len(s, stops) <= s.len(),
        forall|j: int| 0 <= j < stop_run_len(s, stops) ==> stops.contains(#[trigger] s[j]),
        stop_run_len(s, stops) < s.len() ==> !stops.contains(s[stop_run_len(s, stops) as int]),
    decreases s.len(),
{
    if s.len() > 0 && stops.contains(s[0]) {
        let rest = s.drop_first();
        lemma_stop_run(rest, stops);
        let n = stop_run_len(rest, stops) as int;
        assert forall|j: int| 0 <= j < n + 1 implies stops.contains(#[trigger] s[j]) by {
            if j > 0 {
                assert(s[j] == rest[j - 1]);
            }
        }
        if n + 1 < s.len() {
            assert(s[n + 1] == rest[n]);
        }
    }
}

/// The character chosen for a run of stop characters is one of the run and
/// a stop character itself.
pub proof fn lemma_chosen_is_of_the_run(run: Seq<char>, precedence: Seq<char>)
    requires
        run.len() > 0,
        forall|j: int| 0 <= j < run.len() ==> precedence.contains(#[trigger] run[j]),
    ensures
        chosen_stop(run, precedence) is Some,
        precedence.contains(chosen_stop(run, precedence)->0),
        run.contains(chosen_stop(run, precedence)->0),
    decreases precedence.len(),
{
    if precedence.len() == 0 {
        assert(precedence.contains(run[0]));
    } else if run.contains(precedence[0]) {
    } else {
        let rest = precedence.drop_first();
        assert forall|j: int| 0 <= j < run.len() implies rest.contains(#[trigger] run[j]) by {
            assert(precedence.contains(run[j]));
            let i = choose|i: int| 0 <= i < precedence.len() && precedence[i] == run[j];
            assert(run.contains(run[j]));
            assert(i != 0);
            assert(rest[i - 1] == run[j]);
        }
        lemma_chosen_is_of_the_run(run, rest);
        let c = chosen_stop(run, rest)->0;
        let i = choose|i: int| 0 <= i < rest.len() && rest[i] == c;
        assert(precedence[i + 1] == c);
    }
}

/// A stop character that stands alone is chosen for itself.
pub proof fn lemma_single_stop_is_chosen(c: char, precedence: Seq<char>)
    requires
        precedence.contains(c),
    ensures
        chosen_stop(seq![c], precedence) == Some(c),
    decreases precedence.len(),
{
    let run = seq![c];
    if precedence.len() > 0 {
        if run.contains(precedence[0]) {
            let i = choose|i: int| 0 <= i < run.len() && run[i] == precedence[0];
            assert(run[i] == c);
        } else {
            assert(run[0] == c);
            assert(precedence[0] != c);
            let rest = precedence.drop_first();
            let i = choose|i: int| 0 <= i < precedence.len() && precedence[i] == c;
            assert(rest[i - 1] == c);
            lemma_single_stop_is_chosen(c, rest);
        }
    }
}

/// Collapsing runs of stop characters a second time changes nothing.
pub proof fn lemma_collapse_stops_idempotent(s: Seq<char>, precedence: Seq<char>)
    ensures
        stops_collapsed(stops_collapsed(s, precedence), precedence) == stops_collapsed(
            s,
            precedence,
        ),
    decreases s.len(),
{
    let n = stop_run_len(s, precedence) as int;
    lemma_stop_run(s, precedence);
    if s.len() == 0 {
    } else if n > 0 {
        let run = s.take(n);
        let rest = s.skip(n);
        lemma_collapse_stops_idempotent(rest, precedence);
        let tail = stops_collapsed(rest, precedence);
        assert forall|j: int| 0 <= j < run.len() implies precedence.contains(#[trigger] run[j]) by {
            assert(run[j] == s[j]);
        }
        lemma_chosen_is_of_the_run(run, precedence);
        let c = chosen_stop(run, precedence)->0;
        let out = seq![c] + tail;
        assert(stops_collapsed(s, precedence) == out);
        if rest.len() > 0 {
            assert(rest[0] == s[n]);
            lemma_stop_run_len(rest, precedence, 0);
            assert(tail[0] == rest[0]);
        }
        assert(out[0] == c);
        if tail.len() > 0 {
            assert(out[1] == tail[0]);
        }
        lemma_stop_run_len(out, precedence, 1);
        assert(out.take(1) =~= seq![c]);
        lemma_single_stop_is_chosen(c, precedence);
        assert(out.skip(1) =~= tail);
    } else {
        let rest = s.drop_first();
        lemma_collapse_stops_idempotent(rest, precedence);
        let tail = stops_collapsed(rest, precedence);
        let out = seq![s[0]] + tail;
        assert(stops_collapsed(s, precedence) == out);
        lemma_stop_run_len(out, precedence, 0);
        assert(out.drop_first() =~= tail);
    }
}

/// After collapsing, no two stop characters stand side by side.
pub proof fn lemma_collapsed_stops_stand_alone(s: Seq<char>, precedence: Seq<char>, i: int)
    requires
        0 <= i < stops_collapsed(s, precedence).len() - 1,
    ensures
        !(precedence.contains(stops_collapsed(s, precedence)[i]) && precedence.contains(
            stops_collapsed(s, precedence)[i + 1],
        )),
    decreases s.len(),
{
    let n = stop_run_len(s, precedence) as int;
    lemma_stop_run(s, precedence);
    if s.len() == 0 {
    } else if n > 0 {
        let run = s.take(n);
        let rest = s.skip(n);
        let tail = stops_collapsed(rest, precedence);
        assert forall|j: int| 0 <= j < run.len() implies precedence.contains(#[trigger] run[j]) by {
            assert(run[j] == s[j]);
        }
        lemma_chosen_is_of_the_run(run, precedence);
        let c = chosen_stop(run, precedence)->0;
        let out = seq![c] + tail;
        assert(stops_collapsed(s, precedence) == out);
        if i == 0 {
            assert(rest.len() > 0);
            assert(rest[0] == s[n]);
            lemma_stop_run_len(rest, precedence, 0);
            assert(tail[0] == rest[0]);
            assert(out[1] == tail[0]);
        } else {
            assert(out[i] == tail[i - 1]);
            assert(out[i + 1] == tail[i]);
            lemma_collapsed_stops_stand_alone(rest, precedence, i - 1);
        }
    } else {
        let rest = s.drop_first();
        let tail = stops_collapsed(rest, precedence);
        let out = seq![s[0]] + tail;
        assert(stops_collapsed(s, precedence) == out);
        if i == 0 {
            assert(out[0] == s[0]);
        } else {
            assert(out[i] == tail[i - 1]);
            assert(out[i + 1] == tail[i]);
            lemma_collapsed_stops_stand_alone(rest, precedence, i - 1);
        }
    }
}

/// Whether no two characters of `stops` stand side by side in `s`.
pub open spec fn stops_stand_alone(s: Seq<char>, stops: Seq<char>) -> bool {
    forall|i: int|
        0 <= i < s.len() - 1 ==> !(stops.contains(#[trigger] s[i]) && stops.contains(s[i + 1]))
}

/// Collapsing leaves a text alone in which every stop character stands
/// alone.
pub proof fn lemma_lone_stops_stay(s: Seq<char>, precedence: Seq<char>)
    requires
        stops_stand_alone(s, precedence),
    ensures
        stops_collapsed(s, precedence) == s,
    decreases s.len(),
{
    let n = stop_run_len(s, precedence) as int;
    lemma_stop_run(s, precedence);
    if s.len() > 0 {
        if n >= 2 {
            assert(precedence.contains(s[0]) && precedence.contains(s[1]));
        }
        let rest = s.drop_first();
        assert forall|i: int| 0 <= i < rest.len() - 1 implies !(precedence.contains(
            #[trigger] rest[i],
        ) && precedence.contains(rest[i + 1])) by {
            assert(rest[i] == s[i + 1]);
            assert(rest[i + 1] == s[i + 2]);
        }
        lemma_lone_stops_stay(rest, precedence);
        assert(seq![s[0]] + rest =~= s);
        if n == 1 {
            assert(precedence.contains(s[0]));
            assert(s.take(1) =~= seq![s[0]]);
            lemma_single_stop_is_chosen(s[0], precedence);
            assert(s.skip(1) =~= rest);
        }
    }
}

/// Replaces every run of characters of `precedence` by one character: the
/// one of the run that comes first in `precedence`.
pub fn collapse_stop_sequences(text: &str, precedence: &str) -> (out: String)
    ensures
        out@ == stops_collapsed(text@, precedence@),
{
    let chars = to_chars(text);
    let stops = to_chars(precedence);
    let mut out: Vec<char> = Vec::new();
    let mut start: usize = 0;
    let mut i: usize = 0;
    proof {
        assert(chars@.skip(0) =~= chars@);
        assert(out@ + stops_collapsed(chars@.skip(0), stops@) =~= stops_collapsed(
            chars@,
            stops@,
        ));
    }
    while i < chars.len()
        invariant
            start <= i <= chars.len(),
            stops@ == precedence@,
            forall|j: int| start <= j < i ==> stops@.contains(#[trigger] chars@[j]),
            out@ + stops_collapsed(chars@.skip(start as int), stops@) == stops_collapsed(
                chars@,
                stops@,
            ),
        decreases chars.len() - i,
    {
        let c = chars[i];
        if !contains_char(&stops, c) {
            let ghost before = out@;
            let ghost rest = chars@.skip(start as int);
            let ghost tail = chars@.skip(i as int);
            if start < i {
                let run = slice(&chars, start, i);
                let chosen = choose_stop(run.as_slice(), precedence);
                proof {
                    let k = i - start;
                    assert forall|j: int| 0 <= j < k implies stops@.contains(
                        #[trigger] rest[j],
                    ) by {
                        assert(rest[j] == chars@[start + j]);
                    }
                    lemma_stop_run_len(rest, stops@, k);
                    assert(rest.take(k) =~= run@);
                    assert(rest.skip(k) =~= tail);
                }
                match chosen {
                    Some(s) => {
                        out.push(s);
                        proof {
                            assert(out@ + stops_collapsed(tail, stops@) =~= before + (seq![s]
                                + stops_collapsed(tail, stops@)));
                        }
                    },
                    None => {},
                }
            }
            let ghost middle = out@;
            proof {
                lemma_stop_run_len(tail, stops@, 0);
                assert(tail.drop_first() =~= chars@.skip(i + 1));
                assert(tail[0] == c);
            }
            out.push(c);
            proof {
                assert(out@ + stops_collapsed(chars@.skip(i + 1), stops@) =~= middle + (seq![c]
                    + stops_collapsed(tail.drop_first(), stops@)));
            }
            start = i + 1;
        }
        i += 1;
    }
    if start < chars.len() {
        let ghost before = out@;
        let ghost rest = chars@.skip(start as int);
        let run = slice(&chars, start, chars.len());
        let chosen = choose_stop(run.as_slice(), precedence);
        proof {
            let k = chars.len() - start;
            assert forall|j: int| 0 <= j < k implies stops@.contains(#[trigger] rest[j]) by {
                assert(rest[j] == chars@[start + j]);
            }
            lemma_stop_run_len(rest, stops@, k);
            assert(rest.take(k) =~= run@);
            assert(rest.skip(k).len() == 0);
        }
        match chosen {
            Some(s) => {
                out.push(s);
                proof {
                    let tail = stops_collapsed(rest.skip(rest.len() as int), stops@);
                    assert(out@ =~= before + (seq![s] + tail));
                }
            },
            None => {
                proof {
                    assert(out@ =~= before + stops_collapsed(rest.skip(rest.len() as int), stops@));
                }
            },
        }
    } else {
        proof {
            assert(chars@.skip(start as int).len() == 0);
            assert(out@ + Seq::<char>::empty() =~= out@);
        }
    }
    from_chars(&out)
}

/// A comma, whitespace or none, and a period.
pub const COMMA_BEFORE_PERIOD: &'static str = r",\s*\.";

/// What `discipline_punctuation` returns: the text after comma runs,
/// slashes and runs of stop characters have been seen to, a comma before a
/// period has given way to the period, and runs of spaces have been
/// collapsed once more.
pub open spec fn punctuation_disciplined(text: Seq<char>, cfg: PunctuationConfig) -> Seq<char> {
    let a = if cfg.collapse_commas {
        collapse_commas_of(text, cfg.max_consecutive_commas as nat)
    } else {
        text
    };
    let b = replace_slashes_of(a, cfg.slash_replacement@);
    let c = stops_collapsed(b, cfg.stop_precedence@);
    horizontal_collapsed(rewritten(COMMA_BEFORE_PERIOD@, c, "."@))
}

/// Disciplines punctuation: comma runs are shortened, slashes replaced, and
/// runs of stop characters collapsed. Then a comma that stands before a
/// period, with or without whitespace between them, gives way to the
/// period, and runs of spaces are collapsed once more.
pub fn discipline_punctuation(text: &str, cfg: &PunctuationConfig, patterns: &PatternSet) -> (out:
    String)
    ensures
        out@ == punctuation_disciplined(text@, *cfg),
{
    proof {
        use_type_invariant(patterns);
    }
    let mut out = text.to_owned();
    if cfg.collapse_commas {
        out = collapse_commas(out.as_str(), cfg.max_consecutive_commas);
    }
    out = replace_slashes(out.as_str(), cfg.slash_replacement.as_str());
    out = collapse_stop_sequences(out.as_str(), cfg.stop_precedence.as_str());
    out = rewrite_with(
        &patterns.comma_before_period,
        out.as_str(),
        ".",
        Ghost(COMMA_BEFORE_PERIOD@),
    );
    collapse_horizontal(out.as_str(), patterns)
}

/// The start of the pattern for a run of decorative punctuation: an equals
/// sign, a backslash or a tilde, repeated.
pub const PUNCT_RUN_OPEN: &'static str = r"[=\\~]{";

/// The end of the pattern for a run of decorative punctuation.
pub const PUNCT_RUN_CLOSE: &'static str = ",}";

/// The pattern for a run of `min_len` or more equals signs, backslashes and
/// tildes.
pub open spec fn punct_run_pattern(min_len: nat) -> Seq<char> {
    PUNCT_RUN_OPEN@ + decimal_of(min_len) + PUNCT_RUN_CLOSE@
}

/// What takes the place of a matched run: its first character.
pub open spec fn run_fill(group: Option<Seq<char>>) -> Seq<char> {
    let run = group_text(group);
    if run.len() > 0 {
        seq![run[0]]
    } else {
        run
    }
}

/// The fills for the matched runs.
pub open spec fn run_fills(groups: Seq<Option<Seq<char>>>) -> Seq<Seq<char>> {
    groups.map_values(|group: Option<Seq<char>>| run_fill(group))
}

/// What `strip_punct_runs` returns.
pub open spec fn punct_runs_stripped(text: Seq<char>, cfg: ExperimentalConfig) -> Seq<char> {
    if cfg.strip_punct_runs && cfg.punct_run_min_len > 0 {
        let pattern = punct_run_pattern(cfg.punct_run_min_len as nat);
        substituted(pattern, text, run_fills(pattern_groups(pattern, text, 0)))
    } else {
        text
    }
}

/// Shrinks runs of decorative punctuation. Where the stage is switched on
/// and the least length is not zero, every run of that many or more equals
/// signs, backslashes and tildes is replaced by its first character.
pub fn strip_punct_runs(text: &str, cfg: &ExperimentalConfig) -> (out: String)
    ensures
        out@ == punct_runs_stripped(text@, *cfg),
{
    if !cfg.strip_punct_runs || cfg.punct_run_min_len == 0 {
        return text.to_owned();
    }
    let mut pattern = PUNCT_RUN_OPEN.to_owned();
    pattern.append(decimal(cfg.punct_run_min_len).as_str());
    pattern.append(PUNCT_RUN_CLOSE);
    proof {
        assert(pattern@ =~= punct_run_pattern(cfg.punct_run_min_len as nat));
    }
    let compiled = match compile(pattern.as_str()) {
        Some(compiled) => compiled,
        None => {
            return text.to_owned();
        },
    };
    let groups = match_groups(&compiled, text, 0);
    let ghost want = run_fills(option_texts(groups@));
    let mut fills: Vec<String> = Vec::new();
    let mut i: usize = 0;
    while i < groups.len()
        invariant
            i <= groups.len(),
            want == run_fills(option_texts(groups@)),
            texts(fills@) =~= want.take(i as int),
        decreases groups.len() - i,
    {
        let matched = group_chars(&groups[i]);
        let mut fill = String::new();
        if matched.len() > 0 {
            fill.push(matched[0]);
        }
        proof {
            assert(fill@ =~= run_fill(option_texts(groups@)[i as int]));
            assert(texts(fills@.push(fill)) =~= texts(fills@).push(fill@));
            assert(want.take(i + 1) =~= want.take(i as int).push(fill@));
        }
        fills.push(fill);
        i += 1;
    }
    proof {
        assert(want.take(groups.len() as int) =~= want);
    }
    substitute(&compiled, text, &fills)
}

} // verus!
