//! Text as a sequence of characters.
//!
//! Every stage of the pipeline is stated over `Seq<char>`, the view of `str`
//! and `String`. The functions here move between strings and vectors of
//! characters and supply the small operations the stages share: whitespace,
//! trimming, lines, joining and literal replacement.

use vstd::prelude::*;
use vstd::string::StringExecFns;

verus! {

/// `String::push` appends one character to the end of the string.
pub assume_specification[ String::push ](s: &mut String, c: char)
    ensures
        final(s)@ == old(s)@.push(c),
;

/// The characters of `text`, in order.
pub fn to_chars(text: &str) -> (out: Vec<char>)
    ensures
        out@ == text@,
{
    let mut out: Vec<char> = Vec::new();
    for c in it: text.chars()
        invariant
            it.seq() == text@,
            out@ =~= text@.take(it.index()),
    {
        out.push(c);
    }
    out
}

/// The string made of the characters of `chars`, in order.
pub fn from_chars(chars: &Vec<char>) -> (out: String)
    ensures
        out@ == chars@,
{
    let mut out = String::new();
    let mut i: usize = 0;
    while i < chars.len()
        invariant
            i <= chars.len(),
            out@ =~= chars@.take(i as int),
        decreases chars.len() - i,
    {
        out.push(chars[i]);
        i += 1;
    }
    out
}

/// The number of bytes that `s` takes in UTF-8, as `str::len` counts them.
pub open spec fn byte_length(s: Seq<char>) -> usize {
    vstd::utf8::encode_utf8(s).len() as usize
}

/// The views of a sequence of strings.
pub open spec fn texts(parts: Seq<String>) -> Seq<Seq<char>> {
    parts.map_values(|s: String| s@)
}

/// The views of a sequence of character vectors.
pub open spec fn rows(parts: Seq<Vec<char>>) -> Seq<Seq<char>> {
    parts.map_values(|v: Vec<char>| v@)
}

/// Whether `c` is Unicode whitespace (the property `White_Space`).
pub open spec fn is_space(c: char) -> bool {
    let n = c as u32;
    ||| 0x09 <= n <= 0x0D
    ||| n == 0x20
    ||| n == 0x85
    ||| n == 0xA0
    ||| n == 0x1680
    ||| 0x2000 <= n <= 0x200A
    ||| n == 0x2028
    ||| n == 0x2029
    ||| n == 0x202F
    ||| n == 0x205F
    ||| n == 0x3000
}

/// Whether `c` is Unicode whitespace.
pub fn is_space_char(c: char) -> (b: bool)
    ensures
        b == is_space(c),
{
    let n: u32 = c as u32;
    (0x09 <= n && n <= 0x0D) || n == 0x20 || n == 0x85 || n == 0xA0 || n == 0x1680 || (0x2000 <= n
        && n <= 0x200A) || n == 0x2028 || n == 0x2029 || n == 0x202F || n == 0x205F || n == 0x3000
}

/// Whether `s` holds nothing but whitespace.
pub open spec fn is_blank(s: Seq<char>) -> bool {
    forall|i: int| 0 <= i < s.len() ==> is_space(#[trigger] s[i])
}

/// Whether `line` holds nothing but whitespace.
pub fn is_blank_line(line: &Vec<char>) -> (b: bool)
    ensures
        b == is_blank(line@),
{
    let mut i: usize = 0;
    while i < line.len()
        invariant
            i <= line.len(),
            forall|j: int| 0 <= j < i ==> is_space(#[trigger] line@[j]),
        decreases line.len() - i,
    {
        if !is_space_char(line[i]) {
            return false;
        }
        i += 1;
    }
    true
}

/// `s` without the whitespace at its start.
pub open spec fn trim_start_of(s: Seq<char>) -> Seq<char>
    decreases s.len(),
{
    if s.len() > 0 && is_space(s[0]) {
        trim_start_of(s.drop_first())
    } else {
        s
    }
}

/// `s` without the whitespace at its end.
pub open spec fn trim_end_of(s: Seq<char>) -> Seq<char>
    decreases s.len(),
{
    if s.len() > 0 && is_space(s.last()) {
        trim_end_of(s.drop_last())
    } else {
        s
    }
}

/// `s` without the whitespace at either end.
pub open spec fn trim_of(s: Seq<char>) -> Seq<char> {
    trim_end_of(trim_start_of(s))
}

/// Trimming at the end keeps a prefix: what it returns stands at the start
/// of the text, ends in no whitespace, and is followed by nothing but
/// whitespace.
pub proof fn lemma_trim_end(s: Seq<char>)
    ensures
        trim_end_of(s).len() <= s.len(),
        trim_end_of(s) == s.take(trim_end_of(s).len() as int),
        trim_end_of(s).len() > 0 ==> !is_space(trim_end_of(s).last()),
        forall|i: int| trim_end_of(s).len() <= i < s.len() ==> is_space(#[trigger] s[i]),
    decreases s.len(),
{
    if s.len() > 0 && is_space(s.last()) {
        let rest = s.drop_last();
        lemma_trim_end(rest);
        let n = trim_end_of(rest).len() as int;
        assert(rest.take(n) =~= s.take(n));
        assert forall|i: int| n <= i < s.len() implies is_space(#[trigger] s[i]) by {
            if i < rest.len() {
                assert(s[i] == rest[i]);
            }
        }
    } else {
        assert(s.take(s.len() as int) =~= s);
    }
}

/// Trimming at the start keeps a suffix: what it returns stands at the end
/// of the text, starts with no whitespace, and follows nothing but
/// whitespace.
pub proof fn lemma_trim_start(s: Seq<char>)
    ensures
        trim_start_of(s).len() <= s.len(),
        trim_start_of(s) == s.skip(s.len() - trim_start_of(s).len()),
        trim_start_of(s).len() > 0 ==> !is_space(trim_start_of(s)[0]),
        forall|i: int| 0 <= i < s.len() - trim_start_of(s).len() ==> is_space(#[trigger] s[i]),
    decreases s.len(),
{
    if s.len() > 0 && is_space(s[0]) {
        let rest = s.drop_first();
        lemma_trim_start(rest);
        let k = rest.len() - trim_start_of(rest).len();
        assert(rest.skip(k) =~= s.skip(k + 1));
        assert forall|i: int| 0 <= i < k + 1 implies is_space(#[trigger] s[i]) by {
            if i > 0 {
                assert(s[i] == rest[i - 1]);
            }
        }
    } else {
        assert(s.skip(0) =~= s);
    }
}

/// A text that neither starts nor ends with whitespace is left as it is by
/// trimming.
pub proof fn lemma_trim_of_trimmed(s: Seq<char>)
    requires
        s.len() > 0 ==> !is_space(s[0]) && !is_space(s.last()),
    ensures
        trim_start_of(s) == s,
        trim_end_of(s) == s,
        trim_of(s) == s,
{
}

/// A trimmed text neither starts nor ends with whitespace, and trimming it
/// again changes nothing.
pub proof fn lemma_trim(s: Seq<char>)
    ensures
        trim_of(s).len() <= s.len(),
        trim_of(s).len() > 0 ==> !is_space(trim_of(s)[0]) && !is_space(trim_of(s).last()),
        trim_of(trim_of(s)) == trim_of(s),
{
    let head = trim_start_of(s);
    lemma_trim_start(s);
    lemma_trim_end(head);
    let out = trim_end_of(head);
    if out.len() > 0 {
        assert(out[0] == head.take(out.len() as int)[0]);
    }
    lemma_trim_of_trimmed(out);
}

/// The characters of `v` from `from` up to, not including, `to`.
pub fn slice(v: &Vec<char>, from: usize, to: usize) -> (out: Vec<char>)
    requires
        from <= to <= v.len(),
    ensures
        out@ == v@.subrange(from as int, to as int),
{
    let mut out: Vec<char> = Vec::new();
    let mut i: usize = from;
    while i < to
        invariant
            from <= i <= to <= v.len(),
            out@ =~= v@.subrange(from as int, i as int),
        decreases to - i,
    {
        out.push(v[i]);
        i += 1;
    }
    out
}

/// Appends the characters of `extra` to `out`.
pub fn push_all(out: &mut Vec<char>, extra: &Vec<char>)
    ensures
        final(out)@ == old(out)@ + extra@,
{
    let ghost start = out@;
    let mut i: usize = 0;
    while i < extra.len()
        invariant
            i <= extra.len(),
            out@ =~= start + extra@.take(i as int),
        decreases extra.len() - i,
    {
        out.push(extra[i]);
        i += 1;
    }
    proof {
        assert(extra@.take(extra.len() as int) =~= extra@);
    }
}

/// `line` without the whitespace at its start.
pub fn trim_start(line: &Vec<char>) -> (out: Vec<char>)
    ensures
        out@ == trim_start_of(line@),
{
    let mut start: usize = 0;
    proof {
        assert(line@.skip(0) =~= line@);
    }
    while start < line.len() && is_space_char(line[start])
        invariant
            start <= line.len(),
            trim_start_of(line@.skip(start as int)) == trim_start_of(line@),
        decreases line.len() - start,
    {
        proof {
            assert(line@.skip(start as int).drop_first() =~= line@.skip(start + 1));
        }
        start += 1;
    }
    proof {
        assert(line@.skip(start as int) =~= line@.subrange(start as int, line.len() as int));
    }
    slice(line, start, line.len())
}

/// `line` without the whitespace at its end.
pub fn trim_end(line: &Vec<char>) -> (out: Vec<char>)
    ensures
        out@ == trim_end_of(line@),
{
    let mut end: usize = line.len();
    proof {
        assert(line@.take(end as int) =~= line@);
    }
    while end > 0 && is_space_char(line[end - 1])
        invariant
            end <= line.len(),
            trim_end_of(line@.take(end as int)) == trim_end_of(line@),
        decreases end,
    {
        proof {
            assert(line@.take(end as int).drop_last() =~= line@.take(end - 1));
        }
        end -= 1;
    }
    proof {
        assert(line@.take(end as int) =~= line@.subrange(0, end as int));
    }
    slice(line, 0, end)
}

/// `line` without the whitespace at either end.
pub fn trim(line: &Vec<char>) -> (out: Vec<char>)
    ensures
        out@ == trim_of(line@),
{
    let head = trim_start(line);
    trim_end(&head)
}

/// The place of the first `c` in `s`, or the length of `s` where it has
/// none.
pub open spec fn first_at(s: Seq<char>, c: char) -> int
    decreases s.len(),
{
    if s.len() == 0 || s[0] == c {
        0
    } else {
        1 + first_at(s.drop_first(), c)
    }
}

/// The place of the first line feed in `s`, or the length of `s` where it
/// has none.
pub open spec fn line_end(s: Seq<char>) -> int {
    first_at(s, '\n')
}

/// `line` without a carriage return at its end.
pub open spec fn strip_cr(line: Seq<char>) -> Seq<char> {
    if line.len() > 0 && line.last() == '\r' {
        line.drop_last()
    } else {
        line
    }
}

/// The lines of a text. A line ends at a line feed, or at a carriage return
/// directly followed by one; neither belongs to the line. What follows the
/// last line feed is a line of its own unless it is empty.
pub open spec fn lines_of(s: Seq<char>) -> Seq<Seq<char>>
    decreases s.len(),
{
    let k = line_end(s);
    if s.len() == 0 {
        Seq::empty()
    } else if k < 0 || k >= s.len() {
        seq![s]
    } else {
        seq![strip_cr(s.take(k))] + lines_of(s.skip(k + 1))
    }
}

/// The first `c` of `s` stands at `k` when none stands before it.
pub proof fn lemma_first_at(s: Seq<char>, c: char, k: int)
    requires
        0 <= k <= s.len(),
        forall|j: int| 0 <= j < k ==> s[j] != c,
        k == s.len() || s[k] == c,
    ensures
        first_at(s, c) == k,
    decreases k,
{
    if k > 0 {
        let rest = s.drop_first();
        assert forall|j: int| 0 <= j < k - 1 implies rest[j] != c by {
            assert(rest[j] == s[j + 1]);
        }
        lemma_first_at(rest, c, k - 1);
    }
}

/// The lines of `text`.
pub fn lines(text: &Vec<char>) -> (out: Vec<Vec<char>>)
    ensures
        rows(out@) == lines_of(text@),
{
    let mut out: Vec<Vec<char>> = Vec::new();
    let mut start: usize = 0;
    let mut i: usize = 0;
    proof {
        assert(text@.skip(0) =~= text@);
        assert(rows(out@) + lines_of(text@.skip(0)) =~= lines_of(text@));
    }
    while i < text.len()
        invariant
            start <= i <= text.len(),
            forall|j: int| start <= j < i ==> text@[j] != '\n',
            rows(out@) + lines_of(text@.skip(start as int)) == lines_of(text@),
        decreases text.len() - i,
    {
        if text[i] == '\n' {
            let mut end: usize = i;
            if end > start && text[end - 1] == '\r' {
                end -= 1;
            }
            let line = slice(text, start, end);
            proof {
                let rest = text@.skip(start as int);
                let k = i - start;
                lemma_first_at(rest, '\n', k);
                assert(rest.take(k) =~= text@.subrange(start as int, i as int));
                assert(line@ =~= strip_cr(rest.take(k)));
                assert(rest.skip(k + 1) =~= text@.skip(i + 1));
                assert(rows(out@.push(line)) =~= rows(out@).push(line@));
                assert(rows(out@).push(line@) + lines_of(text@.skip(i + 1)) =~= rows(out@) + (
                seq![line@] + lines_of(text@.skip(i + 1))));
            }
            out.push(line);
            start = i + 1;
        }
        i += 1;
    }
    if start < text.len() {
        let line = slice(text, start, text.len());
        proof {
            let rest = text@.skip(start as int);
            lemma_first_at(rest, '\n', rest.len() as int);
            assert(line@ =~= rest);
            assert(rows(out@.push(line)) =~= rows(out@).push(line@));
            assert(rows(out@).push(line@) =~= rows(out@) + seq![rest]);
        }
        out.push(line);
    } else {
        proof {
            assert(rows(out@) + Seq::<Seq<char>>::empty() =~= rows(out@));
        }
    }
    out
}

/// The pieces of `s` between the occurrences of `sep`. There is one piece
/// more than there are occurrences; a piece may be empty.
pub open spec fn split_of(s: Seq<char>, sep: char) -> Seq<Seq<char>>
    decreases s.len(),
{
    let k = first_at(s, sep);
    if k < 0 || k >= s.len() {
        seq![s]
    } else {
        seq![s.take(k)] + split_of(s.skip(k + 1), sep)
    }
}

/// Splits `text` at every occurrence of `sep`.
pub fn split(text: &Vec<char>, sep: char) -> (out: Vec<Vec<char>>)
    ensures
        rows(out@) == split_of(text@, sep),
{
    let mut out: Vec<Vec<char>> = Vec::new();
    let mut start: usize = 0;
    let mut i: usize = 0;
    proof {
        assert(text@.skip(0) =~= text@);
        assert(rows(out@) + split_of(text@.skip(0), sep) =~= split_of(text@, sep));
    }
    while i < text.len()
        invariant
            start <= i <= text.len(),
            forall|j: int| start <= j < i ==> text@[j] != sep,
            rows(out@) + split_of(text@.skip(start as int), sep) == split_of(text@, sep),
        decreases text.len() - i,
    {
        if text[i] == sep {
            let piece = slice(text, start, i);
            proof {
                let rest = text@.skip(start as int);
                let k = i - start;
                lemma_first_at(rest, sep, k);
                assert(rest.take(k) =~= text@.subrange(start as int, i as int));
                assert(rest.skip(k + 1) =~= text@.skip(i + 1));
                assert(rows(out@.push(piece)) =~= rows(out@).push(piece@));
                assert(rows(out@).push(piece@) + split_of(text@.skip(i + 1), sep) =~= rows(out@)
                    + (seq![piece@] + split_of(text@.skip(i + 1), sep)));
            }
            out.push(piece);
            start = i + 1;
        }
        i += 1;
    }
    let piece = slice(text, start, text.len());
    proof {
        let rest = text@.skip(start as int);
        lemma_first_at(rest, sep, rest.len() as int);
        assert(piece@ =~= rest);
        assert(rows(out@.push(piece)) =~= rows(out@).push(piece@));
        assert(rows(out@).push(piece@) =~= rows(out@) + seq![rest]);
    }
    out.push(piece);
    out
}

/// The parts written one after another with `sep` between neighbours.
pub open spec fn join_of(parts: Seq<Seq<char>>, sep: Seq<char>) -> Seq<char>
    decreases parts.len(),
{
    if parts.len() == 0 {
        Seq::empty()
    } else if parts.len() == 1 {
        parts[0]
    } else {
        join_of(parts.drop_last(), sep) + sep + parts.last()
    }
}

/// The first `c` of `s` stands within `s` or at its end, and no `c` stands
/// before it.
pub proof fn lemma_first_at_bounds(s: Seq<char>, c: char)
    ensures
        0 <= first_at(s, c) <= s.len(),
        forall|j: int| 0 <= j < first_at(s, c) ==> s[j] != c,
        first_at(s, c) < s.len() ==> s[first_at(s, c)] == c,
    decreases s.len(),
{
    if !(s.len() == 0 || s[0] == c) {
        let rest = s.drop_first();
        lemma_first_at_bounds(rest, c);
        assert forall|j: int| 0 <= j < first_at(s, c) implies s[j] != c by {
            if j > 0 {
                assert(s[j] == rest[j - 1]);
            }
        }
    }
}

/// Joining a first part and one or more others gives the first part, the
/// separator, and the others joined.
pub proof fn lemma_join_front(first: Seq<char>, others: Seq<Seq<char>>, sep: Seq<char>)
    requires
        others.len() > 0,
    ensures
        join_of(seq![first] + others, sep) == first + sep + join_of(others, sep),
    decreases others.len(),
{
    let all = seq![first] + others;
    let start = others.drop_last();
    assert(all.drop_last() =~= seq![first] + start);
    assert(all.last() == others.last());
    if start.len() == 0 {
        assert(seq![first] + start =~= seq![first]);
        assert(join_of(all.drop_last(), sep) == first);
    } else {
        lemma_join_front(first, start, sep);
        assert(first + sep + join_of(start, sep) + sep + others.last() =~= first + sep + (
        join_of(start, sep) + sep + others.last()));
    }
}

/// A text that is not empty has a line.
pub proof fn lemma_lines_of_nonempty(s: Seq<char>)
    requires
        s.len() > 0,
    ensures
        lines_of(s).len() > 0,
{
    lemma_first_at_bounds(s, '\n');
}

/// Whether the line endings of `s` are plain: no carriage return stands
/// before a line feed or at the end, and `s` does not end in a line feed.
pub open spec fn plain_endings(s: Seq<char>) -> bool {
    &&& forall|i: int| 0 <= i < s.len() - 1 && s[i + 1] == '\n' ==> #[trigger] s[i] != '\r'
    &&& s.len() > 0 ==> s.last() != '\n' && s.last() != '\r'
}

/// What follows the first line feed of a text with plain line endings has
/// plain line endings too, and is not empty.
pub proof fn lemma_plain_endings_rest(s: Seq<char>)
    requires
        plain_endings(s),
        line_end(s) < s.len(),
    ensures
        0 <= line_end(s) < s.len() - 1,
        plain_endings(s.skip(line_end(s) + 1)),
        strip_cr(s.take(line_end(s))) == s.take(line_end(s)),
{
    lemma_first_at_bounds(s, '\n');
    let k = line_end(s);
    let rest = s.skip(k + 1);
    assert(k < s.len() - 1) by {
        if k == s.len() - 1 {
            assert(s.last() == s[k]);
        }
    }
    assert(rest.last() == s.last());
    assert forall|i: int| 0 <= i < rest.len() - 1 && rest[i + 1] == '\n' implies #[trigger] rest[i]
        != '\r' by {
        assert(rest[i] == s[k + 1 + i]);
        assert(rest[i + 1] == s[k + 1 + i + 1]);
    }
    let head = s.take(k);
    if head.len() > 0 && head.last() == '\r' {
        assert(s[k - 1] == '\r');
        assert(s[k - 1 + 1] == '\n');
    }
}

/// The lines of a text, joined by line feeds, give the text again where its
/// line endings are plain.
pub proof fn lemma_lines_joined(s: Seq<char>)
    requires
        plain_endings(s),
    ensures
        join_of(lines_of(s), seq!['\n']) == s,
    decreases s.len(),
{
    let feed = seq!['\n'];
    lemma_first_at_bounds(s, '\n');
    let k = line_end(s);
    if s.len() == 0 {
        assert(lines_of(s) =~= Seq::<Seq<char>>::empty());
        assert(join_of(lines_of(s), feed) =~= s);
    } else if k < s.len() {
        let head = s.take(k);
        let rest = s.skip(k + 1);
        lemma_plain_endings_rest(s);
        lemma_lines_joined(rest);
        lemma_lines_of_nonempty(rest);
        assert(lines_of(s) == seq![head] + lines_of(rest));
        lemma_join_front(head, lines_of(rest), feed);
        assert(join_of(lines_of(s), feed) == head + feed + rest);
        assert(head + feed + rest =~= s);
    } else {
        assert(lines_of(s) == seq![s]);
        assert(join_of(lines_of(s), feed) == s);
    }
}

/// A line feed at the end of a text adds no line, where the text is not
/// empty and its line endings are plain.
pub proof fn lemma_lines_before_final_feed(s: Seq<char>)
    requires
        s.len() > 0,
        plain_endings(s),
    ensures
        lines_of(s.push('\n')) == lines_of(s),
    decreases s.len(),
{
    let fed = s.push('\n');
    lemma_first_at_bounds(s, '\n');
    let k = line_end(s);
    if k < s.len() {
        assert forall|j: int| 0 <= j < k implies fed[j] != '\n' by {
            assert(fed[j] == s[j]);
        }
        assert(fed[k] == s[k]);
        lemma_first_at(fed, '\n', k);
        let rest = s.skip(k + 1);
        lemma_plain_endings_rest(s);
        lemma_lines_before_final_feed(rest);
        assert(fed.take(k) =~= s.take(k));
        assert(fed.skip(k + 1) =~= rest.push('\n'));
        assert(lines_of(fed) == seq![strip_cr(fed.take(k))] + lines_of(fed.skip(k + 1)));
        assert(lines_of(s) == seq![strip_cr(s.take(k))] + lines_of(rest));
    } else {
        assert forall|j: int| 0 <= j < s.len() implies fed[j] != '\n' by {
            assert(fed[j] == s[j]);
        }
        lemma_first_at(fed, '\n', s.len() as int);
        assert(fed.take(s.len() as int) =~= s);
        assert(fed.skip(s.len() as int + 1) =~= Seq::<char>::empty());
        let nothing = Seq::<char>::empty();
        assert(lines_of(nothing) =~= Seq::<Seq<char>>::empty());
        assert(lines_of(fed) == seq![strip_cr(fed.take(s.len() as int))] + lines_of(
            fed.skip(s.len() as int + 1),
        ));
        assert(lines_of(s) == seq![s]);
        assert(seq![s] + Seq::<Seq<char>>::empty() =~= seq![s]);
    }
}

/// Joins `parts` with `sep` between neighbours.
pub fn join(parts: &Vec<String>, sep: &str) -> (out: String)
    ensures
        out@ == join_of(texts(parts@), sep@),
{
    let mut out = String::new();
    let mut i: usize = 0;
    while i < parts.len()
        invariant
            i <= parts.len(),
            out@ == join_of(texts(parts@).take(i as int), sep@),
        decreases parts.len() - i,
    {
        let ghost before = texts(parts@).take(i as int);
        let ghost after = texts(parts@).take(i + 1);
        proof {
            assert(after.drop_last() =~= before);
            assert(after.last() == parts@[i as int]@);
        }
        if i > 0 {
            out.append(sep);
        } else {
            proof {
                assert(before.len() == 0);
                assert(Seq::<char>::empty() + parts@[i as int]@ =~= parts@[i as int]@);
            }
        }
        out.append(parts[i].as_str());
        i += 1;
    }
    proof {
        assert(texts(parts@).take(parts.len() as int) =~= texts(parts@));
    }
    out
}

/// Joins lines of characters with `sep` between neighbours.
pub fn join_rows(parts: &Vec<Vec<char>>, sep: &Vec<char>) -> (out: Vec<char>)
    ensures
        out@ == join_of(rows(parts@), sep@),
{
    let mut out: Vec<char> = Vec::new();
    let mut i: usize = 0;
    while i < parts.len()
        invariant
            i <= parts.len(),
            out@ == join_of(rows(parts@).take(i as int), sep@),
        decreases parts.len() - i,
    {
        let ghost before = rows(parts@).take(i as int);
        let ghost after = rows(parts@).take(i + 1);
        proof {
            assert(after.drop_last() =~= before);
            assert(after.last() == parts@[i as int]@);
        }
        if i > 0 {
            push_all(&mut out, sep);
        } else {
            proof {
                assert(before.len() == 0);
                assert(Seq::<char>::empty() + parts@[i as int]@ =~= parts@[i as int]@);
            }
        }
        push_all(&mut out, &parts[i]);
        i += 1;
    }
    proof {
        assert(rows(parts@).take(parts.len() as int) =~= rows(parts@));
    }
    out
}

/// Whether `c` occurs in `s`.
pub fn contains_char(s: &Vec<char>, c: char) -> (b: bool)
    ensures
        b == s@.contains(c),
{
    let mut i: usize = 0;
    while i < s.len()
        invariant
            i <= s.len(),
            forall|j: int| 0 <= j < i ==> s@[j] != c,
        decreases s.len() - i,
    {
        if s[i] == c {
            return true;
        }
        i += 1;
    }
    false
}

/// Whether `pattern` stands in `text` at `at`.
pub fn matches_at(text: &Vec<char>, at: usize, pattern: &Vec<char>) -> (b: bool)
    requires
        at <= text.len(),
    ensures
        b == pattern@.is_prefix_of(text@.skip(at as int)),
{
    if pattern.len() > text.len() - at {
        return false;
    }
    let mut i: usize = 0;
    while i < pattern.len()
        invariant
            i <= pattern.len() <= text.len() - at,
            forall|j: int| 0 <= j < i ==> pattern@[j] == text@[at + j],
        decreases pattern.len() - i,
    {
        if pattern[i] != text[at + i] {
            proof {
                let rest = text@.skip(at as int);
                assert(rest.subrange(0, pattern@.len() as int)[i as int] == text@[at + i]);
            }
            return false;
        }
        i += 1;
    }
    proof {
        assert(pattern@ =~= text@.skip(at as int).subrange(0, pattern@.len() as int));
    }
    true
}

/// `s` with every occurrence of `from` replaced by `to`. Occurrences are
/// found from the left and do not overlap. An empty `from` occurs before
/// every character and at the end.
pub open spec fn replace_of(s: Seq<char>, from: Seq<char>, to: Seq<char>) -> Seq<char>
    decreases s.len(),
{
    if from.len() == 0 {
        if s.len() == 0 {
            to
        } else {
            to + seq![s[0]] + replace_of(s.drop_first(), from, to)
        }
    } else if from.is_prefix_of(s) {
        to + replace_of(s.skip(from.len() as int), from, to)
    } else if s.len() == 0 {
        s
    } else {
        seq![s[0]] + replace_of(s.drop_first(), from, to)
    }
}

/// Replaces every occurrence of `from` in `text` by `to`.
pub fn replace(text: &Vec<char>, from: &Vec<char>, to: &Vec<char>) -> (out: Vec<char>)
    ensures
        out@ == replace_of(text@, from@, to@),
{
    let mut out: Vec<char> = Vec::new();
    let mut i: usize = 0;
    proof {
        assert(text@.skip(0) =~= text@);
        assert(out@ + replace_of(text@.skip(0), from@, to@) =~= replace_of(text@, from@, to@));
    }
    while i < text.len()
        invariant
            i <= text.len(),
            out@ + replace_of(text@.skip(i as int), from@, to@) == replace_of(text@, from@, to@),
        decreases text.len() - i,
    {
        let ghost rest = text@.skip(i as int);
        let ghost before = out@;
        if from.len() == 0 {
            push_all(&mut out, to);
            out.push(text[i]);
            proof {
                assert(rest.drop_first() =~= text@.skip(i + 1));
                assert(out@ + replace_of(text@.skip(i + 1), from@, to@) =~= before + (to@
                    + seq![rest[0]] + replace_of(rest.drop_first(), from@, to@)));
            }
            i += 1;
        } else if matches_at(text, i, from) {
            push_all(&mut out, to);
            proof {
                assert(rest.skip(from@.len() as int) =~= text@.skip(i + from@.len()));
                assert(out@ + replace_of(text@.skip(i + from@.len()), from@, to@) =~= before + (
                to@ + replace_of(rest.skip(from@.len() as int), from@, to@)));
            }
            i += from.len();
        } else {
            out.push(text[i]);
            proof {
                assert(rest.drop_first() =~= text@.skip(i + 1));
                assert(out@ + replace_of(text@.skip(i + 1), from@, to@) =~= before + (seq![
                    rest[0],
                ] + replace_of(rest.drop_first(), from@, to@)));
            }
            i += 1;
        }
    }
    proof {
        assert(text@.skip(i as int).len() == 0);
    }
    if from.len() == 0 {
        push_all(&mut out, to);
    } else {
        proof {
            assert(out@ + Seq::<char>::empty() =~= out@);
        }
    }
    out
}

/// Replaces every occurrence of `from` in `text` by `to`.
pub fn replace_text(text: &str, from: &str, to: &str) -> (out: String)
    ensures
        out@ == replace_of(text@, from@, to@),
{
    let out = replace(&to_chars(text), &to_chars(from), &to_chars(to));
    from_chars(&out)
}

/// A text in which the first character of `from` does not occur holds no
/// occurrence of `from`, and replacing leaves it as it is.
pub proof fn lemma_replace_absent(s: Seq<char>, from: Seq<char>, to: Seq<char>)
    requires
        from.len() > 0,
        !s.contains(from[0]),
    ensures
        replace_of(s, from, to) == s,
    decreases s.len(),
{
    if s.len() > 0 {
        assert(s[0] != from[0]) by {
            if s[0] == from[0] {
                assert(s.contains(s[0]));
            }
        }
        if from.is_prefix_of(s) {
            assert(s.subrange(0, from.len() as int)[0] == from[0]);
        }
        let rest = s.drop_first();
        assert(!rest.contains(from[0])) by {
            if rest.contains(from[0]) {
                let i = choose|i: int| 0 <= i < rest.len() && rest[i] == from[0];
                assert(s[i + 1] == from[0]);
            }
        }
        lemma_replace_absent(rest, from, to);
        assert(seq![s[0]] + rest =~= s);
    } else {
        assert(!from.is_prefix_of(s));
    }
}

/// Whether `pattern` stands somewhere in `s`.
pub open spec fn occurs(s: Seq<char>, pattern: Seq<char>) -> bool {
    exists|i: int| 0 <= i <= s.len() && pattern.is_prefix_of(#[trigger] s.skip(i))
}

/// Replacing leaves a text alone in which there is nothing to replace.
pub proof fn lemma_replace_without_occurrence(s: Seq<char>, from: Seq<char>, to: Seq<char>)
    requires
        !occurs(s, from),
    ensures
        replace_of(s, from, to) == s,
    decreases s.len(),
{
    assert(s.skip(0) =~= s);
    assert(!from.is_prefix_of(s.skip(0)));
    assert(from.len() > 0) by {
        if from.len() == 0 {
            assert(from =~= s.subrange(0, 0));
        }
    }
    if s.len() > 0 {
        let rest = s.drop_first();
        assert(!occurs(rest, from)) by {
            if occurs(rest, from) {
                let i = choose|i: int| 0 <= i <= rest.len() && from.is_prefix_of(
                    #[trigger] rest.skip(i),
                );
                assert(rest.skip(i) =~= s.skip(i + 1));
            }
        }
        lemma_replace_without_occurrence(rest, from, to);
        assert(seq![s[0]] + rest =~= s);
    }
}

/// Replacing a character by a text that does not hold it leaves a text that
/// does not hold it.
pub proof fn lemma_replace_removes(s: Seq<char>, c: char, to: Seq<char>)
    requires
        !to.contains(c),
    ensures
        !replace_of(s, seq![c], to).contains(c),
    decreases s.len(),
{
    let from = seq![c];
    let out = replace_of(s, from, to);
    if from.is_prefix_of(s) {
        let tail = replace_of(s.skip(1), from, to);
        lemma_replace_removes(s.skip(1), c, to);
        assert forall|i: int| 0 <= i < out.len() implies out[i] != c by {
            if i < to.len() {
                assert(to.contains(to[i]));
            } else {
                assert(tail.contains(tail[i - to.len()]));
            }
        }
    } else if s.len() > 0 {
        let tail = replace_of(s.drop_first(), from, to);
        lemma_replace_removes(s.drop_first(), c, to);
        assert(s[0] != c) by {
            if s[0] == c {
                assert(s.subrange(0, 1) =~= from);
            }
        }
        assert forall|i: int| 0 <= i < out.len() implies out[i] != c by {
            if i > 0 {
                assert(tail.contains(tail[i - 1]));
            }
        }
    }
}

} // verus!
