//! Structural reflow: hard-wrapped lines become paragraphs, and list
//! bullets become prose.

use vstd::prelude::*;
use crate::chars::{
    from_chars, is_blank, is_blank_line, join_of, join_rows, lines, lines_of, matches_at, push_all,
    rows, slice, to_chars, trim, trim_of, trim_start, trim_start_of,
};
use crate::config::{ListConfig, ParagraphBoundary, StructureConfig};

verus! {

/// The trimmed lines of the paragraph that is still open after `lines`. A
/// blank line closes the paragraph where blank lines are boundaries, and is
/// passed over where they are not.
pub open spec fn open_paragraph(lines: Seq<Seq<char>>, boundary: ParagraphBoundary) -> Seq<
    Seq<char>,
>
    decreases lines.len(),
{
    if lines.len() == 0 {
        Seq::empty()
    } else if is_blank(lines.last()) {
        match boundary {
            ParagraphBoundary::BlankLines => Seq::empty(),
            ParagraphBoundary::Never => open_paragraph(lines.drop_last(), boundary),
        }
    } else {
        open_paragraph(lines.drop_last(), boundary).push(trim_of(lines.last()))
    }
}

/// The output lines that are finished after `lines`: where blank lines are
/// boundaries, each blank line finishes the open paragraph, if there is one,
/// and adds an empty line; where they are not, nothing is finished before
/// the end.
pub open spec fn closed_paragraphs(
    lines: Seq<Seq<char>>,
    joiner: Seq<char>,
    boundary: ParagraphBoundary,
) -> Seq<Seq<char>>
    decreases lines.len(),
{
    if lines.len() == 0 {
        Seq::empty()
    } else if is_blank(lines.last()) && boundary == ParagraphBoundary::BlankLines {
        let before = closed_paragraphs(lines.drop_last(), joiner, boundary);
        let pending = open_paragraph(lines.drop_last(), boundary);
        if pending.len() > 0 {
            before.push(join_of(pending, joiner)).push(Seq::empty())
        } else {
            before.push(Seq::empty())
        }
    } else {
        closed_paragraphs(lines.drop_last(), joiner, boundary)
    }
}

/// The output lines for `lines`: the finished ones, then the open paragraph
/// if it holds a line.
pub open spec fn paragraphs_of(
    lines: Seq<Seq<char>>,
    joiner: Seq<char>,
    boundary: ParagraphBoundary,
) -> Seq<Seq<char>> {
    let pending = open_paragraph(lines, boundary);
    if pending.len() > 0 {
        closed_paragraphs(lines, joiner, boundary).push(join_of(pending, joiner))
    } else {
        closed_paragraphs(lines, joiner, boundary)
    }
}

/// Whether every line is a paragraph of its own already: each blank line
/// is empty, each other line is trimmed, and no two lines that are not
/// blank follow each other.
pub open spec fn one_paragraph_per_line(lines: Seq<Seq<char>>) -> bool {
    &&& forall|i: int|
        0 <= i < lines.len() ==> if is_blank(#[trigger] lines[i]) {
            lines[i].len() == 0
        } else {
            trim_of(lines[i]) == lines[i]
        }
    &&& forall|i: int|
        0 <= i < lines.len() - 1 ==> is_blank(#[trigger] lines[i]) || is_blank(lines[i + 1])
}

/// Where blank lines are boundaries, lines that are paragraphs of their own
/// already are left as they are.
pub proof fn lemma_paragraphs_stay(lines: Seq<Seq<char>>, joiner: Seq<char>)
    requires
        one_paragraph_per_line(lines),
    ensures
        paragraphs_of(lines, joiner, ParagraphBoundary::BlankLines) == lines,
    decreases lines.len(),
{
    let boundary = ParagraphBoundary::BlankLines;
    if lines.len() > 0 {
        let before = lines.drop_last();
        assert(one_paragraph_per_line(before)) by {
            assert forall|i: int| 0 <= i < before.len() implies if is_blank(#[trigger] before[i]) {
                before[i].len() == 0
            } else {
                trim_of(before[i]) == before[i]
            } by {
                assert(before[i] == lines[i]);
            }
            assert forall|i: int| 0 <= i < before.len() - 1 implies is_blank(
                #[trigger] before[i],
            ) || is_blank(before[i + 1]) by {
                assert(before[i] == lines[i]);
                assert(before[i + 1] == lines[i + 1]);
            }
        }
        lemma_paragraphs_stay(before, joiner);
        let last = lines.last();
        assert(last == lines[lines.len() - 1]);
        if is_blank(last) {
            assert(last =~= Seq::<char>::empty());
            assert(before.push(last) =~= lines);
            assert(open_paragraph(lines, boundary) =~= Seq::<Seq<char>>::empty());
        } else {
            assert(open_paragraph(before, boundary) =~= Seq::<Seq<char>>::empty()) by {
                if before.len() > 0 {
                    assert(before.last() == lines[lines.len() - 2]);
                    assert(is_blank(lines[lines.len() - 2]));
                }
            }
            let pending = open_paragraph(lines, boundary);
            assert(pending =~= seq![last]);
            assert(join_of(pending, joiner) == last);
            assert(before.push(last) =~= lines);
        }
    }
}

/// What `unwrap_paragraphs` returns.
pub open spec fn unwrap_paragraphs_of(
    text: Seq<char>,
    joiner: Seq<char>,
    boundary: ParagraphBoundary,
) -> Seq<char> {
    join_of(paragraphs_of(lines_of(text), joiner, boundary), seq!['\n'])
}

fn newline() -> (out: Vec<char>)
    ensures
        out@ == seq!['\n'],
{
    let mut out: Vec<char> = Vec::new();
    out.push('\n');
    proof {
        assert(out@ =~= seq!['\n']);
    }
    out
}

/// Joins hard-wrapped lines into paragraphs. Each line is trimmed at both
/// ends; the lines of a paragraph are joined by `joiner`, and each paragraph
/// takes one line of the result. With `BlankLines` a blank line ends the
/// paragraph and stays as an empty line. With `Never` blank lines are
/// dropped and end nothing, so that the text becomes one paragraph. A text
/// without a non-blank line gives no paragraph.
pub fn unwrap_paragraphs(text: &str, joiner: &str, boundary: &ParagraphBoundary) -> (out: String)
    ensures
        out@ == unwrap_paragraphs_of(text@, joiner@, *boundary),
{
    let chars = to_chars(text);
    let glue = to_chars(joiner);
    let all = lines(&chars);
    let mut paragraphs: Vec<Vec<char>> = Vec::new();
    let mut buffer: Vec<Vec<char>> = Vec::new();
    let mut i: usize = 0;
    while i < all.len()
        invariant
            i <= all.len(),
            glue@ == joiner@,
            rows(paragraphs@) == closed_paragraphs(rows(all@).take(i as int), joiner@, *boundary),
            rows(buffer@) == open_paragraph(rows(all@).take(i as int), *boundary),
        decreases all.len() - i,
    {
        proof {
            assert(rows(all@).take(i + 1).drop_last() =~= rows(all@).take(i as int));
            assert(rows(all@).take(i + 1).last() == all@[i as int]@);
        }
        if is_blank_line(&all[i]) {
            match boundary {
                ParagraphBoundary::BlankLines => {
                    if buffer.len() > 0 {
                        let paragraph = join_rows(&buffer, &glue);
                        proof {
                            assert(rows(paragraphs@.push(paragraph)) =~= rows(paragraphs@).push(
                                paragraph@,
                            ));
                        }
                        paragraphs.push(paragraph);
                        buffer = Vec::new();
                    }
                    let empty: Vec<char> = Vec::new();
                    proof {
                        assert(rows(paragraphs@.push(empty)) =~= rows(paragraphs@).push(empty@));
                        assert(rows(buffer@) =~= Seq::<Seq<char>>::empty());
                    }
                    paragraphs.push(empty);
                },
                ParagraphBoundary::Never => {},
            }
        } else {
            let trimmed = trim(&all[i]);
            proof {
                assert(rows(buffer@.push(trimmed)) =~= rows(buffer@).push(trimmed@));
            }
            buffer.push(trimmed);
        }
        i += 1;
    }
    proof {
        assert(rows(all@).take(all.len() as int) =~= rows(all@));
    }
    if buffer.len() > 0 {
        let paragraph = join_rows(&buffer, &glue);
        proof {
            assert(rows(paragraphs@.push(paragraph)) =~= rows(paragraphs@).push(paragraph@));
        }
        paragraphs.push(paragraph);
    }
    let joined = join_rows(&paragraphs, &newline());
    from_chars(&joined)
}

/// The first of `markers`, in their order, that `line` starts with.
pub open spec fn first_marker(line: Seq<char>, markers: Seq<Seq<char>>) -> Option<Seq<char>>
    decreases markers.len(),
{
    if markers.len() == 0 {
        None
    } else if markers[0].is_prefix_of(line) {
        Some(markers[0])
    } else {
        first_marker(line, markers.drop_first())
    }
}

/// A line with its bullet flattened: where the line, trimmed at its start,
/// begins with a marker, the replacement followed by what comes after the
/// marker, trimmed at its start; any other line as it is.
pub open spec fn flattened_line(
    line: Seq<char>,
    markers: Seq<Seq<char>>,
    replacement: Seq<char>,
) -> Seq<char> {
    let content = trim_start_of(line);
    match first_marker(content, markers) {
        Some(marker) => replacement + trim_start_of(content.skip(marker.len() as int)),
        None => line,
    }
}

/// Every line of `lines` with its bullet flattened.
pub open spec fn flattened_lines(
    lines: Seq<Seq<char>>,
    markers: Seq<Seq<char>>,
    replacement: Seq<char>,
) -> Seq<Seq<char>> {
    lines.map_values(|line: Seq<char>| flattened_line(line, markers, replacement))
}

/// Lines of which none starts with a marker are left as they are.
pub proof fn lemma_flattened_lines_stay(
    lines: Seq<Seq<char>>,
    markers: Seq<Seq<char>>,
    replacement: Seq<char>,
)
    requires
        forall|i: int|
            0 <= i < lines.len() ==> first_marker(trim_start_of(#[trigger] lines[i]), markers)
                is None,
    ensures
        flattened_lines(lines, markers, replacement) == lines,
{
    assert(flattened_lines(lines, markers, replacement) =~= lines);
}

/// What `flatten_bullets` returns.
pub open spec fn flatten_bullets_of(
    text: Seq<char>,
    markers: Seq<Seq<char>>,
    replacement: Seq<char>,
) -> Seq<char> {
    join_of(flattened_lines(lines_of(text), markers, replacement), seq!['\n'])
}

/// The views of the configured markers.
pub open spec fn marker_texts(cfg: ListConfig) -> Seq<Seq<char>> {
    cfg.bullet_markers@.map_values(|s: String| s@)
}

fn flatten_line(line: &Vec<char>, markers: &Vec<Vec<char>>, replacement: &Vec<char>) -> (out: Vec<
    char,
>)
    ensures
        out@ == flattened_line(line@, rows(markers@), replacement@),
{
    let content = trim_start(line);
    let mut k: usize = 0;
    proof {
        assert(rows(markers@).skip(0) =~= rows(markers@));
        assert(content@.skip(0) =~= content@);
    }
    while k < markers.len()
        invariant
            k <= markers.len(),
            content@ == trim_start_of(line@),
            first_marker(content@, rows(markers@).skip(k as int)) == first_marker(
                content@,
                rows(markers@),
            ),
        decreases markers.len() - k,
    {
        proof {
            assert(rows(markers@).skip(k as int).drop_first() =~= rows(markers@).skip(k + 1));
            assert(rows(markers@).skip(k as int)[0] == markers@[k as int]@);
            assert(content@.skip(0) =~= content@);
        }
        if matches_at(&content, 0, &markers[k]) {
            let after = slice(&content, markers[k].len(), content.len());
            let remainder = trim_start(&after);
            let mut out: Vec<char> = Vec::new();
            push_all(&mut out, replacement);
            push_all(&mut out, &remainder);
            proof {
                assert(after@ =~= content@.skip(markers@[k as int]@.len() as int));
                assert(out@ =~= replacement@ + remainder@);
            }
            return out;
        }
        k += 1;
    }
    slice(line, 0, line.len())
}

/// Flattens list bullets. A line that, trimmed at its start, begins with one
/// of the configured markers (tried in their order) becomes the configured
/// replacement followed by the rest of the line, trimmed at its start. Every
/// other line stays as it is.
pub fn flatten_bullets(text: &str, cfg: &ListConfig) -> (out: String)
    ensures
        out@ == flatten_bullets_of(text@, marker_texts(*cfg), cfg.bullet_replacement@),
{
    let chars = to_chars(text);
    let replacement = to_chars(cfg.bullet_replacement.as_str());
    let mut markers: Vec<Vec<char>> = Vec::new();
    let mut m: usize = 0;
    while m < cfg.bullet_markers.len()
        invariant
            m <= cfg.bullet_markers.len(),
            rows(markers@) =~= marker_texts(*cfg).take(m as int),
        decreases cfg.bullet_markers.len() - m,
    {
        let marker = to_chars(cfg.bullet_markers[m].as_str());
        proof {
            assert(rows(markers@.push(marker)) =~= rows(markers@).push(marker@));
            assert(marker_texts(*cfg).take(m + 1) =~= marker_texts(*cfg).take(m as int).push(
                marker@,
            ));
        }
        markers.push(marker);
        m += 1;
    }
    proof {
        assert(marker_texts(*cfg).take(m as int) =~= marker_texts(*cfg));
    }
    let all = lines(&chars);
    let mut done: Vec<Vec<char>> = Vec::new();
    let mut i: usize = 0;
    while i < all.len()
        invariant
            i <= all.len(),
            rows(markers@) == marker_texts(*cfg),
            replacement@ == cfg.bullet_replacement@,
            rows(done@) =~= flattened_lines(
                rows(all@),
                marker_texts(*cfg),
                cfg.bullet_replacement@,
            ).take(i as int),
        decreases all.len() - i,
    {
        let line = flatten_line(&all[i], &markers, &replacement);
        proof {
            let flat = flattened_lines(rows(all@), marker_texts(*cfg), cfg.bullet_replacement@);
            assert(rows(done@.push(line)) =~= rows(done@).push(line@));
            assert(flat.take(i + 1) =~= flat.take(i as int).push(line@));
        }
        done.push(line);
        i += 1;
    }
    proof {
        let flat = flattened_lines(rows(all@), marker_texts(*cfg), cfg.bullet_replacement@);
        assert(flat.take(all.len() as int) =~= flat);
    }
    let joined = join_rows(&done, &newline());
    from_chars(&joined)
}

/// What `reflow` returns: the text after paragraphs have been unwrapped and
/// bullets flattened, in this order, each as far as the configuration asks
/// for it.
pub open spec fn reflowed(text: Seq<char>, structure: StructureConfig, lists: ListConfig) -> Seq<
    char,
> {
    let a = if structure.unwrap_hard_wrapped_lines {
        unwrap_paragraphs_of(text, structure.join_lines_with@, structure.paragraph_boundary)
    } else {
        text
    };
    if lists.flatten_bullets {
        flatten_bullets_of(a, marker_texts(lists), lists.bullet_replacement@)
    } else {
        a
    }
}

/// Unwraps paragraphs, then flattens bullets. A bullet is flattened only
/// where its marker still starts a line after the paragraphs have been
/// joined.
pub fn reflow(text: &str, structure: &StructureConfig, lists: &ListConfig) -> (out: String)
    ensures
        out@ == reflowed(text@, *structure, *lists),
{
    let mut out = text.to_owned();
    if structure.unwrap_hard_wrapped_lines {
        out = unwrap_paragraphs(
            out.as_str(),
            structure.join_lines_with.as_str(),
            &structure.paragraph_boundary,
        );
    }
    if lists.flatten_bullets {
        out = flatten_bullets(out.as_str(), lists);
    }
    out
}

} // verus!
