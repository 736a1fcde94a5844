//! A signature of what the visible part of a terminal shows, used to skip
//! repaints when nothing visible changed.

use vstd::prelude::*;

use crate::display::lines_for_display;
use crate::display::spec_lines_for_display;
use crate::render::{
    spec_render_line_count, terminal_render_line_count_for_source, window,
};
use crate::styled::{
    CellView, LineView, RunView, TerminalStyledCell, TerminalStyledLine, TerminalStyledRun,
};
use crate::terminal::{TerminalCursor, TerminalRenderSource, TerminalState};
use crate::text::chars_of;
use std::hash::{DefaultHasher, Hasher};
use vstd::std_specs::hash::DefaultHasherAdditionalSpecFns;

verus! {

/// The `n` low bytes of `w`, least significant first.
pub open spec fn le_bytes(w: nat, n: nat) -> Seq<u8>
    decreases n,
{
    if n == 0 {
        seq![]
    } else {
        seq![(w % 256) as u8] + le_bytes(w / 256, (n - 1) as nat)
    }
}

/// Words as bytes: each word as its eight bytes, least significant first.
pub open spec fn words_bytes(words: Seq<u64>) -> Seq<u8>
    decreases words.len(),
{
    if words.len() == 0 {
        seq![]
    } else {
        words_bytes(words.drop_last()) + le_bytes(words.last() as nat, 8)
    }
}

/// The bytes of words; see [`words_bytes`].
fn words_to_bytes(words: &Vec<u64>) -> (bytes: Vec<u8>)
    ensures
        bytes@ == words_bytes(words@),
{
    let mut bytes: Vec<u8> = Vec::new();
    for i in 0..words.len()
        invariant
            bytes@ == words_bytes(words@.take(i as int)),
    {
        let ghost before = bytes@;
        let w = words[i];
        let mut v: u64 = w;
        for k in 0..8usize
            invariant
                before + le_bytes(w as nat, 8) == bytes@ + le_bytes(v as nat, (8 - k) as nat),
        {
            bytes.push((v % 256) as u8);
            v = v / 256;
        }
        assert(le_bytes(v as nat, 0) =~= Seq::<u8>::empty());
        assert(words@.take(i + 1).drop_last() =~= words@.take(i as int));
        assert(bytes@ =~= words_bytes(words@.take(i + 1)));
    }
    assert(words@.take(words.len() as int) =~= words@);
    bytes
}

/// A text as words: its length, then one word per character.
pub open spec fn text_words(t: Seq<char>) -> Seq<u64> {
    seq![t.len() as u64] + t.map_values(|c: char| c as u64)
}

/// A cell as words.
pub open spec fn cell_words(c: CellView) -> Seq<u64> {
    seq![c.column as u64] + text_words(c.text) + seq![c.fg as u64, c.bg as u64]
}

/// A run as words.
pub open spec fn run_words(r: RunView) -> Seq<u64> {
    text_words(r.text) + seq![r.fg as u64, r.bg as u64]
}

/// The words of each cell, in order.
pub open spec fn cells_words(cells: Seq<CellView>) -> Seq<u64>
    decreases cells.len(),
{
    if cells.len() == 0 {
        seq![]
    } else {
        cells_words(cells.drop_last()) + cell_words(cells.last())
    }
}

/// The words of each run, in order.
pub open spec fn runs_words(runs: Seq<RunView>) -> Seq<u64>
    decreases runs.len(),
{
    if runs.len() == 0 {
        seq![]
    } else {
        runs_words(runs.drop_last()) + run_words(runs.last())
    }
}

/// A styled line as words: its cell count and cells, its run count and runs.
pub open spec fn line_words(l: LineView) -> Seq<u64> {
    seq![l.cells.len() as u64] + cells_words(l.cells) + seq![l.runs.len() as u64] + runs_words(l.runs)
}

/// The words of each styled line, in order.
pub open spec fn lines_words(lines: Seq<LineView>) -> Seq<u64>
    decreases lines.len(),
{
    if lines.len() == 0 {
        seq![]
    } else {
        lines_words(lines.drop_last()) + line_words(lines.last())
    }
}

/// The words of each plain line, in order.
pub open spec fn texts_words(lines: Seq<Seq<char>>) -> Seq<u64>
    decreases lines.len(),
{
    if lines.len() == 0 {
        seq![]
    } else {
        texts_words(lines.drop_last()) + text_words(lines.last())
    }
}

/// The state as a word.
pub open spec fn state_word(state: TerminalState) -> u64 {
    match state {
        TerminalState::Running => 0,
        TerminalState::Completed => 1,
        TerminalState::Failed => 2,
    }
}

/// The cursor as words.
pub open spec fn cursor_words(cursor: Option<TerminalCursor>) -> Seq<u64> {
    match cursor {
        Some(c) => seq![1u64, c.line as u64, c.column as u64],
        None => seq![0u64],
    }
}

/// Everything the visible part of a source shows, as words: state, cursor,
/// visible range, render line count, then the styled lines of the range (or,
/// without styled lines, the display lines of the range).
pub open spec fn signature_words(
    state: TerminalState,
    cursor: Option<TerminalCursor>,
    start: usize,
    end: usize,
    line_count: usize,
    styled: Seq<LineView>,
    output: Seq<char>,
) -> Seq<u64> {
    let head = seq![state_word(state)] + cursor_words(cursor) + seq![
        start as u64,
        end as u64,
        line_count as u64,
    ];
    if styled.len() > 0 {
        let visible = window(styled, start as int, end - start);
        head + seq![1u64, visible.len() as u64] + lines_words(visible)
    } else {
        let visible = window(spec_lines_for_display(output, false), start as int, end - start);
        head + seq![0u64, visible.len() as u64] + texts_words(visible)
    }
}

/// The visible-content signature of a source.
pub open spec fn spec_visible_render_signature(
    state: TerminalState,
    cursor: Option<TerminalCursor>,
    start: usize,
    end: usize,
    styled: Seq<LineView>,
    output: Seq<char>,
) -> u64 {
    let count = spec_render_line_count(styled, output, cursor, None) as usize;
    DefaultHasher::spec_finish(
        seq![words_bytes(signature_words(state, cursor, start, end, count, styled, output))],
    )
}

fn push_text_words(words: &mut Vec<u64>, t: &String)
    ensures
        final(words)@ == old(words)@ + text_words(t@),
{
    let chars = chars_of(t.as_str());
    let ghost w0 = words@;
    words.push(chars.len() as u64);
    for i in 0..chars.len()
        invariant
            chars@ == t@,
            words@ == w0 + seq![t@.len() as u64] + chars@.take(i as int).map_values(|c: char| c as u64),
    {
        words.push(chars[i] as u64);
        assert(chars@.take(i + 1).map_values(|c: char| c as u64) =~= chars@.take(i as int).map_values(
            |c: char| c as u64,
        ).push(chars@[i as int] as u64));
    }
    assert(chars@.take(chars.len() as int) =~= chars@);
}

fn push_line_words(words: &mut Vec<u64>, line: &TerminalStyledLine)
    ensures
        final(words)@ == old(words)@ + line_words(line.deep_view()),
{
    let ghost w0 = words@;
    let ghost lv = line.deep_view();
    words.push(line.cells.len() as u64);
    for i in 0..line.cells.len()
        invariant
            lv == line.deep_view(),
            words@ == w0 + seq![lv.cells.len() as u64] + cells_words(lv.cells.take(i as int)),
    {
        let cell = &line.cells[i];
        words.push(cell.column as u64);
        push_text_words(words, &cell.text);
        words.push(cell.fg as u64);
        words.push(cell.bg as u64);
        assert(lv.cells.take(i + 1).drop_last() =~= lv.cells.take(i as int));
        assert(words@ =~= w0 + seq![lv.cells.len() as u64] + cells_words(lv.cells.take(i + 1)));
    }
    assert(lv.cells.take(line.cells.len() as int) =~= lv.cells);
    let ghost w1 = words@;
    words.push(line.runs.len() as u64);
    for i in 0..line.runs.len()
        invariant
            lv == line.deep_view(),
            words@ == w1 + seq![lv.runs.len() as u64] + runs_words(lv.runs.take(i as int)),
    {
        let run = &line.runs[i];
        push_text_words(words, &run.text);
        words.push(run.fg as u64);
        words.push(run.bg as u64);
        assert(lv.runs.take(i + 1).drop_last() =~= lv.runs.take(i as int));
        assert(words@ =~= w1 + seq![lv.runs.len() as u64] + runs_words(lv.runs.take(i + 1)));
    }
    assert(lv.runs.take(line.runs.len() as int) =~= lv.runs);
    assert(words@ =~= w0 + line_words(lv));
}

/// Appends the words of `span` styled lines from `start`.
fn push_visible_styled_words(words: &mut Vec<u64>, styled: &[TerminalStyledLine], start: usize, span: usize)
    ensures
        final(words)@ == old(words)@ + seq![1u64, window(styled.deep_view(), start as int, span as int).len() as u64]
            + lines_words(window(styled.deep_view(), start as int, span as int)),
{
    let ghost sv = styled.deep_view();
    let len = styled.len();
    let from = if start < len { start } else { len };
    let to = if span < len - from { from + span } else { len };
    let ghost w0 = words@;
    words.push(1u64);
    words.push((to - from) as u64);
    let ghost w1 = words@;
    for i in from..to
        invariant
            to <= len,
            len == styled.len(),
            sv == styled.deep_view(),
            words@ == w1 + lines_words(sv.subrange(from as int, i as int)),
    {
        push_line_words(words, &styled[i]);
        assert(sv.subrange(from as int, i + 1).drop_last() =~= sv.subrange(from as int, i as int));
    }
    assert(sv.subrange(from as int, to as int) =~= window(sv, start as int, span as int));
}

/// Appends the words of `span` display lines of `output` from `start`.
fn push_visible_plain_words(words: &mut Vec<u64>, output: &str, start: usize, span: usize)
    ensures
        final(words)@ == old(words)@ + seq![
            0u64,
            window(spec_lines_for_display(output@, false), start as int, span as int).len() as u64,
        ] + texts_words(window(spec_lines_for_display(output@, false), start as int, span as int)),
{
    let all = lines_for_display(output, false);
    let ghost av = all.deep_view();
    let len = all.len();
    let from = if start < len { start } else { len };
    let to = if span < len - from { from + span } else { len };
    words.push(0u64);
    words.push((to - from) as u64);
    let ghost w1 = words@;
    for i in from..to
        invariant
            to <= len,
            len == all.len(),
            av == all.deep_view(),
            words@ == w1 + texts_words(av.subrange(from as int, i as int)),
    {
        push_text_words(words, &all[i]);
        assert(av.subrange(from as int, i + 1).drop_last() =~= av.subrange(from as int, i as int));
    }
    assert(av.subrange(from as int, to as int) =~= window(av, start as int, span as int));
}

/// A signature of what `visible_range` of a source shows; two sources that
/// agree on state, cursor, line count and the visible lines get the same
/// signature. A reversed range must not end inside the styled lines.
pub fn terminal_visible_render_signature_for_source(
    source: &TerminalRenderSource<'_>,
    visible_range: std::ops::Range<usize>,
) -> (h: u64)
    requires
        source.styled_output.len() == 0 || visible_range.start <= visible_range.end
            || visible_range.end >= source.styled_output.len(),
    ensures
        h == spec_visible_render_signature(
            source.state,
            source.cursor,
            visible_range.start,
            visible_range.end,
            source.styled(),
            source.output@,
        ),
{
    let mut words: Vec<u64> = Vec::new();
    words.push(match source.state {
        TerminalState::Running => 0u64,
        TerminalState::Completed => 1u64,
        TerminalState::Failed => 2u64,
    });
    match source.cursor {
        Some(c) => {
            words.push(1u64);
            words.push(c.line as u64);
            words.push(c.column as u64);
        },
        None => {
            words.push(0u64);
        },
    }
    words.push(visible_range.start as u64);
    words.push(visible_range.end as u64);
    let count = terminal_render_line_count_for_source(source, None);
    words.push(count as u64);
    let ghost head = words@;
    assert(head =~= seq![state_word(source.state)] + cursor_words(source.cursor) + seq![
        visible_range.start as u64,
        visible_range.end as u64,
        count as u64,
    ]);
    let span: usize = if visible_range.end > visible_range.start {
        visible_range.end - visible_range.start
    } else {
        0
    };
    if source.styled_output.len() > 0 {
        push_visible_styled_words(&mut words, source.styled_output, visible_range.start, span);
    } else {
        push_visible_plain_words(&mut words, source.output, visible_range.start, span);
    }
    assert(window(source.styled(), visible_range.start as int, span as int) =~= window(
        source.styled(),
        visible_range.start as int,
        visible_range.end - visible_range.start,
    ));
    assert(window(spec_lines_for_display(source.output@, false), visible_range.start as int, span as int)
        =~= window(
        spec_lines_for_display(source.output@, false),
        visible_range.start as int,
        visible_range.end - visible_range.start,
    ));
    assert(words@ =~= signature_words(
        source.state,
        source.cursor,
        visible_range.start,
        visible_range.end,
        count,
        source.styled(),
        source.output@,
    ));
    let bytes = words_to_bytes(&words);
    let mut hasher = DefaultHasher::new();
    hasher.write(bytes.as_slice());
    assert(hasher@ =~= seq![bytes@]);
    hasher.finish()
}


/// The signature depends only on what is visible: two sources with the same
/// state, cursor and render line count whose lines agree within the range get
/// the same signature, whatever their other lines hold.
pub proof fn lemma_signature_depends_on_visible_lines(
    state: TerminalState,
    cursor: Option<TerminalCursor>,
    start: usize,
    end: usize,
    styled_a: Seq<LineView>,
    styled_b: Seq<LineView>,
    output: Seq<char>,
)
    requires
        styled_a.len() > 0,
        styled_b.len() > 0,
        spec_render_line_count(styled_a, output, cursor, None) == spec_render_line_count(
            styled_b,
            output,
            cursor,
            None,
        ),
        window(styled_a, start as int, end - start) == window(styled_b, start as int, end - start),
    ensures
        spec_visible_render_signature(state, cursor, start, end, styled_a, output)
            == spec_visible_render_signature(state, cursor, start, end, styled_b, output),
{
}

/// The signature takes in the whole cursor: two sources that differ only in
/// their cursor (its presence, its line or its column) hash different words,
/// so moving the cursor, even along its line, is never mistaken for an
/// unchanged screen.
pub proof fn lemma_signature_words_tell_cursors_apart(
    state: TerminalState,
    cursor_a: Option<TerminalCursor>,
    cursor_b: Option<TerminalCursor>,
    start: usize,
    end: usize,
    count_a: usize,
    count_b: usize,
    styled: Seq<LineView>,
    output: Seq<char>,
)
    requires
        cursor_a != cursor_b,
    ensures
        signature_words(state, cursor_a, start, end, count_a, styled, output) != signature_words(
            state,
            cursor_b,
            start,
            end,
            count_b,
            styled,
            output,
        ),
{
    let wa = signature_words(state, cursor_a, start, end, count_a, styled, output);
    let wb = signature_words(state, cursor_b, start, end, count_b, styled, output);
    match (cursor_a, cursor_b) {
        (Some(a), Some(b)) => {
            if a.line != b.line {
                assert(wa[2] != wb[2]);
            } else {
                assert(a.column != b.column);
                assert(wa[3] != wb[3]);
            }
        },
        (None, None) => {},
        _ => {
            assert(wa[1] != wb[1]);
        },
    }
}

} // verus!
