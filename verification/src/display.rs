//! Plain-text views of terminal output: display lines, tails, token and line
//! bounds, selected text and excerpts.

use vstd::prelude::*;

use crate::paint::{
    empty_line, line_cells, normalized_terminal_selection, padded,
    select_cell, selection_from, selection_to, spec_apply_selection, spec_normalized_selection,
    spec_remap_line, spec_select_line,
};
use crate::styled::{
    cells_from_runs, run_chars, sat_succ, spec_cells_from_runs, CellView, LineView, RunView,
    TerminalStyledCell, TerminalStyledLine, TerminalStyledRun,
};
use crate::terminal::{
    terminal_render_source_for_session, TerminalGridPosition, TerminalRenderSource,
    TerminalSelection, TerminalSession, ThemePalette,
};
use crate::text::{is_whitespace, spec_is_whitespace};
use crate::text::{chars_of, lines_of, push_char, push_str, spec_lines, string_from_char_range};

verus! {

/// The placeholder shown for a session without output.
pub open spec fn placeholder_text() -> Seq<char> {
    seq!['<', 'n', 'o', ' ', 'o', 'u', 't', 'p', 'u', 't', ' ', 'y', 'e', 't', '>']
}

/// Display lines of a text: the placeholder, or one empty line, for empty
/// text; otherwise its lines.
pub open spec fn spec_lines_for_display(text: Seq<char>, placeholder_when_empty: bool) -> Seq<Seq<char>> {
    if text.len() == 0 && placeholder_when_empty {
        seq![placeholder_text()]
    } else if text.len() == 0 {
        seq![Seq::<char>::empty()]
    } else {
        spec_lines(text)
    }
}

/// Splits output text into the lines to display.
pub fn lines_for_display(text: &str, placeholder_when_empty: bool) -> (lines: Vec<String>)
    ensures
        lines.deep_view() == spec_lines_for_display(text@, placeholder_when_empty),
{
    if text.is_empty() && placeholder_when_empty {
        let placeholder = "<no output yet>";
        proof {
            reveal_strlit("<no output yet>");
        }
        assert(placeholder@ =~= placeholder_text());
        let mut v: Vec<String> = Vec::new();
        v.push(placeholder.to_owned());
        assert(v.deep_view() =~= seq![placeholder_text()]);
        return v;
    }
    if text.is_empty() {
        let mut v: Vec<String> = Vec::new();
        v.push(String::new());
        assert(v.deep_view() =~= seq![Seq::<char>::empty()]);
        return v;
    }
    lines_of(text)
}

/// A plain line as a styled line: one cell per character in the primary text
/// color on the terminal background, and one run of the whole line unless it
/// is empty.
pub open spec fn spec_plain_line_to_styled(line: Seq<char>, theme: ThemePalette) -> LineView {
    LineView {
        cells: Seq::new(
            line.len(),
            |i: int|
                CellView {
                    column: i as usize,
                    text: seq![line[i]],
                    fg: theme.text_primary,
                    bg: theme.terminal_bg,
                },
        ),
        runs: if line.len() == 0 {
            seq![]
        } else {
            seq![RunView { text: line, fg: theme.text_primary, bg: theme.terminal_bg }]
        },
    }
}

/// Styles plain lines with the theme's text and background colors.
pub fn plain_lines_to_styled(lines: Vec<String>, theme: ThemePalette) -> (styled: Vec<TerminalStyledLine>)
    ensures
        styled.deep_view() == lines.deep_view().map_values(
            |l: Seq<char>| spec_plain_line_to_styled(l, theme),
        ),
{
    let mut styled: Vec<TerminalStyledLine> = Vec::new();
    let ghost lv = lines.deep_view();
    for i in 0..lines.len()
        invariant
            lv == lines.deep_view(),
            styled.deep_view() == lv.take(i as int).map_values(
                |l: Seq<char>| spec_plain_line_to_styled(l, theme),
            ),
    {
        let line = &lines[i];
        let chars = chars_of(line.as_str());
        let mut cells: Vec<TerminalStyledCell> = Vec::new();
        for column in 0..chars.len()
            invariant
                chars@ == line@,
                line@ == lv[i as int],
                cells.deep_view() == Seq::new(
                    column as nat,
                    |k: int|
                        CellView {
                            column: k as usize,
                            text: seq![chars@[k]],
                            fg: theme.text_primary,
                            bg: theme.terminal_bg,
                        },
                ),
        {
            let mut text = String::new();
            push_char(&mut text, chars[column]);
            assert(text@ =~= seq![chars@[column as int]]);
            let ghost before = cells.deep_view();
            cells.push(TerminalStyledCell { column, text, fg: theme.text_primary, bg: theme.terminal_bg });
            assert(cells.deep_view() =~= before.push(cells@[column as int].deep_view()));
            assert(cells.deep_view() =~= Seq::new(
                (column + 1) as nat,
                |k: int|
                    CellView {
                        column: k as usize,
                        text: seq![chars@[k]],
                        fg: theme.text_primary,
                        bg: theme.terminal_bg,
                    },
            ));
        }
        let mut runs: Vec<TerminalStyledRun> = Vec::new();
        if !line.as_str().is_empty() {
            runs.push(TerminalStyledRun { text: line.clone(), fg: theme.text_primary, bg: theme.terminal_bg });
        }
        let new_line = TerminalStyledLine { cells, runs };
        assert(new_line.deep_view().runs =~= spec_plain_line_to_styled(lv[i as int], theme).runs);
        assert(new_line.deep_view().cells =~= spec_plain_line_to_styled(lv[i as int], theme).cells);
        let ghost before = styled.deep_view();
        styled.push(new_line);
        assert(styled.deep_view() =~= before.push(styled@[i as int].deep_view()));
        assert(lv.take(i + 1) =~= lv.take(i as int).push(lv[i as int]));
        assert(styled.deep_view() =~= lv.take(i + 1).map_values(
            |l: Seq<char>| spec_plain_line_to_styled(l, theme),
        ));
    }
    assert(lv.take(lines.len() as int) =~= lv);
    styled
}


/// `n` spaces.
pub open spec fn spaces(n: nat) -> Seq<char> {
    Seq::new(n, |i: int| ' ')
}

/// The text of cells laid out on a row starting at column `current`: each
/// cell is preceded by spaces up to its column and advances the column by one.
pub open spec fn cells_text_from(cells: Seq<CellView>, current: usize) -> Seq<char>
    decreases cells.len(),
{
    if cells.len() == 0 {
        seq![]
    } else {
        let c = cells[0];
        let gap: nat = if current < c.column { (c.column - current) as nat } else { 0 };
        let at: usize = if current < c.column { c.column } else { current };
        spaces(gap) + c.text + cells_text_from(cells.drop_first(), sat_succ(at))
    }
}

/// Lays cells out on a row, padding gaps with spaces.
fn styled_cells_to_string(cells: &[TerminalStyledCell]) -> (s: String)
    ensures
        s@ == cells_text_from(cells.deep_view(), 0),
{
    let ghost cv = cells.deep_view();
    let mut output = String::new();
    let mut current_column: usize = 0;
    assert(cv.skip(0) =~= cv);
    assert(output@ + cells_text_from(cv, 0) =~= cells_text_from(cv, 0));
    for i in 0..cells.len()
        invariant
            cv == cells.deep_view(),
            cells_text_from(cv, 0) == output@ + cells_text_from(cv.skip(i as int), current_column),
    {
        let ghost rest = cv.skip(i as int);
        let ghost before = output@;
        let ghost start_column = current_column;
        assert(rest[0] == cv[i as int]);
        assert(rest.drop_first() =~= cv.skip(i + 1));
        let cell = &cells[i];
        while current_column < cell.column
            invariant
                start_column <= current_column <= cell.column || (start_column >= cell.column
                    && current_column == start_column),
                output@ == before + spaces((current_column - start_column) as nat),
            decreases cell.column - current_column,
        {
            push_char(&mut output, ' ');
            current_column = current_column + 1;
            assert(output@ =~= before + spaces((current_column - start_column) as nat));
        }
        push_str(&mut output, cell.text.as_str());
        current_column = if current_column < usize::MAX { current_column + 1 } else { usize::MAX };
        assert(output@ + cells_text_from(cv.skip(i + 1), current_column) =~= before
            + cells_text_from(rest, start_column));
    }
    assert(cv.skip(cells.len() as int) =~= Seq::<CellView>::empty());
    assert(output@ =~= output@ + cells_text_from(cv.skip(cells.len() as int), current_column));
    output
}

/// Index at which a cell with `column` goes into `sorted` so that cells of
/// equal column keep their order: after every cell whose column is not greater.
pub open spec fn insertion_index(sorted: Seq<CellView>, column: usize) -> int
    decreases sorted.len(),
{
    if sorted.len() == 0 {
        0
    } else if sorted.last().column <= column {
        sorted.len() as int
    } else {
        insertion_index(sorted.drop_last(), column)
    }
}

/// Cells in column order; cells with equal columns keep their relative order.
pub open spec fn sort_by_column(cells: Seq<CellView>) -> Seq<CellView>
    decreases cells.len(),
{
    if cells.len() == 0 {
        seq![]
    } else {
        let sorted = sort_by_column(cells.drop_last());
        sorted.insert(insertion_index(sorted, cells.last().column), cells.last())
    }
}

/// Columns never decrease along `cells`.
pub open spec fn columns_sorted(cells: Seq<CellView>) -> bool {
    forall|i: int, j: int| 0 <= i <= j < cells.len() ==> cells[i].column <= cells[j].column
}

proof fn lemma_insertion_index_bounds(sorted: Seq<CellView>, column: usize)
    ensures
        0 <= insertion_index(sorted, column) <= sorted.len(),
    decreases sorted.len(),
{
    if sorted.len() > 0 && sorted.last().column > column {
        lemma_insertion_index_bounds(sorted.drop_last(), column);
    }
}

proof fn lemma_sort_len(cells: Seq<CellView>)
    ensures
        sort_by_column(cells).len() == cells.len(),
    decreases cells.len(),
{
    if cells.len() > 0 {
        lemma_sort_len(cells.drop_last());
        lemma_insertion_index_bounds(sort_by_column(cells.drop_last()), cells.last().column);
    }
}

/// Sorting cells that are already in column order leaves them unchanged.
pub proof fn lemma_sort_sorted_is_identity(cells: Seq<CellView>)
    requires
        columns_sorted(cells),
    ensures
        sort_by_column(cells) == cells,
    decreases cells.len(),
{
    if cells.len() > 0 {
        let prefix = cells.drop_last();
        assert(columns_sorted(prefix));
        lemma_sort_sorted_is_identity(prefix);
        if prefix.len() > 0 {
            assert(prefix.last().column <= cells.last().column);
        }
        assert(prefix.insert(prefix.len() as int, cells.last()) =~= cells);
    }
}

proof fn lemma_insertion_index_at(sorted: Seq<CellView>, column: usize, k: int)
    requires
        0 <= k <= sorted.len(),
        forall|j: int| k <= j < sorted.len() ==> sorted[j].column > column,
        k == 0 || sorted[k - 1].column <= column,
    ensures
        insertion_index(sorted, column) == k,
    decreases sorted.len(),
{
    if sorted.len() > 0 && k < sorted.len() {
        lemma_insertion_index_at(sorted.drop_last(), column, k);
    }
}

/// Sorts cells by column, keeping the order of cells with equal columns.
fn sort_cells_by_column(cells: &Vec<TerminalStyledCell>) -> (sorted: Vec<TerminalStyledCell>)
    ensures
        sorted.deep_view() == sort_by_column(cells.deep_view()),
{
    let ghost cv = cells.deep_view();
    let mut sorted: Vec<TerminalStyledCell> = Vec::new();
    for i in 0..cells.len()
        invariant
            cv == cells.deep_view(),
            sorted.deep_view() == sort_by_column(cv.take(i as int)),
    {
        let cell = cells[i].clone();
        let mut k = sorted.len();
        while k > 0 && sorted[k - 1].column > cell.column
            invariant
                k <= sorted.len(),
                forall|j: int| k <= j < sorted.len() ==> sorted@[j].column > cell.column,
            decreases k,
        {
            k = k - 1;
        }
        proof {
            lemma_insertion_index_at(sorted.deep_view(), cell.column, k as int);
            assert(cv.take(i + 1).drop_last() =~= cv.take(i as int));
        }
        let ghost before = sorted.deep_view();
        sorted.insert(k, cell);
        assert(sorted.deep_view() =~= before.insert(k as int, sorted@[k as int].deep_view()));
    }
    assert(cv.take(cells.len() as int) =~= cv);
    sorted
}

/// The text of a styled line: its cells (derived from its runs when it holds
/// only runs) in column order, laid out from column 0.
pub open spec fn spec_styled_line_text(l: LineView) -> Seq<char> {
    cells_text_from(sort_by_column(line_cells(l)), 0)
}

/// Whether columns never decrease along the cells.
fn cells_are_sorted(cells: &Vec<TerminalStyledCell>) -> (r: bool)
    ensures
        r == columns_sorted(cells.deep_view()),
{
    let ghost cv = cells.deep_view();
    let n = cells.len();
    if n < 2 {
        return true;
    }
    for i in 0..n - 1
        invariant
            n == cells.len(),
            n >= 2,
            cv == cells.deep_view(),
            forall|a: int, b: int| 0 <= a <= b <= i ==> cv[a].column <= cv[b].column,
    {
        if cells[i].column > cells[i + 1].column {
            assert(cv[i as int].column > cv[i + 1].column);
            assert(!columns_sorted(cv));
            return false;
        }
        assert forall|a: int, b: int| 0 <= a <= b <= i + 1 implies cv[a].column <= cv[b].column by {
            if b == i + 1 && a <= i {
                assert(cv[a].column <= cv[i as int].column);
            }
        }
    }
    true
}

/// The text of a styled line; see [`spec_styled_line_text`].
pub fn styled_line_to_string(line: &TerminalStyledLine) -> (s: String)
    ensures
        s@ == spec_styled_line_text(line.deep_view()),
{
    if line.cells.len() == 0 {
        let cells = cells_from_runs(line.runs.as_slice());
        proof {
            crate::styled::lemma_cells_from_runs_sorted(line.runs.deep_view());
            lemma_sort_sorted_is_identity(cells.deep_view());
        }
        return styled_cells_to_string(cells.as_slice());
    }
    if cells_are_sorted(&line.cells) {
        proof {
            lemma_sort_sorted_is_identity(line.cells.deep_view());
        }
        return styled_cells_to_string(line.cells.as_slice());
    }
    let cells = sort_cells_by_column(&line.cells);
    styled_cells_to_string(cells.as_slice())
}


/// Display lines of a render source: the text of each styled line when there
/// are styled lines, otherwise the lines of its plain output.
pub open spec fn spec_display_lines(styled: Seq<LineView>, output: Seq<char>) -> Seq<Seq<char>> {
    if styled.len() > 0 {
        styled.map_values(|l: LineView| spec_styled_line_text(l))
    } else {
        spec_lines_for_display(output, false)
    }
}

/// The texts of `lines[start..end]`.
fn styled_texts(lines: &[TerminalStyledLine], start: usize, end: usize) -> (texts: Vec<String>)
    requires
        start <= end <= lines.len(),
    ensures
        texts.deep_view() == lines.deep_view().subrange(start as int, end as int).map_values(
            |l: LineView| spec_styled_line_text(l),
        ),
{
    let ghost lv = lines.deep_view();
    let mut texts: Vec<String> = Vec::new();
    for i in start..end
        invariant
            end <= lines.len(),
            lv == lines.deep_view(),
            texts.deep_view() == lv.subrange(start as int, i as int).map_values(
                |l: LineView| spec_styled_line_text(l),
            ),
    {
        let ghost before = texts.deep_view();
        texts.push(styled_line_to_string(&lines[i]));
        assert(texts.deep_view() =~= before.push(texts@[texts.len() - 1].deep_view()));
        assert(lv.subrange(start as int, i + 1) =~= lv.subrange(start as int, i as int).push(lv[i as int]));
        assert(texts.deep_view() =~= lv.subrange(start as int, i + 1).map_values(
            |l: LineView| spec_styled_line_text(l),
        ));
    }
    texts
}

/// The lines a render source displays.
pub fn terminal_display_lines_for_source(source: &TerminalRenderSource<'_>) -> (lines: Vec<String>)
    ensures
        lines.deep_view() == spec_display_lines(source.styled(), source.output@),
{
    if source.styled_output.len() > 0 {
        let texts = styled_texts(source.styled_output, 0, source.styled_output.len());
        assert(source.styled().subrange(0, source.styled_output.len() as int) =~= source.styled());
        return texts;
    }
    lines_for_display(source.output, false)
}

/// The lines a session displays.
pub fn terminal_display_lines(session: &TerminalSession) -> (lines: Vec<String>)
    ensures
        lines.deep_view() == spec_display_lines(session.styled_output.deep_view(), session.output@),
{
    terminal_display_lines_for_source(&terminal_render_source_for_session(session))
}

/// A line with neither cells nor runs.
pub open spec fn line_is_blank(l: LineView) -> bool {
    l.cells.len() == 0 && l.runs.len() == 0
}

/// Index of the last line of `lines` that is not blank.
pub open spec fn last_nonblank(lines: Seq<LineView>) -> Option<int>
    decreases lines.len(),
{
    if lines.len() == 0 {
        None
    } else if !line_is_blank(lines.last()) {
        Some(lines.len() - 1)
    } else {
        last_nonblank(lines.drop_last())
    }
}

/// The last `n` elements of `s`, or all of them.
pub open spec fn last_n<T>(s: Seq<T>, n: nat) -> Seq<T> {
    if s.len() <= n {
        s
    } else {
        s.skip(s.len() - n)
    }
}

/// The tail of the display lines, at most `max_lines` of them. Styled output
/// ends at its last line that is not blank (the first line when all are
/// blank); plain output that is empty shows one empty line.
pub open spec fn spec_display_tail_lines(styled: Seq<LineView>, output: Seq<char>, max_lines: nat) -> Seq<
    Seq<char>,
> {
    if max_lines == 0 {
        seq![]
    } else if styled.len() > 0 {
        let end = match last_nonblank(styled) {
            Some(i) => i + 1,
            None => 1,
        };
        last_n(styled.take(end), max_lines).map_values(|l: LineView| spec_styled_line_text(l))
    } else if output.len() == 0 {
        seq![Seq::<char>::empty()]
    } else {
        last_n(spec_lines(output), max_lines)
    }
}

proof fn lemma_last_nonblank_bounds(lines: Seq<LineView>)
    ensures
        last_nonblank(lines) matches Some(i) ==> 0 <= i < lines.len() && !line_is_blank(lines[i]),
        last_nonblank(lines) matches Some(i) ==> forall|j: int| i < j < lines.len() ==> line_is_blank(
            #[trigger] lines[j],
        ),
        last_nonblank(lines) is None ==> forall|j: int| 0 <= j < lines.len() ==> line_is_blank(
            #[trigger] lines[j],
        ),
    decreases lines.len(),
{
    if lines.len() > 0 && line_is_blank(lines.last()) {
        lemma_last_nonblank_bounds(lines.drop_last());
        assert forall|j: int| 0 <= j < lines.len() - 1 implies lines[j] == lines.drop_last()[j] by {}
    }
}

proof fn lemma_last_nonblank_at(lines: Seq<LineView>, k: int)
    requires
        -1 <= k < lines.len(),
        forall|j: int| k < j < lines.len() ==> line_is_blank(#[trigger] lines[j]),
        k >= 0 ==> !line_is_blank(lines[k]),
    ensures
        last_nonblank(lines) == (if k >= 0 { Some(k) } else { None::<int> }),
    decreases lines.len(),
{
    if lines.len() > 0 && k < lines.len() - 1 {
        lemma_last_nonblank_at(lines.drop_last(), k);
    }
}

/// The last display lines of a render source; see [`spec_display_tail_lines`].
pub fn terminal_display_tail_lines_for_source(
    source: &TerminalRenderSource<'_>,
    max_lines: usize,
) -> (lines: Vec<String>)
    ensures
        lines.deep_view() == spec_display_tail_lines(source.styled(), source.output@, max_lines as nat),
{
    if max_lines == 0 {
        return Vec::new();
    }
    if source.styled_output.len() > 0 {
        let ghost sv = source.styled();
        let mut k = source.styled_output.len();
        while k > 0 && source.styled_output[k - 1].cells.len() == 0 && source.styled_output[k
            - 1].runs.len() == 0
            invariant
                k <= source.styled_output.len(),
                sv == source.styled(),
                forall|j: int| k <= j < sv.len() ==> line_is_blank(#[trigger] sv[j]),
            decreases k,
        {
            k = k - 1;
        }
        proof {
            lemma_last_nonblank_at(sv, k - 1);
        }
        let end = if k == 0 { 1 } else { k };
        let start = if end > max_lines { end - max_lines } else { 0 };
        let texts = styled_texts(source.styled_output, start, end);
        assert(last_n(sv.take(end as int), max_lines as nat) =~= sv.subrange(start as int, end as int));
        return texts;
    }
    if source.output.is_empty() {
        let mut v: Vec<String> = Vec::new();
        v.push(String::new());
        assert(v.deep_view() =~= seq![Seq::<char>::empty()]);
        return v;
    }
    let all = lines_of(source.output);
    let n = all.len();
    let start = if n > max_lines { n - max_lines } else { 0 };
    let mut lines: Vec<String> = Vec::new();
    let ghost av = all.deep_view();
    for i in start..n
        invariant
            n == all.len(),
            av == all.deep_view(),
            lines.deep_view() == av.subrange(start as int, i as int),
    {
        let ghost before = lines.deep_view();
        lines.push(all[i].clone());
        assert(lines.deep_view() =~= before.push(av[i as int]));
        assert(lines.deep_view() =~= av.subrange(start as int, i + 1));
    }
    assert(last_n(av, max_lines as nat) =~= av.subrange(start as int, n as int));
    lines
}

/// The last display lines of a session.
pub fn terminal_display_tail_lines(session: &TerminalSession, max_lines: usize) -> (lines: Vec<String>)
    ensures
        lines.deep_view() == spec_display_tail_lines(
            session.styled_output.deep_view(),
            session.output@,
            max_lines as nat,
        ),
{
    terminal_display_tail_lines_for_source(&terminal_render_source_for_session(session), max_lines)
}


/// The characters of line `i`, or none when there is no such line.
pub open spec fn line_or_empty(lines: Seq<Seq<char>>, i: int) -> Seq<char> {
    if 0 <= i < lines.len() {
        lines[i]
    } else {
        seq![]
    }
}

/// The token under `point`: the stretch of non-white-space characters around
/// the column (clamped to the last character) of its line.
pub open spec fn is_token_bounds(
    lines: Seq<Seq<char>>,
    point: TerminalGridPosition,
    start: TerminalGridPosition,
    end: TerminalGridPosition,
) -> bool {
    let chars = lines[point.line as int];
    let index = if point.column < chars.len() { point.column as int } else { chars.len() - 1 };
    &&& start.line == point.line && end.line == point.line
    &&& start.column <= index < end.column <= chars.len()
    &&& forall|k: int| start.column <= k < end.column ==> !spec_is_whitespace(#[trigger] chars[k])
    &&& start.column == 0 || spec_is_whitespace(chars[start.column - 1])
    &&& end.column == chars.len() || spec_is_whitespace(chars[end.column as int])
}

/// There is a token under `point`: its line exists and is not empty, and the
/// character at the clamped column is not white space.
pub open spec fn has_token(lines: Seq<Seq<char>>, point: TerminalGridPosition) -> bool {
    let chars = lines[point.line as int];
    let index = if point.column < chars.len() { point.column as int } else { chars.len() - 1 };
    point.line < lines.len() && chars.len() > 0 && !spec_is_whitespace(chars[index])
}

/// The bounds of the token under `point` (double-click selection).
pub fn terminal_token_bounds(lines: &[String], point: TerminalGridPosition) -> (r: Option<
    (TerminalGridPosition, TerminalGridPosition),
>)
    ensures
        r is Some <==> has_token(lines.deep_view(), point),
        r matches Some((start, end)) ==> is_token_bounds(lines.deep_view(), point, start, end),
{
    if point.line >= lines.len() {
        return None;
    }
    let ghost lv = lines.deep_view();
    let chars = chars_of(lines[point.line].as_str());
    assert(chars@ == lv[point.line as int]);
    if chars.len() == 0 {
        return None;
    }
    let index = if point.column < chars.len() { point.column } else { chars.len() - 1 };
    if is_whitespace(chars[index]) {
        return None;
    }
    let mut start = index;
    while start > 0 && !is_whitespace(chars[start - 1])
        invariant
            start <= index < chars.len(),
            forall|k: int| start <= k <= index ==> !spec_is_whitespace(#[trigger] chars@[k]),
        decreases start,
    {
        start = start - 1;
    }
    let mut end = index + 1;
    while end < chars.len() && !is_whitespace(chars[end])
        invariant
            index < end <= chars.len(),
            forall|k: int| start <= k < end ==> !spec_is_whitespace(#[trigger] chars@[k]),
        decreases chars.len() - end,
    {
        end = end + 1;
    }
    Some(
        (
            TerminalGridPosition { line: point.line, column: start },
            TerminalGridPosition { line: point.line, column: end },
        ),
    )
}

/// The bounds of a whole line (triple-click selection): from column 0 to its
/// width, when the line exists and is not empty.
pub fn terminal_line_bounds(lines: &[String], point: TerminalGridPosition) -> (r: Option<
    (TerminalGridPosition, TerminalGridPosition),
>)
    ensures
        r == (if point.line < lines.len() && lines[point.line as int]@.len() > 0 {
            Some(
                (
                    TerminalGridPosition { line: point.line, column: 0 },
                    TerminalGridPosition {
                        line: point.line,
                        column: lines[point.line as int]@.len() as usize,
                    },
                ),
            )
        } else {
            None
        }),
{
    if point.line >= lines.len() {
        return None;
    }
    let width = lines[point.line].as_str().unicode_len();
    if width == 0 {
        return None;
    }
    Some(
        (
            TerminalGridPosition { line: point.line, column: 0 },
            TerminalGridPosition { line: point.line, column: width },
        ),
    )
}

/// The selected characters of line `i` of a selection from `start` to `end`.
pub open spec fn selection_piece(
    lines: Seq<Seq<char>>,
    i: int,
    start: TerminalGridPosition,
    end: TerminalGridPosition,
) -> Seq<char> {
    let chars = line_or_empty(lines, i);
    let from = if i == start.line {
        if start.column < chars.len() { start.column as int } else { chars.len() as int }
    } else {
        0
    };
    let to = if i == end.line {
        if end.column < chars.len() { end.column as int } else { chars.len() as int }
    } else {
        chars.len() as int
    };
    if from < to {
        chars.subrange(from, to)
    } else {
        seq![]
    }
}

/// The selected text of lines `i..=end.line`, lines joined by `'\n'`.
pub open spec fn selection_text_from(
    lines: Seq<Seq<char>>,
    i: int,
    start: TerminalGridPosition,
    end: TerminalGridPosition,
) -> Seq<char>
    decreases end.line - i,
{
    if i >= end.line {
        selection_piece(lines, i, start, end)
    } else {
        selection_piece(lines, i, start, end) + seq!['\n'] + selection_text_from(lines, i + 1, start, end)
    }
}

/// The text a selection covers: nothing for an empty selection; otherwise the
/// selected part of each of its lines, a missing line counting as empty, the
/// lines joined by `'\n'`.
pub open spec fn spec_selection_text(lines: Seq<Seq<char>>, selection: TerminalSelection) -> Seq<char> {
    match spec_normalized_selection(selection) {
        None => seq![],
        Some((start, end)) => selection_text_from(lines, start.line as int, start, end),
    }
}

/// The text a selection covers; see [`spec_selection_text`].
pub fn terminal_selection_text(lines: &[String], selection: &TerminalSelection) -> (s: String)
    ensures
        s@ == spec_selection_text(lines.deep_view(), *selection),
{
    let (start, end) = match normalized_terminal_selection(selection) {
        Some(p) => p,
        None => return String::new(),
    };
    let ghost lv = lines.deep_view();
    let mut output = String::new();
    let mut line_index = start.line;
    loop
        invariant
            start.line <= line_index <= end.line,
            lv == lines.deep_view(),
            spec_normalized_selection(*selection) == Some((start, end)),
            selection_text_from(lv, start.line as int, start, end) == output@ + selection_text_from(
                lv,
                line_index as int,
                start,
                end,
            ),
        decreases end.line - line_index,
    {
        let chars = if line_index < lines.len() {
            chars_of(lines[line_index].as_str())
        } else {
            Vec::new()
        };
        assert(chars@ == line_or_empty(lv, line_index as int));
        let from = if line_index == start.line {
            if start.column < chars.len() { start.column } else { chars.len() }
        } else {
            0
        };
        let to = if line_index == end.line {
            if end.column < chars.len() { end.column } else { chars.len() }
        } else {
            chars.len()
        };
        let ghost before = output@;
        if from < to {
            let piece = string_from_char_range(chars.as_slice(), from, to);
            push_str(&mut output, piece.as_str());
        }
        assert(output@ == before + selection_piece(lv, line_index as int, start, end));
        if line_index == end.line {
            assert(selection_text_from(lv, line_index as int, start, end) == selection_piece(
                lv,
                line_index as int,
                start,
                end,
            ));
            return output;
        }
        push_char(&mut output, '\n');
        assert(output@ + selection_text_from(lv, line_index + 1, start, end) =~= before
            + selection_text_from(lv, line_index as int, start, end));
        line_index = line_index + 1;
    }
}

/// What `char::escape_debug` gives for a character.
pub uninterp spec fn char_escape_debug(c: char) -> Seq<char>;

/// Escapes one character as `char::escape_debug` does.
///
/// Trusted: `char::escape_debug` from std, collected into a string. The
/// result is named by [`char_escape_debug`]; beyond that the contract states
/// only what std's documentation shows for common characters: tab, line feed
/// and carriage return become `\t`, `\n` and `\r`, a backslash is doubled,
/// and printable ASCII other than the backslash and the quotes stays as it is.
#[verifier::external_body]
fn escape_debug_char(c: char) -> (s: String)
    ensures
        s@ == char_escape_debug(c),
        c == '\t' ==> s@ == seq!['\\', 't'],
        c == '\n' ==> s@ == seq!['\\', 'n'],
        c == '\r' ==> s@ == seq!['\\', 'r'],
        c == '\\' ==> s@ == seq!['\\', '\\'],
        (0x20 <= (c as u32) <= 0x7e && c != '\\' && c != '\'' && c != '"') ==> s@ == seq![c],
{
    c.escape_debug().collect()
}

/// The characters of `s`, each escaped as `char::escape_debug` does.
pub open spec fn escaped_text(s: Seq<char>) -> Seq<char>
    decreases s.len(),
{
    if s.len() == 0 {
        seq![]
    } else {
        escaped_text(s.drop_last()) + char_escape_debug(s.last())
    }
}

/// An excerpt of at most `max_chars` characters, each escaped, with `...`
/// appended when the text was longer.
pub open spec fn spec_terminal_excerpt(text: Seq<char>, max_chars: nat) -> Seq<char> {
    if text.len() > max_chars {
        escaped_text(text.take(max_chars as int)) + seq!['.', '.', '.']
    } else {
        escaped_text(text)
    }
}

/// An escaped, truncated excerpt of `text` for diagnostics.
pub fn terminal_excerpt(text: &str, max_chars: usize) -> (s: String)
    ensures
        s@ == spec_terminal_excerpt(text@, max_chars as nat),
{
    let chars = chars_of(text);
    let mut output = String::new();
    let n = if chars.len() > max_chars { max_chars } else { chars.len() };
    for i in 0..n
        invariant
            n <= chars.len(),
            chars@ == text@,
            output@ == escaped_text(chars@.take(i as int)),
    {
        let e = escape_debug_char(chars[i]);
        push_str(&mut output, e.as_str());
        assert(chars@.take(i + 1).drop_last() =~= chars@.take(i as int));
    }
    if chars.len() > max_chars {
        push_str(&mut output, "...");
        proof {
            reveal_strlit("...");
        }
        assert("..."@ =~= seq!['.', '.', '.']);
    } else {
        assert(chars@.take(n as int) =~= chars@);
    }
    output
}

/// An excerpt of a styled line's text.
pub fn terminal_styled_line_excerpt(line: &TerminalStyledLine, max_chars: usize) -> (s: String)
    ensures
        s@ == spec_terminal_excerpt(spec_styled_line_text(line.deep_view()), max_chars as nat),
{
    let text = styled_line_to_string(line);
    terminal_excerpt(text.as_str(), max_chars)
}


proof fn lemma_consecutive_cells_text(cells: Seq<CellView>, line: Seq<char>, k: int)
    requires
        cells.len() == line.len(),
        line.len() <= usize::MAX,
        0 <= k <= cells.len(),
        forall|i: int| 0 <= i < cells.len() ==> (#[trigger] cells[i]).column == i && cells[i].text
            == seq![line[i]],
    ensures
        cells_text_from(cells.skip(k), k as usize) == line.skip(k),
    decreases cells.len() - k,
{
    if k < cells.len() {
        lemma_consecutive_cells_text(cells, line, k + 1);
        assert(cells.skip(k)[0] == cells[k]);
        assert(cells.skip(k).drop_first() =~= cells.skip(k + 1));
        assert(line.skip(k) =~= seq![line[k]] + line.skip(k + 1));
        assert(spaces(0) =~= Seq::<char>::empty());
    } else {
        assert(cells.skip(k) =~= Seq::<CellView>::empty());
        assert(line.skip(k) =~= Seq::<char>::empty());
    }
}

/// Displaying a plain line that was styled gives the line back.
pub proof fn lemma_plain_line_display_round_trip(line: Seq<char>, theme: ThemePalette)
    requires
        line.len() <= usize::MAX,
    ensures
        spec_styled_line_text(spec_plain_line_to_styled(line, theme)) == line,
{
    let l = spec_plain_line_to_styled(line, theme);
    assert(line_cells(l) == l.cells);
    assert(columns_sorted(l.cells));
    lemma_sort_sorted_is_identity(l.cells);
    lemma_consecutive_cells_text(l.cells, line, 0);
    assert(l.cells.skip(0) =~= l.cells);
    assert(line.skip(0) =~= line);
}

/// Selecting the bounds of a token (a double click) selects exactly the
/// token's characters.
pub proof fn lemma_token_selection_text(
    lines: Seq<Seq<char>>,
    point: TerminalGridPosition,
    start: TerminalGridPosition,
    end: TerminalGridPosition,
    session_id: u64,
)
    requires
        has_token(lines, point),
        is_token_bounds(lines, point, start, end),
    ensures
        spec_selection_text(lines, TerminalSelection { session_id, anchor: start, head: end })
            == lines[point.line as int].subrange(start.column as int, end.column as int),
{
    let sel = TerminalSelection { session_id, anchor: start, head: end };
    assert(spec_normalized_selection(sel) == Some((start, end)));
    assert(selection_text_from(lines, start.line as int, start, end) == selection_piece(
        lines,
        start.line as int,
        start,
        end,
    ));
}


/// Two cell sequences with the same columns and texts, in the same order;
/// only their colors may differ.
pub open spec fn same_layout(a: Seq<CellView>, b: Seq<CellView>) -> bool {
    &&& a.len() == b.len()
    &&& forall|i: int|
        0 <= i < a.len() ==> (#[trigger] a[i]).column == b[i].column && a[i].text == b[i].text
}

proof fn lemma_insertion_index_layout(s: Seq<CellView>, t: Seq<CellView>, column: usize)
    requires
        same_layout(s, t),
    ensures
        insertion_index(s, column) == insertion_index(t, column),
    decreases s.len(),
{
    if s.len() > 0 {
        assert(s.last().column == t.last().column);
        lemma_insertion_index_layout(s.drop_last(), t.drop_last(), column);
    }
}

proof fn lemma_sort_layout(a: Seq<CellView>, b: Seq<CellView>)
    requires
        same_layout(a, b),
    ensures
        same_layout(sort_by_column(a), sort_by_column(b)),
    decreases a.len(),
{
    if a.len() > 0 {
        let sa = sort_by_column(a.drop_last());
        let sb = sort_by_column(b.drop_last());
        lemma_sort_layout(a.drop_last(), b.drop_last());
        lemma_sort_len(a.drop_last());
        lemma_sort_len(b.drop_last());
        assert(a.last().column == b.last().column && a.last().text == b.last().text);
        lemma_insertion_index_layout(sa, sb, a.last().column);
        let k = insertion_index(sa, a.last().column);
        lemma_insertion_index_bounds(sa, a.last().column);
        let ra = sa.insert(k, a.last());
        let rb = sb.insert(k, b.last());
        assert forall|i: int| 0 <= i < ra.len() implies (#[trigger] ra[i]).column == rb[i].column
            && ra[i].text == rb[i].text by {
            if i < k {
                assert(ra[i] == sa[i] && rb[i] == sb[i]);
            } else if i > k {
                assert(ra[i] == sa[i - 1] && rb[i] == sb[i - 1]);
            }
        }
    }
}

proof fn lemma_cells_text_layout(a: Seq<CellView>, b: Seq<CellView>, current: usize)
    requires
        same_layout(a, b),
    ensures
        cells_text_from(a, current) == cells_text_from(b, current),
    decreases a.len(),
{
    if a.len() > 0 {
        assert(a[0].column == b[0].column && a[0].text == b[0].text);
        let at: usize = if current < a[0].column { a[0].column } else { current };
        assert forall|i: int| 0 <= i < a.drop_first().len() implies (#[trigger] a.drop_first()[i]).column
            == b.drop_first()[i].column && a.drop_first()[i].text == b.drop_first()[i].text by {
            assert(a.drop_first()[i] == a[i + 1] && b.drop_first()[i] == b[i + 1]);
        }
        lemma_cells_text_layout(a.drop_first(), b.drop_first(), sat_succ(at));
    }
}

proof fn lemma_text_of_same_layout(l1: LineView, l2: LineView)
    requires
        same_layout(line_cells(l1), line_cells(l2)),
    ensures
        spec_styled_line_text(l1) == spec_styled_line_text(l2),
{
    lemma_sort_layout(line_cells(l1), line_cells(l2));
    lemma_cells_text_layout(sort_by_column(line_cells(l1)), sort_by_column(line_cells(l2)), 0);
}

proof fn lemma_select_line_layout(l: LineView, from: usize, to: usize, theme: ThemePalette)
    ensures
        same_layout(line_cells(spec_select_line(l, from, to, theme)), line_cells(l)),
{
    let cells = line_cells(l);
    let r = spec_select_line(l, from, to, theme);
    let selected = cells.map_values(|c: CellView| select_cell(c, from, to, theme));
    assert forall|i: int| 0 <= i < cells.len() implies (#[trigger] selected[i]).column == cells[i].column
        && selected[i].text == cells[i].text by {}
    if cells.len() == 0 {
        assert(line_cells(r) =~= cells);
    }
}

/// Painting a selection changes colors only: every line shows the same text
/// as before, and the lines added below the content show nothing.
pub proof fn lemma_selection_keeps_text(lines: Seq<LineView>, selection: TerminalSelection, theme: ThemePalette)
    ensures
        ({
            let painted = spec_apply_selection(lines, selection, theme);
            &&& painted.len() >= lines.len()
            &&& forall|i: int|
                0 <= i < painted.len() ==> spec_styled_line_text(#[trigger] painted[i]) == if i
                    < lines.len() {
                    spec_styled_line_text(lines[i])
                } else {
                    Seq::<char>::empty()
                }
        }),
{
    let painted = spec_apply_selection(lines, selection, theme);
    assert(line_cells(empty_line()) =~= Seq::<CellView>::empty());
    assert(sort_by_column(Seq::<CellView>::empty()) =~= Seq::<CellView>::empty());
    assert(spec_styled_line_text(empty_line()) =~= Seq::<char>::empty());
    match spec_normalized_selection(selection) {
        None => {},
        Some((start, end)) => {
            let p = padded(lines, (end.line + 1) as nat);
            assert forall|i: int| 0 <= i < painted.len() implies spec_styled_line_text(
                #[trigger] painted[i],
            ) == if i < lines.len() {
                spec_styled_line_text(lines[i])
            } else {
                Seq::<char>::empty()
            } by {
                if i >= lines.len() {
                    assert(p[i] == empty_line());
                } else {
                    assert(p[i] == lines[i]);
                }
                if start.line <= i <= end.line {
                    lemma_select_line_layout(p[i], selection_from(i, start), selection_to(i, end), theme);
                    lemma_text_of_same_layout(painted[i], p[i]);
                }
            }
        },
    }
}

proof fn lemma_run_chars_len_recolored(runs: Seq<RunView>, recolored: Seq<RunView>)
    requires
        recolored.len() == runs.len(),
        forall|i: int| 0 <= i < runs.len() ==> (#[trigger] recolored[i]).text == runs[i].text,
    ensures
        run_chars(recolored).len() == run_chars(runs).len(),
    decreases runs.len(),
{
    if runs.len() > 0 {
        assert(recolored.last().text == runs.last().text);
        lemma_run_chars_len_recolored(runs.drop_last(), recolored.drop_last());
    }
}

/// Remapping the palette changes colors only: the line shows the same text.
pub proof fn lemma_remap_keeps_text(l: LineView, theme: ThemePalette)
    ensures
        spec_styled_line_text(spec_remap_line(l, theme)) == spec_styled_line_text(l),
{
    let r = spec_remap_line(l, theme);
    let cells = line_cells(l);
    if cells.len() == 0 {
        assert(r.cells.len() == 0);
        if r.runs.len() > 0 {
            lemma_run_chars_len_recolored(l.runs, r.runs);
        }
        assert(line_cells(r) =~= Seq::<CellView>::empty());
        assert(cells =~= Seq::<CellView>::empty());
    } else {
        assert(line_cells(r) == r.cells);
    }
    lemma_text_of_same_layout(r, l);
}
} // verus!
