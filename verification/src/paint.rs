//! Painting the theme, the cursor, IME text and the selection onto styled lines.

use vstd::prelude::*;

use crate::styled::{
    cells_from_runs, runs_from_cells, spec_cells_from_runs, spec_runs_from_cells, CellView,
    LineView, RunView, TerminalStyledCell, TerminalStyledLine,
};
use crate::terminal::{
    TerminalCursor, TerminalGridPosition, TerminalSelection, ThemePalette,
    EMBEDDED_TERMINAL_DEFAULT_BG, EMBEDDED_TERMINAL_DEFAULT_FG,
};
use crate::text::push_char;

verus! {

/// The emulator's default background becomes the theme's terminal background.
pub open spec fn remap_bg(bg: u32, theme: ThemePalette) -> u32 {
    if bg == EMBEDDED_TERMINAL_DEFAULT_BG {
        theme.terminal_bg
    } else {
        bg
    }
}

/// The emulator's default foreground becomes the theme's primary text color.
pub open spec fn remap_fg(fg: u32, theme: ThemePalette) -> u32 {
    if fg == EMBEDDED_TERMINAL_DEFAULT_FG {
        theme.text_primary
    } else {
        fg
    }
}

/// Replaces the emulator's default colors with the theme's.
pub fn remap_terminal_colors(fg: &mut u32, bg: &mut u32, theme: ThemePalette)
    ensures
        *final(fg) == remap_fg(*old(fg), theme),
        *final(bg) == remap_bg(*old(bg), theme),
{
    if *bg == EMBEDDED_TERMINAL_DEFAULT_BG {
        *bg = theme.terminal_bg;
    }
    if *fg == EMBEDDED_TERMINAL_DEFAULT_FG {
        *fg = theme.text_primary;
    }
}

/// A line's cells, derived from its runs when it holds only runs.
pub open spec fn line_cells(l: LineView) -> Seq<CellView> {
    if l.cells.len() == 0 && l.runs.len() > 0 {
        spec_cells_from_runs(l.runs)
    } else {
        l.cells
    }
}

/// A line after its palette is remapped: the missing one of cells and runs is
/// derived from the other, then every default color takes the theme's color.
pub open spec fn spec_remap_line(l: LineView, theme: ThemePalette) -> LineView {
    let cells = line_cells(l);
    let runs = if l.runs.len() == 0 && l.cells.len() > 0 {
        spec_runs_from_cells(l.cells)
    } else {
        l.runs
    };
    LineView {
        cells: cells.map_values(
            |c: CellView|
                CellView { fg: remap_fg(c.fg, theme), bg: remap_bg(c.bg, theme), ..c },
        ),
        runs: runs.map_values(
            |r: RunView| RunView { fg: remap_fg(r.fg, theme), bg: remap_bg(r.bg, theme), ..r },
        ),
    }
}

/// Completes a line's cells or runs and remaps its default colors.
pub fn remap_terminal_styled_line_palette(line: &mut TerminalStyledLine, theme: ThemePalette)
    ensures
        final(line).deep_view() == spec_remap_line(old(line).deep_view(), theme),
{
    let ghost l0 = line.deep_view();
    if line.cells.len() == 0 && line.runs.len() > 0 {
        line.cells = cells_from_runs(line.runs.as_slice());
    } else if line.runs.len() == 0 && line.cells.len() > 0 {
        line.runs = runs_from_cells(line.cells.as_slice());
    }
    let ghost cells0 = line.cells.deep_view();
    let ghost runs0 = line.runs.deep_view();
    let n = line.cells.len();
    for i in 0..n
        invariant
            n == line.cells.len(),
            line.runs.deep_view() == runs0,
            cells0.len() == n,
            forall|j: int|
                0 <= j < i ==> #[trigger] line.cells@[j].deep_view() == (CellView {
                    fg: remap_fg(cells0[j].fg, theme),
                    bg: remap_bg(cells0[j].bg, theme),
                    ..cells0[j]
                }),
            forall|j: int| i <= j < n ==> #[trigger] line.cells@[j].deep_view() == cells0[j],
    {
        assert(cells0[i as int] == line.cells@[i as int].deep_view());
        let cell = &mut line.cells[i];
        remap_terminal_colors(&mut cell.fg, &mut cell.bg, theme);
    }
    let m = line.runs.len();
    for i in 0..m
        invariant
            m == line.runs.len(),
            runs0.len() == m,
            forall|j: int|
                0 <= j < n ==> #[trigger] line.cells@[j].deep_view() == (CellView {
                    fg: remap_fg(cells0[j].fg, theme),
                    bg: remap_bg(cells0[j].bg, theme),
                    ..cells0[j]
                }),
            n == line.cells.len(),
            forall|j: int|
                0 <= j < i ==> #[trigger] line.runs@[j].deep_view() == (RunView {
                    fg: remap_fg(runs0[j].fg, theme),
                    bg: remap_bg(runs0[j].bg, theme),
                    ..runs0[j]
                }),
            forall|j: int| i <= j < m ==> #[trigger] line.runs@[j].deep_view() == runs0[j],
    {
        assert(runs0[i as int] == line.runs@[i as int].deep_view());
        let run = &mut line.runs[i];
        remap_terminal_colors(&mut run.fg, &mut run.bg, theme);
    }
    assert(line.deep_view().cells =~= spec_remap_line(l0, theme).cells);
    assert(line.deep_view().runs =~= spec_remap_line(l0, theme).runs);
}

/// Remaps the palette of every line.
pub fn remap_terminal_line_palette(lines: &mut Vec<TerminalStyledLine>, theme: ThemePalette)
    ensures
        final(lines).deep_view() == old(lines).deep_view().map_values(
            |l: LineView| spec_remap_line(l, theme),
        ),
{
    let ghost l0 = lines.deep_view();
    let n = lines.len();
    for i in 0..n
        invariant
            n == lines.len(),
            l0.len() == n,
            forall|j: int| 0 <= j < i ==> #[trigger] lines@[j].deep_view() == spec_remap_line(l0[j], theme),
            forall|j: int| i <= j < n ==> #[trigger] lines@[j].deep_view() == l0[j],
    {
        let line = &mut lines[i];
        remap_terminal_styled_line_palette(line, theme);
    }
    assert(lines.deep_view() =~= l0.map_values(|l: LineView| spec_remap_line(l, theme)));
}


/// `a` comes no later than `b` in reading order.
pub open spec fn position_le(a: TerminalGridPosition, b: TerminalGridPosition) -> bool {
    a.line < b.line || (a.line == b.line && a.column <= b.column)
}

/// The ends of a selection in reading order, or nothing when it is empty.
pub open spec fn spec_normalized_selection(selection: TerminalSelection) -> Option<
    (TerminalGridPosition, TerminalGridPosition),
> {
    let (start, end) = if position_le(selection.anchor, selection.head) {
        (selection.anchor, selection.head)
    } else {
        (selection.head, selection.anchor)
    };
    if start == end {
        None
    } else {
        Some((start, end))
    }
}

/// Orders a selection's ends; an empty selection gives nothing.
pub fn normalized_terminal_selection(selection: &TerminalSelection) -> (r: Option<
    (TerminalGridPosition, TerminalGridPosition),
>)
    ensures
        r == spec_normalized_selection(*selection),
{
    let (start, end) = if selection.anchor.line < selection.head.line || (selection.anchor.line
        == selection.head.line && selection.anchor.column <= selection.head.column) {
        (selection.anchor, selection.head)
    } else {
        (selection.head, selection.anchor)
    };
    if start == end {
        return None;
    }
    Some((start, end))
}

/// A selection restricted to the lines `range_start..range_end` and renumbered
/// from the first of them: nothing when it lies outside; an end cut off above
/// starts at column 0, an end cut off below runs to `usize::MAX`.
pub open spec fn spec_selection_for_range(
    selection: TerminalSelection,
    range_start: usize,
    range_end: usize,
) -> Option<TerminalSelection> {
    match spec_normalized_selection(selection) {
        None => None,
        Some((start, end)) => {
            if end.line < range_start || start.line >= range_end {
                None
            } else {
                let first = if start.line > range_start { start.line } else { range_start };
                let last = if end.line < range_end - 1 { end.line } else { (range_end - 1) as usize };
                Some(
                    TerminalSelection {
                        session_id: selection.session_id,
                        anchor: TerminalGridPosition {
                            line: (first - range_start) as usize,
                            column: if start.line < range_start { 0 } else { start.column },
                        },
                        head: TerminalGridPosition {
                            line: (last - range_start) as usize,
                            column: if end.line >= range_end { usize::MAX } else { end.column },
                        },
                    },
                )
            }
        },
    }
}

/// Clips a selection to the rendered line range and renumbers it from the
/// range's first line.
pub fn terminal_selection_for_render_range(
    selection: &TerminalSelection,
    range: &std::ops::Range<usize>,
) -> (r: Option<TerminalSelection>)
    requires
        spec_normalized_selection(*selection) matches Some((s, e)) ==> e.line < range.start
            || s.line >= range.end || range.start < range.end,
    ensures
        r == spec_selection_for_range(*selection, range.start, range.end),
{
    let (start, end) = match normalized_terminal_selection(selection) {
        Some(p) => p,
        None => return None,
    };
    if end.line < range.start || start.line >= range.end {
        return None;
    }
    let clamped_start_line = if start.line > range.start { start.line } else { range.start };
    let clamped_end_line = if end.line < range.end - 1 { end.line } else { range.end - 1 };
    Some(
        TerminalSelection {
            session_id: selection.session_id,
            anchor: TerminalGridPosition {
                line: clamped_start_line - range.start,
                column: if start.line < range.start { 0 } else { start.column },
            },
            head: TerminalGridPosition {
                line: clamped_end_line - range.start,
                column: if end.line >= range.end { usize::MAX } else { end.column },
            },
        },
    )
}

/// A line with neither cells nor runs.
pub open spec fn empty_line() -> LineView {
    LineView { cells: seq![], runs: seq![] }
}

/// `lines`, extended with empty lines to at least `n` lines.
pub open spec fn padded(lines: Seq<LineView>, n: nat) -> Seq<LineView> {
    if lines.len() >= n {
        lines
    } else {
        lines + Seq::new((n - lines.len()) as nat, |i: int| empty_line())
    }
}

/// Index of the first cell at or right of `column`, or the number of cells.
pub open spec fn cursor_slot(cells: Seq<CellView>, column: usize) -> int
    decreases cells.len(),
{
    if cells.len() == 0 {
        0
    } else if cells[0].column >= column {
        0
    } else {
        1 + cursor_slot(cells.drop_first(), column)
    }
}

proof fn lemma_cursor_slot(cells: Seq<CellView>, column: usize, k: int)
    requires
        0 <= k <= cells.len(),
        forall|j: int| 0 <= j < k ==> cells[j].column < column,
        k == cells.len() || cells[k].column >= column,
    ensures
        cursor_slot(cells, column) == k,
    decreases cells.len(),
{
    if cells.len() > 0 && k > 0 {
        lemma_cursor_slot(cells.drop_first(), column, k - 1);
    }
}

/// Finds the first cell at or right of `column`.
fn find_cursor_slot(cells: &Vec<TerminalStyledCell>, column: usize) -> (k: usize)
    ensures
        k == cursor_slot(cells.deep_view(), column),
        k <= cells.len(),
{
    let mut k: usize = 0;
    while k < cells.len()
        invariant
            k <= cells.len(),
            forall|j: int| 0 <= j < k ==> cells@[j].column < column,
        ensures
            k <= cells.len(),
            forall|j: int| 0 <= j < k ==> cells@[j].column < column,
            k == cells.len() || cells@[k as int].column >= column,
        decreases cells.len() - k,
    {
        if cells[k].column >= column {
            break;
        }
        k = k + 1;
    }
    proof {
        lemma_cursor_slot(cells.deep_view(), column, k as int);
    }
    k
}

/// Every character of `text` is a space.
pub open spec fn all_spaces(text: Seq<char>) -> bool {
    forall|i: int| 0 <= i < text.len() ==> text[i] == ' '
}

/// The cursor cell: a blank cell is inserted at the cursor's column when no
/// cell sits there; an empty cell shows a space; a blank cell takes the
/// primary text color; the cell takes the cursor background.
pub open spec fn spec_cursor_cells(cells: Seq<CellView>, column: usize, theme: ThemePalette) -> Seq<
    CellView,
> {
    let k = cursor_slot(cells, column);
    let cells1 = if k < cells.len() && cells[k].column == column {
        cells
    } else {
        cells.insert(
            k,
            CellView { column, text: seq![' '], fg: theme.text_primary, bg: theme.terminal_bg },
        )
    };
    let c = cells1[k];
    let text = if c.text.len() == 0 {
        seq![' ']
    } else {
        c.text
    };
    cells1.update(
        k,
        CellView {
            column: c.column,
            text,
            fg: if all_spaces(text) {
                theme.text_primary
            } else {
                c.fg
            },
            bg: theme.terminal_cursor,
        },
    )
}

/// A line with the cursor painted at `column`; its runs are rebuilt from its cells.
pub open spec fn spec_line_with_cursor(l: LineView, column: usize, theme: ThemePalette) -> LineView {
    let cells = spec_cursor_cells(line_cells(l), column, theme);
    LineView { cells, runs: spec_runs_from_cells(cells) }
}

/// Lines with the cursor painted: lines are added up to the cursor's line.
pub open spec fn spec_apply_cursor(
    lines: Seq<LineView>,
    cursor: TerminalCursor,
    theme: ThemePalette,
) -> Seq<LineView> {
    let p = padded(lines, (cursor.line + 1) as nat);
    p.update(cursor.line as int, spec_line_with_cursor(p[cursor.line as int], cursor.column, theme))
}

/// Whether every character of `text` is a space.
fn text_is_all_spaces(text: &String) -> (r: bool)
    ensures
        r == all_spaces(text@),
{
    let chars = crate::text::chars_of(text.as_str());
    for i in 0..chars.len()
        invariant
            chars@ == text@,
            forall|j: int| 0 <= j < i ==> chars@[j] == ' ',
    {
        if chars[i] != ' ' {
            return false;
        }
    }
    true
}

/// Makes sure a line holds cells, deriving them from its runs when needed.
fn ensure_cells(line: &mut TerminalStyledLine)
    ensures
        final(line).cells.deep_view() == line_cells(old(line).deep_view()),
        final(line).runs.deep_view() == old(line).runs.deep_view(),
{
    if line.cells.len() == 0 && line.runs.len() > 0 {
        line.cells = cells_from_runs(line.runs.as_slice());
    }
}

/// Adds empty lines until there are more than `index` lines.
fn pad_lines(lines: &mut Vec<TerminalStyledLine>, index: usize)
    requires
        index < usize::MAX,
    ensures
        final(lines).deep_view() == padded(old(lines).deep_view(), (index + 1) as nat),
{
    let ghost l0 = lines.deep_view();
    while lines.len() <= index
        invariant
            index < usize::MAX,
            lines.len() <= index + 1 ==> lines.deep_view() == l0 + Seq::new(
                (lines.len() - l0.len()) as nat,
                |i: int| empty_line(),
            ),
            lines.len() > index + 1 ==> lines.deep_view() == l0,
            lines.len() >= l0.len(),
            l0.len() > index + 1 ==> lines.len() == l0.len(),
        decreases index + 1 - lines.len(),
    {
        let ghost before = lines.deep_view();
        let nl = TerminalStyledLine { cells: Vec::new(), runs: Vec::new() };
        assert(nl.deep_view().cells =~= empty_line().cells);
        assert(nl.deep_view().runs =~= empty_line().runs);
        lines.push(nl);
        assert(lines.deep_view() =~= before.push(empty_line()));
        assert(lines.deep_view() =~= l0 + Seq::new(
            (lines.len() - l0.len()) as nat,
            |i: int| empty_line(),
        ));
    }
    assert(lines.deep_view() =~= padded(l0, (index + 1) as nat));
}

/// Paints the cursor on its line, adding lines up to it when needed.
pub fn apply_cursor_to_lines(
    lines: &mut Vec<TerminalStyledLine>,
    cursor: TerminalCursor,
    theme: ThemePalette,
)
    requires
        cursor.line < usize::MAX,
    ensures
        final(lines).deep_view() == spec_apply_cursor(old(lines).deep_view(), cursor, theme),
{
    let ghost l0 = lines.deep_view();
    pad_lines(lines, cursor.line);
    let ghost p = lines.deep_view();
    assert(p.len() >= cursor.line + 1);
    assert(lines.len() == p.len());
    assert(lines@[cursor.line as int].deep_view() == p[cursor.line as int]);
    let line = &mut lines[cursor.line];
    ensure_cells(line);
    let ghost cells0 = line.cells.deep_view();
    let insert_index = find_cursor_slot(&line.cells, cursor.column);
    let present = insert_index < line.cells.len() && line.cells[insert_index].column == cursor.column;
    if !present {
        let mut text = String::new();
        push_char(&mut text, ' ');
        assert(text@ =~= seq![' ']);
        let ghost before = line.cells.deep_view();
        line.cells.insert(
            insert_index,
            TerminalStyledCell {
                column: cursor.column,
                text,
                fg: theme.text_primary,
                bg: theme.terminal_bg,
            },
        );
        assert(line.cells.deep_view() =~= before.insert(
            insert_index as int,
            line.cells@[insert_index as int].deep_view(),
        ));
    }
    let ghost cells1 = line.cells.deep_view();
    let old_cell = &line.cells[insert_index];
    let mut text = old_cell.text.clone();
    if text.as_str().is_empty() {
        text = String::new();
        push_char(&mut text, ' ');
        assert(text@ =~= seq![' ']);
    }
    let fg = if text_is_all_spaces(&text) { theme.text_primary } else { old_cell.fg };
    let new_cell = TerminalStyledCell {
        column: old_cell.column,
        text,
        fg,
        bg: theme.terminal_cursor,
    };
    let ghost before_set = line.cells.deep_view();
    line.cells.set(insert_index, new_cell);
    assert(line.cells.deep_view() =~= before_set.update(
        insert_index as int,
        line.cells@[insert_index as int].deep_view(),
    ));
    assert(line.cells.deep_view() =~= spec_cursor_cells(cells0, cursor.column, theme));
    line.runs = runs_from_cells(line.cells.as_slice());
    assert(lines.deep_view() =~= spec_apply_cursor(l0, cursor, theme));
}


/// The cells of a line with IME marked text at `column`: the cell at that
/// column is replaced, or a new one is inserted in column order; either way it
/// holds the marked text in the primary color on the cursor background.
pub open spec fn spec_marked_cells(
    cells: Seq<CellView>,
    column: usize,
    marked: Seq<char>,
    theme: ThemePalette,
) -> Seq<CellView> {
    let k = cursor_slot(cells, column);
    let cell = CellView { column, text: marked, fg: theme.text_primary, bg: theme.terminal_cursor };
    if k < cells.len() && cells[k].column == column {
        cells.update(k, cell)
    } else {
        cells.insert(k, cell)
    }
}

/// Lines with IME marked text painted at the cursor; nothing changes when the
/// cursor's line does not exist.
pub open spec fn spec_apply_ime(
    lines: Seq<LineView>,
    cursor: TerminalCursor,
    marked: Seq<char>,
    theme: ThemePalette,
) -> Seq<LineView> {
    if lines.len() <= cursor.line {
        lines
    } else {
        let cells = spec_marked_cells(line_cells(lines[cursor.line as int]), cursor.column, marked, theme);
        lines.update(cursor.line as int, LineView { cells, runs: spec_runs_from_cells(cells) })
    }
}

/// Paints IME marked (composing) text at the cursor.
pub fn apply_ime_marked_text_to_lines(
    lines: &mut Vec<TerminalStyledLine>,
    cursor: TerminalCursor,
    marked_text: &str,
    theme: ThemePalette,
)
    ensures
        final(lines).deep_view() == spec_apply_ime(old(lines).deep_view(), cursor, marked_text@, theme),
{
    let ghost l0 = lines.deep_view();
    if lines.len() <= cursor.line {
        return;
    }
    assert(lines@[cursor.line as int].deep_view() == l0[cursor.line as int]);
    let line = &mut lines[cursor.line];
    ensure_cells(line);
    let ghost cells0 = line.cells.deep_view();
    let insert_index = find_cursor_slot(&line.cells, cursor.column);
    let new_cell = TerminalStyledCell {
        column: cursor.column,
        text: marked_text.to_owned(),
        fg: theme.text_primary,
        bg: theme.terminal_cursor,
    };
    let ghost before = line.cells.deep_view();
    if insert_index < line.cells.len() && line.cells[insert_index].column == cursor.column {
        line.cells.set(insert_index, new_cell);
        assert(line.cells.deep_view() =~= before.update(
            insert_index as int,
            line.cells@[insert_index as int].deep_view(),
        ));
    } else {
        line.cells.insert(insert_index, new_cell);
        assert(line.cells.deep_view() =~= before.insert(
            insert_index as int,
            line.cells@[insert_index as int].deep_view(),
        ));
    }
    assert(line.cells.deep_view() =~= spec_marked_cells(cells0, cursor.column, marked_text@, theme));
    line.runs = runs_from_cells(line.cells.as_slice());
    assert(lines.deep_view() =~= spec_apply_ime(l0, cursor, marked_text@, theme));
}

/// A cell in the selected columns `from..to` takes the selection colors.
pub open spec fn select_cell(c: CellView, from: usize, to: usize, theme: ThemePalette) -> CellView {
    if from <= c.column < to {
        CellView { fg: theme.terminal_selection_fg, bg: theme.terminal_selection_bg, ..c }
    } else {
        c
    }
}

/// A line with the columns `from..to` selected: its cells are derived from its
/// runs when needed, the cells in range take the selection colors, and the
/// runs are rebuilt only when some cell changed.
pub open spec fn spec_select_line(l: LineView, from: usize, to: usize, theme: ThemePalette) -> LineView {
    let cells = line_cells(l);
    if to <= from {
        LineView { cells, runs: l.runs }
    } else {
        let selected = cells.map_values(|c: CellView| select_cell(c, from, to, theme));
        let changed = exists|i: int| 0 <= i < cells.len() && from <= #[trigger] cells[i].column < to;
        LineView { cells: selected, runs: if changed { spec_runs_from_cells(selected) } else { l.runs } }
    }
}

/// First selected column of line `i` of the selection `start..end`.
pub open spec fn selection_from(i: int, start: TerminalGridPosition) -> usize {
    if i == start.line {
        start.column
    } else {
        0
    }
}

/// End (exclusive) of the selected columns of line `i` of the selection `start..end`.
pub open spec fn selection_to(i: int, end: TerminalGridPosition) -> usize {
    if i == end.line {
        end.column
    } else {
        usize::MAX
    }
}

/// Lines with a selection painted: lines are added up to its last line, and
/// each line from its first to its last line has its selected columns painted.
pub open spec fn spec_apply_selection(
    lines: Seq<LineView>,
    selection: TerminalSelection,
    theme: ThemePalette,
) -> Seq<LineView> {
    match spec_normalized_selection(selection) {
        None => lines,
        Some((start, end)) => {
            let p = padded(lines, (end.line + 1) as nat);
            Seq::new(
                p.len(),
                |i: int|
                    if start.line <= i <= end.line {
                        spec_select_line(p[i], selection_from(i, start), selection_to(i, end), theme)
                    } else {
                        p[i]
                    },
            )
        },
    }
}

/// Paints the selection colors over one line's selected columns.
fn select_line(line: &mut TerminalStyledLine, from: usize, to: usize, theme: ThemePalette)
    ensures
        final(line).deep_view() == spec_select_line(old(line).deep_view(), from, to, theme),
{
    let ghost l0 = line.deep_view();
    ensure_cells(line);
    if to <= from {
        return;
    }
    let ghost cells0 = line.cells.deep_view();
    let mut changed = false;
    let n = line.cells.len();
    for i in 0..n
        invariant
            n == line.cells.len(),
            cells0.len() == n,
            line.runs.deep_view() == l0.runs,
            forall|j: int|
                0 <= j < i ==> #[trigger] line.cells@[j].deep_view() == select_cell(
                    cells0[j],
                    from,
                    to,
                    theme,
                ),
            forall|j: int| i <= j < n ==> #[trigger] line.cells@[j].deep_view() == cells0[j],
            changed == exists|j: int| 0 <= j < i && from <= #[trigger] cells0[j].column < to,
    {
        assert(cells0[i as int] == line.cells@[i as int].deep_view());
        let cell = &mut line.cells[i];
        if cell.column >= from && cell.column < to {
            cell.fg = theme.terminal_selection_fg;
            cell.bg = theme.terminal_selection_bg;
            changed = true;
        }
    }
    assert(line.cells.deep_view() =~= cells0.map_values(
        |c: CellView| select_cell(c, from, to, theme),
    ));
    if changed {
        line.runs = runs_from_cells(line.cells.as_slice());
    }
}

/// Paints a selection; lines are added up to its last line.
pub fn apply_selection_to_lines(
    lines: &mut Vec<TerminalStyledLine>,
    selection: &TerminalSelection,
    theme: ThemePalette,
)
    requires
        spec_normalized_selection(*selection) matches Some((_, e)) ==> e.line < usize::MAX,
    ensures
        final(lines).deep_view() == spec_apply_selection(old(lines).deep_view(), *selection, theme),
{
    let ghost l0 = lines.deep_view();
    let (start, end) = match normalized_terminal_selection(selection) {
        Some(p) => p,
        None => return,
    };
    pad_lines(lines, end.line);
    let ghost p = lines.deep_view();
    assert(p.len() >= end.line + 1);
    let mut line_index = start.line;
    while line_index <= end.line
        invariant
            start.line <= line_index <= end.line + 1,
            end.line < usize::MAX,
            lines.len() == p.len(),
            p.len() >= end.line + 1,
            forall|j: int|
                0 <= j < p.len() ==> #[trigger] lines@[j].deep_view() == if start.line <= j
                    < line_index {
                    spec_select_line(p[j], selection_from(j, start), selection_to(j, end), theme)
                } else {
                    p[j]
                },
        decreases end.line + 1 - line_index,
    {
        let from = if line_index == start.line { start.column } else { 0 };
        let to = if line_index == end.line { end.column } else { usize::MAX };
        assert(lines@[line_index as int].deep_view() == p[line_index as int]);
        let line = &mut lines[line_index];
        select_line(line, from, to, theme);
        line_index = line_index + 1;
    }
    assert(lines.deep_view() =~= spec_apply_selection(l0, *selection, theme));
}


/// Clipping a selection to a render range keeps it inside the range: both ends
/// are on lines `0..range_end - range_start`, anchor first in reading order.
pub proof fn lemma_clipped_selection_in_range(
    selection: TerminalSelection,
    range_start: usize,
    range_end: usize,
)
    requires
        range_start < range_end,
    ensures
        spec_selection_for_range(selection, range_start, range_end) matches Some(clipped) ==> {
            &&& clipped.anchor.line <= clipped.head.line
            &&& clipped.head.line < range_end - range_start
            &&& position_le(clipped.anchor, clipped.head)
            &&& clipped.session_id == selection.session_id
        },
{
}

proof fn lemma_cursor_slot_bounds(cells: Seq<CellView>, column: usize)
    ensures
        0 <= cursor_slot(cells, column) <= cells.len(),
        cursor_slot(cells, column) < cells.len() ==> cells[cursor_slot(cells, column)].column
            >= column,
    decreases cells.len(),
{
    if cells.len() > 0 && cells[0].column < column {
        lemma_cursor_slot_bounds(cells.drop_first(), column);
    }
}

/// The cursor is painted at its own column: afterwards its line holds a cell
/// at the cursor's column with the cursor background, the line's runs are
/// those of its cells, and every other line is unchanged.
pub proof fn lemma_cursor_is_painted(lines: Seq<LineView>, cursor: TerminalCursor, theme: ThemePalette)
    requires
        cursor.line < usize::MAX,
    ensures
        ({
            let painted = spec_apply_cursor(lines, cursor, theme);
            let l = painted[cursor.line as int];
            &&& painted.len() == if lines.len() > cursor.line { lines.len() as int } else { cursor.line + 1 }
            &&& exists|i: int|
                0 <= i < l.cells.len() && (#[trigger] l.cells[i]).column == cursor.column
                    && l.cells[i].bg == theme.terminal_cursor
            &&& l.runs == spec_runs_from_cells(l.cells)
            &&& forall|j: int|
                0 <= j < lines.len() && j != cursor.line ==> #[trigger] painted[j] == lines[j]
        }),
{
    let p = padded(lines, (cursor.line + 1) as nat);
    let cells = line_cells(p[cursor.line as int]);
    let k = cursor_slot(cells, cursor.column);
    lemma_cursor_slot_bounds(cells, cursor.column);
    let painted = spec_apply_cursor(lines, cursor, theme);
    let l = painted[cursor.line as int];
    assert(l.cells[k].column == cursor.column && l.cells[k].bg == theme.terminal_cursor);
}

/// Whether column `column` of line `i` lies inside the selection from
/// `start` to `end` (the end column excluded; a line below the first starts
/// at column 0, a line above the last runs to the end of the line).
pub open spec fn in_selection(i: int, column: usize, start: TerminalGridPosition, end: TerminalGridPosition) -> bool {
    &&& start.line <= i <= end.line
    &&& (i == start.line ==> start.column <= column)
    &&& (if i == end.line {
        column < end.column
    } else {
        column < usize::MAX
    })
}

/// Painting a selection highlights exactly the selected cells: lines are
/// added up to its last line; on every line from its first to its last line
/// each cell keeps its column and text and takes the selection colors when it
/// lies inside the selection (every cell of a line strictly between the first
/// and the last, short of column `usize::MAX`), and keeps its colors
/// otherwise; the lines outside are unchanged.
pub proof fn lemma_selection_highlights_selected_cells(
    lines: Seq<LineView>,
    selection: TerminalSelection,
    theme: ThemePalette,
)
    ensures
        spec_normalized_selection(selection) is None ==> spec_apply_selection(lines, selection, theme)
            == lines,
        spec_normalized_selection(selection) matches Some((start, end)) ==> {
            let painted = spec_apply_selection(lines, selection, theme);
            &&& painted.len() == if lines.len() > end.line { lines.len() as int } else { end.line + 1 }
            &&& forall|i: int|
                0 <= i < painted.len() && !(start.line <= i <= end.line) ==> #[trigger] painted[i]
                    == if i < lines.len() { lines[i] } else { empty_line() }
            &&& forall|i: int, j: int|
                #![trigger painted[i].cells[j]]
                start.line <= i <= end.line && 0 <= j < painted[i].cells.len() ==> {
                    let before = line_cells(if i < lines.len() { lines[i] } else { empty_line() });
                    let c = painted[i].cells[j];
                    &&& painted[i].cells.len() == before.len()
                    &&& c.column == before[j].column
                    &&& c.text == before[j].text
                    &&& if in_selection(i, c.column, start, end) {
                        c.fg == theme.terminal_selection_fg && c.bg == theme.terminal_selection_bg
                    } else {
                        c.fg == before[j].fg && c.bg == before[j].bg
                    }
                }
        },
{
    match spec_normalized_selection(selection) {
        None => {},
        Some((start, end)) => {
            let painted = spec_apply_selection(lines, selection, theme);
            let p = padded(lines, (end.line + 1) as nat);
            assert forall|i: int|
                0 <= i < painted.len() && !(start.line <= i <= end.line) implies #[trigger] painted[i]
                == if i < lines.len() { lines[i] } else { empty_line() } by {
                assert(painted[i] == p[i]);
            }
            assert forall|i: int, j: int|
                #![trigger painted[i].cells[j]]
                start.line <= i <= end.line && 0 <= j < painted[i].cells.len() implies {
                    let before = line_cells(if i < lines.len() { lines[i] } else { empty_line() });
                    let c = painted[i].cells[j];
                    &&& painted[i].cells.len() == before.len()
                    &&& c.column == before[j].column
                    &&& c.text == before[j].text
                    &&& if in_selection(i, c.column, start, end) {
                        c.fg == theme.terminal_selection_fg && c.bg == theme.terminal_selection_bg
                    } else {
                        c.fg == before[j].fg && c.bg == before[j].bg
                    }
                } by {
                assert(p[i] == if i < lines.len() { lines[i] } else { empty_line() });
                assert(painted[i] == spec_select_line(p[i], selection_from(i, start), selection_to(i, end), theme));
            }
        },
    }
}

proof fn lemma_cursor_slot_before(cells: Seq<CellView>, column: usize)
    ensures
        forall|j: int| 0 <= j < cursor_slot(cells, column) ==> (#[trigger] cells[j]).column < column,
    decreases cells.len(),
{
    if cells.len() > 0 && cells[0].column < column {
        lemma_cursor_slot_before(cells.drop_first(), column);
        lemma_cursor_slot_bounds(cells, column);
        assert forall|j: int| 0 <= j < cursor_slot(cells, column) implies (#[trigger] cells[j]).column
            < column by {
            if j > 0 {
                assert(cells[j] == cells.drop_first()[j - 1]);
            }
        }
    }
}

proof fn lemma_marked_cells_keep_others(cells: Seq<CellView>, column: usize, marked: Seq<char>, theme: ThemePalette)
    ensures
        ({
            let after = spec_marked_cells(cells, column, marked, theme);
            &&& cells.len() <= after.len() <= cells.len() + 1
            &&& 0 <= cursor_slot(cells, column) < after.len()
            &&& after[cursor_slot(cells, column)] == (CellView {
                column,
                text: marked,
                fg: theme.text_primary,
                bg: theme.terminal_cursor,
            })
            &&& forall|j: int|
                0 <= j < cells.len() && (#[trigger] cells[j]).column != column ==> exists|k: int|
                    0 <= k < after.len() && after[k] == cells[j]
        }),
{
    let after = spec_marked_cells(cells, column, marked, theme);
    let k = cursor_slot(cells, column);
    lemma_cursor_slot_bounds(cells, column);
    let replaced = k < cells.len() && cells[k].column == column;
    assert forall|j: int|
        0 <= j < cells.len() && (#[trigger] cells[j]).column != column implies exists|m: int|
            0 <= m < after.len() && after[m] == cells[j] by {
        if replaced || j < k {
            assert(after[j] == cells[j]);
        } else {
            assert(after[j + 1] == cells[j]);
        }
    }
}

#[verifier::spinoff_prover]
proof fn lemma_marked_cells_sorted(cells: Seq<CellView>, column: usize, marked: Seq<char>, theme: ThemePalette)
    requires
        crate::display::columns_sorted(cells),
    ensures
        crate::display::columns_sorted(spec_marked_cells(cells, column, marked, theme)),
{
    let after = spec_marked_cells(cells, column, marked, theme);
    let k = cursor_slot(cells, column);
    lemma_cursor_slot_bounds(cells, column);
    lemma_cursor_slot_before(cells, column);
    if k < cells.len() && cells[k].column == column {
        assert forall|a: int, b: int| 0 <= a <= b < after.len() implies after[a].column
            <= after[b].column by {
            assert(after[a].column == cells[a].column);
            assert(after[b].column == cells[b].column);
        }
    } else {
        assert forall|a: int, b: int| 0 <= a <= b < after.len() implies after[a].column
            <= after[b].column by {
            if a < k {
                assert(after[a] == cells[a]);
                assert(cells[a].column < column);
            } else if a > k {
                assert(after[a] == cells[a - 1]);
            }
            if b < k {
                assert(after[b] == cells[b]);
            } else if b > k {
                assert(after[b] == cells[b - 1]);
                assert(cells[k].column >= column);
                assert(cells[k].column <= cells[b - 1].column);
            }
        }
    }
}

/// IME composing text is always shown on an existing cursor line: that line
/// then holds a cell at the cursor's column with the marked text in the
/// primary text color on the cursor background, whether or not a cell sat
/// there before; every other cell of the line is kept; cells in column order
/// stay in column order; the line's runs are rebuilt from its cells; the other
/// lines are unchanged. When the cursor's line does not exist nothing changes.
#[verifier::spinoff_prover]
pub proof fn lemma_ime_marked_text_is_shown(
    lines: Seq<LineView>,
    cursor: TerminalCursor,
    marked: Seq<char>,
    theme: ThemePalette,
)
    ensures
        lines.len() <= cursor.line ==> spec_apply_ime(lines, cursor, marked, theme) == lines,
        lines.len() > cursor.line ==> {
            let painted = spec_apply_ime(lines, cursor, marked, theme);
            let before = line_cells(lines[cursor.line as int]);
            let after = painted[cursor.line as int].cells;
            &&& painted.len() == lines.len()
            &&& forall|i: int|
                0 <= i < lines.len() && i != cursor.line ==> #[trigger] painted[i] == lines[i]
            &&& exists|k: int|
                0 <= k < after.len() && #[trigger] after[k] == (CellView {
                    column: cursor.column,
                    text: marked,
                    fg: theme.text_primary,
                    bg: theme.terminal_cursor,
                })
            &&& forall|j: int|
                0 <= j < before.len() && (#[trigger] before[j]).column != cursor.column ==> exists|k: int|
                    0 <= k < after.len() && after[k] == before[j]
            &&& before.len() <= after.len() <= before.len() + 1
            &&& crate::display::columns_sorted(before) ==> crate::display::columns_sorted(after)
            &&& painted[cursor.line as int].runs == spec_runs_from_cells(after)
        },
{
    if lines.len() > cursor.line {
        let painted = spec_apply_ime(lines, cursor, marked, theme);
        let before = line_cells(lines[cursor.line as int]);
        let after = spec_marked_cells(before, cursor.column, marked, theme);
        assert(painted == lines.update(
            cursor.line as int,
            LineView { cells: after, runs: spec_runs_from_cells(after) },
        ));
        assert(painted[cursor.line as int].cells == after);
        lemma_marked_cells_keep_others(before, cursor.column, marked, theme);
        if crate::display::columns_sorted(before) {
            lemma_marked_cells_sorted(before, cursor.column, marked, theme);
        }
        let k = cursor_slot(before, cursor.column);
        assert(after[k] == (CellView {
            column: cursor.column,
            text: marked,
            fg: theme.text_primary,
            bg: theme.terminal_cursor,
        }));
    }
}

} // verus!
