//! Styled terminal cells and runs, and the conversions between them.

use vstd::prelude::*;

use crate::text::{chars_of, push_char, push_str};

verus! {

/// One grid cell of a terminal line: the text painted at `column` and its colors.
#[derive(Debug)]
pub struct TerminalStyledCell {
    pub column: usize,
    pub text: String,
    pub fg: u32,
    pub bg: u32,
}

/// A span of text painted with one pair of colors.
#[derive(Debug)]
pub struct TerminalStyledRun {
    pub text: String,
    pub fg: u32,
    pub bg: u32,
}

/// A terminal line, held as cells, as runs, or as both.
#[derive(Debug)]
pub struct TerminalStyledLine {
    pub cells: Vec<TerminalStyledCell>,
    pub runs: Vec<TerminalStyledRun>,
}

/// A run placed on the grid: where it starts, how many cells it covers and
/// whether its glyphs are forced to the cell width.
#[derive(Debug)]
pub struct PositionedTerminalRun {
    pub text: String,
    pub fg: u32,
    pub bg: u32,
    pub start_column: usize,
    pub cell_count: usize,
    pub force_cell_width: bool,
}

/// Mathematical value of a cell.
pub struct CellView {
    pub column: usize,
    pub text: Seq<char>,
    pub fg: u32,
    pub bg: u32,
}

/// Mathematical value of a run.
pub struct RunView {
    pub text: Seq<char>,
    pub fg: u32,
    pub bg: u32,
}

/// Mathematical value of a line.
pub struct LineView {
    pub cells: Seq<CellView>,
    pub runs: Seq<RunView>,
}

/// Mathematical value of a positioned run.
pub struct PositionedRunView {
    pub text: Seq<char>,
    pub fg: u32,
    pub bg: u32,
    pub start_column: usize,
    pub cell_count: usize,
    pub force_cell_width: bool,
}

impl DeepView for TerminalStyledCell {
    type V = CellView;

    open spec fn deep_view(&self) -> CellView {
        CellView { column: self.column, text: self.text@, fg: self.fg, bg: self.bg }
    }
}

impl DeepView for TerminalStyledRun {
    type V = RunView;

    open spec fn deep_view(&self) -> RunView {
        RunView { text: self.text@, fg: self.fg, bg: self.bg }
    }
}

impl DeepView for TerminalStyledLine {
    type V = LineView;

    open spec fn deep_view(&self) -> LineView {
        LineView { cells: self.cells.deep_view(), runs: self.runs.deep_view() }
    }
}

impl DeepView for PositionedTerminalRun {
    type V = PositionedRunView;

    open spec fn deep_view(&self) -> PositionedRunView {
        PositionedRunView {
            text: self.text@,
            fg: self.fg,
            bg: self.bg,
            start_column: self.start_column,
            cell_count: self.cell_count,
            force_cell_width: self.force_cell_width,
        }
    }
}

impl Clone for TerminalStyledCell {
    fn clone(&self) -> (r: Self)
        ensures
            r == *self,
    {
        TerminalStyledCell { column: self.column, text: self.text.clone(), fg: self.fg, bg: self.bg }
    }
}

impl Clone for TerminalStyledRun {
    fn clone(&self) -> (r: Self)
        ensures
            r == *self,
    {
        TerminalStyledRun { text: self.text.clone(), fg: self.fg, bg: self.bg }
    }
}

impl Clone for TerminalStyledLine {
    fn clone(&self) -> (r: Self)
        ensures
            r.deep_view() == self.deep_view(),
    {
        let cells = self.cells.clone();
        let runs = self.runs.clone();
        assert(cells.deep_view() =~= self.cells.deep_view());
        assert(runs.deep_view() =~= self.runs.deep_view());
        TerminalStyledLine { cells, runs }
    }
}

/// `n + 1`, stopping at `usize::MAX`.
pub open spec fn sat_succ(n: usize) -> usize {
    if n < usize::MAX {
        (n + 1) as usize
    } else {
        usize::MAX
    }
}

/// The index `i` as a column, stopping at `usize::MAX`.
pub open spec fn sat_index(i: int) -> usize {
    if i < usize::MAX {
        i as usize
    } else {
        usize::MAX
    }
}

/// Powerline glyphs occupy the private-use block U+E0B0..=U+E0D7.
pub open spec fn spec_is_powerline(c: char) -> bool {
    0xE0B0 <= (c as u32) <= 0xE0D7
}

/// Whether `ch` is a powerline glyph.
pub fn is_terminal_powerline_character(ch: char) -> (r: bool)
    ensures
        r == spec_is_powerline(ch),
{
    let u = ch as u32;
    0xE0B0 <= u && u <= 0xE0D7
}

/// The characters of `runs`, each with the colors of its run, in order.
pub open spec fn run_chars(runs: Seq<RunView>) -> Seq<(char, u32, u32)>
    decreases runs.len(),
{
    if runs.len() == 0 {
        seq![]
    } else {
        let r = runs.last();
        run_chars(runs.drop_last()) + r.text.map_values(|c: char| (c, r.fg, r.bg))
    }
}

/// One cell per character of the runs, numbered from column 0.
pub open spec fn spec_cells_from_runs(runs: Seq<RunView>) -> Seq<CellView> {
    let chars = run_chars(runs);
    Seq::new(
        chars.len(),
        |i: int| CellView { column: sat_index(i), text: seq![chars[i].0], fg: chars[i].1, bg: chars[i].2 },
    )
}

/// Cells made from runs are numbered in order, so their columns never decrease.
pub proof fn lemma_cells_from_runs_sorted(runs: Seq<RunView>)
    ensures
        forall|i: int, j: int|
            0 <= i <= j < spec_cells_from_runs(runs).len() ==> spec_cells_from_runs(runs)[i].column
                <= spec_cells_from_runs(runs)[j].column,
{
}

/// Splits runs into one cell per character, columns counted from 0.
pub fn cells_from_runs(runs: &[TerminalStyledRun]) -> (cells: Vec<TerminalStyledCell>)
    ensures
        cells.deep_view() == spec_cells_from_runs(runs.deep_view()),
{
    let mut cells: Vec<TerminalStyledCell> = Vec::new();
    let mut column: usize = 0;
    let ghost rv = runs.deep_view();
    for r in 0..runs.len()
        invariant
            rv == runs.deep_view(),
            cells.deep_view() == spec_cells_from_runs(rv.take(r as int)),
            column == sat_index(cells.len() as int),
    {
        let run = &runs[r];
        let chars = chars_of(run.text.as_str());
        let ghost before = cells.deep_view();
        assert(rv.take(r + 1).drop_last() == rv.take(r as int));
        assert(run_chars(rv.take(r + 1)) == run_chars(rv.take(r as int)) + rv[r as int].text.map_values(
            |c: char| (c, run.fg, run.bg),
        ));
        for k in 0..chars.len()
            invariant
                rv == runs.deep_view(),
                0 <= r < runs.len(),
                run == &runs[r as int],
                chars@ == run.text@,
                before == spec_cells_from_runs(rv.take(r as int)),
                cells.deep_view() == before + Seq::new(
                    k as nat,
                    |j: int|
                        CellView {
                            column: sat_index(before.len() + j),
                            text: seq![chars@[j]],
                            fg: run.fg,
                            bg: run.bg,
                        },
                ),
                column == sat_index(cells.len() as int),
        {
            let mut text = String::new();
            push_char(&mut text, chars[k]);
            assert(text@ =~= seq![chars@[k as int]]);
            let ghost prev = cells.deep_view();
            cells.push(TerminalStyledCell { column, text, fg: run.fg, bg: run.bg });
            assert(cells.deep_view() =~= prev.push(cells@[cells.len() - 1].deep_view()));
            column = if column < usize::MAX { column + 1 } else { usize::MAX };
            assert(cells.deep_view() =~= before + Seq::new(
                (k + 1) as nat,
                |j: int|
                    CellView {
                        column: sat_index(before.len() + j),
                        text: seq![chars@[j]],
                        fg: run.fg,
                        bg: run.bg,
                    },
            ));
        }
        assert(cells.deep_view() == spec_cells_from_runs(rv.take(r + 1)));
    }
    assert(rv.take(runs.len() as int) == rv);
    cells
}


/// The cells of one run whose first character sits at column `start`.
pub open spec fn run_cells(r: RunView, start: int) -> Seq<CellView> {
    Seq::new(
        r.text.len(),
        |j: int| CellView { column: sat_index(start + j), text: seq![r.text[j]], fg: r.fg, bg: r.bg },
    )
}

proof fn lemma_cells_from_runs_split(runs: Seq<RunView>)
    requires
        runs.len() > 0,
    ensures
        spec_cells_from_runs(runs) == spec_cells_from_runs(runs.drop_last()) + run_cells(
            runs.last(),
            spec_cells_from_runs(runs.drop_last()).len() as int,
        ),
{
    let prefix = runs.drop_last();
    let r = runs.last();
    assert(run_chars(runs) == run_chars(prefix) + r.text.map_values(|c: char| (c, r.fg, r.bg)));
    assert(spec_cells_from_runs(runs) =~= spec_cells_from_runs(prefix) + run_cells(
        r,
        run_chars(prefix).len() as int,
    ));
}

/// A cell whose text is not exactly one character (empty, or a character
/// followed by combining or variation marks).
pub open spec fn cell_is_complex(c: CellView) -> bool {
    c.text.len() != 1
}

/// A cell holding a single powerline glyph.
pub open spec fn cell_is_powerline(c: CellView) -> bool {
    c.text.len() == 1 && spec_is_powerline(c.text[0])
}

/// Cell `c`, following `prev`, cannot extend the run that `prev` belongs to:
/// the colors differ, the columns are not adjacent, or either cell is complex
/// or a powerline glyph.
pub open spec fn starts_new_run(prev: CellView, c: CellView) -> bool {
    ||| prev.fg != c.fg
    ||| prev.bg != c.bg
    ||| c.column != sat_succ(prev.column)
    ||| cell_is_complex(prev)
    ||| cell_is_complex(c)
    ||| cell_is_powerline(prev)
    ||| cell_is_powerline(c)
}

/// Cell `i` of `cells` begins a run.
pub open spec fn begins_run(cells: Seq<CellView>, i: int) -> bool {
    i == 0 || starts_new_run(cells[i - 1], cells[i])
}

/// The runs of a cell sequence: maximal stretches of adjacent simple cells
/// with equal colors; every complex or powerline cell stands alone; a run with
/// no text is left out.
pub open spec fn spec_runs_from_cells(cells: Seq<CellView>) -> Seq<RunView>
    decreases cells.len(),
{
    if cells.len() == 0 {
        seq![]
    } else {
        let runs = spec_runs_from_cells(cells.drop_last());
        let c = cells.last();
        if begins_run(cells, cells.len() - 1) {
            if c.text.len() == 0 {
                runs
            } else {
                runs.push(RunView { text: c.text, fg: c.fg, bg: c.bg })
            }
        } else {
            let last = runs.last();
            runs.update(runs.len() - 1, RunView { text: last.text + c.text, fg: last.fg, bg: last.bg })
        }
    }
}

proof fn lemma_runs_of_run_cells(cells: Seq<CellView>, r: RunView, k: int)
    requires
        1 <= k <= r.text.len(),
        cells.len() + r.text.len() <= usize::MAX,
        forall|j: int| 0 <= j < r.text.len() ==> !spec_is_powerline(#[trigger] r.text[j]),
        cells.len() == 0 || cells.last().fg != r.fg || cells.last().bg != r.bg,
    ensures
        spec_runs_from_cells(cells + run_cells(r, cells.len() as int).take(k)) == spec_runs_from_cells(
            cells,
        ).push(RunView { text: r.text.take(k), fg: r.fg, bg: r.bg }),
    decreases k,
{
    let b = run_cells(r, cells.len() as int);
    let x = cells + b.take(k);
    if k == 1 {
        assert(x.drop_last() =~= cells);
        assert(x.last() == b[0]);
        assert(r.text.take(1) =~= seq![r.text[0]]);
    } else {
        lemma_runs_of_run_cells(cells, r, k - 1);
        assert(x.drop_last() =~= cells + b.take(k - 1));
        assert(x[x.len() - 2] == b[k - 2]);
        assert(x.last() == b[k - 1]);
        assert(!spec_is_powerline(r.text[k - 1]));
        assert(!spec_is_powerline(r.text[k - 2]));
        assert(!begins_run(x, x.len() - 1));
        assert(r.text.take(k) =~= r.text.take(k - 1) + seq![r.text[k - 1]]);
        let prev = spec_runs_from_cells(cells);
        let before = prev.push(RunView { text: r.text.take(k - 1), fg: r.fg, bg: r.bg });
        assert(before.update(before.len() - 1, RunView { text: r.text.take(k - 1) + b[k - 1].text, fg: r.fg, bg: r.bg })
            =~= prev.push(RunView { text: r.text.take(k), fg: r.fg, bg: r.bg }));
    }
}

/// Splitting runs into cells and grouping the cells again gives the runs
/// back, when every run has text, no run holds a powerline glyph, neighbouring
/// runs differ in color, and there are at most `usize::MAX` characters.
pub proof fn lemma_runs_cells_round_trip(runs: Seq<RunView>)
    requires
        run_chars(runs).len() <= usize::MAX,
        forall|i: int| 0 <= i < runs.len() ==> (#[trigger] runs[i]).text.len() > 0,
        forall|i: int, j: int|
            0 <= i < runs.len() && 0 <= j < runs[i].text.len() ==> !spec_is_powerline(
                #[trigger] runs[i].text[j],
            ),
        forall|i: int, j: int|
            #![trigger runs[i], runs[j]]
            0 <= i && j == i + 1 && j < runs.len() ==> runs[i].fg != runs[j].fg || runs[i].bg
                != runs[j].bg,
    ensures
        spec_runs_from_cells(spec_cells_from_runs(runs)) == runs,
    decreases runs.len(),
{
    if runs.len() == 0 {
        assert(spec_cells_from_runs(runs) =~= Seq::<CellView>::empty());
    } else {
        let prefix = runs.drop_last();
        let r = runs.last();
        let c = spec_cells_from_runs(prefix);
        lemma_cells_from_runs_split(runs);
        assert(run_chars(prefix).len() <= run_chars(runs).len());
        assert forall|i: int| 0 <= i < prefix.len() implies (#[trigger] prefix[i]).text.len() > 0 by {
            assert(prefix[i] == runs[i]);
        }
        assert forall|i: int, j: int|
            0 <= i < prefix.len() && 0 <= j < prefix[i].text.len() implies !spec_is_powerline(
                #[trigger] prefix[i].text[j],
            ) by {
            assert(prefix[i] == runs[i]);
        }
        assert forall|i: int, j: int|
            #![trigger prefix[i], prefix[j]]
            0 <= i && j == i + 1 && j < prefix.len() implies prefix[i].fg != prefix[j].fg
                || prefix[i].bg != prefix[j].bg by {
            assert(prefix[i] == runs[i] && prefix[j] == runs[j]);
        }
        lemma_runs_cells_round_trip(prefix);
        assert forall|j: int| 0 <= j < r.text.len() implies !spec_is_powerline(#[trigger] r.text[j]) by {
            assert(runs[runs.len() - 1].text[j] == r.text[j]);
        }
        if prefix.len() > 0 {
            lemma_cells_from_runs_split(prefix);
            let q = prefix.last();
            assert(q == runs[runs.len() - 2]);
            assert(q.text.len() > 0);
            assert(c.last().fg == q.fg && c.last().bg == q.bg);
            assert(runs[runs.len() - 2].fg != runs[runs.len() - 1].fg || runs[runs.len() - 2].bg
                != runs[runs.len() - 1].bg);
        }
        assert(r.text.len() > 0);
        lemma_runs_of_run_cells(c, r, r.text.len() as int);
        let b = run_cells(r, c.len() as int);
        assert(b.take(r.text.len() as int) =~= b);
        assert(r.text.take(r.text.len() as int) =~= r.text);
        assert(prefix.push(RunView { text: r.text, fg: r.fg, bg: r.bg }) =~= runs);
    }
}

/// Number of characters in a cell's text.
fn cell_char_count(cell: &TerminalStyledCell) -> (n: usize)
    ensures
        n == cell.text@.len(),
{
    cell.text.as_str().unicode_len()
}

/// Whether a cell holds exactly one powerline glyph.
fn cell_powerline(cell: &TerminalStyledCell) -> (r: bool)
    ensures
        r == cell_is_powerline(cell.deep_view()),
{
    let n = cell_char_count(cell);
    n == 1 && is_terminal_powerline_character(cell.text.as_str().get_char(0))
}

/// Groups cells into runs of one style; see [`spec_runs_from_cells`].
pub fn runs_from_cells(cells: &[TerminalStyledCell]) -> (runs: Vec<TerminalStyledRun>)
    ensures
        runs.deep_view() == spec_runs_from_cells(cells.deep_view()),
{
    let ghost cv = cells.deep_view();
    let mut runs: Vec<TerminalStyledRun> = Vec::new();
    let mut current_fg: Option<u32> = None;
    let mut current_bg: Option<u32> = None;
    let mut current_text = String::new();
    let mut next_expected_column: Option<usize> = None;
    let mut current_contains_complex_cell = false;
    let mut current_contains_decorative_cell = false;

    for i in 0..cells.len()
        invariant
            cv == cells.deep_view(),
            i == 0 ==> current_fg is None && current_bg is None && current_text@.len() == 0
                && next_expected_column is None && !current_contains_complex_cell
                && !current_contains_decorative_cell,
            i > 0 ==> {
                &&& current_fg == Some(cv[i - 1].fg)
                &&& current_bg == Some(cv[i - 1].bg)
                &&& next_expected_column == Some(sat_succ(cv[i - 1].column))
                &&& current_contains_complex_cell == cell_is_complex(cv[i - 1])
                &&& current_contains_decorative_cell == cell_is_powerline(cv[i - 1])
                &&& !cell_is_complex(cv[i - 1]) ==> current_text@.len() > 0
            },
            spec_runs_from_cells(cv.take(i as int)) == if current_text@.len() > 0 {
                runs.deep_view().push(
                    RunView { text: current_text@, fg: current_fg->0, bg: current_bg->0 },
                )
            } else {
                runs.deep_view()
            },
    {
        let cell = &cells[i];
        let count = cell_char_count(cell);
        let cell_is_complex = count != 1;
        let cell_is_powerline = cell_powerline(cell);
        let style_changed = match (current_fg, current_bg) {
            (Some(fg), Some(bg)) => fg != cell.fg || bg != cell.bg,
            _ => true,
        };
        let gap_breaks_run = match next_expected_column {
            Some(col) => col != cell.column,
            None => true,
        };
        let complex_breaks_run = current_contains_complex_cell || cell_is_complex;
        let decorative_breaks_run = current_contains_decorative_cell || cell_is_powerline;
        let ghost pre_runs = runs.deep_view();
        assert(cv.take(i + 1).drop_last() == cv.take(i as int));
        assert(cv.take(i + 1).last() == cv[i as int]);
        assert(i > 0 ==> cv.take(i + 1)[i - 1] == cv[i - 1]);
        if style_changed || gap_breaks_run || complex_breaks_run || decorative_breaks_run {
            assert(begins_run(cv.take(i + 1), i as int));
            match (current_fg, current_bg) {
                (Some(fg), Some(bg)) => {
                    if !current_text.as_str().is_empty() {
                        runs.push(TerminalStyledRun { text: current_text, fg, bg });
                        assert(runs.deep_view() =~= pre_runs.push(runs@[runs.len() - 1].deep_view()));
                        current_text = String::new();
                    }
                },
                _ => {},
            }
            current_fg = Some(cell.fg);
            current_bg = Some(cell.bg);
            current_contains_complex_cell = cell_is_complex;
            current_contains_decorative_cell = cell_is_powerline;
        } else {
            assert(!begins_run(cv.take(i + 1), i as int));
        }
        push_str(&mut current_text, cell.text.as_str());
        next_expected_column = Some(if cell.column < usize::MAX { cell.column + 1 } else { usize::MAX });
        current_contains_decorative_cell = current_contains_decorative_cell || cell_is_powerline;
    }

    match (current_fg, current_bg) {
        (Some(fg), Some(bg)) => {
            if !current_text.as_str().is_empty() {
                let ghost pre_runs = runs.deep_view();
                runs.push(TerminalStyledRun { text: current_text, fg, bg });
                assert(runs.deep_view() =~= pre_runs.push(runs@[runs.len() - 1].deep_view()));
            }
        },
        _ => {},
    }
    assert(cv.take(cells.len() as int) == cv);
    runs
}


/// The positioned runs of a cell sequence: the same grouping as
/// [`spec_runs_from_cells`], each run with the column of its first cell, the
/// number of cells it covers, and whether its glyphs keep the cell width
/// (a run that is neither a complex cell nor a powerline glyph).
pub open spec fn spec_positioned_runs_from_cells(cells: Seq<CellView>) -> Seq<PositionedRunView>
    decreases cells.len(),
{
    if cells.len() == 0 {
        seq![]
    } else {
        let runs = spec_positioned_runs_from_cells(cells.drop_last());
        let c = cells.last();
        if begins_run(cells, cells.len() - 1) {
            if c.text.len() == 0 {
                runs
            } else {
                runs.push(
                    PositionedRunView {
                        text: c.text,
                        fg: c.fg,
                        bg: c.bg,
                        start_column: c.column,
                        cell_count: 1,
                        force_cell_width: !cell_is_complex(c) && !cell_is_powerline(c),
                    },
                )
            }
        } else {
            let last = runs.last();
            runs.update(
                runs.len() - 1,
                PositionedRunView {
                    text: last.text + c.text,
                    cell_count: sat_succ(last.cell_count),
                    ..last
                },
            )
        }
    }
}

/// Groups cells into runs placed on the grid; see
/// [`spec_positioned_runs_from_cells`].
pub fn positioned_runs_from_cells(cells: &[TerminalStyledCell]) -> (runs: Vec<PositionedTerminalRun>)
    ensures
        runs.deep_view() == spec_positioned_runs_from_cells(cells.deep_view()),
{
    let ghost cv = cells.deep_view();
    let mut runs: Vec<PositionedTerminalRun> = Vec::new();
    let mut current_fg: Option<u32> = None;
    let mut current_bg: Option<u32> = None;
    let mut current_start_column: usize = 0;
    let mut current_text = String::new();
    let mut next_expected_column: Option<usize> = None;
    let mut current_contains_complex_cell = false;
    let mut current_contains_decorative_cell = false;
    let mut current_cell_count: usize = 0;

    for i in 0..cells.len()
        invariant
            cv == cells.deep_view(),
            i == 0 ==> current_fg is None && current_bg is None && current_text@.len() == 0
                && next_expected_column is None && !current_contains_complex_cell
                && !current_contains_decorative_cell,
            i > 0 ==> {
                &&& current_fg == Some(cv[i - 1].fg)
                &&& current_bg == Some(cv[i - 1].bg)
                &&& next_expected_column == Some(sat_succ(cv[i - 1].column))
                &&& current_contains_complex_cell == cell_is_complex(cv[i - 1])
                &&& current_contains_decorative_cell == cell_is_powerline(cv[i - 1])
                &&& !cell_is_complex(cv[i - 1]) ==> current_text@.len() > 0
            },
            spec_positioned_runs_from_cells(cv.take(i as int)) == if current_text@.len() > 0 {
                runs.deep_view().push(
                    PositionedRunView {
                        text: current_text@,
                        fg: current_fg->0,
                        bg: current_bg->0,
                        start_column: current_start_column,
                        cell_count: current_cell_count,
                        force_cell_width: !current_contains_complex_cell
                            && !current_contains_decorative_cell,
                    },
                )
            } else {
                runs.deep_view()
            },
    {
        let cell = &cells[i];
        let count = cell_char_count(cell);
        let cell_is_complex = count != 1;
        let cell_is_powerline = cell_powerline(cell);
        let style_changed = match (current_fg, current_bg) {
            (Some(fg), Some(bg)) => fg != cell.fg || bg != cell.bg,
            _ => true,
        };
        let gap_breaks_run = match next_expected_column {
            Some(col) => col != cell.column,
            None => true,
        };
        let complex_breaks_run = current_contains_complex_cell || cell_is_complex;
        let decorative_breaks_run = current_contains_decorative_cell || cell_is_powerline;
        let ghost pre_runs = runs.deep_view();
        assert(cv.take(i + 1).drop_last() == cv.take(i as int));
        assert(cv.take(i + 1).last() == cv[i as int]);
        assert(i > 0 ==> cv.take(i + 1)[i - 1] == cv[i - 1]);
        if style_changed || gap_breaks_run || complex_breaks_run || decorative_breaks_run {
            assert(begins_run(cv.take(i + 1), i as int));
            match (current_fg, current_bg) {
                (Some(fg), Some(bg)) => {
                    if !current_text.as_str().is_empty() {
                        runs.push(
                            PositionedTerminalRun {
                                text: current_text,
                                fg,
                                bg,
                                start_column: current_start_column,
                                cell_count: current_cell_count,
                                force_cell_width: !current_contains_complex_cell
                                    && !current_contains_decorative_cell,
                            },
                        );
                        assert(runs.deep_view() =~= pre_runs.push(runs@[runs.len() - 1].deep_view()));
                        current_text = String::new();
                    }
                },
                _ => {},
            }
            current_fg = Some(cell.fg);
            current_bg = Some(cell.bg);
            current_start_column = cell.column;
            current_contains_complex_cell = cell_is_complex;
            current_contains_decorative_cell = cell_is_powerline;
            current_cell_count = 0;
        } else {
            assert(!begins_run(cv.take(i + 1), i as int));
        }
        push_str(&mut current_text, cell.text.as_str());
        current_cell_count = if current_cell_count < usize::MAX { current_cell_count + 1 } else { usize::MAX };
        current_contains_complex_cell = current_contains_complex_cell || cell_is_complex;
        current_contains_decorative_cell = current_contains_decorative_cell || cell_is_powerline;
        next_expected_column = Some(if cell.column < usize::MAX { cell.column + 1 } else { usize::MAX });
    }

    match (current_fg, current_bg) {
        (Some(fg), Some(bg)) => {
            if !current_text.as_str().is_empty() {
                let ghost pre_runs = runs.deep_view();
                runs.push(
                    PositionedTerminalRun {
                        text: current_text,
                        fg,
                        bg,
                        start_column: current_start_column,
                        cell_count: current_cell_count,
                        force_cell_width: !current_contains_complex_cell
                            && !current_contains_decorative_cell,
                    },
                );
                assert(runs.deep_view() =~= pre_runs.push(runs@[runs.len() - 1].deep_view()));
            }
        },
        _ => {},
    }
    assert(cv.take(cells.len() as int) == cv);
    runs
}

/// A run is painted as a powerline glyph when its text is exactly one
/// powerline character.
pub fn should_force_powerline(run: &PositionedTerminalRun) -> (r: bool)
    ensures
        r == (run.text@.len() == 1 && spec_is_powerline(run.text@[0])),
{
    run.text.as_str().unicode_len() == 1 && is_terminal_powerline_character(
        run.text.as_str().get_char(0),
    )
}

/// The cells a line is painted from: its cells, or, when it has none, the
/// cells made from its runs.
pub open spec fn paint_cells(l: LineView) -> Seq<CellView> {
    if l.cells.len() == 0 {
        spec_cells_from_runs(l.runs)
    } else {
        l.cells
    }
}

/// A run as it is painted: placed as grouped, with its glyphs forced to the
/// cell width when the grouping keeps the cell width or when the run is a
/// single powerline glyph.
pub open spec fn paint_run(r: PositionedRunView) -> PositionedRunView {
    PositionedRunView {
        force_cell_width: r.force_cell_width || (r.text.len() == 1 && spec_is_powerline(r.text[0])),
        ..r
    }
}

/// The painted form of a run with text; a run without text is not painted.
pub open spec fn paint_if_text(r: PositionedRunView) -> Option<PositionedRunView> {
    if r.text.len() > 0 {
        Some(paint_run(r))
    } else {
        None
    }
}

/// The runs painted for a line, in order.
pub open spec fn spec_line_paint_runs(l: LineView) -> Seq<PositionedRunView> {
    spec_positioned_runs_from_cells(paint_cells(l)).filter_map(|r: PositionedRunView| paint_if_text(r))
}

/// The runs to paint for a line, each placed on the grid with its final
/// cell-width decision; see [`spec_line_paint_runs`].
pub fn terminal_line_paint_runs(line: &TerminalStyledLine) -> (runs: Vec<PositionedTerminalRun>)
    ensures
        runs.deep_view() == spec_line_paint_runs(line.deep_view()),
{
    let positioned = if line.cells.len() == 0 {
        let cells = cells_from_runs(line.runs.as_slice());
        positioned_runs_from_cells(cells.as_slice())
    } else {
        positioned_runs_from_cells(line.cells.as_slice())
    };
    let ghost pv = positioned.deep_view();
    assert(pv == spec_positioned_runs_from_cells(paint_cells(line.deep_view())));
    let mut runs: Vec<PositionedTerminalRun> = Vec::new();
    for i in 0..positioned.len()
        invariant
            pv == positioned.deep_view(),
            runs.deep_view() == pv.take(i as int).filter_map(|r: PositionedRunView| paint_if_text(r)),
    {
        let run = &positioned[i];
        let ghost before = runs.deep_view();
        assert(pv.take(i + 1).drop_last() =~= pv.take(i as int));
        assert(pv.take(i + 1).last() == pv[i as int]);
        if !run.text.as_str().is_empty() {
            let force_cell_width = run.force_cell_width || should_force_powerline(run);
            runs.push(
                PositionedTerminalRun {
                    text: run.text.clone(),
                    fg: run.fg,
                    bg: run.bg,
                    start_column: run.start_column,
                    cell_count: run.cell_count,
                    force_cell_width,
                },
            );
            assert(runs.deep_view() =~= before + seq![paint_run(pv[i as int])]);
        }
    }
    assert(pv.take(positioned.len() as int) =~= pv);
    runs
}

/// Both groupings give the same number of runs, and a sequence that ends in a
/// simple cell has at least one run.
proof fn lemma_runs_nonempty_after_simple_cell(cells: Seq<CellView>)
    ensures
        spec_runs_from_cells(cells).len() == spec_positioned_runs_from_cells(cells).len(),
        cells.len() > 0 && !cell_is_complex(cells.last()) ==> spec_runs_from_cells(cells).len() > 0,
    decreases cells.len(),
{
    if cells.len() > 0 {
        lemma_runs_nonempty_after_simple_cell(cells.drop_last());
        if !begins_run(cells, cells.len() - 1) {
            assert(cells.drop_last().last() == cells[cells.len() - 2]);
        }
    }
}

/// The run view of a positioned run, without its placement.
pub open spec fn unplaced(r: PositionedRunView) -> RunView {
    RunView { text: r.text, fg: r.fg, bg: r.bg }
}

/// Placing runs on the grid does not change their text or colors:
/// the runs of a cell sequence are its positioned runs without placement.
pub proof fn lemma_positioned_runs_agree_with_runs(cells: Seq<CellView>)
    ensures
        spec_runs_from_cells(cells) == spec_positioned_runs_from_cells(cells).map_values(
            |r: PositionedRunView| unplaced(r),
        ),
    decreases cells.len(),
{
    if cells.len() > 0 {
        lemma_positioned_runs_agree_with_runs(cells.drop_last());
        let p = spec_positioned_runs_from_cells(cells.drop_last());
        let q = spec_positioned_runs_from_cells(cells);
        if !begins_run(cells, cells.len() - 1) {
            lemma_runs_nonempty_after_simple_cell(cells.drop_last());
        }
        assert(spec_runs_from_cells(cells) =~= q.map_values(|r: PositionedRunView| unplaced(r)));
    }
}


/// The texts of cells, one after another.
pub open spec fn cells_text(cells: Seq<CellView>) -> Seq<char>
    decreases cells.len(),
{
    if cells.len() == 0 {
        seq![]
    } else {
        cells_text(cells.drop_last()) + cells.last().text
    }
}

/// The texts of runs, one after another.
pub open spec fn runs_text(runs: Seq<RunView>) -> Seq<char>
    decreases runs.len(),
{
    if runs.len() == 0 {
        seq![]
    } else {
        runs_text(runs.drop_last()) + runs.last().text
    }
}

/// Grouping cells into runs keeps all their text, in order: the runs' texts
/// put together are the cells' texts put together.
pub proof fn lemma_runs_keep_text(cells: Seq<CellView>)
    ensures
        runs_text(spec_runs_from_cells(cells)) == cells_text(cells),
    decreases cells.len(),
{
    if cells.len() > 0 {
        let prefix = cells.drop_last();
        lemma_runs_keep_text(prefix);
        lemma_runs_nonempty_after_simple_cell(prefix);
        let runs = spec_runs_from_cells(prefix);
        let c = cells.last();
        if begins_run(cells, cells.len() - 1) {
            if c.text.len() == 0 {
                assert(cells_text(cells) =~= cells_text(prefix));
            } else {
                assert(runs.push(RunView { text: c.text, fg: c.fg, bg: c.bg }).drop_last() =~= runs);
                assert(runs_text(spec_runs_from_cells(cells)) =~= cells_text(cells));
            }
        } else {
            assert(prefix.last() == cells[cells.len() - 2]);
            let last = runs.last();
            let updated = runs.update(runs.len() - 1, RunView { text: last.text + c.text, fg: last.fg, bg: last.bg });
            assert(updated.drop_last() =~= runs.drop_last());
            assert(runs_text(runs) == runs_text(runs.drop_last()) + last.text);
            assert(runs_text(updated) =~= runs_text(runs) + c.text);
        }
    }
}


proof fn lemma_run_chars_text(runs: Seq<RunView>)
    ensures
        run_chars(runs).map_values(|t: (char, u32, u32)| t.0) == runs_text(runs),
    decreases runs.len(),
{
    if runs.len() > 0 {
        lemma_run_chars_text(runs.drop_last());
        let r = runs.last();
        assert(r.text.map_values(|c: char| (c, r.fg, r.bg)).map_values(|t: (char, u32, u32)| t.0)
            =~= r.text);
        assert(run_chars(runs).map_values(|t: (char, u32, u32)| t.0) =~= run_chars(
            runs.drop_last(),
        ).map_values(|t: (char, u32, u32)| t.0) + r.text.map_values(|c: char| (c, r.fg, r.bg)).map_values(
            |t: (char, u32, u32)| t.0,
        ));
    }
}

proof fn lemma_single_char_cells_text(cells: Seq<CellView>)
    requires
        forall|i: int| 0 <= i < cells.len() ==> (#[trigger] cells[i]).text.len() == 1,
    ensures
        cells_text(cells) == cells.map_values(|c: CellView| c.text[0]),
    decreases cells.len(),
{
    if cells.len() > 0 {
        lemma_single_char_cells_text(cells.drop_last());
        assert(cells.last().text =~= seq![cells.last().text[0]]);
        assert(cells.map_values(|c: CellView| c.text[0]) =~= cells.drop_last().map_values(
            |c: CellView| c.text[0],
        ).push(cells.last().text[0]));
    }
}

/// Splitting runs into cells keeps all their text, in order.
pub proof fn lemma_cells_keep_text(runs: Seq<RunView>)
    ensures
        cells_text(spec_cells_from_runs(runs)) == runs_text(runs),
{
    let cells = spec_cells_from_runs(runs);
    lemma_single_char_cells_text(cells);
    lemma_run_chars_text(runs);
    assert(cells.map_values(|c: CellView| c.text[0]) =~= run_chars(runs).map_values(
        |t: (char, u32, u32)| t.0,
    ));
}

} // verus!
