//! Which terminal lines to render, and how: line counts, visible content and
//! the styled lines of a render range.

use vstd::prelude::*;

use crate::display::{
    last_nonblank, line_is_blank, lines_for_display, plain_lines_to_styled,
    spec_lines_for_display, spec_plain_line_to_styled,
};
use crate::paint::{
    apply_cursor_to_lines, apply_ime_marked_text_to_lines, apply_selection_to_lines,
    normalized_terminal_selection, remap_terminal_line_palette, spec_apply_cursor, spec_apply_ime,
    spec_apply_selection, spec_normalized_selection, spec_remap_line, spec_selection_for_range,
    terminal_selection_for_render_range,
};
use crate::styled::{sat_succ, CellView, LineView, RunView, TerminalStyledLine};
use crate::terminal::{
    terminal_render_source_for_session, TerminalCursor, TerminalRenderSource, TerminalSelection,
    TerminalSession, TerminalState, ThemePalette,
};
use crate::text::{chars_of, is_whitespace, spec_is_whitespace};

verus! {

/// Some character of `text` is not white space.
pub open spec fn has_non_whitespace(text: Seq<char>) -> bool {
    exists|j: int| 0 <= j < text.len() && !spec_is_whitespace(#[trigger] text[j])
}

/// A styled line shows text other than white space: judged by its cells when
/// it has any, otherwise by its runs.
pub open spec fn line_has_non_whitespace(l: LineView) -> bool {
    if l.cells.len() > 0 {
        exists|i: int| 0 <= i < l.cells.len() && has_non_whitespace(#[trigger] l.cells[i].text)
    } else {
        exists|i: int| 0 <= i < l.runs.len() && has_non_whitespace(#[trigger] l.runs[i].text)
    }
}

/// Whether a string holds a character other than white space.
fn str_has_non_whitespace(s: &str) -> (r: bool)
    ensures
        r == has_non_whitespace(s@),
{
    let chars = chars_of(s);
    for j in 0..chars.len()
        invariant
            chars@ == s@,
            forall|k: int| 0 <= k < j ==> spec_is_whitespace(chars@[k]),
    {
        if !is_whitespace(chars[j]) {
            return true;
        }
    }
    false
}

/// Whether a styled line shows text other than white space.
pub fn terminal_styled_line_has_non_whitespace_text(line: &TerminalStyledLine) -> (r: bool)
    ensures
        r == line_has_non_whitespace(line.deep_view()),
{
    let ghost lv = line.deep_view();
    if line.cells.len() > 0 {
        for i in 0..line.cells.len()
            invariant
                lv == line.deep_view(),
                forall|k: int| 0 <= k < i ==> !has_non_whitespace(#[trigger] lv.cells[k].text),
        {
            if str_has_non_whitespace(line.cells[i].text.as_str()) {
                assert(has_non_whitespace(lv.cells[i as int].text));
                return true;
            }
        }
        return false;
    }
    for i in 0..line.runs.len()
        invariant
            lv == line.deep_view(),
            lv.cells.len() == 0,
            forall|k: int| 0 <= k < i ==> !has_non_whitespace(#[trigger] lv.runs[k].text),
    {
        if str_has_non_whitespace(line.runs[i].text.as_str()) {
            assert(has_non_whitespace(lv.runs[i as int].text));
            return true;
        }
    }
    false
}

/// Whether some line has cells or runs.
pub fn terminal_styled_lines_have_visible_content(lines: &[TerminalStyledLine]) -> (r: bool)
    ensures
        r == exists|i: int| 0 <= i < lines.len() && !line_is_blank(#[trigger] lines.deep_view()[i]),
{
    let ghost lv = lines.deep_view();
    for i in 0..lines.len()
        invariant
            lv == lines.deep_view(),
            forall|k: int| 0 <= k < i ==> line_is_blank(#[trigger] lv[k]),
    {
        if !(lines[i].cells.len() == 0 && lines[i].runs.len() == 0) {
            assert(!line_is_blank(lv[i as int]));
            return true;
        }
    }
    false
}

/// Whether some line shows text other than white space.
pub fn terminal_styled_lines_have_non_whitespace_text(lines: &[TerminalStyledLine]) -> (r: bool)
    ensures
        r == exists|i: int|
            0 <= i < lines.len() && line_has_non_whitespace(#[trigger] lines.deep_view()[i]),
{
    let ghost lv = lines.deep_view();
    for i in 0..lines.len()
        invariant
            lv == lines.deep_view(),
            forall|k: int| 0 <= k < i ==> !line_has_non_whitespace(#[trigger] lv[k]),
    {
        if terminal_styled_line_has_non_whitespace_text(&lines[i]) {
            assert(line_has_non_whitespace(lv[i as int]));
            return true;
        }
    }
    false
}

/// Index of the last line showing text other than white space.
pub open spec fn last_text_line(lines: Seq<LineView>) -> Option<int>
    decreases lines.len(),
{
    if lines.len() == 0 {
        None
    } else if line_has_non_whitespace(lines.last()) {
        Some(lines.len() - 1)
    } else {
        last_text_line(lines.drop_last())
    }
}

proof fn lemma_last_text_line_at(lines: Seq<LineView>, k: int)
    requires
        -1 <= k < lines.len(),
        forall|j: int| k < j < lines.len() ==> !line_has_non_whitespace(#[trigger] lines[j]),
        k >= 0 ==> line_has_non_whitespace(lines[k]),
    ensures
        last_text_line(lines) == (if k >= 0 { Some(k) } else { None::<int> }),
    decreases lines.len(),
{
    if lines.len() > 0 && k < lines.len() - 1 {
        lemma_last_text_line_at(lines.drop_last(), k);
    }
}

/// Index of the last line showing text other than white space.
pub fn terminal_last_non_whitespace_line_index(lines: &[TerminalStyledLine]) -> (r: Option<usize>)
    ensures
        r matches Some(i) ==> last_text_line(lines.deep_view()) == Some(i as int) && i < lines.len(),
        r is None ==> last_text_line(lines.deep_view()) is None,
{
    let ghost lv = lines.deep_view();
    let mut k = lines.len();
    while k > 0
        invariant
            k <= lines.len(),
            lv == lines.deep_view(),
            forall|j: int| k <= j < lv.len() ==> !line_has_non_whitespace(#[trigger] lv[j]),
        decreases k,
    {
        if terminal_styled_line_has_non_whitespace_text(&lines[k - 1]) {
            proof {
                lemma_last_text_line_at(lv, k - 1);
            }
            return Some(k - 1);
        }
        k = k - 1;
    }
    proof {
        lemma_last_text_line_at(lv, -1);
    }
    None
}

/// A render source has something to show: a non-blank styled line when it has
/// styled lines, otherwise any plain output.
pub open spec fn spec_source_has_visible_content(styled: Seq<LineView>, output: Seq<char>) -> bool {
    if styled.len() > 0 {
        exists|i: int| 0 <= i < styled.len() && !line_is_blank(#[trigger] styled[i])
    } else {
        output.len() > 0
    }
}

/// Whether a render source has something to show.
pub fn terminal_render_source_has_visible_content(source: &TerminalRenderSource<'_>) -> (r: bool)
    ensures
        r == spec_source_has_visible_content(source.styled(), source.output@),
{
    if source.styled_output.len() > 0 {
        return terminal_styled_lines_have_visible_content(source.styled_output);
    }
    !source.output.is_empty()
}

/// Index of the last plain line holding a character other than white space.
pub open spec fn last_text_plain_line(lines: Seq<Seq<char>>) -> Option<int>
    decreases lines.len(),
{
    if lines.len() == 0 {
        None
    } else if has_non_whitespace(lines.last()) {
        Some(lines.len() - 1)
    } else {
        last_text_plain_line(lines.drop_last())
    }
}

proof fn lemma_last_text_plain_line_at(lines: Seq<Seq<char>>, k: int)
    requires
        -1 <= k < lines.len(),
        forall|j: int| k < j < lines.len() ==> !has_non_whitespace(#[trigger] lines[j]),
        k >= 0 ==> has_non_whitespace(lines[k]),
    ensures
        last_text_plain_line(lines) == (if k >= 0 { Some(k) } else { None::<int> }),
    decreases lines.len(),
{
    if lines.len() > 0 && k < lines.len() - 1 {
        lemma_last_text_plain_line_at(lines.drop_last(), k);
    }
}

/// One more than an index, or 0 for none.
pub open spec fn count_through(i: Option<int>) -> int {
    match i {
        Some(i) => i + 1,
        None => 0,
    }
}

/// The larger of two counts.
pub open spec fn max_count(a: int, b: int) -> int {
    if a >= b {
        a
    } else {
        b
    }
}

/// How many lines a render source needs: through its last line showing text
/// (styled lines when there are any, else the display lines of its output),
/// at least one, and enough to reach the cursor's line and the end of a
/// non-empty selection.
pub open spec fn spec_render_line_count(
    styled: Seq<LineView>,
    output: Seq<char>,
    cursor: Option<TerminalCursor>,
    selection: Option<TerminalSelection>,
) -> int {
    let base = if styled.len() > 0 {
        count_through(last_text_line(styled))
    } else {
        count_through(last_text_plain_line(spec_lines_for_display(output, false)))
    };
    let cursor_count: int = match cursor {
        Some(c) => sat_succ(c.line) as int,
        None => 0,
    };
    let selection_count: int = match selection {
        Some(s) => match spec_normalized_selection(s) {
            Some((_, end)) => sat_succ(end.line) as int,
            None => 0,
        },
        None => 0,
    };
    max_count(max_count(max_count(base, 1), cursor_count), selection_count)
}

/// At least one line is rendered, and enough to reach the cursor's line.
pub proof fn lemma_render_line_count_covers_cursor(
    styled: Seq<LineView>,
    output: Seq<char>,
    cursor: Option<TerminalCursor>,
    selection: Option<TerminalSelection>,
)
    ensures
        spec_render_line_count(styled, output, cursor, selection) >= 1,
        forall|c: TerminalCursor|
            cursor == Some(c) && c.line < usize::MAX ==> spec_render_line_count(
                styled,
                output,
                cursor,
                selection,
            ) > c.line,
{
}

/// Enough lines are rendered to reach the last line of a non-empty selection,
/// and the count never drops below what the cursor and the content need
/// when a selection is added.
pub proof fn lemma_render_line_count_covers_selection(
    styled: Seq<LineView>,
    output: Seq<char>,
    cursor: Option<TerminalCursor>,
    selection: TerminalSelection,
)
    ensures
        spec_normalized_selection(selection) matches Some((_, e)) ==> (e.line < usize::MAX
            ==> spec_render_line_count(styled, output, cursor, Some(selection)) > e.line),
        spec_render_line_count(styled, output, cursor, Some(selection)) >= spec_render_line_count(
            styled,
            output,
            cursor,
            None,
        ),
{
}

/// The number of lines to render for a source; see [`spec_render_line_count`].
pub fn terminal_render_line_count_for_source(
    source: &TerminalRenderSource<'_>,
    selection: Option<&TerminalSelection>,
) -> (n: usize)
    ensures
        n == spec_render_line_count(
            source.styled(),
            source.output@,
            source.cursor,
            match selection {
                Some(s) => Some(*s),
                None => None,
            },
        ),
{
    let base_count: usize = if source.styled_output.len() > 0 {
        match terminal_last_non_whitespace_line_index(source.styled_output) {
            Some(index) => index + 1,
            None => 0,
        }
    } else {
        let lines = lines_for_display(source.output, false);
        let ghost lv = lines.deep_view();
        let mut k = lines.len();
        let mut found: Option<usize> = None;
        while k > 0
            invariant_except_break
                found is None,
            invariant
                k <= lines.len(),
                lv == lines.deep_view(),
                forall|j: int| k <= j < lv.len() ==> !has_non_whitespace(#[trigger] lv[j]),
            ensures
                found matches Some(i) ==> last_text_plain_line(lv) == Some(i as int) && i < lines.len(),
                found is None ==> k == 0,
                forall|j: int| k <= j < lv.len() ==> !has_non_whitespace(#[trigger] lv[j]),
            decreases k,
        {
            if str_has_non_whitespace(lines[k - 1].as_str()) {
                proof {
                    lemma_last_text_plain_line_at(lv, k - 1);
                }
                found = Some(k - 1);
                break;
            }
            k = k - 1;
        }
        proof {
            if found is None {
                lemma_last_text_plain_line_at(lv, -1);
            }
        }
        match found {
            Some(index) => index + 1,
            None => 0,
        }
    };
    let cursor_count: usize = match source.cursor {
        Some(cursor) => if cursor.line < usize::MAX { cursor.line + 1 } else { usize::MAX },
        None => 0,
    };
    let selection_count: usize = match selection {
        Some(s) => match normalized_terminal_selection(s) {
            Some((_, end)) => if end.line < usize::MAX { end.line + 1 } else { usize::MAX },
            None => 0,
        },
        None => 0,
    };
    let mut n = if base_count > 1 { base_count } else { 1 };
    if cursor_count > n {
        n = cursor_count;
    }
    if selection_count > n {
        n = selection_count;
    }
    n
}

/// The number of lines to render for a session.
pub fn terminal_render_line_count(session: &TerminalSession, selection: Option<&TerminalSelection>) -> (n: usize)
    ensures
        n == spec_render_line_count(
            session.styled_output.deep_view(),
            session.output@,
            session.cursor,
            match selection {
                Some(s) => Some(*s),
                None => None,
            },
        ),
{
    terminal_render_line_count_for_source(&terminal_render_source_for_session(session), selection)
}


/// `count` elements of `s` from `start`, as far as `s` reaches (none for a
/// negative count).
pub open spec fn window<T>(s: Seq<T>, start: int, count: int) -> Seq<T> {
    let from = if start < s.len() { start } else { s.len() as int };
    let to = if start + count < s.len() { start + count } else { s.len() as int };
    s.subrange(from, if to < from { from } else { to })
}

/// The lines of `start..end` before the cursor and the selection are painted:
/// the styled lines of that range when there are styled lines, otherwise the
/// display lines of the output styled in the theme's colors; then the
/// palette is remapped.
pub open spec fn spec_base_render_lines(
    styled: Seq<LineView>,
    output: Seq<char>,
    theme: ThemePalette,
    start: int,
    end: int,
) -> Seq<LineView> {
    let base = if styled.len() > 0 {
        window(styled, start, end - start)
    } else {
        window(spec_lines_for_display(output, false), start, end - start).map_values(
            |l: Seq<char>| spec_plain_line_to_styled(l, theme),
        )
    };
    base.map_values(|l: LineView| spec_remap_line(l, theme))
}

/// The styled lines to render for lines `start..end` of a source: nothing for
/// an empty range; otherwise the base lines, then the cursor (or the IME
/// marked text) when it is shown, the session is running and the cursor's line
/// is in range, then the selection of this session clipped to the range.
pub open spec fn spec_render_lines(
    source_session: u64,
    state: TerminalState,
    styled: Seq<LineView>,
    output: Seq<char>,
    cursor: Option<TerminalCursor>,
    theme: ThemePalette,
    show_cursor: bool,
    selection: Option<TerminalSelection>,
    ime_marked_text: Option<Seq<char>>,
    start: usize,
    end: usize,
) -> Seq<LineView> {
    if start >= end {
        seq![]
    } else {
        let base = spec_base_render_lines(styled, output, theme, start as int, end as int);
        let with_cursor = match cursor {
            Some(c) => if show_cursor && state == TerminalState::Running && start <= c.line < end {
                let local = TerminalCursor { line: (c.line - start) as usize, column: c.column };
                match ime_marked_text {
                    Some(marked) => spec_apply_ime(base, local, marked, theme),
                    None => spec_apply_cursor(base, local, theme),
                }
            } else {
                base
            },
            None => base,
        };
        match selection {
            Some(sel) => if sel.session_id == source_session {
                match spec_selection_for_range(sel, start, end) {
                    Some(clipped) => spec_apply_selection(with_cursor, clipped, theme),
                    None => with_cursor,
                }
            } else {
                with_cursor
            },
            None => with_cursor,
        }
    }
}

/// Copies of `lines[start..end]`.
fn copy_lines(lines: &[TerminalStyledLine], start: usize, end: usize) -> (r: Vec<TerminalStyledLine>)
    requires
        start <= end <= lines.len(),
    ensures
        r.deep_view() == lines.deep_view().subrange(start as int, end as int),
{
    let ghost lv = lines.deep_view();
    let mut r: Vec<TerminalStyledLine> = Vec::new();
    for i in start..end
        invariant
            end <= lines.len(),
            lv == lines.deep_view(),
            r.deep_view() == lv.subrange(start as int, i as int),
    {
        let ghost before = r.deep_view();
        r.push(lines[i].clone());
        assert(r.deep_view() =~= before.push(lv[i as int]));
        assert(r.deep_view() =~= lv.subrange(start as int, i + 1));
    }
    r
}

/// The styled lines to render for a range of a source; see [`spec_render_lines`].
pub fn styled_lines_for_render_source_range(
    source: &TerminalRenderSource<'_>,
    theme: ThemePalette,
    show_cursor: bool,
    selection: Option<&TerminalSelection>,
    ime_marked_text: Option<&str>,
    range: std::ops::Range<usize>,
) -> (lines: Vec<TerminalStyledLine>)
    ensures
        lines.deep_view() == spec_render_lines(
            source.session_id,
            source.state,
            source.styled(),
            source.output@,
            source.cursor,
            theme,
            show_cursor,
            match selection {
                Some(s) => Some(*s),
                None => None,
            },
            match ime_marked_text {
                Some(m) => Some(m@),
                None => None,
            },
            range.start,
            range.end,
        ),
{
    if range.start >= range.end {
        let v: Vec<TerminalStyledLine> = Vec::new();
        assert(v.deep_view() =~= Seq::<LineView>::empty());
        return v;
    }
    let mut lines = if source.styled_output.len() > 0 {
        let len = source.styled_output.len();
        let start = if range.start < len { range.start } else { len };
        let end = if range.end < len { range.end } else { len };
        copy_lines(source.styled_output, start, end)
    } else {
        let all = lines_for_display(source.output, false);
        let len = all.len();
        let start = if range.start < len { range.start } else { len };
        let end = if range.end - range.start < len - start { start + (range.end - range.start) } else { len };
        let mut picked: Vec<String> = Vec::new();
        let ghost av = all.deep_view();
        for i in start..end
            invariant
                end <= len,
                len == all.len(),
                av == all.deep_view(),
                picked.deep_view() == av.subrange(start as int, i as int),
        {
            let ghost before = picked.deep_view();
            picked.push(all[i].clone());
            assert(picked.deep_view() =~= before.push(av[i as int]));
            assert(picked.deep_view() =~= av.subrange(start as int, i + 1));
        }
        assert(picked.deep_view() =~= window(av, range.start as int, range.end - range.start));
        plain_lines_to_styled(picked, theme)
    };
    remap_terminal_line_palette(&mut lines, theme);
    assert(lines.deep_view() =~= spec_base_render_lines(
        source.styled(),
        source.output@,
        theme,
        range.start as int,
        range.end as int,
    ));
    if show_cursor && source.state == TerminalState::Running {
        match source.cursor {
            Some(cursor) => {
                if range.start <= cursor.line && cursor.line < range.end {
                    let local = TerminalCursor { line: cursor.line - range.start, column: cursor.column };
                    match ime_marked_text {
                        Some(marked) => apply_ime_marked_text_to_lines(&mut lines, local, marked, theme),
                        None => apply_cursor_to_lines(&mut lines, local, theme),
                    }
                }
            },
            None => {},
        }
    }
    match selection {
        Some(sel) => {
            if sel.session_id == source.session_id {
                match terminal_selection_for_render_range(sel, &range) {
                    Some(clipped) => apply_selection_to_lines(&mut lines, &clipped, theme),
                    None => {},
                }
            }
        },
        None => {},
    }
    lines
}

/// The styled lines to render for a range of a session's lines.
pub fn styled_lines_for_session_range(
    session: &TerminalSession,
    theme: ThemePalette,
    show_cursor: bool,
    selection: Option<&TerminalSelection>,
    ime_marked_text: Option<&str>,
    range: std::ops::Range<usize>,
) -> (lines: Vec<TerminalStyledLine>)
    ensures
        lines.deep_view() == spec_render_lines(
            session.id,
            session.state,
            session.styled_output.deep_view(),
            session.output@,
            session.cursor,
            theme,
            show_cursor,
            match selection {
                Some(s) => Some(*s),
                None => None,
            },
            match ime_marked_text {
                Some(m) => Some(m@),
                None => None,
            },
            range.start,
            range.end,
        ),
{
    let source = terminal_render_source_for_session(session);
    styled_lines_for_render_source_range(&source, theme, show_cursor, selection, ime_marked_text, range)
}

/// All styled lines to render for a session: the range from line 0 through
/// its render line count.
pub fn styled_lines_for_session(
    session: &TerminalSession,
    theme: ThemePalette,
    show_cursor: bool,
    selection: Option<&TerminalSelection>,
    ime_marked_text: Option<&str>,
) -> (lines: Vec<TerminalStyledLine>)
    ensures
        lines.deep_view() == spec_render_lines(
            session.id,
            session.state,
            session.styled_output.deep_view(),
            session.output@,
            session.cursor,
            theme,
            show_cursor,
            match selection {
                Some(s) => Some(*s),
                None => None,
            },
            match ime_marked_text {
                Some(m) => Some(m@),
                None => None,
            },
            0,
            spec_render_line_count(
                session.styled_output.deep_view(),
                session.output@,
                session.cursor,
                match selection {
                    Some(s) => Some(*s),
                    None => None,
                },
            ) as usize,
        ),
{
    let source = terminal_render_source_for_session(session);
    let line_count = terminal_render_line_count_for_source(&source, selection);
    styled_lines_for_render_source_range(&source, theme, show_cursor, selection, ime_marked_text, 0..line_count)
}

} // verus!
