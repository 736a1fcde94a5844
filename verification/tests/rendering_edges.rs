use arbor::display::{
    lines_for_display, styled_line_to_string, terminal_display_lines,
    terminal_display_tail_lines, terminal_excerpt, terminal_line_bounds, terminal_selection_text,
    terminal_styled_line_excerpt, terminal_token_bounds,
};
use arbor::follow::{
    terminal_grid_position_for_cell, terminal_grid_size_from_cells, terminal_viewport_slice_range,
    terminal_visible_line_range,
};
use arbor::paint::{
    apply_ime_marked_text_to_lines, apply_selection_to_lines, normalized_terminal_selection,
    remap_terminal_colors, remap_terminal_line_palette, terminal_selection_for_render_range,
};
use arbor::render::{
    terminal_render_line_count, terminal_render_source_has_visible_content,
    terminal_styled_line_has_non_whitespace_text, terminal_styled_lines_have_non_whitespace_text,
    terminal_styled_lines_have_visible_content,
};
use arbor::styled::{
    cells_from_runs, runs_from_cells, terminal_line_paint_runs, TerminalStyledCell, TerminalStyledLine,
    TerminalStyledRun,
};
use arbor::terminal::{
    terminal_render_source_for_snapshot, TerminalCursor, TerminalGridPosition, TerminalSelection,
    TerminalSession, TerminalSnapshot, TerminalState, ThemePalette, EMBEDDED_TERMINAL_DEFAULT_BG,
    EMBEDDED_TERMINAL_DEFAULT_FG,
};

fn palette() -> ThemePalette {
    ThemePalette {
        terminal_bg: 0x101010,
        text_primary: 0xeeeeee,
        terminal_cursor: 0x00ff00,
        terminal_selection_fg: 0x000000,
        terminal_selection_bg: 0xffff00,
    }
}

fn cell(column: usize, text: &str, fg: u32, bg: u32) -> TerminalStyledCell {
    TerminalStyledCell { column, text: text.to_owned(), fg, bg }
}

fn plain_session(output: &str) -> TerminalSession {
    TerminalSession {
        id: 7,
        state: TerminalState::Completed,
        output: output.to_owned(),
        styled_output: Vec::new(),
        cursor: None,
    }
}

fn position(line: usize, column: usize) -> TerminalGridPosition {
    TerminalGridPosition { line, column }
}

fn run_texts(runs: &[TerminalStyledRun]) -> Vec<String> {
    runs.iter().map(|run| run.text.clone()).collect()
}

#[test]
fn empty_output_shows_placeholder_only_when_asked() {
    assert_eq!(lines_for_display("", true), vec!["<no output yet>".to_owned()]);
    assert_eq!(lines_for_display("", false), vec![String::new()]);
}

#[test]
fn display_lines_split_on_line_breaks_and_drop_carriage_returns() {
    assert_eq!(
        lines_for_display("one\r\ntwo\n\nthree", false),
        vec!["one".to_owned(), "two".to_owned(), String::new(), "three".to_owned()]
    );
    assert_eq!(lines_for_display("a\n", true), vec!["a".to_owned()]);
}

#[test]
fn plain_output_round_trips_through_display_lines() {
    let session = plain_session("alpha\nbeta");
    assert_eq!(terminal_display_lines(&session), vec!["alpha".to_owned(), "beta".to_owned()]);
}

#[test]
fn styled_line_text_orders_cells_by_column_and_fills_gaps() {
    let line = TerminalStyledLine {
        cells: vec![cell(3, "c", 1, 2), cell(0, "a", 1, 2)],
        runs: Vec::new(),
    };
    assert_eq!(styled_line_to_string(&line), "a  c");
}

#[test]
fn styled_line_text_falls_back_to_runs() {
    let line = TerminalStyledLine {
        cells: Vec::new(),
        runs: vec![
            TerminalStyledRun { text: "ab".to_owned(), fg: 1, bg: 2 },
            TerminalStyledRun { text: "c".to_owned(), fg: 3, bg: 4 },
        ],
    };
    assert_eq!(styled_line_to_string(&line), "abc");
    assert_eq!(terminal_styled_line_excerpt(&line, 2), "ab...");
}

#[test]
fn excerpt_escapes_each_character_and_marks_truncation() {
    assert_eq!(terminal_excerpt("a\tb\\", 10), "a\\tb\\\\");
    assert_eq!(terminal_excerpt("abcdef", 3), "abc...");
    assert_eq!(terminal_excerpt("abc", 3), "abc");
    assert_eq!(terminal_excerpt("", 0), "");
}

#[test]
fn plain_output_tail_keeps_last_lines() {
    let session = plain_session("l1\nl2\nl3");
    assert_eq!(terminal_display_tail_lines(&session, 2), vec!["l2".to_owned(), "l3".to_owned()]);
    assert_eq!(terminal_display_tail_lines(&session, 10).len(), 3);
    assert!(terminal_display_tail_lines(&session, 0).is_empty());
    assert_eq!(terminal_display_tail_lines(&plain_session(""), 4), vec![String::new()]);
}

#[test]
fn line_bounds_need_a_non_empty_line() {
    let lines = vec![String::new(), "xy".to_owned()];
    assert!(terminal_line_bounds(&lines, position(0, 0)).is_none());
    assert!(terminal_line_bounds(&lines, position(5, 0)).is_none());
    assert_eq!(terminal_line_bounds(&lines, position(1, 9)), Some((position(1, 0), position(1, 2))));
}

#[test]
fn token_bounds_clamp_column_and_reject_whitespace() {
    let lines = vec!["abc def".to_owned()];
    assert_eq!(terminal_token_bounds(&lines, position(0, 100)), Some((position(0, 4), position(0, 7))));
    assert!(terminal_token_bounds(&lines, position(0, 3)).is_none());
    assert!(terminal_token_bounds(&lines, position(1, 0)).is_none());
}

#[test]
fn reversed_selection_selects_the_same_text() {
    let lines = vec!["hello world".to_owned()];
    let forward = TerminalSelection { session_id: 1, anchor: position(0, 0), head: position(0, 5) };
    let backward = TerminalSelection { session_id: 1, anchor: position(0, 5), head: position(0, 0) };
    assert_eq!(terminal_selection_text(&lines, &forward), "hello");
    assert_eq!(terminal_selection_text(&lines, &backward), "hello");
}

#[test]
fn empty_selection_selects_nothing() {
    let lines = vec!["hello".to_owned()];
    let selection = TerminalSelection { session_id: 1, anchor: position(0, 2), head: position(0, 2) };
    assert!(normalized_terminal_selection(&selection).is_none());
    assert_eq!(terminal_selection_text(&lines, &selection), "");
}

#[test]
fn selection_past_the_last_line_counts_missing_lines_as_empty() {
    let lines = vec!["ab".to_owned()];
    let selection = TerminalSelection { session_id: 1, anchor: position(0, 1), head: position(2, 3) };
    assert_eq!(terminal_selection_text(&lines, &selection), "b\n\n");
}

#[test]
fn selection_is_clipped_to_the_render_range() {
    let selection = TerminalSelection { session_id: 3, anchor: position(1, 2), head: position(5, 3) };
    let clipped = terminal_selection_for_render_range(&selection, &(3..4)).expect("overlaps");
    assert_eq!(clipped.session_id, 3);
    assert_eq!(clipped.anchor, position(0, 0));
    assert_eq!(clipped.head, position(0, usize::MAX));
    assert!(terminal_selection_for_render_range(&selection, &(6..9)).is_none());
    let inside = terminal_selection_for_render_range(&selection, &(0..10)).expect("inside");
    assert_eq!(inside.anchor, position(1, 2));
    assert_eq!(inside.head, position(5, 3));
}

#[test]
fn only_default_colors_are_remapped() {
    let theme = palette();
    let mut fg = EMBEDDED_TERMINAL_DEFAULT_FG;
    let mut bg = EMBEDDED_TERMINAL_DEFAULT_BG;
    remap_terminal_colors(&mut fg, &mut bg, theme);
    assert_eq!((fg, bg), (theme.text_primary, theme.terminal_bg));

    let mut fg = 0x123456;
    let mut bg = 0x654321;
    remap_terminal_colors(&mut fg, &mut bg, theme);
    assert_eq!((fg, bg), (0x123456, 0x654321));
}

#[test]
fn remapping_a_line_with_only_runs_fills_in_its_cells() {
    let theme = palette();
    let mut lines = vec![TerminalStyledLine {
        cells: Vec::new(),
        runs: vec![TerminalStyledRun {
            text: "hi".to_owned(),
            fg: EMBEDDED_TERMINAL_DEFAULT_FG,
            bg: 0x222222,
        }],
    }];
    remap_terminal_line_palette(&mut lines, theme);
    let line = &lines[0];
    assert_eq!(line.cells.len(), 2);
    assert_eq!(line.cells[1].column, 1);
    assert_eq!(line.cells[1].text, "i");
    assert_eq!(line.cells[0].fg, theme.text_primary);
    assert_eq!(line.cells[0].bg, 0x222222);
    assert_eq!(line.runs[0].fg, theme.text_primary);
}

#[test]
fn selection_recolors_selected_cells_and_regroups_runs() {
    let theme = palette();
    let cells = vec![cell(0, "a", 1, 2), cell(1, "b", 1, 2), cell(2, "c", 1, 2), cell(3, "d", 1, 2)];
    let runs = runs_from_cells(&cells);
    let mut lines = vec![TerminalStyledLine { cells, runs }];
    let selection = TerminalSelection { session_id: 1, anchor: position(0, 1), head: position(0, 3) };
    apply_selection_to_lines(&mut lines, &selection, theme);
    let line = &lines[0];
    assert_eq!(line.cells[0].fg, 1);
    assert_eq!(line.cells[1].fg, theme.terminal_selection_fg);
    assert_eq!(line.cells[2].bg, theme.terminal_selection_bg);
    assert_eq!(line.cells[3].bg, 2);
    assert_eq!(run_texts(&line.runs), vec!["a".to_owned(), "bc".to_owned(), "d".to_owned()]);
}

#[test]
fn selection_below_the_content_adds_empty_lines() {
    let theme = palette();
    let mut lines: Vec<TerminalStyledLine> = Vec::new();
    let selection = TerminalSelection { session_id: 1, anchor: position(0, 0), head: position(2, 1) };
    apply_selection_to_lines(&mut lines, &selection, theme);
    assert_eq!(lines.len(), 3);
    assert!(lines.iter().all(|line| line.cells.is_empty() && line.runs.is_empty()));
}

#[test]
fn marked_text_replaces_the_cell_under_the_cursor() {
    let theme = palette();
    let cells = vec![cell(0, "a", 1, 2), cell(1, "b", 1, 2)];
    let runs = runs_from_cells(&cells);
    let mut lines = vec![TerminalStyledLine { cells, runs }];
    apply_ime_marked_text_to_lines(&mut lines, TerminalCursor { line: 0, column: 1 }, "あ", theme);
    let line = &lines[0];
    assert_eq!(line.cells.len(), 2);
    assert_eq!(line.cells[1].text, "あ");
    assert_eq!(line.cells[1].bg, theme.terminal_cursor);
    assert_eq!(line.cells[1].fg, theme.text_primary);
    assert_eq!(run_texts(&line.runs), vec!["a".to_owned(), "あ".to_owned()]);
}

#[test]
fn marked_text_below_the_content_is_ignored() {
    let theme = palette();
    let mut lines = vec![TerminalStyledLine { cells: Vec::new(), runs: Vec::new() }];
    apply_ime_marked_text_to_lines(&mut lines, TerminalCursor { line: 4, column: 0 }, "x", theme);
    assert_eq!(lines.len(), 1);
    assert!(lines[0].cells.is_empty());
}

#[test]
fn cells_and_runs_convert_both_ways() {
    let runs = vec![
        TerminalStyledRun { text: "ab".to_owned(), fg: 1, bg: 2 },
        TerminalStyledRun { text: "c".to_owned(), fg: 3, bg: 2 },
    ];
    let cells = cells_from_runs(&runs);
    let columns: Vec<usize> = cells.iter().map(|c| c.column).collect();
    assert_eq!(columns, vec![0, 1, 2]);
    let back = runs_from_cells(&cells);
    assert_eq!(run_texts(&back), vec!["ab".to_owned(), "c".to_owned()]);
    assert_eq!((back[1].fg, back[1].bg), (3, 2));
}

#[test]
fn a_gap_between_cells_starts_a_new_run() {
    let cells = vec![cell(0, "a", 1, 2), cell(2, "b", 1, 2)];
    assert_eq!(run_texts(&runs_from_cells(&cells)), vec!["a".to_owned(), "b".to_owned()]);
}

#[test]
fn whitespace_only_lines_have_no_text() {
    let blank = TerminalStyledLine { cells: vec![cell(0, " ", 1, 2), cell(1, "\t", 1, 2)], runs: Vec::new() };
    let text = TerminalStyledLine { cells: vec![cell(0, " ", 1, 2), cell(1, "x", 1, 2)], runs: Vec::new() };
    let empty = TerminalStyledLine { cells: Vec::new(), runs: Vec::new() };
    assert!(!terminal_styled_line_has_non_whitespace_text(&blank));
    assert!(terminal_styled_line_has_non_whitespace_text(&text));
    assert!(terminal_styled_lines_have_visible_content(&[empty, blank]));
    assert!(!terminal_styled_lines_have_visible_content(&[TerminalStyledLine {
        cells: Vec::new(),
        runs: Vec::new(),
    }]));
}

#[test]
fn plain_output_render_line_count_covers_the_cursor() {
    let mut session = plain_session("a\nb");
    assert_eq!(terminal_render_line_count(&session, None), 2);
    session.cursor = Some(TerminalCursor { line: 6, column: 0 });
    assert_eq!(terminal_render_line_count(&session, None), 7);
}

#[test]
fn visible_range_without_viewport_renders_the_last_lines() {
    assert_eq!(terminal_visible_line_range(1000, None), 760..1000);
    assert_eq!(terminal_visible_line_range(0, None), 0..1);
}

#[test]
fn visible_range_adds_overscan_around_the_viewport() {
    assert_eq!(terminal_visible_line_range(1000, Some((100, 30))), 88..142);
    assert_eq!(terminal_visible_line_range(50, Some((5, 10))), 0..27);
    assert_eq!(terminal_visible_line_range(10, Some((500, 10))), 9..10);
}

#[test]
fn viewport_slice_range_is_relative_to_the_slice() {
    assert_eq!(terminal_viewport_slice_range(88, 54, 100, 30), 12..42);
    assert_eq!(terminal_viewport_slice_range(10, 0, 0, 0), 0..1);
    assert_eq!(terminal_viewport_slice_range(0, 5, 40, 3), 4..5);
}

#[test]
fn grid_size_needs_positive_cells_and_two_columns() {
    assert_eq!(terminal_grid_size_from_cells(80, 24), Some((24, 80)));
    assert_eq!(terminal_grid_size_from_cells(1, 1), Some((1, 2)));
    assert_eq!(terminal_grid_size_from_cells(0, 24), None);
    assert_eq!(terminal_grid_size_from_cells(80, -3), None);
    assert_eq!(terminal_grid_size_from_cells(100_000, 70_000), Some((u16::MAX, u16::MAX)));
}

#[test]
fn pointer_row_is_clamped_to_the_last_line() {
    assert_eq!(terminal_grid_position_for_cell(3, 4, 0), None);
    assert_eq!(terminal_grid_position_for_cell(3, 4, 10), Some(position(3, 4)));
    assert_eq!(terminal_grid_position_for_cell(30, 4, 10), Some(position(9, 4)));
}

#[test]
fn painted_runs_force_cell_width_for_plain_text_and_powerline_glyphs() {
    let line = TerminalStyledLine {
        cells: vec![
            cell(0, "a", 1, 2),
            cell(1, "b", 1, 2),
            cell(2, "\u{e0b0}", 1, 2),
            cell(3, "\u{2600}\u{fe0f}", 1, 2),
        ],
        runs: Vec::new(),
    };
    let runs = terminal_line_paint_runs(&line);
    let summary: Vec<(String, usize, usize, bool)> = runs
        .iter()
        .map(|run| (run.text.clone(), run.start_column, run.cell_count, run.force_cell_width))
        .collect();
    assert_eq!(
        summary,
        vec![
            ("ab".to_owned(), 0, 2, true),
            ("\u{e0b0}".to_owned(), 2, 1, true),
            ("\u{2600}\u{fe0f}".to_owned(), 3, 1, false),
        ]
    );
}

#[test]
fn painted_runs_of_a_line_without_cells_come_from_its_runs() {
    let line = TerminalStyledLine {
        cells: Vec::new(),
        runs: vec![TerminalStyledRun { text: "hey".to_owned(), fg: 5, bg: 6 }],
    };
    let runs = terminal_line_paint_runs(&line);
    assert_eq!(runs.len(), 1);
    assert_eq!((runs[0].text.as_str(), runs[0].start_column, runs[0].cell_count), ("hey", 0, 3));
    assert!(terminal_line_paint_runs(&TerminalStyledLine { cells: Vec::new(), runs: Vec::new() }).is_empty());
}

#[test]
fn painting_selection_and_palette_keeps_the_text() {
    let theme = palette();
    let mut lines = vec![
        TerminalStyledLine {
            cells: vec![cell(2, "x", EMBEDDED_TERMINAL_DEFAULT_FG, 2), cell(0, "ab", 1, EMBEDDED_TERMINAL_DEFAULT_BG)],
            runs: Vec::new(),
        },
        TerminalStyledLine {
            cells: Vec::new(),
            runs: vec![TerminalStyledRun { text: "run".to_owned(), fg: 1, bg: 2 }],
        },
    ];
    let before: Vec<String> = lines.iter().map(styled_line_to_string).collect();
    remap_terminal_line_palette(&mut lines, theme);
    let selection = TerminalSelection { session_id: 1, anchor: position(0, 1), head: position(3, 2) };
    apply_selection_to_lines(&mut lines, &selection, theme);
    let after: Vec<String> = lines.iter().map(styled_line_to_string).collect();
    assert_eq!(&after[..2], &before[..]);
    assert_eq!(&after[2..], &[String::new(), String::new()]);
}

#[test]
fn lines_have_text_only_when_some_character_is_not_white_space() {
    let blank = TerminalStyledLine { cells: vec![cell(0, " ", 1, 2)], runs: Vec::new() };
    let text = TerminalStyledLine {
        cells: Vec::new(),
        runs: vec![TerminalStyledRun { text: " ok".to_owned(), fg: 1, bg: 2 }],
    };
    assert!(!terminal_styled_lines_have_non_whitespace_text(&[TerminalStyledLine {
        cells: vec![cell(0, " ", 1, 2)],
        runs: Vec::new(),
    }]));
    assert!(terminal_styled_lines_have_non_whitespace_text(&[blank, text]));
}

#[test]
fn snapshot_source_reports_visible_content() {
    let empty = TerminalSnapshot { output: String::new(), styled_lines: Vec::new(), cursor: None };
    let source = terminal_render_source_for_snapshot(9, TerminalState::Failed, &empty);
    assert_eq!(source.session_id, 9);
    assert_eq!(source.state, TerminalState::Failed);
    assert!(!terminal_render_source_has_visible_content(&source));

    let plain = TerminalSnapshot {
        output: "x".to_owned(),
        styled_lines: Vec::new(),
        cursor: Some(TerminalCursor { line: 0, column: 1 }),
    };
    let source = terminal_render_source_for_snapshot(9, TerminalState::Running, &plain);
    assert_eq!(source.output, "x");
    assert_eq!(source.cursor, Some(TerminalCursor { line: 0, column: 1 }));
    assert!(terminal_render_source_has_visible_content(&source));

    let blank_screen = TerminalSnapshot {
        output: "x".to_owned(),
        styled_lines: vec![TerminalStyledLine { cells: Vec::new(), runs: Vec::new() }],
        cursor: None,
    };
    let source = terminal_render_source_for_snapshot(9, TerminalState::Running, &blank_screen);
    assert!(!terminal_render_source_has_visible_content(&source));
}

#[test]
fn viewport_slice_range_targets_viewport_rows_after_overscan() {
    assert_eq!(terminal_viewport_slice_range(1752, 59, 1764, 47), 12..59);
}

#[test]
fn empty_selection_on_the_last_possible_line_changes_nothing() {
    let theme = palette();
    let mut lines = vec![TerminalStyledLine { cells: vec![cell(0, "a", 1, 2)], runs: Vec::new() }];
    let selection = TerminalSelection {
        session_id: 1,
        anchor: position(usize::MAX, 3),
        head: position(usize::MAX, 3),
    };
    apply_selection_to_lines(&mut lines, &selection, theme);
    assert_eq!(lines.len(), 1);
    assert_eq!((lines[0].cells[0].fg, lines[0].cells[0].bg), (1, 2));
}

#[test]
fn empty_render_range_clips_away_selections_outside_it() {
    let before = TerminalSelection { session_id: 1, anchor: position(0, 0), head: position(1, 2) };
    assert!(terminal_selection_for_render_range(&before, &(4..4)).is_none());
    let after = TerminalSelection { session_id: 1, anchor: position(6, 0), head: position(7, 2) };
    assert!(terminal_selection_for_render_range(&after, &(4..4)).is_none());
    let empty = TerminalSelection { session_id: 1, anchor: position(4, 1), head: position(4, 1) };
    assert!(terminal_selection_for_render_range(&empty, &(4..4)).is_none());
}

#[test]
fn runs_survive_a_trip_through_cells() {
    let runs = vec![
        TerminalStyledRun { text: "ab".to_owned(), fg: 1, bg: 2 },
        TerminalStyledRun { text: "c d".to_owned(), fg: 3, bg: 2 },
        TerminalStyledRun { text: "e".to_owned(), fg: 1, bg: 2 },
    ];
    let back = runs_from_cells(&cells_from_runs(&runs));
    assert_eq!(back.len(), runs.len());
    for (a, b) in back.iter().zip(runs.iter()) {
        assert_eq!((a.text.as_str(), a.fg, a.bg), (b.text.as_str(), b.fg, b.bg));
    }
}
