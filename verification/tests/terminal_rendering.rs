use arbor::display::{
    terminal_display_tail_lines_for_source, terminal_excerpt, terminal_line_bounds,
    terminal_selection_text, terminal_token_bounds,
};
use arbor::follow::{
    should_auto_follow_terminal_output, terminal_follow_lock_is_active,
    terminal_interactive_follow_is_active, terminal_scheduled_follow_pass_decision,
    terminal_should_follow_output, TerminalScheduledFollowPassDecision,
};
use arbor::render::{
    styled_lines_for_session, styled_lines_for_session_range,
    terminal_last_non_whitespace_line_index, terminal_render_line_count_for_source,
};
use arbor::signature::terminal_visible_render_signature_for_source;
use arbor::styled::{
    positioned_runs_from_cells, should_force_powerline, PositionedTerminalRun, TerminalStyledCell,
    TerminalStyledLine, TerminalStyledRun,
};
use arbor::terminal::{
    TerminalCursor, TerminalGridPosition, TerminalRenderSource, TerminalSelection,
    TerminalSession, TerminalState, ThemePalette, EMBEDDED_TERMINAL_DEFAULT_BG,
    EMBEDDED_TERMINAL_DEFAULT_FG,
};

const TERMINAL_OUTPUT_FOLLOW_LOCK_DURATION_MS: u64 = 1_500;
const INTERACTIVE_TERMINAL_SYNC_WINDOW_MS: u64 = 5_000;

fn one_palette() -> ThemePalette {
    ThemePalette {
        terminal_bg: 0x282c34,
        text_primary: 0xabb2bf,
        terminal_cursor: 0x528bff,
        terminal_selection_fg: 0xffffff,
        terminal_selection_bg: 0x3e4451,
    }
}

fn gruvbox_palette() -> ThemePalette {
    ThemePalette {
        terminal_bg: 0x282828,
        text_primary: 0xebdbb2,
        terminal_cursor: 0xfe8019,
        terminal_selection_fg: 0xfbf1c7,
        terminal_selection_bg: 0x504945,
    }
}

fn styled_cells(text: &str, fg: u32, bg: u32) -> Vec<TerminalStyledCell> {
    text.chars()
        .enumerate()
        .map(|(column, character)| TerminalStyledCell {
            column,
            text: character.to_string(),
            fg,
            bg,
        })
        .collect()
}

fn session_with_styled_line(
    text: &str,
    fg: u32,
    bg: u32,
    cursor: Option<TerminalCursor>,
) -> TerminalSession {
    TerminalSession {
        id: 1,
        state: TerminalState::Running,
        output: text.to_owned(),
        styled_output: vec![TerminalStyledLine {
            cells: styled_cells(text, fg, bg),
            runs: vec![TerminalStyledRun {
                text: text.to_owned(),
                fg,
                bg,
            }],
        }],
        cursor,
    }
}

fn styled_line(text: &str) -> TerminalStyledLine {
    TerminalStyledLine {
        cells: styled_cells(text, 0x112233, 0x445566),
        runs: vec![TerminalStyledRun {
            text: text.to_owned(),
            fg: 0x112233,
            bg: 0x445566,
        }],
    }
}

#[test]
fn cursor_is_painted_at_terminal_column_instead_of_line_end() {
    let theme = one_palette();
    let session = session_with_styled_line(
        "abcdef",
        0x112233,
        0x445566,
        Some(TerminalCursor { line: 0, column: 2 }),
    );

    let lines = styled_lines_for_session(&session, theme, true, None, None);
    assert_eq!(lines.len(), 1);
    assert_eq!(lines[0].runs.len(), 3);
    assert_eq!(lines[0].runs[0].text, "ab");
    assert_eq!(lines[0].runs[1].text, "c");
    assert_eq!(lines[0].runs[1].fg, 0x112233);
    assert_eq!(lines[0].runs[1].bg, theme.terminal_cursor);
    assert_eq!(lines[0].runs[2].text, "def");
}

#[test]
fn terminal_render_line_count_trims_trailing_whitespace_only_rows() {
    let styled_output = vec![styled_line("header"), styled_line("   "), styled_line("")];
    let source = TerminalRenderSource {
        session_id: 1,
        state: TerminalState::Running,
        output: "",
        styled_output: &styled_output,
        cursor: None,
    };

    assert_eq!(terminal_render_line_count_for_source(&source, None), 1);
}

#[test]
fn terminal_render_line_count_keeps_blank_cursor_row_visible() {
    let styled_output = vec![styled_line("header"), styled_line("   ")];
    let source = TerminalRenderSource {
        session_id: 1,
        state: TerminalState::Running,
        output: "",
        styled_output: &styled_output,
        cursor: Some(TerminalCursor { line: 1, column: 0 }),
    };

    assert_eq!(terminal_render_line_count_for_source(&source, None), 2);
}

#[test]
fn terminal_last_non_whitespace_line_index_skips_blank_tail_rows() {
    let lines = vec![styled_line("header"), styled_line("   "), styled_line("menu")];

    assert_eq!(terminal_last_non_whitespace_line_index(&lines), Some(2));
}

#[test]
fn terminal_excerpt_escapes_control_bytes_and_truncates() {
    assert_eq!(terminal_excerpt("a\tb\nc", 4), "a\\tb\\n...");
}

#[test]
fn cursor_pads_to_column_when_it_is_after_line_content() {
    let theme = one_palette();
    let session = session_with_styled_line(
        "abc",
        0x112233,
        0x445566,
        Some(TerminalCursor { line: 0, column: 5 }),
    );

    let lines = styled_lines_for_session(&session, theme, true, None, None);
    assert_eq!(lines.len(), 1);
    assert_eq!(lines[0].runs.len(), 2);
    assert_eq!(lines[0].runs[0].text, "abc");
    assert_eq!(lines[0].runs[1].text, " ");
    assert_eq!(lines[0].runs[1].fg, theme.text_primary);
    assert_eq!(lines[0].runs[1].bg, theme.terminal_cursor);
    assert!(lines[0]
        .cells
        .iter()
        .any(|cell| { cell.column == 5 && cell.text == " " && cell.bg == theme.terminal_cursor }));
}

#[test]
fn positioned_runs_split_cells_with_zero_width_sequences() {
    let cells = vec![
        TerminalStyledCell {
            column: 0,
            text: "A".to_owned(),
            fg: 0x112233,
            bg: 0x445566,
        },
        TerminalStyledCell {
            column: 1,
            text: "\u{2600}\u{fe0f}".to_owned(),
            fg: 0x112233,
            bg: 0x445566,
        },
        TerminalStyledCell {
            column: 2,
            text: "B".to_owned(),
            fg: 0x112233,
            bg: 0x445566,
        },
    ];

    let runs = positioned_runs_from_cells(&cells);
    assert_eq!(runs.len(), 3);
    assert_eq!(runs[0].text, "A");
    assert_eq!(runs[0].start_column, 0);
    assert_eq!(runs[0].cell_count, 1);
    assert!(runs[0].force_cell_width);
    assert_eq!(runs[1].text, "\u{2600}\u{fe0f}");
    assert_eq!(runs[1].start_column, 1);
    assert_eq!(runs[1].cell_count, 1);
    assert!(!runs[1].force_cell_width);
    assert_eq!(runs[2].text, "B");
    assert_eq!(runs[2].start_column, 2);
    assert_eq!(runs[2].cell_count, 1);
    assert!(runs[2].force_cell_width);
}

#[test]
fn positioned_runs_do_not_force_cell_width_for_powerline_symbols() {
    let cells = vec![
        TerminalStyledCell {
            column: 0,
            text: "\u{e0b0}".to_owned(),
            fg: 0xaabbcc,
            bg: 0x112233,
        },
        TerminalStyledCell {
            column: 1,
            text: "X".to_owned(),
            fg: 0xaabbcc,
            bg: 0x112233,
        },
    ];

    let runs = positioned_runs_from_cells(&cells);
    assert_eq!(runs.len(), 2);
    assert_eq!(runs[0].text, "\u{e0b0}");
    assert!(!runs[0].force_cell_width);
    assert_eq!(runs[1].text, "X");
    assert!(runs[1].force_cell_width);
}

#[test]
fn positioned_runs_keep_cell_width_for_box_drawing_symbols() {
    let cells = vec![
        TerminalStyledCell {
            column: 0,
            text: "\u{2502}".to_owned(),
            fg: 0xaabbcc,
            bg: 0x112233,
        },
        TerminalStyledCell {
            column: 1,
            text: "X".to_owned(),
            fg: 0xaabbcc,
            bg: 0x112233,
        },
    ];

    let runs = positioned_runs_from_cells(&cells);
    assert_eq!(runs.len(), 1);
    assert_eq!(runs[0].text, "\u{2502}X");
    assert!(runs[0].force_cell_width);
}

#[test]
fn powerline_glyph_is_forced_to_cell_width() {
    let run = PositionedTerminalRun {
        text: "\u{e0b6}".to_owned(),
        fg: 0,
        bg: 0,
        start_column: 7,
        cell_count: 1,
        force_cell_width: false,
    };

    assert!(should_force_powerline(&run));
}

#[test]
fn token_bounds_capture_full_url() {
    let lines = vec!["visit https://example.com/path?q=1 please".to_owned()];
    let point = TerminalGridPosition {
        line: 0,
        column: 12,
    };

    let bounds = terminal_token_bounds(&lines, point);
    assert!(bounds.is_some());
    let (start, end) = bounds.expect("token bounds");
    let selection = TerminalSelection {
        session_id: 1,
        anchor: start,
        head: end,
    };
    let selected = terminal_selection_text(&lines, &selection);
    assert_eq!(selected, "https://example.com/path?q=1");
}

#[test]
fn selection_text_spans_multiple_lines() {
    let lines = vec!["abc".to_owned(), "def".to_owned(), "ghi".to_owned()];
    let selection = TerminalSelection {
        session_id: 1,
        anchor: TerminalGridPosition { line: 0, column: 1 },
        head: TerminalGridPosition { line: 2, column: 2 },
    };

    let selected = terminal_selection_text(&lines, &selection);
    assert_eq!(selected, "bc\ndef\ngh");
}

#[test]
fn line_bounds_capture_entire_line_on_triple_click() {
    let lines = vec!["hello world".to_owned()];
    let point = TerminalGridPosition { line: 0, column: 3 };

    let bounds = terminal_line_bounds(&lines, point);
    assert!(bounds.is_some());
    let (start, end) = bounds.expect("line bounds");
    assert_eq!(start.line, 0);
    assert_eq!(start.column, 0);
    assert_eq!(end.line, 0);
    assert_eq!(end.column, 11);
}

#[test]
fn styled_lines_remap_embedded_default_palette_to_active_theme() {
    let theme = gruvbox_palette();
    let session = session_with_styled_line(
        "abc",
        EMBEDDED_TERMINAL_DEFAULT_FG,
        EMBEDDED_TERMINAL_DEFAULT_BG,
        None,
    );

    let lines = styled_lines_for_session(&session, theme, false, None, None);
    assert_eq!(lines.len(), 1);
    assert!(lines[0].cells.iter().all(|cell| cell.bg == theme.terminal_bg));
    assert!(lines[0].cells.iter().all(|cell| cell.fg == theme.text_primary));
}

fn three_line_session(cursor: Option<TerminalCursor>) -> TerminalSession {
    let mut session = session_with_styled_line("alpha", 0x112233, 0x445566, cursor);
    session.output = "alpha\nbeta\ngamma".to_owned();
    session.styled_output = ["alpha", "beta", "gamma"]
        .into_iter()
        .map(|text| TerminalStyledLine {
            cells: styled_cells(text, 0x112233, 0x445566),
            runs: vec![TerminalStyledRun {
                text: text.to_owned(),
                fg: 0x112233,
                bg: 0x445566,
            }],
        })
        .collect();
    session
}

#[test]
fn styled_lines_for_session_range_offsets_cursor_into_visible_slice() {
    let theme = one_palette();
    let session = three_line_session(Some(TerminalCursor { line: 2, column: 1 }));

    let lines = styled_lines_for_session_range(&session, theme, true, None, None, 2..3);

    assert_eq!(lines.len(), 1);
    assert!(lines[0]
        .cells
        .iter()
        .any(|cell| cell.column == 1 && cell.bg == theme.terminal_cursor));
}

#[test]
fn styled_lines_for_session_range_clips_selection_to_visible_slice() {
    let theme = one_palette();
    let session = three_line_session(None);
    let selection = TerminalSelection {
        session_id: session.id,
        anchor: TerminalGridPosition { line: 0, column: 2 },
        head: TerminalGridPosition { line: 2, column: 2 },
    };

    let lines =
        styled_lines_for_session_range(&session, theme, false, Some(&selection), None, 1..3);

    assert_eq!(lines.len(), 2);
    assert!(lines[0]
        .cells
        .iter()
        .all(|cell| cell.bg == theme.terminal_selection_bg));
    assert!(lines[1]
        .cells
        .iter()
        .filter(|cell| cell.column < 2)
        .all(|cell| cell.bg == theme.terminal_selection_bg));
    assert!(lines[1]
        .cells
        .iter()
        .filter(|cell| cell.column >= 2)
        .all(|cell| cell.bg == 0x445566));
}

#[test]
fn auto_follow_requires_new_output_and_bottom_position() {
    assert!(should_auto_follow_terminal_output(true, true));
    assert!(!should_auto_follow_terminal_output(true, false));
    assert!(!should_auto_follow_terminal_output(false, true));
}

#[test]
fn sticky_follow_keeps_output_pinned_between_bursts() {
    assert!(terminal_should_follow_output(false, false, false, true));
    assert!(terminal_should_follow_output(false, false, true, false));
    assert!(terminal_should_follow_output(false, true, false, false));
    assert!(terminal_should_follow_output(true, false, false, false));
    assert!(!terminal_should_follow_output(false, false, false, false));
}

#[test]
fn auto_follow_is_disabled_without_new_output() {
    assert!(!should_auto_follow_terminal_output(false, false));
}

#[test]
fn initial_scheduled_follow_pass_allows_one_settle_retry() {
    assert_eq!(
        terminal_scheduled_follow_pass_decision(0, 3, true, false),
        TerminalScheduledFollowPassDecision {
            perform_scroll: false,
            schedule_retry: true,
        }
    );
    assert_eq!(
        terminal_scheduled_follow_pass_decision(0, 3, true, true),
        TerminalScheduledFollowPassDecision {
            perform_scroll: true,
            schedule_retry: true,
        }
    );
}

#[test]
fn later_scheduled_follow_passes_retry_only_after_real_scroll() {
    assert_eq!(
        terminal_scheduled_follow_pass_decision(1, 3, true, false),
        TerminalScheduledFollowPassDecision {
            perform_scroll: false,
            schedule_retry: false,
        }
    );
    assert_eq!(
        terminal_scheduled_follow_pass_decision(1, 3, true, true),
        TerminalScheduledFollowPassDecision {
            perform_scroll: true,
            schedule_retry: true,
        }
    );
    assert_eq!(
        terminal_scheduled_follow_pass_decision(2, 3, true, true),
        TerminalScheduledFollowPassDecision {
            perform_scroll: true,
            schedule_retry: false,
        }
    );
}

#[test]
fn scheduled_follow_passes_stop_without_follow_state() {
    assert_eq!(
        terminal_scheduled_follow_pass_decision(0, 3, false, true),
        TerminalScheduledFollowPassDecision {
            perform_scroll: false,
            schedule_retry: false,
        }
    );
    assert_eq!(
        terminal_scheduled_follow_pass_decision(0, 0, true, true),
        TerminalScheduledFollowPassDecision {
            perform_scroll: false,
            schedule_retry: false,
        }
    );
}

#[test]
fn active_follow_lock_keeps_output_pinned_between_paints() {
    let now: u64 = 86_400_000;
    let follow_lock_until = Some(now + TERMINAL_OUTPUT_FOLLOW_LOCK_DURATION_MS);
    assert!(terminal_follow_lock_is_active(follow_lock_until, now));
    assert!(should_auto_follow_terminal_output(
        true,
        terminal_follow_lock_is_active(follow_lock_until, now),
    ));
}

#[test]
fn expired_follow_lock_stops_auto_follow_when_not_at_bottom() {
    let now: u64 = 86_400_000;
    let follow_lock_until = Some(now);
    assert!(!terminal_follow_lock_is_active(follow_lock_until, now));
    assert!(!should_auto_follow_terminal_output(
        true,
        terminal_follow_lock_is_active(follow_lock_until, now),
    ));
}

#[test]
fn interactive_follow_window_stays_active_for_longer_resume_redraws() {
    let now: u64 = 86_400_000;
    assert!(terminal_interactive_follow_is_active(
        Some(now + INTERACTIVE_TERMINAL_SYNC_WINDOW_MS),
        now,
    ));
    assert!(!terminal_interactive_follow_is_active(Some(now), now));
    assert!(!terminal_interactive_follow_is_active(None, now));
}

fn run_line(text: String) -> TerminalStyledLine {
    TerminalStyledLine {
        cells: Vec::new(),
        runs: vec![TerminalStyledRun {
            text,
            fg: 0xffffff,
            bg: 0x000000,
        }],
    }
}

#[test]
fn visible_render_signature_ignores_offscreen_scrollback_changes() {
    let lines_with = |header: &str| {
        std::iter::once(run_line(header.to_owned()))
            .chain((1..220).map(|index| run_line(format!("visible line {index:03}"))))
            .collect::<Vec<_>>()
    };
    let first_lines = lines_with("header one");
    let second_lines = lines_with("header two");
    let source = |lines: &'static [TerminalStyledLine]| TerminalRenderSource {
        session_id: 1,
        state: TerminalState::Running,
        output: "",
        styled_output: lines,
        cursor: Some(TerminalCursor {
            line: 219,
            column: 0,
        }),
    };

    let visible_range = 160..220;
    let first = source(Box::leak(Box::new(first_lines)));
    let second = source(Box::leak(Box::new(second_lines)));

    assert_eq!(
        terminal_visible_render_signature_for_source(&first, visible_range.clone()),
        terminal_visible_render_signature_for_source(&second, visible_range),
    );
}

#[test]
fn visible_render_signature_changes_when_viewport_changes() {
    let styled_output: &'static [TerminalStyledLine] = Box::leak(Box::new(
        (0..220)
            .map(|index| run_line(format!("line {index:03}")))
            .collect::<Vec<_>>(),
    ));
    let source = TerminalRenderSource {
        session_id: 1,
        state: TerminalState::Running,
        output: "",
        styled_output,
        cursor: Some(TerminalCursor {
            line: 219,
            column: 0,
        }),
    };

    assert_ne!(
        terminal_visible_render_signature_for_source(&source, 160..220),
        terminal_visible_render_signature_for_source(&source, 159..219),
    );
}

#[test]
fn terminal_display_tail_lines_skip_blank_screen_padding() {
    let styled_output = [
        run_line("header".to_owned()),
        run_line("menu".to_owned()),
        TerminalStyledLine {
            cells: Vec::new(),
            runs: Vec::new(),
        },
        TerminalStyledLine {
            cells: Vec::new(),
            runs: Vec::new(),
        },
    ];
    let source = TerminalRenderSource {
        session_id: 1,
        state: TerminalState::Running,
        output: "",
        styled_output: &styled_output,
        cursor: Some(TerminalCursor { line: 1, column: 0 }),
    };

    assert_eq!(terminal_display_tail_lines_for_source(&source, 2), vec![
        "header".to_owned(),
        "menu".to_owned()
    ]);
}
