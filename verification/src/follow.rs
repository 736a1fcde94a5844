//! Decisions about keeping the terminal scrolled to its newest output, and
//! the integer part of viewport and grid geometry.

use vstd::prelude::*;

use crate::terminal::TerminalGridPosition;

verus! {

/// Lines rendered beyond the viewport on each side.
pub const TERMINAL_RENDER_OVERSCAN_LINES: usize = 12;

/// Lines rendered before the viewport's size is known.
pub const TERMINAL_INITIAL_RENDER_LINES: usize = 240;

/// A follow lock that ends at `follow_output_until` (a monotonic clock reading)
/// is active strictly before that moment.
pub fn terminal_follow_lock_is_active(follow_output_until: Option<u64>, now: u64) -> (r: bool)
    ensures
        r == (follow_output_until matches Some(until) && until > now),
{
    match follow_output_until {
        Some(until) => until > now,
        None => false,
    }
}

/// The interactive follow window is active strictly before it ends.
pub fn terminal_interactive_follow_is_active(interactive_sync_until: Option<u64>, now: u64) -> (r: bool)
    ensures
        r == (interactive_sync_until matches Some(until) && until > now),
{
    match interactive_sync_until {
        Some(until) => until > now,
        None => false,
    }
}

/// Scroll to new output only when there is new output and following is on.
pub fn should_auto_follow_terminal_output(terminal_updated: bool, should_follow_output: bool) -> (r: bool)
    ensures
        r == (terminal_updated && should_follow_output),
{
    terminal_updated && should_follow_output
}

/// Following is on when the view is near the bottom or any follow mode holds.
pub fn terminal_should_follow_output(
    is_near_bottom: bool,
    follow_lock_active: bool,
    interactive_follow_active: bool,
    sticky_follow_active: bool,
) -> (r: bool)
    ensures
        r == (is_near_bottom || follow_lock_active || interactive_follow_active
            || sticky_follow_active),
{
    is_near_bottom || follow_lock_active || interactive_follow_active || sticky_follow_active
}

/// What one scheduled follow pass does.
#[derive(Clone, Copy, Debug, PartialEq, Eq, Structural)]
pub struct TerminalScheduledFollowPassDecision {
    pub perform_scroll: bool,
    pub schedule_retry: bool,
}

/// Pass `pass_index` of at most `max_passes`: nothing happens unless following
/// is on and passes are allowed; otherwise it scrolls when asked to, and
/// retries while passes remain, after the first pass or after a real scroll.
pub fn terminal_scheduled_follow_pass_decision(
    pass_index: usize,
    max_passes: usize,
    should_follow: bool,
    should_scroll: bool,
) -> (d: TerminalScheduledFollowPassDecision)
    ensures
        !should_follow || max_passes == 0 ==> !d.perform_scroll && !d.schedule_retry,
        should_follow && max_passes > 0 ==> d.perform_scroll == should_scroll && d.schedule_retry
            == (pass_index + 1 < max_passes && (pass_index == 0 || should_scroll)),
{
    if !should_follow || max_passes == 0 {
        return TerminalScheduledFollowPassDecision { perform_scroll: false, schedule_retry: false };
    }
    let has_retry_budget = if pass_index < usize::MAX { pass_index + 1 < max_passes } else { false };
    TerminalScheduledFollowPassDecision {
        perform_scroll: should_scroll,
        schedule_retry: has_retry_budget && (pass_index == 0 || should_scroll),
    }
}

/// `a - b`, stopping at 0.
pub open spec fn sat_sub(a: usize, b: usize) -> usize {
    if a >= b {
        (a - b) as usize
    } else {
        0
    }
}

/// `a + b`, stopping at `usize::MAX`.
pub open spec fn sat_add(a: usize, b: usize) -> usize {
    if a + b <= usize::MAX {
        (a + b) as usize
    } else {
        usize::MAX
    }
}

fn saturating_sub(a: usize, b: usize) -> (r: usize)
    ensures
        r == sat_sub(a, b),
{
    if a >= b {
        a - b
    } else {
        0
    }
}

fn saturating_add(a: usize, b: usize) -> (r: usize)
    ensures
        r == sat_add(a, b),
{
    if a <= usize::MAX - b {
        a + b
    } else {
        usize::MAX
    }
}

/// The lines to render out of `line_count`. Without a measured viewport
/// (`rows` is `None`) these are the last lines, at most the initial number.
/// With `rows == Some((first_visible_line, visible_line_count))` they are the
/// visible lines with overscan on both sides, clamped so that at least one
/// line lies in `0..max(line_count, 1)`.
pub open spec fn spec_visible_line_range(line_count: usize, rows: Option<(usize, usize)>) -> (usize, usize) {
    let count: usize = if line_count > 1 { line_count } else { 1 };
    match rows {
        None => (sat_sub(count, TERMINAL_INITIAL_RENDER_LINES), count),
        Some((first_visible_line, visible_line_count)) => {
            let start0 = sat_sub(first_visible_line, TERMINAL_RENDER_OVERSCAN_LINES);
            let reach = sat_add(sat_add(first_visible_line, visible_line_count), TERMINAL_RENDER_OVERSCAN_LINES);
            let end0: usize = if count < reach { count } else { reach };
            let start: usize = if start0 < sat_sub(count, 1) { start0 } else { sat_sub(count, 1) };
            let end1: usize = if end0 > sat_add(start, 1) { end0 } else { sat_add(start, 1) };
            (start, if end1 < count { end1 } else { count })
        },
    }
}

/// The line range to render; the floating-point measurement of the viewport
/// into rows is done by the caller.
pub fn terminal_visible_line_range(line_count: usize, rows: Option<(usize, usize)>) -> (r: std::ops::Range<usize>)
    ensures
        (r.start, r.end) == spec_visible_line_range(line_count, rows),
        r.start < r.end,
{
    let count = if line_count > 1 { line_count } else { 1 };
    match rows {
        None => {
            let start = saturating_sub(count, TERMINAL_INITIAL_RENDER_LINES);
            start..count
        },
        Some((first_visible_line, visible_line_count)) => {
            let start0 = saturating_sub(first_visible_line, TERMINAL_RENDER_OVERSCAN_LINES);
            let reach = saturating_add(
                saturating_add(first_visible_line, visible_line_count),
                TERMINAL_RENDER_OVERSCAN_LINES,
            );
            let end0 = if count < reach { count } else { reach };
            let last = saturating_sub(count, 1);
            let start = if start0 < last { start0 } else { last };
            let next = saturating_add(start, 1);
            let end1 = if end0 > next { end0 } else { next };
            let end = if end1 < count { end1 } else { count };
            start..end
        },
    }
}

/// The rows of a rendered slice that fall in the viewport: from the first
/// visible line (relative to the slice's first line, clamped to the last
/// rendered line) for `visible_line_count` rows, at least one, within the
/// `max(rendered_line_count, 1)` rendered lines.
pub open spec fn spec_viewport_slice_range(
    slice_start_line: usize,
    rendered_line_count: usize,
    first_visible_line: usize,
    visible_line_count: usize,
) -> (usize, usize) {
    let rendered: usize = if rendered_line_count > 1 { rendered_line_count } else { 1 };
    let offset = sat_sub(first_visible_line, slice_start_line);
    let start: usize = if offset < sat_sub(rendered, 1) { offset } else { sat_sub(rendered, 1) };
    let end0 = sat_add(start, visible_line_count);
    let end1: usize = if end0 > sat_add(start, 1) { end0 } else { sat_add(start, 1) };
    (start, if end1 < rendered { end1 } else { rendered })
}

/// The viewport's rows within a rendered slice; the floating-point measurement
/// of the scroll offset and viewport into rows is done by the caller.
pub fn terminal_viewport_slice_range(
    slice_start_line: usize,
    rendered_line_count: usize,
    first_visible_line: usize,
    visible_line_count: usize,
) -> (r: std::ops::Range<usize>)
    ensures
        (r.start, r.end) == spec_viewport_slice_range(
            slice_start_line,
            rendered_line_count,
            first_visible_line,
            visible_line_count,
        ),
        r.start < r.end,
{
    let rendered = if rendered_line_count > 1 { rendered_line_count } else { 1 };
    let offset = saturating_sub(first_visible_line, slice_start_line);
    let last = saturating_sub(rendered, 1);
    let start = if offset < last { offset } else { last };
    let end0 = saturating_add(start, visible_line_count);
    let next = saturating_add(start, 1);
    let end1 = if end0 > next { end0 } else { next };
    let end = if end1 < rendered { end1 } else { rendered };
    start..end
}

/// Rows and columns of the grid, from whole cells that fit the viewport:
/// nothing unless both are positive; at least two columns; both at most
/// `u16::MAX`.
pub fn terminal_grid_size_from_cells(cols: i32, rows: i32) -> (r: Option<(u16, u16)>)
    ensures
        r == (if cols <= 0 || rows <= 0 {
            None
        } else {
            Some(
                (
                    (if rows > u16::MAX { u16::MAX as int } else { rows as int }) as u16,
                    (if cols < 2 { 2 } else if cols > u16::MAX { u16::MAX as int } else { cols as int }) as u16,
                ),
            )
        }),
{
    if cols <= 0 || rows <= 0 {
        return None;
    }
    let cols = if cols < 2 { 2u16 } else if cols > 0xffff { 0xffffu16 } else { cols as u16 };
    let rows = if rows > 0xffff { 0xffffu16 } else { rows as u16 };
    Some((rows, cols))
}


/// The grid position under the pointer, from the row and column of the cell
/// it is over (the floating-point measurement is done by the caller): none
/// when there are no lines; otherwise the row is clamped to the last line.
pub fn terminal_grid_position_for_cell(row: usize, column: usize, line_count: usize) -> (r: Option<
    TerminalGridPosition,
>)
    ensures
        r == (if line_count == 0 {
            None
        } else {
            Some(
                (TerminalGridPosition {
                    line: if row < line_count { row } else { (line_count - 1) as usize },
                    column,
                }),
            )
        }),
{
    if line_count == 0 {
        return None;
    }
    let max_line = line_count - 1;
    let line = if row < max_line { row } else { max_line };
    Some(TerminalGridPosition { line, column })
}

} // verus!
