//! Terminal session data: cursor, selection, palette and the render source.

use vstd::prelude::*;

use crate::styled::{LineView, TerminalStyledLine};

verus! {

/// Foreground color the embedded emulator uses when a program sets none.
pub const EMBEDDED_TERMINAL_DEFAULT_FG: u32 = 0xc8ccd4;

/// Background color the embedded emulator uses when a program sets none.
pub const EMBEDDED_TERMINAL_DEFAULT_BG: u32 = 0x1e2127;

/// Position of the terminal cursor on the grid.
#[derive(Clone, Copy, Debug, PartialEq, Eq, Structural)]
pub struct TerminalCursor {
    pub line: usize,
    pub column: usize,
}

/// A position on the terminal grid.
#[derive(Clone, Copy, Debug, PartialEq, Eq, Structural)]
pub struct TerminalGridPosition {
    pub line: usize,
    pub column: usize,
}

/// A selection between an anchor and a head position in one session.
#[derive(Clone, Copy, Debug, PartialEq, Eq, Structural)]
pub struct TerminalSelection {
    pub session_id: u64,
    pub anchor: TerminalGridPosition,
    pub head: TerminalGridPosition,
}

/// Lifecycle of a terminal session.
#[derive(Clone, Copy, Debug, PartialEq, Eq, Structural)]
pub enum TerminalState {
    Running,
    Completed,
    Failed,
}

/// The colors of the active theme that terminal rendering uses.
#[derive(Clone, Copy, Debug, PartialEq, Eq, Structural)]
pub struct ThemePalette {
    pub terminal_bg: u32,
    pub text_primary: u32,
    pub terminal_cursor: u32,
    pub terminal_selection_fg: u32,
    pub terminal_selection_bg: u32,
}

/// A terminal session as the GUI holds it.
#[derive(Debug)]
pub struct TerminalSession {
    pub id: u64,
    pub state: TerminalState,
    pub output: String,
    pub styled_output: Vec<TerminalStyledLine>,
    pub cursor: Option<TerminalCursor>,
}

/// A snapshot of the terminal emulator's screen.
#[derive(Debug)]
pub struct TerminalSnapshot {
    pub output: String,
    pub styled_lines: Vec<TerminalStyledLine>,
    pub cursor: Option<TerminalCursor>,
}

/// What the renderer reads of a session or of a snapshot.
pub struct TerminalRenderSource<'a> {
    pub session_id: u64,
    pub state: TerminalState,
    pub output: &'a str,
    pub styled_output: &'a [TerminalStyledLine],
    pub cursor: Option<TerminalCursor>,
}

impl<'a> TerminalRenderSource<'a> {
    /// The styled lines of the source, as values.
    pub open spec fn styled(&self) -> Seq<LineView> {
        self.styled_output.deep_view()
    }
}

/// The render source of a session.
pub fn terminal_render_source_for_session(session: &TerminalSession) -> (source: TerminalRenderSource<'_>)
    ensures
        source.session_id == session.id,
        source.state == session.state,
        source.output@ == session.output@,
        source.styled() == session.styled_output.deep_view(),
        source.cursor == session.cursor,
{
    TerminalRenderSource {
        session_id: session.id,
        state: session.state,
        output: session.output.as_str(),
        styled_output: session.styled_output.as_slice(),
        cursor: session.cursor,
    }
}

/// The render source of an emulator snapshot.
pub fn terminal_render_source_for_snapshot<'a>(
    session_id: u64,
    state: TerminalState,
    snapshot: &'a TerminalSnapshot,
) -> (source: TerminalRenderSource<'a>)
    ensures
        source.session_id == session_id,
        source.state == state,
        source.output@ == snapshot.output@,
        source.styled() == snapshot.styled_lines.deep_view(),
        source.cursor == snapshot.cursor,
{
    TerminalRenderSource {
        session_id,
        state,
        output: snapshot.output.as_str(),
        styled_output: snapshot.styled_lines.as_slice(),
        cursor: snapshot.cursor,
    }
}

} // verus!
