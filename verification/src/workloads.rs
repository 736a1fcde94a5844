//! Byte streams that exercise the terminal emulator the way real agents and
//! tools redraw it.

use vstd::prelude::*;

use vstd::string::StringSliceAdditionalSpecFns;
use vstd::utf8::encode_utf8;

use crate::text::{decimal, pad_left, pad_right, push_decimal, push_padded_left, push_padded_right, push_str, decimal_string};

verus! {

/// The UTF-8 bytes of `s`.
fn text_bytes(s: &str) -> (v: Vec<u8>)
    ensures
        v@ == encode_utf8(s@),
{
    let b = s.as_bytes();
    let mut v: Vec<u8> = Vec::new();
    for i in 0..b.len()
        invariant
            b@ == s.spec_bytes(),
            v@ == b@.take(i as int),
    {
        v.push(b[i]);
        assert(v@ =~= b@.take(i + 1));
    }
    assert(b@.take(b.len() as int) =~= b@);
    v
}

/// Appends the UTF-8 bytes of `s` as one chunk.
fn push_chunk(chunks: &mut Vec<Vec<u8>>, s: &str)
    ensures
        final(chunks).deep_view() == old(chunks).deep_view().push(encode_utf8(s@)),
{
    let ghost before = chunks.deep_view();
    let bytes = text_bytes(s);
    assert(bytes.deep_view() =~= bytes@);
    chunks.push(bytes);
    assert(chunks.deep_view() =~= before.push(encode_utf8(s@)));
}

/// The first option line of a redraw, with the marker when it is selected.
pub open spec fn option_one(selected: bool) -> Seq<char> {
    if selected {
        "\r\x1b[2K\u{203a} 1. Yes, proceed (y)\n"@
    } else {
        "\r\x1b[2K  1. Yes, proceed (y)\n"@
    }
}

/// The second option line of a redraw.
pub open spec fn option_two(selected: bool) -> Seq<char> {
    if selected {
        "\r\x1b[2K\u{203a} 2. Yes, and don't ask again for these files (a)\n"@
    } else {
        "\r\x1b[2K  2. Yes, and don't ask again for these files (a)\n"@
    }
}

/// The third option line of a redraw.
pub open spec fn option_three(selected: bool) -> Seq<char> {
    if selected {
        "\r\x1b[2K\u{203a} 3. No, and tell Codex what to do differently (esc)\n"@
    } else {
        "\r\x1b[2K  3. No, and tell Codex what to do differently (esc)\n"@
    }
}

/// The chunks that draw the approval prompt in full.
pub open spec fn prompt_screen() -> Seq<Seq<u8>> {
    seq![
        encode_utf8("\x1b[H\x1b[2J"@),
        encode_utf8("  Would you like to make the following edits?\r\n"@),
        encode_utf8("\r\n"@),
        encode_utf8("  crates/arbor-gui/src/app_init.rs (+4 -0)\r\n"@),
        encode_utf8("    223  -        self.terminal_scroll_handle: ScrollHandle::new(),\r\n"@),
        encode_utf8("    224  +        terminal_follow_output_until: None,\r\n"@),
        encode_utf8("    225  +        last_terminal_scroll_offset_y: None,\r\n"@),
        encode_utf8("\r\n"@),
        encode_utf8("  1. Yes, proceed (y)\r\n"@),
        encode_utf8("  2. Yes, and don't ask again for these files (a)\r\n"@),
        encode_utf8("  3. No, and tell Codex what to do differently (esc)"@),
        encode_utf8("\x1b[3A"@),
    ]
}

/// The chunks of one frame of the prompt redraw: the full prompt, the cursor
/// moved up three lines, and the three options redrawn with the marker on
/// option `frame % 3 + 1`.
pub open spec fn prompt_redraw_frame(frame: nat) -> Seq<Seq<u8>> {
    prompt_screen() + seq![
        encode_utf8(option_one(frame % 3 == 0)),
        encode_utf8(option_two(frame % 3 == 1)),
        encode_utf8(option_three(frame % 3 == 2)),
    ]
}

/// The chunks of frames `0..n`, in order.
pub open spec fn prompt_redraw_frames(n: nat) -> Seq<Seq<u8>>
    decreases n,
{
    if n == 0 {
        seq![]
    } else {
        prompt_redraw_frames((n - 1) as nat) + prompt_redraw_frame((n - 1) as nat)
    }
}

fn push_prompt_screen(chunks: &mut Vec<Vec<u8>>)
    ensures
        final(chunks).deep_view() == old(chunks).deep_view() + prompt_screen(),
{
    let ghost c0 = chunks.deep_view();
    push_chunk(chunks, "\x1b[H\x1b[2J");
    push_chunk(chunks, "  Would you like to make the following edits?\r\n");
    push_chunk(chunks, "\r\n");
    push_chunk(chunks, "  crates/arbor-gui/src/app_init.rs (+4 -0)\r\n");
    push_chunk(chunks, "    223  -        self.terminal_scroll_handle: ScrollHandle::new(),\r\n");
    push_chunk(chunks, "    224  +        terminal_follow_output_until: None,\r\n");
    push_chunk(chunks, "    225  +        last_terminal_scroll_offset_y: None,\r\n");
    push_chunk(chunks, "\r\n");
    push_chunk(chunks, "  1. Yes, proceed (y)\r\n");
    push_chunk(chunks, "  2. Yes, and don't ask again for these files (a)\r\n");
    push_chunk(chunks, "  3. No, and tell Codex what to do differently (esc)");
    push_chunk(chunks, "\x1b[3A");
    assert(chunks.deep_view() =~= c0 + prompt_screen());
}

fn push_prompt_options(chunks: &mut Vec<Vec<u8>>, frame: usize)
    ensures
        final(chunks).deep_view() == old(chunks).deep_view() + seq![
            encode_utf8(option_one(frame % 3 == 0)),
            encode_utf8(option_two(frame % 3 == 1)),
            encode_utf8(option_three(frame % 3 == 2)),
        ],
{
    let ghost c0 = chunks.deep_view();
    if frame % 3 == 0 {
        push_chunk(chunks, "\r\x1b[2K\u{203a} 1. Yes, proceed (y)\n");
        push_chunk(chunks, "\r\x1b[2K  2. Yes, and don't ask again for these files (a)\n");
        push_chunk(chunks, "\r\x1b[2K  3. No, and tell Codex what to do differently (esc)\n");
    } else if frame % 3 == 1 {
        push_chunk(chunks, "\r\x1b[2K  1. Yes, proceed (y)\n");
        push_chunk(chunks, "\r\x1b[2K\u{203a} 2. Yes, and don't ask again for these files (a)\n");
        push_chunk(chunks, "\r\x1b[2K  3. No, and tell Codex what to do differently (esc)\n");
    } else {
        push_chunk(chunks, "\r\x1b[2K  1. Yes, proceed (y)\n");
        push_chunk(chunks, "\r\x1b[2K  2. Yes, and don't ask again for these files (a)\n");
        push_chunk(chunks, "\r\x1b[2K\u{203a} 3. No, and tell Codex what to do differently (esc)\n");
    }
    assert(chunks.deep_view() =~= c0 + seq![
        encode_utf8(option_one(frame % 3 == 0)),
        encode_utf8(option_two(frame % 3 == 1)),
        encode_utf8(option_three(frame % 3 == 2)),
    ]);
}

/// An agent's approval prompt redrawn 120 times with the selection moving.
pub fn prompt_redraw_workload() -> (chunks: Vec<Vec<u8>>)
    ensures
        chunks.deep_view() == prompt_redraw_frames(120),
{
    let mut chunks: Vec<Vec<u8>> = Vec::new();
    assert(chunks.deep_view() =~= prompt_redraw_frames(0));
    for frame in 0..120usize
        invariant
            chunks.deep_view() == prompt_redraw_frames(frame as nat),
    {
        let ghost before = chunks.deep_view();
        push_prompt_screen(&mut chunks);
        push_prompt_options(&mut chunks, frame);
        assert(chunks.deep_view() =~= before + prompt_redraw_frame(frame as nat));
    }
    chunks
}


/// Gibibytes used on disk `row` of the `df`-like listing.
pub open spec fn used_gib(row: nat) -> nat {
    (row * 7) % 900 + 50
}

/// One row of the `df`-like listing.
pub open spec fn wide_scroll_row(row: nat) -> Seq<char> {
    let used = used_gib(row);
    let avail = (1024 - used) as nat;
    let capacity = used * 100 / 1024;
    "/dev/disk"@ + pad_right(decimal(row), 3, ' ') + "         1.0Ti  "@ + pad_left(decimal(used), 4, ' ')
        + "Gi  "@ + pad_left(decimal(avail), 4, ' ') + "Gi    "@ + pad_left(decimal(capacity), 2, ' ')
        + "%   /Volumes/worktree-"@ + pad_left(decimal(row), 3, '0') + "\r\n"@
}

/// The chunks of the `df`-like listing: clear, the header, then `n` rows.
pub open spec fn wide_scroll_chunks(n: nat) -> Seq<Seq<u8>>
    decreases n,
{
    if n == 0 {
        seq![
            encode_utf8("\x1b[H\x1b[2J"@),
            encode_utf8("Filesystem             Size   Used  Avail Capacity Mounted on\r\n"@),
        ]
    } else {
        wide_scroll_chunks((n - 1) as nat).push(encode_utf8(wide_scroll_row((n - 1) as nat)))
    }
}

/// Appends `n` in decimal, right-aligned in `width` with `fill`.
fn push_number_left(s: &mut String, n: u64, width: usize, fill: char)
    ensures
        final(s)@ == old(s)@ + pad_left(decimal(n as nat), width as nat, fill),
{
    let d = decimal_string(n);
    push_padded_left(s, d.as_str(), width, fill);
}

/// Appends `n` in decimal, left-aligned in `width` with spaces.
fn push_number_right(s: &mut String, n: u64, width: usize)
    ensures
        final(s)@ == old(s)@ + pad_right(decimal(n as nat), width as nat, ' '),
{
    let d = decimal_string(n);
    push_padded_right(s, d.as_str(), width, ' ');
}

fn wide_scroll_row_text(row: u64) -> (s: String)
    requires
        row < 1000,
    ensures
        s@ == wide_scroll_row(row as nat),
{
    let used = (row * 7) % 900 + 50;
    let avail = 1024 - used;
    let capacity = (used * 100) / 1024;
    let mut s = "/dev/disk".to_owned();
    push_number_right(&mut s, row, 3);
    push_str(&mut s, "         1.0Ti  ");
    push_number_left(&mut s, used, 4, ' ');
    push_str(&mut s, "Gi  ");
    push_number_left(&mut s, avail, 4, ' ');
    push_str(&mut s, "Gi    ");
    push_number_left(&mut s, capacity, 2, ' ');
    push_str(&mut s, "%   /Volumes/worktree-");
    push_number_left(&mut s, row, 3, '0');
    push_str(&mut s, "\r\n");
    s
}

/// A `df`-like listing of 220 disks scrolling a wide terminal.
pub fn wide_scroll_workload() -> (chunks: Vec<Vec<u8>>)
    ensures
        chunks.deep_view() == wide_scroll_chunks(220),
{
    let mut chunks: Vec<Vec<u8>> = Vec::new();
    push_chunk(&mut chunks, "\x1b[H\x1b[2J");
    push_chunk(&mut chunks, "Filesystem             Size   Used  Avail Capacity Mounted on\r\n");
    assert(chunks.deep_view() =~= wide_scroll_chunks(0));
    for row in 0..220u64
        invariant
            chunks.deep_view() == wide_scroll_chunks(row as nat),
    {
        let line = wide_scroll_row_text(row);
        push_chunk(&mut chunks, line.as_str());
    }
    chunks
}

/// The role shown on transcript line `line`.
pub open spec fn transcript_role(line: nat) -> Seq<char> {
    if line % 4 == 0 {
        "system"@
    } else if line % 4 == 1 {
        "user"@
    } else if line % 4 == 2 {
        "assistant"@
    } else {
        "tool"@
    }
}

/// Session row `row` of the resume picker; row 7 is marked.
pub open spec fn session_row(row: nat) -> Seq<char> {
    (if row == 7 { ">"@ } else { " "@ }) + " session-"@ + pad_left(decimal(row), 3, '0')
        + "  model=gpt-5.4  cwd=~/code/arbor  updated="@ + decimal(4 * row) + "s ago\r\n"@
}

/// Transcript line `line` of the resumed session.
pub open spec fn transcript_line(line: nat) -> Seq<char> {
    pad_left(transcript_role(line), 9, ' ') + " "@ + pad_left(decimal(line), 3, '0')
        + ": resume transcript line "@ + pad_left(decimal(line), 3, '0')
        + " cwd=~/code/arbor tokens="@ + pad_left(decimal(10000 + line * 17), 5, '0') + "\r\n"@
}

/// The picker: alternate screen, title, and session rows `1..=n`.
pub open spec fn resume_picker_chunks(n: nat) -> Seq<Seq<u8>>
    decreases n,
{
    if n == 0 {
        seq![
            encode_utf8("\x1b[?1049h\x1b[2J\x1b[H\x1b[?25l"@),
            encode_utf8("Select a session to resume\r\n"@),
            encode_utf8("\r\n"@),
        ]
    } else {
        resume_picker_chunks((n - 1) as nat).push(encode_utf8(session_row(n)))
    }
}

/// The resumed session's banner after the picker's 18 rows.
pub open spec fn resume_banner_chunks() -> Seq<Seq<u8>> {
    resume_picker_chunks(18) + seq![
        encode_utf8("\x1b[H\x1b[2J"@),
        encode_utf8("Resuming session-007\r\n"@),
        encode_utf8("restoring transcript...\r\n"@),
        encode_utf8("reconnecting tools...\r\n"@),
        encode_utf8("\r\n"@),
    ]
}

/// The banner followed by transcript lines `0..n`.
pub open spec fn resume_transcript_chunks(n: nat) -> Seq<Seq<u8>>
    decreases n,
{
    if n == 0 {
        resume_banner_chunks()
    } else {
        resume_transcript_chunks((n - 1) as nat).push(encode_utf8(transcript_line((n - 1) as nat)))
    }
}

/// All chunks of the resume workload: picker, banner, 260 transcript lines,
/// and the cursor shown again.
pub open spec fn resume_scroll_chunks() -> Seq<Seq<u8>> {
    resume_transcript_chunks(260).push(encode_utf8("\x1b[?25h"@))
}

fn session_row_text(row: u64) -> (s: String)
    requires
        1 <= row <= 18,
    ensures
        s@ == session_row(row as nat),
{
    let mut s = if row == 7 { ">".to_owned() } else { " ".to_owned() };
    push_str(&mut s, " session-");
    push_number_left(&mut s, row, 3, '0');
    push_str(&mut s, "  model=gpt-5.4  cwd=~/code/arbor  updated=");
    push_decimal(&mut s, 4 * row);
    push_str(&mut s, "s ago\r\n");
    s
}

fn transcript_line_text(line: u64) -> (s: String)
    requires
        line < 260,
    ensures
        s@ == transcript_line(line as nat),
{
    let role = if line % 4 == 0 {
        "system"
    } else if line % 4 == 1 {
        "user"
    } else if line % 4 == 2 {
        "assistant"
    } else {
        "tool"
    };
    let mut s = String::new();
    push_padded_left(&mut s, role, 9, ' ');
    push_str(&mut s, " ");
    push_number_left(&mut s, line, 3, '0');
    push_str(&mut s, ": resume transcript line ");
    push_number_left(&mut s, line, 3, '0');
    push_str(&mut s, " cwd=~/code/arbor tokens=");
    push_number_left(&mut s, 10000 + line * 17, 5, '0');
    push_str(&mut s, "\r\n");
    s
}

/// A session picker followed by a resumed transcript of 260 lines.
pub fn resume_scroll_workload() -> (chunks: Vec<Vec<u8>>)
    ensures
        chunks.deep_view() == resume_scroll_chunks(),
{
    let mut chunks: Vec<Vec<u8>> = Vec::new();
    push_chunk(&mut chunks, "\x1b[?1049h\x1b[2J\x1b[H\x1b[?25l");
    push_chunk(&mut chunks, "Select a session to resume\r\n");
    push_chunk(&mut chunks, "\r\n");
    assert(chunks.deep_view() =~= resume_picker_chunks(0));
    for row in 1..19u64
        invariant
            chunks.deep_view() == resume_picker_chunks((row - 1) as nat),
    {
        let text = session_row_text(row);
        push_chunk(&mut chunks, text.as_str());
    }
    let ghost picker = chunks.deep_view();
    push_chunk(&mut chunks, "\x1b[H\x1b[2J");
    push_chunk(&mut chunks, "Resuming session-007\r\n");
    push_chunk(&mut chunks, "restoring transcript...\r\n");
    push_chunk(&mut chunks, "reconnecting tools...\r\n");
    push_chunk(&mut chunks, "\r\n");
    assert(chunks.deep_view() =~= resume_banner_chunks());
    for line in 0..260u64
        invariant
            chunks.deep_view() == resume_transcript_chunks(line as nat),
    {
        let text = transcript_line_text(line);
        push_chunk(&mut chunks, text.as_str());
    }
    push_chunk(&mut chunks, "\x1b[?25h");
    chunks
}

} // verus!
