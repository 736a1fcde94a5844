use arbor::workloads::{prompt_redraw_workload, resume_scroll_workload, wide_scroll_workload};

#[test]
fn prompt_redraw_has_fifteen_chunks_per_frame() {
    let chunks = prompt_redraw_workload();
    assert_eq!(chunks.len(), 120 * 15);
    assert_eq!(chunks[0], b"\x1b[H\x1b[2J".to_vec());
    assert_eq!(chunks[12], b"\r\x1b[2K\xe2\x80\xba 1. Yes, proceed (y)\n".to_vec());
    assert_eq!(chunks[15 + 13], b"\r\x1b[2K\xe2\x80\xba 2. Yes, and don't ask again for these files (a)\n".to_vec());
    assert_eq!(chunks[30 + 14], b"\r\x1b[2K\xe2\x80\xba 3. No, and tell Codex what to do differently (esc)\n".to_vec());
    assert_eq!(chunks[30 + 12], b"\r\x1b[2K  1. Yes, proceed (y)\n".to_vec());
}

#[test]
fn wide_scroll_rows_match_df_layout() {
    let chunks = wide_scroll_workload();
    assert_eq!(chunks.len(), 222);
    assert_eq!(
        chunks[1],
        b"Filesystem             Size   Used  Avail Capacity Mounted on\r\n".to_vec()
    );
    for row in 0..220usize {
        let used_gib = (row * 7) % 900 + 50;
        let avail_gib = 1024 - used_gib;
        let capacity = (used_gib * 100) / 1024;
        let expected = format!(
            "/dev/disk{row:<3}         1.0Ti  {used_gib:>4}Gi  {avail_gib:>4}Gi    {capacity:>2}%   /Volumes/worktree-{row:03}\r\n"
        );
        assert_eq!(chunks[row + 2], expected.into_bytes());
    }
    assert_eq!(
        chunks[221],
        b"/dev/disk219         1.0Ti   683Gi   341Gi    66%   /Volumes/worktree-219\r\n".to_vec()
    );
}

#[test]
fn resume_scroll_shows_picker_then_transcript() {
    let chunks = resume_scroll_workload();
    assert_eq!(chunks.len(), 3 + 18 + 5 + 260 + 1);
    assert_eq!(
        chunks[3 + 6],
        b"> session-007  model=gpt-5.4  cwd=~/code/arbor  updated=28s ago\r\n".to_vec()
    );
    assert_eq!(chunks[21], b"\x1b[H\x1b[2J".to_vec());
    for line in 0..260usize {
        let role = match line % 4 {
            0 => "system",
            1 => "user",
            2 => "assistant",
            _ => "tool",
        };
        let expected = format!(
            "{role:>9} {line:03}: resume transcript line {line:03} cwd=~/code/arbor tokens={:05}\r\n",
            10_000 + line * 17
        );
        assert_eq!(chunks[26 + line], expected.into_bytes());
    }
    assert_eq!(chunks[286], b"\x1b[?25h".to_vec());
}
