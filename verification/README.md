# arbor

The terminal, logging, prompt and provisioning logic of Arbor, written in
Verus. Every function in `src/` carries a contract; Verus proves all of them
except three small wrappers around std calls (`String::push`,
`char::escape_debug`, `String::from_utf8_lossy`), whose contracts are taken
on trust and documented where they stand.

- `src/text.rs`: character-level helpers (lines, trimming, decimals, padding).
- `src/styled.rs`: styled cells and runs and the conversions between them.
- `src/terminal.rs`: sessions, cursor, selection, palette, render source.
- `src/paint.rs`: palette remapping, cursor, IME and selection painting.
- `src/display.rs`: display lines, selection text, token and line bounds.
- `src/render.rs`: which lines to render and how they look.
- `src/signature.rs`: a signature of the visible lines, to skip repaints.
- `src/follow.rs`: follow-output decisions and the integer part of viewport
  geometry.
- `src/log_layer.rs`: the bounded in-memory log and the log file line format.
- `src/prompt_runner.rs`: shell commands that run a coding agent on a prompt.
- `src/provisioner.rs`: outpost provisioning over SSH as a step function.
- `src/workloads.rs`: byte streams that exercise the terminal emulator.

`app/` holds what Verus does not check: the tracing layer, process and file
I/O, the SSH driver loop, asset lookup and floating-point pixel geometry.
