//! Building the shell command that runs a coding agent on a prompt.

use vstd::prelude::*;

use crate::text::{push_char, push_str, spec_trim, trim};

verus! {

/// The coding agents Arbor knows how to launch.
#[derive(Clone, Copy, Debug, PartialEq, Eq, Structural)]
pub enum AgentPresetKind {
    Claude,
    Codex,
    OpenCode,
    Copilot,
    Pi,
}

/// The name shown for a preset.
pub open spec fn spec_preset_label(preset: AgentPresetKind) -> Seq<char> {
    match preset {
        AgentPresetKind::Claude => "Anthropic"@,
        AgentPresetKind::Codex => "Codex"@,
        AgentPresetKind::OpenCode => "OpenCode"@,
        AgentPresetKind::Copilot => "Copilot"@,
        AgentPresetKind::Pi => "Pi"@,
    }
}

impl AgentPresetKind {
    /// The name shown for this preset.
    pub fn label(&self) -> (s: &'static str)
        ensures
            s@ == spec_preset_label(*self),
    {
        match self {
            AgentPresetKind::Claude => "Anthropic",
            AgentPresetKind::Codex => "Codex",
            AgentPresetKind::OpenCode => "OpenCode",
            AgentPresetKind::Copilot => "Copilot",
            AgentPresetKind::Pi => "Pi",
        }
    }
}

/// How a prompt is run: capturing the agent's output, or in a terminal session.
#[derive(Clone, Copy, Debug, PartialEq, Eq, Structural)]
pub enum PromptExecutionMode {
    CaptureOutput,
    TerminalSession,
}

/// The shell command that runs a prompt.
#[derive(Debug)]
pub struct PromptExecutionPlan {
    pub shell_command: String,
}

/// Every `'` of `s` written as `'"'"'` (close the quote, a quoted `'`, reopen).
pub open spec fn escape_single_quotes(s: Seq<char>) -> Seq<char>
    decreases s.len(),
{
    if s.len() == 0 {
        seq![]
    } else {
        escape_single_quotes(s.drop_last()) + if s.last() == '\'' {
            seq!['\'', '"', '\'', '"', '\'']
        } else {
            seq![s.last()]
        }
    }
}

/// `s` in single quotes, for a POSIX shell.
pub open spec fn spec_shell_quote(s: Seq<char>) -> Seq<char> {
    seq!['\''] + escape_single_quotes(s) + seq!['\'']
}

/// Quotes `s` for a POSIX shell, so that it stays one word with no expansion.
pub fn shell_quote(s: &str) -> (q: String)
    ensures
        q@ == spec_shell_quote(s@),
{
    let chars = crate::text::chars_of(s);
    let mut q = String::new();
    push_char(&mut q, '\'');
    for i in 0..chars.len()
        invariant
            chars@ == s@,
            q@ == seq!['\''] + escape_single_quotes(chars@.take(i as int)),
    {
        if chars[i] == '\'' {
            push_char(&mut q, '\'');
            push_char(&mut q, '"');
            push_char(&mut q, '\'');
            push_char(&mut q, '"');
            push_char(&mut q, '\'');
        } else {
            push_char(&mut q, chars[i]);
        }
        assert(chars@.take(i + 1).drop_last() =~= chars@.take(i as int));
        assert(q@ =~= seq!['\''] + escape_single_quotes(chars@.take(i + 1)));
    }
    assert(chars@.take(chars.len() as int) =~= chars@);
    push_char(&mut q, '\'');
    q
}

/// Where a POSIX shell is while it reads a word: outside quotes, inside
/// single quotes, or inside double quotes.
#[derive(Clone, Copy, Debug, PartialEq, Eq, Structural)]
pub enum QuoteState {
    Bare,
    Single,
    Double,
}

/// `c` in front of a reading, when there is one.
pub open spec fn prepend_char(c: char, reading: Option<Seq<char>>) -> Option<Seq<char>> {
    match reading {
        Some(r) => Some(seq![c] + r),
        None => None,
    }
}

/// `s` in front of a reading, when there is one.
pub open spec fn prepend_text(s: Seq<char>, reading: Option<Seq<char>>) -> Option<Seq<char>> {
    match reading {
        Some(r) => Some(s + r),
        None => None,
    }
}

/// The text a POSIX shell reads from a word made only of quoted parts, by
/// quote removal, starting in state `st`. There is no reading (`None`) when a
/// character stands outside quotes (it would be subject to splitting or
/// expansion), when `$`, a backtick or a backslash stands inside double
/// quotes (it would be expanded or escape), or when a quote is left open.
pub open spec fn quote_removal(w: Seq<char>, st: QuoteState) -> Option<Seq<char>>
    decreases w.len(),
{
    if w.len() == 0 {
        if st == QuoteState::Bare {
            Some(seq![])
        } else {
            None
        }
    } else {
        let c = w[0];
        let rest = w.skip(1);
        match st {
            QuoteState::Bare => if c == '\'' {
                quote_removal(rest, QuoteState::Single)
            } else if c == '"' {
                quote_removal(rest, QuoteState::Double)
            } else {
                None
            },
            QuoteState::Single => if c == '\'' {
                quote_removal(rest, QuoteState::Bare)
            } else {
                prepend_char(c, quote_removal(rest, QuoteState::Single))
            },
            QuoteState::Double => if c == '"' {
                quote_removal(rest, QuoteState::Bare)
            } else if c == '$' || c == '`' || c == '\\' {
                None
            } else {
                prepend_char(c, quote_removal(rest, QuoteState::Double))
            },
        }
    }
}

/// The escaping of one character inside single quotes.
pub open spec fn quote_one(c: char) -> Seq<char> {
    if c == '\'' {
        seq!['\'', '"', '\'', '"', '\'']
    } else {
        seq![c]
    }
}

proof fn lemma_escape_single_quotes_prepend(c: char, t: Seq<char>)
    ensures
        escape_single_quotes(seq![c] + t) == quote_one(c) + escape_single_quotes(t),
    decreases t.len(),
{
    let x = seq![c] + t;
    if t.len() == 0 {
        assert(x.drop_last() =~= Seq::<char>::empty());
        assert(escape_single_quotes(x.drop_last()) =~= Seq::<char>::empty());
        assert(x.last() == c);
        assert(escape_single_quotes(x) =~= quote_one(c));
        assert(escape_single_quotes(t) =~= Seq::<char>::empty());
    } else {
        lemma_escape_single_quotes_prepend(c, t.drop_last());
        assert(x.drop_last() =~= seq![c] + t.drop_last());
        assert(x.last() == t.last());
        assert(escape_single_quotes(x) =~= quote_one(c) + escape_single_quotes(t));
    }
}

proof fn lemma_single_quoted_reading(s: Seq<char>, rest: Seq<char>)
    ensures
        quote_removal(escape_single_quotes(s) + rest, QuoteState::Single) == prepend_text(
            s,
            quote_removal(rest, QuoteState::Single),
        ),
    decreases s.len(),
{
    if s.len() == 0 {
        assert(escape_single_quotes(s) + rest =~= rest);
        match quote_removal(rest, QuoteState::Single) {
            Some(r) => assert(s + r =~= r),
            None => {},
        }
    } else {
        let c = s[0];
        let t = s.skip(1);
        assert(seq![c] + t =~= s);
        lemma_escape_single_quotes_prepend(c, t);
        lemma_single_quoted_reading(t, rest);
        let tail = escape_single_quotes(t) + rest;
        let x = quote_one(c) + tail;
        assert(escape_single_quotes(s) + rest =~= x);
        if c == '\'' {
            assert(x[0] == '\'');
            assert(x.skip(1)[0] == '"');
            assert(x.skip(1).skip(1) =~= x.skip(2));
            assert(x.skip(2)[0] == '\'');
            assert(x.skip(2).skip(1) =~= x.skip(3));
            assert(x.skip(3)[0] == '"');
            assert(x.skip(3).skip(1) =~= x.skip(4));
            assert(x.skip(4)[0] == '\'');
            assert(x.skip(4).skip(1) =~= tail);
            assert(quote_removal(x.skip(4), QuoteState::Bare) == quote_removal(tail, QuoteState::Single));
            assert(quote_removal(x.skip(3), QuoteState::Double) == quote_removal(x.skip(4), QuoteState::Bare));
            assert(quote_removal(x.skip(2), QuoteState::Double) == prepend_char(
                '\'',
                quote_removal(x.skip(3), QuoteState::Double),
            ));
            assert(quote_removal(x.skip(1), QuoteState::Bare) == quote_removal(x.skip(2), QuoteState::Double));
            assert(quote_removal(x, QuoteState::Single) == quote_removal(x.skip(1), QuoteState::Bare));
        } else {
            assert(x.skip(1) =~= tail);
        }
        match quote_removal(rest, QuoteState::Single) {
            Some(r) => assert(seq![c] + (t + r) =~= s + r),
            None => {},
        }
    }
}

/// A POSIX shell reads a quoted word back as exactly the text that was
/// quoted, with nothing left to expand.
pub proof fn lemma_shell_quote_reads_back(s: Seq<char>)
    ensures
        quote_removal(spec_shell_quote(s), QuoteState::Bare) == Some(s),
{
    let q = spec_shell_quote(s);
    let closing: Seq<char> = seq!['\''];
    lemma_single_quoted_reading(s, closing);
    assert(q.skip(1) =~= escape_single_quotes(s) + closing);
    assert(closing.skip(1) =~= Seq::<char>::empty());
    assert(quote_removal(closing.skip(1), QuoteState::Bare) == Some(Seq::<char>::empty()));
    assert(quote_removal(closing, QuoteState::Single) == Some(Seq::<char>::empty()));
    assert(s + Seq::<char>::empty() =~= s);
}

/// The plan for a prompt: the command and prompt are trimmed; an empty
/// command or prompt is an error; capture mode adds each agent's
/// non-interactive flags (Pi has none, which is an error); terminal mode runs
/// the command with the quoted prompt.
pub open spec fn spec_prompt_plan(
    preset: AgentPresetKind,
    configured_command: Seq<char>,
    prompt: Seq<char>,
    mode: PromptExecutionMode,
) -> Result<Seq<char>, Seq<char>> {
    let command = spec_trim(configured_command);
    let prompt = spec_trim(prompt);
    let quoted = spec_shell_quote(prompt);
    if command.len() == 0 {
        Err(spec_preset_label(preset) + " preset command is empty"@)
    } else if prompt.len() == 0 {
        Err("prompt cannot be empty"@)
    } else {
        match mode {
            PromptExecutionMode::CaptureOutput => match preset {
                AgentPresetKind::Claude => Ok(command + " --print "@ + quoted),
                AgentPresetKind::Codex => Ok(command + " exec "@ + quoted),
                AgentPresetKind::OpenCode => Ok(command + " run "@ + quoted),
                AgentPresetKind::Copilot => Ok(
                    command + " --allow-all-tools -p "@ + quoted + " -s"@,
                ),
                AgentPresetKind::Pi => Err(
                    spec_preset_label(preset)
                        + " does not support non-interactive prompt execution yet"@,
                ),
            },
            PromptExecutionMode::TerminalSession => Ok(command + " "@ + quoted),
        }
    }
}

/// Builds the shell command that runs `prompt` with an agent preset; see
/// [`spec_prompt_plan`].
pub fn build_prompt_execution_plan(
    preset: AgentPresetKind,
    configured_command: &str,
    prompt: &str,
    mode: PromptExecutionMode,
) -> (r: Result<PromptExecutionPlan, String>)
    ensures
        match r {
            Ok(plan) => spec_prompt_plan(preset, configured_command@, prompt@, mode) == Ok::<
                Seq<char>,
                Seq<char>,
            >(plan.shell_command@),
            Err(e) => spec_prompt_plan(preset, configured_command@, prompt@, mode) == Err::<
                Seq<char>,
                Seq<char>,
            >(e@),
        },
{
    let command = trim(configured_command);
    if command.as_str().is_empty() {
        let mut e = String::new();
        push_str(&mut e, preset.label());
        push_str(&mut e, " preset command is empty");
        return Err(e);
    }
    let prompt = trim(prompt);
    if prompt.as_str().is_empty() {
        return Err("prompt cannot be empty".to_owned());
    }
    let quoted = shell_quote(prompt.as_str());
    let mut shell_command = command;
    match mode {
        PromptExecutionMode::CaptureOutput => match preset {
            AgentPresetKind::Claude => {
                push_str(&mut shell_command, " --print ");
                push_str(&mut shell_command, quoted.as_str());
            },
            AgentPresetKind::Codex => {
                push_str(&mut shell_command, " exec ");
                push_str(&mut shell_command, quoted.as_str());
            },
            AgentPresetKind::OpenCode => {
                push_str(&mut shell_command, " run ");
                push_str(&mut shell_command, quoted.as_str());
            },
            AgentPresetKind::Copilot => {
                push_str(&mut shell_command, " --allow-all-tools -p ");
                push_str(&mut shell_command, quoted.as_str());
                push_str(&mut shell_command, " -s");
            },
            AgentPresetKind::Pi => {
                let mut e = String::new();
                push_str(&mut e, preset.label());
                push_str(&mut e, " does not support non-interactive prompt execution yet");
                return Err(e);
            },
        },
        PromptExecutionMode::TerminalSession => {
            push_str(&mut shell_command, " ");
            push_str(&mut shell_command, quoted.as_str());
        },
    }
    Ok(PromptExecutionPlan { shell_command })
}

/// The shell command that opens a prompt in a terminal session.
pub fn prompt_terminal_invocation(
    preset: AgentPresetKind,
    configured_command: &str,
    prompt: &str,
) -> (r: Result<String, String>)
    ensures
        match r {
            Ok(s) => spec_prompt_plan(
                preset,
                configured_command@,
                prompt@,
                PromptExecutionMode::TerminalSession,
            ) == Ok::<Seq<char>, Seq<char>>(s@),
            Err(e) => spec_prompt_plan(
                preset,
                configured_command@,
                prompt@,
                PromptExecutionMode::TerminalSession,
            ) == Err::<Seq<char>, Seq<char>>(e@),
        },
{
    match build_prompt_execution_plan(preset, configured_command, prompt, PromptExecutionMode::TerminalSession) {
        Ok(plan) => Ok(plan.shell_command),
        Err(e) => Err(e),
    }
}

/// What `String::from_utf8_lossy` gives for bytes.
pub uninterp spec fn utf8_lossy(bytes: Seq<u8>) -> Seq<char>;

/// Decodes bytes as UTF-8, replacing invalid sequences.
///
/// Trusted: `String::from_utf8_lossy` from std. The result is named by
/// [`utf8_lossy`]; std documents that valid UTF-8 is decoded unchanged, of
/// which the contract states the ASCII case: ASCII bytes become the same
/// characters.
#[verifier::external_body]
fn decode_utf8_lossy(bytes: &[u8]) -> (s: String)
    ensures
        s@ == utf8_lossy(bytes@),
        (forall|i: int| 0 <= i < bytes@.len() ==> bytes@[i] < 128) ==> s@ == bytes@.map_values(
            |b: u8| b as char,
        ),
{
    String::from_utf8_lossy(bytes).into_owned()
}

/// The text a captured prompt run returns: its standard output decoded and
/// trimmed, or an error naming the operation when that is empty.
pub open spec fn spec_prompt_capture_text(operation: Seq<char>, stdout: Seq<u8>) -> Result<
    Seq<char>,
    Seq<char>,
> {
    let text = spec_trim(utf8_lossy(stdout));
    if text.len() == 0 {
        Err(operation + " returned empty output"@)
    } else {
        Ok(text)
    }
}

/// Turns the standard output of a successful captured run into its result;
/// see [`spec_prompt_capture_text`].
pub fn prompt_capture_text(operation: &str, stdout: &[u8]) -> (r: Result<String, String>)
    ensures
        match r {
            Ok(s) => spec_prompt_capture_text(operation@, stdout@) == Ok::<Seq<char>, Seq<char>>(s@),
            Err(e) => spec_prompt_capture_text(operation@, stdout@) == Err::<Seq<char>, Seq<char>>(e@),
        },
{
    let decoded = decode_utf8_lossy(stdout);
    let text = trim(decoded.as_str());
    if text.as_str().is_empty() {
        let mut e = operation.to_owned();
        push_str(&mut e, " returned empty output");
        return Err(e);
    }
    Ok(text)
}

/// The error of a captured run that exited unsuccessfully: its standard
/// error decoded and trimmed, or, when that is empty, the exit status.
pub open spec fn spec_prompt_failure_message(operation: Seq<char>, stderr: Seq<u8>, status: Seq<char>) -> Seq<char> {
    let text = spec_trim(utf8_lossy(stderr));
    if text.len() == 0 {
        operation + " failed with "@ + status
    } else {
        operation + " failed: "@ + text
    }
}

/// Describes a captured run that failed; see [`spec_prompt_failure_message`].
pub fn prompt_failure_message(operation: &str, stderr: &[u8], status: &str) -> (m: String)
    ensures
        m@ == spec_prompt_failure_message(operation@, stderr@, status@),
{
    let decoded = decode_utf8_lossy(stderr);
    let text = trim(decoded.as_str());
    let mut m = operation.to_owned();
    if text.as_str().is_empty() {
        push_str(&mut m, " failed with ");
        push_str(&mut m, status);
    } else {
        push_str(&mut m, " failed: ");
        push_str(&mut m, text.as_str());
    }
    m
}

} // verus!
