use arbor::prompt_runner::{
    build_prompt_execution_plan, prompt_capture_text, prompt_failure_message,
    prompt_terminal_invocation, shell_quote,
    AgentPresetKind, PromptExecutionMode,
};

#[test]
fn codex_capture_plan_uses_exec_mode() {
    let plan = build_prompt_execution_plan(
        AgentPresetKind::Codex,
        "codex --model gpt-5",
        "summarize the diff",
        PromptExecutionMode::CaptureOutput,
    )
    .unwrap_or_else(|error| panic!("plan should build: {error}"));

    assert!(plan.shell_command.contains("codex --model gpt-5 exec "));
}

#[test]
fn pi_capture_plan_is_not_supported() {
    let error = build_prompt_execution_plan(
        AgentPresetKind::Pi,
        "pi",
        "summarize the diff",
        PromptExecutionMode::CaptureOutput,
    )
    .err()
    .unwrap_or_else(|| panic!("pi capture should be unsupported"));

    assert!(error.contains("Pi does not support non-interactive prompt execution yet"));
}

#[test]
fn copilot_capture_plan_uses_prompt_and_silent_flags() {
    let plan = build_prompt_execution_plan(
        AgentPresetKind::Copilot,
        "copilot --model gpt-5.2",
        "summarize the diff",
        PromptExecutionMode::CaptureOutput,
    )
    .unwrap_or_else(|error| panic!("plan should build: {error}"));

    assert!(plan.shell_command.contains("copilot --model gpt-5.2 --allow-all-tools -p "));
    assert!(plan.shell_command.ends_with(" -s"));
}

#[test]
fn terminal_plan_quotes_prompt() {
    let plan = build_prompt_execution_plan(
        AgentPresetKind::Claude,
        "agent --dangerously-skip-permissions",
        "review branch named it's-ready",
        PromptExecutionMode::TerminalSession,
    )
    .unwrap_or_else(|error| panic!("plan should build: {error}"));

    assert!(plan.shell_command.contains("agent --dangerously-skip-permissions "));
    assert!(plan.shell_command.contains("it'\"'\"'s-ready"));
}

#[test]
fn blank_command_is_rejected_with_the_preset_name() {
    let error = build_prompt_execution_plan(
        AgentPresetKind::Codex,
        "   ",
        "summarize the diff",
        PromptExecutionMode::CaptureOutput,
    )
    .err()
    .unwrap_or_else(|| panic!("blank command should be rejected"));
    assert_eq!(error, "Codex preset command is empty");
}

#[test]
fn blank_prompt_is_rejected() {
    let error = build_prompt_execution_plan(
        AgentPresetKind::OpenCode,
        "opencode",
        " \n\t",
        PromptExecutionMode::TerminalSession,
    )
    .err()
    .unwrap_or_else(|| panic!("blank prompt should be rejected"));
    assert_eq!(error, "prompt cannot be empty");
}

#[test]
fn capture_plans_add_each_agents_flags() {
    let plan = |preset| {
        build_prompt_execution_plan(preset, "  tool  ", " fix it ", PromptExecutionMode::CaptureOutput)
            .unwrap_or_else(|error| panic!("plan should build: {error}"))
            .shell_command
    };
    assert_eq!(plan(AgentPresetKind::Claude), "tool --print 'fix it'");
    assert_eq!(plan(AgentPresetKind::Codex), "tool exec 'fix it'");
    assert_eq!(plan(AgentPresetKind::OpenCode), "tool run 'fix it'");
    assert_eq!(plan(AgentPresetKind::Copilot), "tool --allow-all-tools -p 'fix it' -s");
}

#[test]
fn pi_runs_in_a_terminal_session() {
    let invocation = prompt_terminal_invocation(AgentPresetKind::Pi, " pi ", "go")
        .unwrap_or_else(|error| panic!("terminal invocation should build: {error}"));
    assert_eq!(invocation, "pi 'go'");
}

#[test]
fn shell_quote_wraps_and_escapes_single_quotes() {
    assert_eq!(shell_quote(""), "''");
    assert_eq!(shell_quote("a b"), "'a b'");
    assert_eq!(shell_quote("it's"), "'it'\"'\"'s'");
    assert_eq!(shell_quote("$HOME"), "'$HOME'");
}

#[test]
fn captured_output_is_decoded_and_trimmed() {
    assert_eq!(prompt_capture_text("Summary", b"  done \n"), Ok("done".to_owned()));
    assert_eq!(prompt_capture_text("Summary", b"\xffok"), Ok("\u{FFFD}ok".to_owned()));
}

#[test]
fn blank_captured_output_is_an_error() {
    assert_eq!(
        prompt_capture_text("Summary", b" \n\t"),
        Err("Summary returned empty output".to_owned())
    );
}

#[test]
fn preset_labels() {
    assert_eq!(AgentPresetKind::Codex.label(), "Codex");
    assert_eq!(AgentPresetKind::Copilot.label(), "Copilot");
    assert_eq!(AgentPresetKind::Pi.label(), "Pi");
}

#[test]
fn quoted_words_read_back_as_the_quoted_text() {
    fn read_back(word: &str) -> String {
        let mut out = String::new();
        let mut quote: Option<char> = None;
        for c in word.chars() {
            match quote {
                None => {
                    assert!(c == '\'' || c == '"', "unquoted character {c:?}");
                    quote = Some(c);
                },
                Some(q) if q == c => quote = None,
                Some(_) => out.push(c),
            }
        }
        assert!(quote.is_none());
        out
    }
    for text in ["", "it's", "''", "a \"b\" $c", "review branch named it's-ready"] {
        assert_eq!(read_back(&shell_quote(text)), text);
    }
}

#[test]
fn failure_message_prefers_standard_error() {
    assert_eq!(
        prompt_failure_message("Summary", b"  boom \n", "exit status: 1"),
        "Summary failed: boom"
    );
    assert_eq!(
        prompt_failure_message("Summary", b" \n", "exit status: 2"),
        "Summary failed with exit status: 2"
    );
}
