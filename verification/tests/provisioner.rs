use arbor::provisioner::{
    provision_advance, provision_plan, provision_start, sanitize_outpost_dir_name, shell_escape,
    ProvisionError, ProvisionNext, ProvisionPlan, ProvisionStage, RemoteCommandOutput,
};

fn output(exit_code: Option<i32>, stdout: &str, stderr: &str) -> RemoteCommandOutput {
    RemoteCommandOutput {
        exit_code,
        stdout: stdout.to_owned(),
        stderr: stderr.to_owned(),
    }
}

fn plan(daemon_port: Option<u16>) -> ProvisionPlan {
    provision_plan("~/arbor", "git@github.com:me/repo.git", "Fix bug #12", "fix/bug", daemon_port)
}

fn command(next: &ProvisionNext) -> &str {
    match next {
        ProvisionNext::Run { command, .. } => command,
        ProvisionNext::Finish(_) => panic!("expected a command"),
    }
}

#[test]
fn sanitize_replaces_unsafe_characters_with_single_dashes() {
    assert_eq!(sanitize_outpost_dir_name("  Fix bug #12  "), "Fix-bug-12");
    assert_eq!(sanitize_outpost_dir_name("a  b//c"), "a-b-c");
    assert_eq!(sanitize_outpost_dir_name("release_1.2-rc"), "release_1.2-rc");
}

#[test]
fn sanitize_drops_leading_and_trailing_separators() {
    assert_eq!(sanitize_outpost_dir_name("!!hello!!"), "hello");
    assert_eq!(sanitize_outpost_dir_name("name---"), "name");
}

#[test]
fn sanitize_falls_back_to_outpost() {
    assert_eq!(sanitize_outpost_dir_name(""), "outpost");
    assert_eq!(sanitize_outpost_dir_name("   "), "outpost");
    assert_eq!(sanitize_outpost_dir_name("***"), "outpost");
    assert_eq!(sanitize_outpost_dir_name("---"), "outpost");
}

#[test]
fn sanitize_is_idempotent_on_examples() {
    for label in ["  Fix bug #12  ", "***", "a--b", "ünïcödé name"] {
        let once = sanitize_outpost_dir_name(label);
        assert_eq!(sanitize_outpost_dir_name(&once), once);
    }
}

#[test]
fn shell_escape_expands_home_and_escapes_specials() {
    assert_eq!(shell_escape("~/code/repo"), "\"$HOME/code/repo\"");
    assert_eq!(shell_escape("/srv/a b"), "\"/srv/a b\"");
    assert_eq!(shell_escape("a$b`c\"d\\e!f"), "\"a\\$b\\`c\\\"d\\\\e\\!f\"");
    assert_eq!(shell_escape("~"), "\"~\"");
}

#[test]
fn plan_joins_base_path_and_sanitized_label() {
    let plan = plan(None);
    assert_eq!(plan.remote_path, "~/arbor/Fix-bug-12");
    assert_eq!(plan.escaped_path, "\"$HOME/arbor/Fix-bug-12\"");
    assert_eq!(plan.escaped_url, "\"git@github.com:me/repo.git\"");
    assert_eq!(plan.escaped_branch, "\"fix/bug\"");
}

#[test]
fn provisioning_clones_when_not_yet_cloned() {
    let plan = plan(Some(8787));
    let step = provision_start(&plan);
    assert_eq!(step.progress.as_deref(), Some("Creating remote directory…"));
    assert_eq!(command(&step.next), "mkdir -p \"$HOME/arbor/Fix-bug-12\"");

    let step = provision_advance(&plan, step.stage, Ok(output(Some(0), "", "")));
    assert_eq!(step.stage, ProvisionStage::CheckingClone);
    assert_eq!(command(&step.next), "test -d \"$HOME/arbor/Fix-bug-12\"/.git && echo exists");

    let step = provision_advance(&plan, step.stage, Ok(output(Some(1), "", "")));
    assert_eq!(step.stage, ProvisionStage::Cloning);
    assert_eq!(step.progress.as_deref(), Some("Cloning repository…"));
    match &step.next {
        ProvisionNext::Run { command, agent_forwarding } => {
            assert_eq!(
                command,
                "GIT_SSH_COMMAND='ssh -F /dev/null' git clone \"git@github.com:me/repo.git\" \"$HOME/arbor/Fix-bug-12\""
            );
            assert!(agent_forwarding);
        },
        ProvisionNext::Finish(_) => panic!("expected clone"),
    }

    let step = provision_advance(&plan, step.stage, Ok(output(Some(0), "", "")));
    assert_eq!(step.stage, ProvisionStage::CheckingOut);
    assert_eq!(step.progress.as_deref(), Some("Checking out branch…"));
    assert_eq!(
        command(&step.next),
        "cd \"$HOME/arbor/Fix-bug-12\" && git checkout \"fix/bug\" 2>/dev/null || git checkout -b \"fix/bug\""
    );

    let step = provision_advance(&plan, step.stage, Ok(output(Some(0), "", "")));
    assert_eq!(step.stage, ProvisionStage::DetectingDaemon);
    assert_eq!(step.progress.as_deref(), Some("Detecting remote daemon…"));
    assert_eq!(
        command(&step.next),
        "curl -sf http://127.0.0.1:8787/api/sessions > /dev/null 2>&1 && echo ok"
    );

    let step = provision_advance(&plan, step.stage, Ok(output(Some(0), " ok\n", "")));
    match step.next {
        ProvisionNext::Finish(Ok(result)) => {
            assert_eq!(result.remote_path, "~/arbor/Fix-bug-12");
            assert!(result.has_remote_daemon);
        },
        _ => panic!("expected success"),
    }
}

#[test]
fn provisioning_skips_clone_of_existing_checkout() {
    let plan = plan(None);
    let step = provision_advance(&plan, ProvisionStage::CheckingClone, Ok(output(Some(0), "exists\n", "")));
    assert_eq!(step.stage, ProvisionStage::CheckingOut);
    let step = provision_advance(&plan, step.stage, Ok(output(Some(0), "", "")));
    assert_eq!(step.progress.as_deref(), Some("Detecting remote daemon…"));
    match step.next {
        ProvisionNext::Finish(Ok(result)) => assert!(!result.has_remote_daemon),
        _ => panic!("expected success without a daemon port"),
    }
}

#[test]
fn provisioning_reports_command_failures() {
    let plan = plan(None);
    let cases = [
        (ProvisionStage::CreatingDirectory, "failed to create remote directory: denied"),
        (ProvisionStage::Cloning, "git clone failed: denied"),
        (ProvisionStage::CheckingOut, "branch checkout failed: denied"),
    ];
    for (stage, message) in cases {
        let step = provision_advance(&plan, stage, Ok(output(Some(128), "", "denied")));
        match step.next {
            ProvisionNext::Finish(Err(ProvisionError::Command(m))) => assert_eq!(m, message),
            _ => panic!("expected a command failure"),
        }
        let step = provision_advance(&plan, stage, Ok(output(None, "", "denied")));
        assert!(matches!(step.next, ProvisionNext::Finish(Err(ProvisionError::Command(_)))));
    }
}

#[test]
fn provisioning_passes_transport_errors_on() {
    let plan = plan(Some(1));
    let step = provision_advance(&plan, ProvisionStage::CheckingClone, Err("connection reset".to_owned()));
    match step.next {
        ProvisionNext::Finish(Err(ProvisionError::Transport(m))) => assert_eq!(m, "connection reset"),
        _ => panic!("expected a transport error"),
    }
    let step = provision_advance(&plan, ProvisionStage::DetectingDaemon, Err("timeout".to_owned()));
    match step.next {
        ProvisionNext::Finish(Ok(result)) => assert!(!result.has_remote_daemon),
        _ => panic!("a failed daemon check means no daemon"),
    }
    let step = provision_advance(&plan, ProvisionStage::DetectingDaemon, Ok(output(Some(7), "nope", "")));
    match step.next {
        ProvisionNext::Finish(Ok(result)) => assert!(!result.has_remote_daemon),
        _ => panic!("expected success"),
    }
}

fn unescape_backslashes(s: &str) -> String {
    let mut out = String::new();
    let mut chars = s.chars();
    while let Some(c) = chars.next() {
        if c == '\\' {
            if let Some(next) = chars.next() {
                out.push(next);
                continue;
            }
        }
        out.push(c);
    }
    out
}

#[test]
fn shell_escape_can_be_undone() {
    for value in ["plain", "a$b`c\"d\\e!f", "\\\\", "spaces and 'quotes'", "ends with \\"] {
        let escaped = shell_escape(value);
        assert!(escaped.starts_with('"') && escaped.ends_with('"'));
        assert_eq!(unescape_backslashes(&escaped[1..escaped.len() - 1]), value);
    }
    let escaped = shell_escape("~/x$y");
    assert_eq!(unescape_backslashes(&escaped["\"$HOME/".len()..escaped.len() - 1]), "x$y");
}
