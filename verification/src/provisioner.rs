//! Provisioning an outpost on a remote host over SSH: the directory name, the
//! shell commands, and the decisions between them.

use vstd::prelude::*;

use crate::text::{
    chars_of, decimal, push_char, push_decimal, push_str, spec_trim, str_equal, string_from_chars,
    trim,
};

verus! {

/// A character that may stay in a directory name: ASCII letters and digits,
/// `-`, `_` and `.`.
pub open spec fn is_dir_name_char(c: char) -> bool {
    ||| ('a' <= c <= 'z')
    ||| ('A' <= c <= 'Z')
    ||| ('0' <= c <= '9')
    ||| c == '-'
    ||| c == '_'
    ||| c == '.'
}

/// The label's characters with every stretch of other characters replaced by
/// one `-`, except at the start; and whether the last character written was
/// such a replacement.
pub open spec fn sanitize_fold(chars: Seq<char>) -> (Seq<char>, bool)
    decreases chars.len(),
{
    if chars.len() == 0 {
        (seq![], false)
    } else {
        let (out, prev_dash) = sanitize_fold(chars.drop_last());
        let c = chars.last();
        if is_dir_name_char(c) {
            (out.push(c), false)
        } else if !prev_dash && out.len() > 0 {
            (out.push('-'), true)
        } else {
            (out, prev_dash)
        }
    }
}

/// `s` without its trailing `-` characters.
pub open spec fn strip_trailing_dashes(s: Seq<char>) -> Seq<char>
    decreases s.len(),
{
    if s.len() > 0 && s.last() == '-' {
        strip_trailing_dashes(s.drop_last())
    } else {
        s
    }
}

/// The directory name of an outpost label: the trimmed label with runs of
/// disallowed characters turned into single `-`, without leading replacement
/// or trailing `-`; `outpost` when nothing is left.
pub open spec fn spec_sanitize_outpost_dir_name(label: Seq<char>) -> Seq<char> {
    let out = strip_trailing_dashes(sanitize_fold(spec_trim(label)).0);
    if out.len() == 0 {
        "outpost"@
    } else {
        out
    }
}

proof fn lemma_strip_trailing_dashes(s: Seq<char>)
    ensures
        strip_trailing_dashes(s).len() <= s.len(),
        strip_trailing_dashes(s) == s.take(strip_trailing_dashes(s).len() as int),
        strip_trailing_dashes(s).len() > 0 ==> strip_trailing_dashes(s).last() != '-',
    decreases s.len(),
{
    if s.len() > 0 && s.last() == '-' {
        lemma_strip_trailing_dashes(s.drop_last());
        assert(s.drop_last().take(strip_trailing_dashes(s).len() as int) =~= s.take(
            strip_trailing_dashes(s).len() as int,
        ));
    } else {
        assert(s.take(s.len() as int) =~= s);
    }
}

proof fn lemma_sanitize_fold_chars(chars: Seq<char>)
    ensures
        forall|i: int|
            0 <= i < sanitize_fold(chars).0.len() ==> is_dir_name_char(
                #[trigger] sanitize_fold(chars).0[i],
            ),
    decreases chars.len(),
{
    if chars.len() > 0 {
        lemma_sanitize_fold_chars(chars.drop_last());
        let prev = sanitize_fold(chars.drop_last()).0;
        let cur = sanitize_fold(chars).0;
        assert forall|i: int| 0 <= i < cur.len() implies is_dir_name_char(#[trigger] cur[i]) by {
            if i < prev.len() {
                assert(cur[i] == prev[i]);
            }
        }
    }
}

/// Turns an outpost label into a safe directory name; see
/// [`spec_sanitize_outpost_dir_name`]. The name is never empty, holds only
/// ASCII letters, digits, `-`, `_` and `.`, and does not end in `-`.
pub fn sanitize_outpost_dir_name(label: &str) -> (name: String)
    ensures
        name@ == spec_sanitize_outpost_dir_name(label@),
        name@.len() > 0,
        forall|i: int| 0 <= i < name@.len() ==> is_dir_name_char(#[trigger] name@[i]),
        name@.last() != '-',
{
    let trimmed = crate::text::trim_chars(label);
    let mut out: Vec<char> = Vec::new();
    let mut prev_dash = false;
    for i in 0..trimmed.len()
        invariant
            trimmed@ == spec_trim(label@),
            sanitize_fold(trimmed@.take(i as int)) == (out@, prev_dash),
    {
        let ch = trimmed[i];
        assert(trimmed@.take(i + 1).drop_last() =~= trimmed@.take(i as int));
        if ('a' <= ch && ch <= 'z') || ('A' <= ch && ch <= 'Z') || ('0' <= ch && ch <= '9') || ch
            == '-' || ch == '_' || ch == '.' {
            out.push(ch);
            prev_dash = false;
        } else if !prev_dash && out.len() > 0 {
            out.push('-');
            prev_dash = true;
        }
    }
    assert(trimmed@.take(trimmed.len() as int) =~= trimmed@);
    proof {
        lemma_sanitize_fold_chars(trimmed@);
    }
    assert(out@ == sanitize_fold(trimmed@).0);
    let ghost folded = out@;
    while out.len() > 0 && out[out.len() - 1] == '-'
        invariant
            strip_trailing_dashes(folded) == strip_trailing_dashes(out@),
            forall|i: int| 0 <= i < out@.len() ==> is_dir_name_char(#[trigger] out@[i]),
            out@ == folded.take(out@.len() as int),
            out@.len() <= folded.len(),
        decreases out.len(),
    {
        out.pop();
        assert(out@ =~= folded.take(out@.len() as int));
    }
    proof {
        lemma_strip_trailing_dashes(folded);
    }
    if out.len() == 0 {
        let name = "outpost".to_owned();
        proof {
            reveal_strlit("outpost");
        }
        return name;
    }
    string_from_chars(out.as_slice())
}

proof fn lemma_fold_of_name_chars(s: Seq<char>)
    requires
        forall|i: int| 0 <= i < s.len() ==> is_dir_name_char(#[trigger] s[i]),
    ensures
        sanitize_fold(s).0 == s,
        s.len() > 0 ==> !sanitize_fold(s).1,
    decreases s.len(),
{
    if s.len() > 0 {
        lemma_fold_of_name_chars(s.drop_last());
        assert(s.drop_last().push(s.last()) =~= s);
    }
}

proof fn lemma_trim_of_name_chars(s: Seq<char>)
    requires
        forall|i: int| 0 <= i < s.len() ==> is_dir_name_char(#[trigger] s[i]),
    ensures
        spec_trim(s) == s,
{
    if s.len() > 0 {
        assert(!crate::text::spec_is_whitespace(s[0]));
        assert(!crate::text::spec_is_whitespace(s.last()));
        assert(crate::text::leading_ws(s) == 0);
        assert(crate::text::trailing_ws(s) == 0);
        assert(s.subrange(0, s.len() as int) =~= s);
    }
}

/// Sanitizing a directory name again leaves it unchanged.
pub proof fn lemma_sanitize_idempotent(label: Seq<char>)
    ensures
        spec_sanitize_outpost_dir_name(spec_sanitize_outpost_dir_name(label))
            == spec_sanitize_outpost_dir_name(label),
{
    let name = spec_sanitize_outpost_dir_name(label);
    let out = strip_trailing_dashes(sanitize_fold(spec_trim(label)).0);
    lemma_sanitize_fold_chars(spec_trim(label));
    lemma_strip_trailing_dashes(sanitize_fold(spec_trim(label)).0);
    if out.len() == 0 {
        reveal_strlit("outpost");
    } else {
        assert forall|i: int| 0 <= i < out.len() implies is_dir_name_char(#[trigger] out[i]) by {
            assert(out[i] == sanitize_fold(spec_trim(label)).0[i]);
        }
    }
    assert(forall|i: int| 0 <= i < name.len() ==> is_dir_name_char(#[trigger] name[i]));
    assert(name.len() > 0);
    assert(name.last() != '-');
    lemma_trim_of_name_chars(name);
    lemma_fold_of_name_chars(name);
    assert(strip_trailing_dashes(name) == name);
}

/// A character that needs a backslash inside double quotes: `$`, a backtick,
/// `"`, `\` and `!`.
pub open spec fn needs_backslash(c: char) -> bool {
    c == '$' || c == '`' || c == '"' || c == '\\' || c == '!'
}

/// `s` with a backslash before each character special inside double quotes.
pub open spec fn spec_escape_double_quote_inner(s: Seq<char>) -> Seq<char>
    decreases s.len(),
{
    if s.len() == 0 {
        seq![]
    } else {
        spec_escape_double_quote_inner(s.drop_last()) + if needs_backslash(s.last()) {
            seq!['\\', s.last()]
        } else {
            seq![s.last()]
        }
    }
}

/// Escapes the characters that are special inside double quotes.
fn escape_double_quote_inner(chars: &Vec<char>, from: usize) -> (out: String)
    requires
        from <= chars@.len(),
    ensures
        out@ == spec_escape_double_quote_inner(chars@.skip(from as int)),
{
    let mut out = String::new();
    for i in from..chars.len()
        invariant
            from <= chars@.len(),
            out@ == spec_escape_double_quote_inner(chars@.subrange(from as int, i as int)),
    {
        let ch = chars[i];
        if ch == '$' || ch == '`' || ch == '"' || ch == '\\' || ch == '!' {
            push_char(&mut out, '\\');
            push_char(&mut out, ch);
        } else {
            push_char(&mut out, ch);
        }
        assert(chars@.subrange(from as int, i + 1).drop_last() =~= chars@.subrange(from as int, i as int));
        assert(out@ =~= spec_escape_double_quote_inner(chars@.subrange(from as int, i + 1)));
    }
    assert(chars@.subrange(from as int, chars@.len() as int) =~= chars@.skip(from as int));
    out
}

/// `s` with each backslash removed and the character after it kept as it
/// is.
pub open spec fn unescape_backslashes(s: Seq<char>) -> Seq<char>
    decreases s.len(),
{
    if s.len() == 0 {
        seq![]
    } else if s[0] == '\\' && s.len() >= 2 {
        seq![s[1]] + unescape_backslashes(s.skip(2))
    } else {
        seq![s[0]] + unescape_backslashes(s.skip(1))
    }
}

/// The escaping of one character.
pub open spec fn escape_one(c: char) -> Seq<char> {
    if needs_backslash(c) {
        seq!['\\', c]
    } else {
        seq![c]
    }
}

proof fn lemma_escape_prepend(c: char, t: Seq<char>)
    ensures
        spec_escape_double_quote_inner(seq![c] + t) == escape_one(c) + spec_escape_double_quote_inner(t),
    decreases t.len(),
{
    let x = seq![c] + t;
    if t.len() == 0 {
        assert(x.drop_last() =~= Seq::<char>::empty());
        assert(spec_escape_double_quote_inner(x.drop_last()) =~= Seq::<char>::empty());
        assert(x.last() == c);
        assert(spec_escape_double_quote_inner(x) =~= escape_one(c));
        assert(spec_escape_double_quote_inner(t) =~= Seq::<char>::empty());
    } else {
        lemma_escape_prepend(c, t.drop_last());
        assert(x.drop_last() =~= seq![c] + t.drop_last());
        assert(x.last() == t.last());
        assert(spec_escape_double_quote_inner(x) =~= escape_one(c) + spec_escape_double_quote_inner(t));
    }
}

/// Escaping for double quotes can be undone: removing each backslash and
/// keeping the character after it gives back the value.
pub proof fn lemma_escape_double_quote_inner_reverses(s: Seq<char>)
    ensures
        unescape_backslashes(spec_escape_double_quote_inner(s)) == s,
    decreases s.len(),
{
    if s.len() > 0 {
        let c = s[0];
        let t = s.skip(1);
        assert(seq![c] + t =~= s);
        lemma_escape_prepend(c, t);
        lemma_escape_double_quote_inner_reverses(t);
        let e = spec_escape_double_quote_inner(t);
        if needs_backslash(c) {
            assert((escape_one(c) + e).skip(2) =~= e);
        } else {
            assert((escape_one(c) + e).skip(1) =~= e);
        }
    }
}

/// A value in double quotes for a remote shell; a leading `~/` becomes
/// `$HOME/` so that the remote shell expands it.
pub open spec fn spec_shell_escape(value: Seq<char>) -> Seq<char> {
    if value.len() >= 2 && value[0] == '~' && value[1] == '/' {
        "\"$HOME/"@ + spec_escape_double_quote_inner(value.skip(2)) + "\""@
    } else {
        "\""@ + spec_escape_double_quote_inner(value) + "\""@
    }
}

/// A shell-escaped value is one double-quoted word whose inside, with its
/// backslashes removed, is the value; a value starting with `~/` has that
/// prefix replaced by `$HOME/`.
pub proof fn lemma_shell_escape_reverses(value: Seq<char>)
    ensures
        ({
            let out = spec_shell_escape(value);
            &&& out.len() >= 2
            &&& out[0] == '"'
            &&& out.last() == '"'
            &&& if value.len() >= 2 && value[0] == '~' && value[1] == '/' {
                &&& out.subrange(1, 7) == "$HOME/"@
                &&& unescape_backslashes(out.subrange(7, out.len() - 1)) == value.skip(2)
            } else {
                unescape_backslashes(out.subrange(1, out.len() - 1)) == value
            }
        }),
{
    reveal_strlit("\"$HOME/");
    reveal_strlit("\"");
    reveal_strlit("$HOME/");
    let out = spec_shell_escape(value);
    if value.len() >= 2 && value[0] == '~' && value[1] == '/' {
        let inner = spec_escape_double_quote_inner(value.skip(2));
        lemma_escape_double_quote_inner_reverses(value.skip(2));
        assert(out.subrange(7, out.len() - 1) =~= inner);
        assert(out.subrange(1, 7) =~= "$HOME/"@);
    } else {
        let inner = spec_escape_double_quote_inner(value);
        lemma_escape_double_quote_inner_reverses(value);
        assert(out.subrange(1, out.len() - 1) =~= inner);
    }
}

/// Shell-escapes a value for a remote command; see [`spec_shell_escape`].
pub fn shell_escape(value: &str) -> (out: String)
    ensures
        out@ == spec_shell_escape(value@),
{
    let chars = chars_of(value);
    if chars.len() >= 2 && chars[0] == '~' && chars[1] == '/' {
        let rest = escape_double_quote_inner(&chars, 2);
        let mut out = "\"$HOME/".to_owned();
        push_str(&mut out, rest.as_str());
        push_str(&mut out, "\"");
        out
    } else {
        assert(chars@.skip(0) =~= chars@);
        let inner = escape_double_quote_inner(&chars, 0);
        let mut out = "\"".to_owned();
        push_str(&mut out, inner.as_str());
        push_str(&mut out, "\"");
        out
    }
}


/// What a remote command reported.
#[derive(Debug)]
pub struct RemoteCommandOutput {
    pub exit_code: Option<i32>,
    pub stdout: String,
    pub stderr: String,
}

/// Why provisioning failed: a command that ran and failed, or a failure to
/// run a command at all (passed on as the transport reported it).
#[derive(Debug)]
pub enum ProvisionError {
    Command(String),
    Transport(String),
}

/// A provisioned outpost: its path on the host, and whether an Arbor daemon
/// answers there.
#[derive(Debug)]
pub struct ProvisionResult {
    pub remote_path: String,
    pub has_remote_daemon: bool,
}

/// Everything the provisioning commands are made of.
#[derive(Debug)]
pub struct ProvisionPlan {
    pub remote_path: String,
    pub escaped_path: String,
    pub escaped_url: String,
    pub escaped_branch: String,
    pub daemon_port: Option<u16>,
}

/// The command whose outcome provisioning waits for.
#[derive(Clone, Copy, Debug, PartialEq, Eq, Structural)]
pub enum ProvisionStage {
    CreatingDirectory,
    CheckingClone,
    Cloning,
    CheckingOut,
    DetectingDaemon,
}

/// What to do next: run a remote command (with SSH agent forwarding, for the
/// clone), or finish.
#[derive(Debug)]
pub enum ProvisionNext {
    Run { command: String, agent_forwarding: bool },
    Finish(Result<ProvisionResult, ProvisionError>),
}

/// One step of provisioning: a progress message to show, if any, the stage
/// whose outcome comes next, and the next action.
#[derive(Debug)]
pub struct ProvisionStep {
    pub progress: Option<String>,
    pub stage: ProvisionStage,
    pub next: ProvisionNext,
}

/// Mathematical value of a provisioning error.
pub enum ProvisionErrorView {
    Command(Seq<char>),
    Transport(Seq<char>),
}

/// Mathematical value of a next action; a finished run carries the remote
/// path and whether a daemon answered.
pub enum ProvisionNextView {
    Run { command: Seq<char>, agent_forwarding: bool },
    Finish(Result<(Seq<char>, bool), ProvisionErrorView>),
}

/// Mathematical value of a step.
pub struct ProvisionStepView {
    pub progress: Option<Seq<char>>,
    pub stage: ProvisionStage,
    pub next: ProvisionNextView,
}

impl DeepView for ProvisionStep {
    type V = ProvisionStepView;

    open spec fn deep_view(&self) -> ProvisionStepView {
        ProvisionStepView {
            progress: match self.progress {
                Some(p) => Some(p@),
                None => None,
            },
            stage: self.stage,
            next: match self.next {
                ProvisionNext::Run { command, agent_forwarding } => ProvisionNextView::Run {
                    command: command@,
                    agent_forwarding,
                },
                ProvisionNext::Finish(Ok(r)) => ProvisionNextView::Finish(
                    Ok((r.remote_path@, r.has_remote_daemon)),
                ),
                ProvisionNext::Finish(Err(ProvisionError::Command(e))) => ProvisionNextView::Finish(
                    Err(ProvisionErrorView::Command(e@)),
                ),
                ProvisionNext::Finish(Err(ProvisionError::Transport(e))) => ProvisionNextView::Finish(
                    Err(ProvisionErrorView::Transport(e@)),
                ),
            },
        }
    }
}

/// The plan of an outpost: its path is the host's base path, `/`, and the
/// sanitized label; path, clone URL and branch are shell-escaped.
pub fn provision_plan(
    remote_base_path: &str,
    clone_url: &str,
    outpost_label: &str,
    branch: &str,
    daemon_port: Option<u16>,
) -> (plan: ProvisionPlan)
    ensures
        plan.remote_path@ == remote_base_path@ + "/"@ + spec_sanitize_outpost_dir_name(outpost_label@),
        plan.escaped_path@ == spec_shell_escape(plan.remote_path@),
        plan.escaped_url@ == spec_shell_escape(clone_url@),
        plan.escaped_branch@ == spec_shell_escape(branch@),
        plan.daemon_port == daemon_port,
{
    let dir_name = sanitize_outpost_dir_name(outpost_label);
    let mut remote_path = remote_base_path.to_owned();
    push_str(&mut remote_path, "/");
    push_str(&mut remote_path, dir_name.as_str());
    let escaped_path = shell_escape(remote_path.as_str());
    let escaped_url = shell_escape(clone_url);
    let escaped_branch = shell_escape(branch);
    ProvisionPlan { remote_path, escaped_path, escaped_url, escaped_branch, daemon_port }
}

/// `mkdir -p <path>`.
pub open spec fn mkdir_command(p: Seq<char>) -> Seq<char> {
    "mkdir -p "@ + p
}

/// Prints `exists` when the directory already holds a git checkout.
pub open spec fn check_clone_command(p: Seq<char>) -> Seq<char> {
    "test -d "@ + p + "/.git && echo exists"@
}

/// Clones the repository, with SSH not reading the user's configuration.
pub open spec fn clone_command(url: Seq<char>, p: Seq<char>) -> Seq<char> {
    "GIT_SSH_COMMAND='ssh -F /dev/null' git clone "@ + url + " "@ + p
}

/// Switches to the branch, creating it when it does not exist.
pub open spec fn checkout_command(p: Seq<char>, b: Seq<char>) -> Seq<char> {
    "cd "@ + p + " && git checkout "@ + b + " 2>/dev/null || git checkout -b "@ + b
}

/// Prints `ok` when the daemon answers on the port.
pub open spec fn daemon_check_command(port: u16) -> Seq<char> {
    "curl -sf http://127.0.0.1:"@ + decimal(port as nat) + "/api/sessions > /dev/null 2>&1 && echo ok"@
}

/// The first step: announce the directory creation and create it.
pub open spec fn spec_provision_start(escaped_path: Seq<char>) -> ProvisionStepView {
    ProvisionStepView {
        progress: Some("Creating remote directory…"@),
        stage: ProvisionStage::CreatingDirectory,
        next: ProvisionNextView::Run { command: mkdir_command(escaped_path), agent_forwarding: false },
    }
}

/// The step after the checkout succeeded: announce daemon detection, then ask
/// the daemon when the host has a daemon port, or finish without one.
pub open spec fn after_checkout(remote_path: Seq<char>, daemon_port: Option<u16>) -> ProvisionStepView {
    match daemon_port {
        Some(port) => ProvisionStepView {
            progress: Some("Detecting remote daemon…"@),
            stage: ProvisionStage::DetectingDaemon,
            next: ProvisionNextView::Run { command: daemon_check_command(port), agent_forwarding: false },
        },
        None => ProvisionStepView {
            progress: Some("Detecting remote daemon…"@),
            stage: ProvisionStage::DetectingDaemon,
            next: ProvisionNextView::Finish(Ok((remote_path, false))),
        },
    }
}

/// The step that runs the checkout.
pub open spec fn run_checkout(p: Seq<char>, b: Seq<char>) -> ProvisionStepView {
    ProvisionStepView {
        progress: Some("Checking out branch…"@),
        stage: ProvisionStage::CheckingOut,
        next: ProvisionNextView::Run { command: checkout_command(p, b), agent_forwarding: false },
    }
}

/// A finished step.
pub open spec fn finished(stage: ProvisionStage, r: Result<(Seq<char>, bool), ProvisionErrorView>) -> ProvisionStepView {
    ProvisionStepView { progress: None, stage, next: ProvisionNextView::Finish(r) }
}

/// The step after the outcome of the command of `stage`. A command that could
/// not run ends provisioning with its error, except the daemon check, which
/// then reports no daemon. Creating the directory, cloning and checking out
/// must exit with status 0, else provisioning ends with the command's
/// standard error. The clone is skipped when the check prints `exists`. The
/// daemon answers when its check prints `ok`.
pub open spec fn spec_provision_advance(
    remote_path: Seq<char>,
    escaped_path: Seq<char>,
    escaped_url: Seq<char>,
    escaped_branch: Seq<char>,
    daemon_port: Option<u16>,
    stage: ProvisionStage,
    outcome: Result<(Option<i32>, Seq<char>, Seq<char>), Seq<char>>,
) -> ProvisionStepView {
    match outcome {
        Err(e) => match stage {
            ProvisionStage::DetectingDaemon => finished(stage, Ok((remote_path, false))),
            _ => finished(stage, Err(ProvisionErrorView::Transport(e))),
        },
        Ok((exit_code, stdout, stderr)) => match stage {
            ProvisionStage::CreatingDirectory => if exit_code != Some(0i32) {
                finished(
                    stage,
                    Err(ProvisionErrorView::Command("failed to create remote directory: "@ + stderr)),
                )
            } else {
                ProvisionStepView {
                    progress: None,
                    stage: ProvisionStage::CheckingClone,
                    next: ProvisionNextView::Run {
                        command: check_clone_command(escaped_path),
                        agent_forwarding: false,
                    },
                }
            },
            ProvisionStage::CheckingClone => if spec_trim(stdout) == "exists"@ {
                run_checkout(escaped_path, escaped_branch)
            } else {
                ProvisionStepView {
                    progress: Some("Cloning repository…"@),
                    stage: ProvisionStage::Cloning,
                    next: ProvisionNextView::Run {
                        command: clone_command(escaped_url, escaped_path),
                        agent_forwarding: true,
                    },
                }
            },
            ProvisionStage::Cloning => if exit_code != Some(0i32) {
                finished(stage, Err(ProvisionErrorView::Command("git clone failed: "@ + stderr)))
            } else {
                run_checkout(escaped_path, escaped_branch)
            },
            ProvisionStage::CheckingOut => if exit_code != Some(0i32) {
                finished(stage, Err(ProvisionErrorView::Command("branch checkout failed: "@ + stderr)))
            } else {
                after_checkout(remote_path, daemon_port)
            },
            ProvisionStage::DetectingDaemon => finished(
                stage,
                Ok((remote_path, spec_trim(stdout) == "ok"@)),
            ),
        },
    }
}

/// Starts provisioning; see [`spec_provision_start`].
pub fn provision_start(plan: &ProvisionPlan) -> (step: ProvisionStep)
    ensures
        step.deep_view() == spec_provision_start(plan.escaped_path@),
{
    let mut command = "mkdir -p ".to_owned();
    push_str(&mut command, plan.escaped_path.as_str());
    ProvisionStep {
        progress: Some("Creating remote directory…".to_owned()),
        stage: ProvisionStage::CreatingDirectory,
        next: ProvisionNext::Run { command, agent_forwarding: false },
    }
}

fn command_failure(prefix: &str, stderr: &String) -> (e: ProvisionError)
    ensures
        e matches ProvisionError::Command(m) && m@ == prefix@ + stderr@,
{
    let mut m = prefix.to_owned();
    push_str(&mut m, stderr.as_str());
    ProvisionError::Command(m)
}

fn checkout_step(plan: &ProvisionPlan) -> (step: ProvisionStep)
    ensures
        step.deep_view() == run_checkout(plan.escaped_path@, plan.escaped_branch@),
{
    let mut command = "cd ".to_owned();
    push_str(&mut command, plan.escaped_path.as_str());
    push_str(&mut command, " && git checkout ");
    push_str(&mut command, plan.escaped_branch.as_str());
    push_str(&mut command, " 2>/dev/null || git checkout -b ");
    push_str(&mut command, plan.escaped_branch.as_str());
    ProvisionStep {
        progress: Some("Checking out branch…".to_owned()),
        stage: ProvisionStage::CheckingOut,
        next: ProvisionNext::Run { command, agent_forwarding: false },
    }
}

/// Advances provisioning with the outcome of the current stage's command;
/// see [`spec_provision_advance`].
pub fn provision_advance(
    plan: &ProvisionPlan,
    stage: ProvisionStage,
    outcome: Result<RemoteCommandOutput, String>,
) -> (step: ProvisionStep)
    ensures
        step.deep_view() == spec_provision_advance(
            plan.remote_path@,
            plan.escaped_path@,
            plan.escaped_url@,
            plan.escaped_branch@,
            plan.daemon_port,
            stage,
            match outcome {
                Ok(o) => Ok((o.exit_code, o.stdout@, o.stderr@)),
                Err(e) => Err(e@),
            },
        ),
{
    let output = match outcome {
        Err(e) => {
            let next = match stage {
                ProvisionStage::DetectingDaemon => ProvisionNext::Finish(
                    Ok(ProvisionResult { remote_path: plan.remote_path.clone(), has_remote_daemon: false }),
                ),
                _ => ProvisionNext::Finish(Err(ProvisionError::Transport(e))),
            };
            return ProvisionStep { progress: None, stage, next };
        },
        Ok(o) => o,
    };
    let succeeded = match output.exit_code {
        Some(code) => code == 0,
        None => false,
    };
    match stage {
        ProvisionStage::CreatingDirectory => {
            if !succeeded {
                let e = command_failure("failed to create remote directory: ", &output.stderr);
                return ProvisionStep { progress: None, stage, next: ProvisionNext::Finish(Err(e)) };
            }
            let mut command = "test -d ".to_owned();
            push_str(&mut command, plan.escaped_path.as_str());
            push_str(&mut command, "/.git && echo exists");
            ProvisionStep {
                progress: None,
                stage: ProvisionStage::CheckingClone,
                next: ProvisionNext::Run { command, agent_forwarding: false },
            }
        },
        ProvisionStage::CheckingClone => {
            let answer = trim(output.stdout.as_str());
            if str_equal(answer.as_str(), "exists") {
                return checkout_step(plan);
            }
            let mut command = "GIT_SSH_COMMAND='ssh -F /dev/null' git clone ".to_owned();
            push_str(&mut command, plan.escaped_url.as_str());
            push_str(&mut command, " ");
            push_str(&mut command, plan.escaped_path.as_str());
            ProvisionStep {
                progress: Some("Cloning repository…".to_owned()),
                stage: ProvisionStage::Cloning,
                next: ProvisionNext::Run { command, agent_forwarding: true },
            }
        },
        ProvisionStage::Cloning => {
            if !succeeded {
                let e = command_failure("git clone failed: ", &output.stderr);
                return ProvisionStep { progress: None, stage, next: ProvisionNext::Finish(Err(e)) };
            }
            checkout_step(plan)
        },
        ProvisionStage::CheckingOut => {
            if !succeeded {
                let e = command_failure("branch checkout failed: ", &output.stderr);
                return ProvisionStep { progress: None, stage, next: ProvisionNext::Finish(Err(e)) };
            }
            let progress = Some("Detecting remote daemon…".to_owned());
            match plan.daemon_port {
                Some(port) => {
                    let mut command = "curl -sf http://127.0.0.1:".to_owned();
                    push_decimal(&mut command, port as u64);
                    push_str(&mut command, "/api/sessions > /dev/null 2>&1 && echo ok");
                    ProvisionStep {
                        progress,
                        stage: ProvisionStage::DetectingDaemon,
                        next: ProvisionNext::Run { command, agent_forwarding: false },
                    }
                },
                None => ProvisionStep {
                    progress,
                    stage: ProvisionStage::DetectingDaemon,
                    next: ProvisionNext::Finish(
                        Ok(ProvisionResult { remote_path: plan.remote_path.clone(), has_remote_daemon: false }),
                    ),
                },
            }
        },
        ProvisionStage::DetectingDaemon => {
            let answer = trim(output.stdout.as_str());
            let has_remote_daemon = str_equal(answer.as_str(), "ok");
            ProvisionStep {
                progress: None,
                stage,
                next: ProvisionNext::Finish(
                    Ok(ProvisionResult { remote_path: plan.remote_path.clone(), has_remote_daemon }),
                ),
            }
        },
    }
}


/// How far provisioning has got: the stages in the order they run.
pub open spec fn stage_rank(stage: ProvisionStage) -> int {
    match stage {
        ProvisionStage::CreatingDirectory => 0,
        ProvisionStage::CheckingClone => 1,
        ProvisionStage::Cloning => 2,
        ProvisionStage::CheckingOut => 3,
        ProvisionStage::DetectingDaemon => 4,
    }
}

/// Provisioning always ends: every step after a command's outcome either
/// finishes or waits on a later stage, so at most five commands run.
pub proof fn lemma_provision_progresses(
    remote_path: Seq<char>,
    escaped_path: Seq<char>,
    escaped_url: Seq<char>,
    escaped_branch: Seq<char>,
    daemon_port: Option<u16>,
    stage: ProvisionStage,
    outcome: Result<(Option<i32>, Seq<char>, Seq<char>), Seq<char>>,
)
    ensures
        ({
            let step = spec_provision_advance(
                remote_path,
                escaped_path,
                escaped_url,
                escaped_branch,
                daemon_port,
                stage,
                outcome,
            );
            step.next is Finish || stage_rank(step.stage) > stage_rank(stage)
        }),
        stage == ProvisionStage::DetectingDaemon ==> spec_provision_advance(
            remote_path,
            escaped_path,
            escaped_url,
            escaped_branch,
            daemon_port,
            stage,
            outcome,
        ).next is Finish,
{
}

/// A provisioning run that succeeds reports the plan's remote path itself
/// (the base path, `/`, and the sanitized label, not its shell-escaped form),
/// whatever the stage, the outcome and the daemon port.
pub proof fn lemma_provision_reports_remote_path(
    remote_path: Seq<char>,
    escaped_path: Seq<char>,
    escaped_url: Seq<char>,
    escaped_branch: Seq<char>,
    daemon_port: Option<u16>,
    stage: ProvisionStage,
    outcome: Result<(Option<i32>, Seq<char>, Seq<char>), Seq<char>>,
)
    ensures
        spec_provision_advance(
            remote_path,
            escaped_path,
            escaped_url,
            escaped_branch,
            daemon_port,
            stage,
            outcome,
        ).next matches ProvisionNextView::Finish(Ok((path, _))) ==> path == remote_path,
{
}

} // verus!
