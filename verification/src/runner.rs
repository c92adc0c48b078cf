//! How a step of a build is run.

use crate::config::{NixConfig, ProjectNixOverride, StepConfig};
use crate::numbers;
use crate::paths;
use crate::text;
use vstd::prelude::*;

verus! {

/// How a step ended by itself.
#[derive(Debug, Clone, Copy)]
pub struct StepOutcome {
    pub success: bool,
    /// The exit code, where there was one.
    pub code: Option<i32>,
}

/// A step was stopped on request.
#[derive(Debug, Clone, Copy)]
pub struct StepCanceled;

impl StepCanceled {
    /// The message of the error.
    pub fn message(&self) -> (res: &'static str)
        ensures
            res@ == "step canceled"@,
    {
        "step canceled"
    }
}

/// The command of a step.
#[derive(Debug, Clone)]
pub struct StepPlan {
    /// The directory that it runs in.
    pub cwd: String,
    pub program: String,
    pub args: Vec<String>,
    /// What is logged before it starts.
    pub preview: String,
}

// ---------------------------------------------------------------------------------------------
// The command
// ---------------------------------------------------------------------------------------------
/// Whether a step runs inside nix: the step decides, or else its project, or else the server.
pub open spec fn uses_nix(nix: NixConfig, project: ProjectNixOverride, step: StepConfig) -> bool {
    match (step.use_nix, project.enabled) {
        (Some(b), _) => b,
        (None, Some(b)) => b,
        (None, None) => nix.enabled,
    }
}

/// The flake: the project's, or else the server's.
pub open spec fn flake(nix: NixConfig, project: ProjectNixOverride) -> Seq<char> {
    match project.flake {
        Some(f) => f@,
        None => nix.flake@,
    }
}

/// The shell: the step's, or else the project's, or else the server's.
pub open spec fn shell(
    nix: NixConfig,
    project: ProjectNixOverride,
    step: StepConfig,
) -> Seq<char> {
    match (step.nix_shell, project.shell) {
        (Some(s), _) => s@,
        (None, Some(s)) => s@,
        (None, None) => nix.shell@,
    }
}

/// The extra arguments: the project's, or else the server's.
pub open spec fn extra_args(nix: NixConfig, project: ProjectNixOverride) -> Seq<Seq<char>> {
    match project.extra_args {
        Some(a) => text::texts(a@),
        None => text::texts(nix.extra_args@),
    }
}

/// What stands before the command of a step that runs inside nix.
pub open spec fn wrapper(
    nix: NixConfig,
    project: ProjectNixOverride,
    step: StepConfig,
) -> Seq<Seq<char>> {
    if nix.command@.len() > 0 {
        text::texts(nix.command@)
    } else {
        seq!["nix"@, "develop"@, flake(nix, project) + "#"@ + shell(nix, project, step)]
            + extra_args(nix, project) + seq!["-c"@]
    }
}

/// The words of a step's command, the program first.
pub open spec fn command_line(
    nix: NixConfig,
    project: ProjectNixOverride,
    step: StepConfig,
) -> Seq<Seq<char>> {
    let plain = seq![step.command@] + text::texts(step.args@);
    if uses_nix(nix, project, step) {
        wrapper(nix, project, step) + plain
    } else {
        plain
    }
}

/// The directory that a step runs in: its own, taken under the workspace, or the workspace.
pub open spec fn directory(step: StepConfig, workspace: Seq<char>) -> Seq<char> {
    match step.cwd {
        Some(p) => paths::joined(workspace, p@),
        None => workspace,
    }
}

/// Environment variables as they are logged.
pub open spec fn env_text(entries: Seq<(Seq<char>, Seq<char>)>) -> Seq<char>
    decreases entries.len(),
{
    if entries.len() == 0 {
        ""@
    } else {
        env_text(entries.drop_last()) + entries.last().0 + "="@ + entries.last().1 + " "@
    }
}

/// A command as it is logged.
pub open spec fn preview_text(
    entries: Seq<(Seq<char>, Seq<char>)>,
    line: Seq<Seq<char>>,
) -> Seq<char> {
    "$ "@ + env_text(entries) + line[0] + " "@ + text::joined(line.skip(1), " "@) + "\n"@
}

/// Appends copies of texts.
fn extend(out: &mut Vec<String>, more: &Vec<String>)
    ensures
        text::texts(final(out)@) == text::texts(old(out)@) + text::texts(more@),
{
    let ghost before = text::texts(out@);
    let ghost all = text::texts(more@);
    let mut i: usize = 0;
    assert(before + all.take(0) =~= before);
    while i < more.len()
        invariant
            i <= more@.len(),
            all == text::texts(more@),
            text::texts(out@) == before + all.take(i as int),
        decreases more@.len() - i,
    {
        let ghost now = text::texts(out@);
        let s = more[i].clone();
        out.push(s);
        proof {
            assert(text::texts(out@) =~= now.push(s@));
            assert(all.take(i + 1) =~= all.take(i as int).push(s@));
            assert(text::texts(out@) =~= before + all.take(i + 1));
        }
        i = i + 1;
    }
    assert(all.take(i as int) =~= all);
}

/// What stands before the command of a step that runs inside nix.
fn build_nix_wrapper(
    nix: &NixConfig,
    project_nix: &ProjectNixOverride,
    step: &StepConfig,
) -> (res: Vec<String>)
    ensures
        text::texts(res@) == wrapper(*nix, *project_nix, *step),
        res@.len() > 0,
{
    let mut argv: Vec<String> = Vec::new();
    assert(text::texts(argv@) =~= seq![]);
    if nix.command.len() > 0 {
        extend(&mut argv, &nix.command);
        assert(text::texts(argv@) =~= wrapper(*nix, *project_nix, *step));
        assert(text::texts(argv@).len() == argv@.len());
        return argv;
    }
    let flake: &str = match &project_nix.flake {
        Some(f) => f.as_str(),
        None => nix.flake.as_str(),
    };
    let shell: &str = match (&step.nix_shell, &project_nix.shell) {
        (Some(s), _) => s.as_str(),
        (None, Some(s)) => s.as_str(),
        (None, None) => nix.shell.as_str(),
    };
    let mut target = flake.to_owned();
    target.append("#");
    target.append(shell);
    argv.push("nix".to_owned());
    argv.push("develop".to_owned());
    argv.push(target);
    assert(text::texts(argv@) =~= seq![
        "nix"@,
        "develop"@,
        crate::runner::flake(*nix, *project_nix) + "#"@ + crate::runner::shell(
            *nix,
            *project_nix,
            *step,
        ),
    ]);
    match &project_nix.extra_args {
        Some(extra) => extend(&mut argv, extra),
        None => extend(&mut argv, &nix.extra_args),
    }
    let ghost before = text::texts(argv@);
    argv.push("-c".to_owned());
    assert(text::texts(argv@) =~= before + seq!["-c"@]);
    argv
}

/// Environment variables as they are logged.
fn env_preview(step: &StepConfig) -> (res: String)
    ensures
        res@ == env_text(step.env.entries()),
{
    let pairs = step.env.pairs();
    let ghost all = step.env.entries();
    let mut out = "".to_owned();
    let mut i: usize = 0;
    assert(all.take(0) =~= seq![]);
    while i < pairs.len()
        invariant
            i <= pairs@.len(),
            all == crate::config::pair_texts(pairs@),
            out@ == env_text(all.take(i as int)),
        decreases pairs@.len() - i,
    {
        proof {
            assert(all.take(i + 1).drop_last() =~= all.take(i as int));
            assert(all[i as int] == (pairs@[i as int].0@, pairs@[i as int].1@));
        }
        out.append(pairs[i].0.as_str());
        out.append("=");
        out.append(pairs[i].1.as_str());
        out.append(" ");
        i = i + 1;
    }
    assert(all.take(i as int) =~= all);
    out
}

/// The command of a step, in a workspace, under the settings of the server and of the project.
pub fn plan_step(
    step: &StepConfig,
    workspace: &str,
    nix: &NixConfig,
    project_nix: &ProjectNixOverride,
) -> (res: StepPlan)
    ensures
        res.cwd@ == directory(*step, workspace@),
        seq![res.program@] + text::texts(res.args@) == command_line(*nix, *project_nix, *step),
        res.preview@ == preview_text(
            step.env.entries(),
            command_line(*nix, *project_nix, *step),
        ),
{
    let cwd = match &step.cwd {
        Some(p) => paths::join(workspace, p.as_str()),
        None => workspace.to_owned(),
    };
    let enabled = match (step.use_nix, project_nix.enabled) {
        (Some(b), _) => b,
        (None, Some(b)) => b,
        (None, None) => nix.enabled,
    };
    let ghost line = command_line(*nix, *project_nix, *step);
    let mut args: Vec<String> = Vec::new();
    let program: String;
    assert(text::texts(args@) =~= seq![]);
    if enabled {
        let mut wrap = build_nix_wrapper(nix, project_nix, step);
        let ghost words = text::texts(wrap@);
        program = wrap.remove(0);
        proof {
            assert(text::texts(wrap@) =~= words.skip(1));
            assert(words[0] == program@);
        }
        extend(&mut args, &wrap);
        let ghost before = text::texts(args@);
        assert(before =~= words.skip(1));
        args.push(step.command.clone());
        assert(text::texts(args@) =~= before + seq![step.command@]);
        extend(&mut args, &step.args);
        assert(seq![program@] + text::texts(args@) =~= line);
    } else {
        program = step.command.clone();
        extend(&mut args, &step.args);
        assert(seq![program@] + text::texts(args@) =~= line);
    }
    assert(line[0] == program@);
    assert(line.skip(1) =~= text::texts(args@));
    let mut preview = "$ ".to_owned();
    preview.append(env_preview(step).as_str());
    preview.append(program.as_str());
    preview.append(" ");
    preview.append(text::join(&args, " ").as_str());
    preview.append("\n");
    StepPlan { cwd, program, args, preview }
}

// ---------------------------------------------------------------------------------------------
// Waiting for the step
// ---------------------------------------------------------------------------------------------
/// What happens first while a step is awaited.
#[derive(Debug, Clone, Copy)]
pub enum StepEvent {
    /// The process has ended.
    Exited { success: bool, code: Option<i32> },
    /// The step's time is up.
    TimedOut,
    /// The request to stop has changed; `stop` is what it says now.
    Signal { stop: bool },
}

/// How a step that was killed counts.
#[derive(Debug)]
pub enum StepEnd {
    /// It fails the build, with this error.
    Failed(String),
    /// It cancels the build.
    Canceled(StepCanceled),
}

/// What is to be done next.
#[derive(Debug)]
pub enum StepAction {
    /// The step has ended by itself.
    Finish(StepOutcome),
    /// Log the text, kill the process and wait for it; the step has ended.
    Kill { log: String, end: StepEnd },
    /// Wait for the process, whatever else happens.
    Wait,
}

/// What is logged when a step's time is up.
pub open spec fn timeout_log(name: Seq<char>, secs: u64) -> Seq<char> {
    "\n[timeout] step '"@ + name + "' exceeded "@ + numbers::decimal(secs as nat) + "s, killing\n"@
}

/// The error of a step whose time is up.
pub open spec fn timeout_error(name: Seq<char>, secs: u64) -> Seq<char> {
    "step '"@ + name + "' timed out after "@ + numbers::decimal(secs as nat) + "s"@
}

/// What is logged when a step is stopped on request.
pub open spec fn cancel_log(name: Seq<char>) -> Seq<char> {
    "\n[canceled] step '"@ + name + "' canceled, killing\n"@
}

/// Whether `res` is what is to be done about what happens while a step is awaited.
pub open spec fn answers_event(res: StepAction, step: StepConfig, event: StepEvent) -> bool {
    match event {
        StepEvent::Exited { success, code } => res == StepAction::Finish(
            StepOutcome { success, code },
        ),
        StepEvent::TimedOut => {
            &&& res matches StepAction::Kill { log, end: StepEnd::Failed(error) }
            &&& log@ == timeout_log(step.name@, step.timeout->0)
            &&& error@ == timeout_error(step.name@, step.timeout->0)
        },
        StepEvent::Signal { stop: true } => {
            &&& res matches StepAction::Kill { log, end: StepEnd::Canceled(_) }
            &&& log@ == cancel_log(step.name@)
        },
        StepEvent::Signal { stop: false } => res == StepAction::Wait,
    }
}

/// What is to be done about what happens while a step is awaited.
pub fn on_step_event(step: &StepConfig, event: StepEvent) -> (res: StepAction)
    requires
        event is TimedOut ==> step.timeout is Some,
    ensures
        answers_event(res, *step, event),
{
    match event {
        StepEvent::Exited { success, code } => StepAction::Finish(StepOutcome { success, code }),
        StepEvent::TimedOut => {
            let secs: u64 = step.timeout.unwrap();
            let number = numbers::decimal_text(secs);
            let mut log = "\n[timeout] step '".to_owned();
            log.append(step.name.as_str());
            log.append("' exceeded ");
            log.append(number.as_str());
            log.append("s, killing\n");
            let mut error = "step '".to_owned();
            error.append(step.name.as_str());
            error.append("' timed out after ");
            error.append(number.as_str());
            error.append("s");
            StepAction::Kill { log, end: StepEnd::Failed(error) }
        },
        StepEvent::Signal { stop } => if stop {
            let mut log = "\n[canceled] step '".to_owned();
            log.append(step.name.as_str());
            log.append("' canceled, killing\n");
            StepAction::Kill { log, end: StepEnd::Canceled(StepCanceled) }
        } else {
            StepAction::Wait
        },
    }
}

// ---------------------------------------------------------------------------------------------
// Laws
// ---------------------------------------------------------------------------------------------
/// Whether nix is used goes by the step where it says so, whatever the project and the server
/// say; and a step that is not to use nix runs as it is written.
pub proof fn law_step_decides_on_nix(
    nix: NixConfig,
    project: ProjectNixOverride,
    step: StepConfig,
)
    requires
        step.use_nix == Some(false),
    ensures
        command_line(nix, project, step) == seq![step.command@] + text::texts(step.args@),
{
}

/// The command of a step, wrapped or not, ends with the step's own command and arguments.
pub proof fn law_step_command_last(
    nix: NixConfig,
    project: ProjectNixOverride,
    step: StepConfig,
)
    ensures
        (seq![step.command@] + text::texts(step.args@)).is_suffix_of(
            command_line(nix, project, step),
        ),
{
    let plain = seq![step.command@] + text::texts(step.args@);
    let line = command_line(nix, project, step);
    assert(line.skip(line.len() - plain.len()) =~= plain);
}

/// A wrapper that is given in full is used as it is, whatever flake, shell and arguments are set.
pub proof fn law_custom_wrapper_verbatim(
    nix: NixConfig,
    project: ProjectNixOverride,
    step: StepConfig,
)
    requires
        nix.command@.len() > 0,
    ensures
        wrapper(nix, project, step) == text::texts(nix.command@),
{
}

/// The step's shell is taken before the project's, and the project's settings before the server's.
pub proof fn law_override_order(nix: NixConfig, project: ProjectNixOverride, step: StepConfig)
    ensures
        step.nix_shell matches Some(s) ==> shell(nix, project, step) == s@,
        step.nix_shell is None && project.shell is Some ==> shell(nix, project, step)
            == project.shell->0@,
        step.nix_shell is None && project.shell is None ==> shell(nix, project, step)
            == nix.shell@,
        project.flake matches Some(f) ==> flake(nix, project) == f@,
        project.extra_args matches Some(a) ==> extra_args(nix, project) == text::texts(a@),
        step.use_nix is None && project.enabled is Some ==> uses_nix(nix, project, step)
            == project.enabled->0,
{
}

/// Where a project does not override a setting, that of the server holds: its flake, its shell where
/// the step has none either, its extra arguments, and whether nix is used.
pub proof fn law_server_settings(nix: NixConfig, project: ProjectNixOverride, step: StepConfig)
    ensures
        project.flake is None ==> flake(nix, project) == nix.flake@,
        project.extra_args is None ==> extra_args(nix, project) == text::texts(nix.extra_args@),
        project.shell is None && step.nix_shell is None ==> shell(nix, project, step)
            == nix.shell@,
        project.enabled is None && step.use_nix is None ==> uses_nix(nix, project, step)
            == nix.enabled,
        step.use_nix is Some ==> uses_nix(nix, project, step) == step.use_nix->0,
{
}

/// Inside nix, without a wrapper that is given in full, the words of a command are `nix develop`, the
/// flake and the shell with `#` between them, the extra arguments, `-c`, and then the step's command
/// and its arguments. Flake and extra arguments are the project's or else the server's; the shell is
/// the step's, or else the project's, or else the server's.
pub proof fn law_words_inside_nix(
    nix: NixConfig,
    project: ProjectNixOverride,
    step: StepConfig,
    fl: Seq<char>,
    sh: Seq<char>,
    extra: Seq<String>,
)
    requires
        step.use_nix == Some(true) || (step.use_nix is None && (project.enabled == Some(true) || (
        project.enabled is None && nix.enabled))),
        nix.command@.len() == 0,
        project.flake matches Some(f) ==> fl == f@,
        project.flake is None ==> fl == nix.flake@,
        step.nix_shell matches Some(s) ==> sh == s@,
        step.nix_shell is None && project.shell is Some ==> sh == project.shell->0@,
        step.nix_shell is None && project.shell is None ==> sh == nix.shell@,
        project.extra_args matches Some(a) ==> extra == a@,
        project.extra_args is None ==> extra == nix.extra_args@,
    ensures
        ({
            let line = command_line(nix, project, step);
            let n = extra.len() as int;
            &&& line.len() == 5 + n + step.args@.len()
            &&& line[0] == "nix"@
            &&& line[1] == "develop"@
            &&& line[2] == fl + "#"@ + sh
            &&& forall|i: int| 0 <= i < n ==> line[3 + i] == #[trigger] extra[i]@
            &&& line[3 + n] == "-c"@
            &&& line[4 + n] == step.command@
            &&& forall|i: int|
                0 <= i < step.args@.len() ==> line[5 + n + i] == #[trigger] step.args@[i]@
        }),
{
    let line = command_line(nix, project, step);
    let front = seq!["nix"@, "develop"@, fl + "#"@ + sh];
    let more = text::texts(extra);
    let plain = seq![step.command@] + text::texts(step.args@);
    assert(wrapper(nix, project, step) == front + more + seq!["-c"@]);
    assert(line =~= front + more + seq!["-c"@] + plain);
    assert forall|i: int| 0 <= i < extra.len() implies line[3 + i] == #[trigger] extra[i]@ by {
        assert(more[i] == extra[i]@);
    }
    assert forall|i: int| 0 <= i < step.args@.len() implies line[5 + extra.len() + i]
        == #[trigger] step.args@[i]@ by {
        assert(text::texts(step.args@)[i] == step.args@[i]@);
    }
}

/// Inside a wrapper that is given in full, the words of a command are those of the wrapper, and then
/// the step's command and its arguments.
pub proof fn law_words_inside_wrapper(
    nix: NixConfig,
    project: ProjectNixOverride,
    step: StepConfig,
)
    requires
        step.use_nix == Some(true) || (step.use_nix is None && (project.enabled == Some(true) || (
        project.enabled is None && nix.enabled))),
        nix.command@.len() > 0,
    ensures
        ({
            let line = command_line(nix, project, step);
            let n = nix.command@.len() as int;
            &&& line.len() == n + 1 + step.args@.len()
            &&& forall|i: int| 0 <= i < n ==> line[i] == #[trigger] nix.command@[i]@
            &&& line[n] == step.command@
            &&& forall|i: int|
                0 <= i < step.args@.len() ==> line[n + 1 + i] == #[trigger] step.args@[i]@
        }),
{
    let line = command_line(nix, project, step);
    let n = nix.command@.len() as int;
    let plain = seq![step.command@] + text::texts(step.args@);
    assert(line =~= text::texts(nix.command@) + plain);
    assert forall|i: int| 0 <= i < n implies line[i] == #[trigger] nix.command@[i]@ by {
        assert(text::texts(nix.command@)[i] == nix.command@[i]@);
    }
    assert forall|i: int| 0 <= i < step.args@.len() implies line[n + 1 + i]
        == #[trigger] step.args@[i]@ by {
        assert(text::texts(step.args@)[i] == step.args@[i]@);
    }
}

/// Outside of nix, the words of a command are the step's own: its command and its arguments.
pub proof fn law_words_outside_nix(
    nix: NixConfig,
    project: ProjectNixOverride,
    step: StepConfig,
)
    requires
        step.use_nix == Some(false) || (step.use_nix is None && (project.enabled == Some(false) || (
        project.enabled is None && !nix.enabled))),
    ensures
        ({
            let line = command_line(nix, project, step);
            &&& line.len() == 1 + step.args@.len()
            &&& line[0] == step.command@
            &&& forall|i: int|
                0 <= i < step.args@.len() ==> line[1 + i] == #[trigger] step.args@[i]@
        }),
{
    let line = command_line(nix, project, step);
    assert forall|i: int| 0 <= i < step.args@.len() implies line[1 + i]
        == #[trigger] step.args@[i]@ by {
        assert(text::texts(step.args@)[i] == step.args@[i]@);
    }
}

/// A step runs in the workspace, or in its own directory: under the workspace, unless it is absolute.
pub proof fn law_directory(step: StepConfig, workspace: Seq<char>)
    requires
        workspace.len() > 0,
        workspace.last() != '/',
    ensures
        step.cwd is None ==> directory(step, workspace) == workspace,
        step.cwd matches Some(p) ==> if p@.len() > 0 && p@[0] == '/' {
            directory(step, workspace) == p@
        } else {
            directory(step, workspace) == workspace + seq!['/'] + p@
        },
{
    if let Some(p) = step.cwd {
        assert(workspace.push('/') =~= workspace + seq!['/']);
    }
}

/// A command is logged with its variables in their order, each as `name=value`, and then its words,
/// with spaces between.
pub proof fn law_command_logged(
    a: Seq<(Seq<char>, Seq<char>)>,
    b: Seq<(Seq<char>, Seq<char>)>,
    name: Seq<char>,
    value: Seq<char>,
    line: Seq<Seq<char>>,
)
    requires
        line.len() > 1,
    ensures
        env_text(a + b) == env_text(a) + env_text(b),
        env_text(seq![(name, value)]) == name + "="@ + value + " "@,
        preview_text(a, line) == "$ "@ + env_text(a) + text::joined(line, " "@) + "\n"@,
    decreases b.len(),
{
    reveal_strlit("");
    let one = seq![(name, value)];
    assert(one.drop_last() =~= seq![]);
    assert(env_text(one.drop_last()) =~= ""@);
    assert(env_text(one) =~= name + "="@ + value + " "@);
    assert(line =~= seq![line[0]] + line.skip(1));
    text::lemma_joined_both(seq![line[0]], line.skip(1), " "@);
    assert(text::joined(seq![line[0]], " "@) == line[0]);
    assert(preview_text(a, line) =~= "$ "@ + env_text(a) + text::joined(line, " "@) + "\n"@);
    if b.len() == 0 {
        assert(a + b =~= a);
        assert(env_text(a + b) =~= env_text(a) + env_text(b));
    } else {
        law_command_logged(a, b.drop_last(), name, value, line);
        assert((a + b).drop_last() =~= a + b.drop_last());
        assert((a + b).last() == b.last());
        assert(env_text(a + b) =~= env_text(a) + env_text(b));
    }
}

/// What is said of a step that is killed names it, and its time in seconds where that was up.
pub proof fn law_kills_name_the_step(name: Seq<char>, secs: u64)
    ensures
        timeout_log(name, secs) == "\n[timeout] step '"@ + name + "' exceeded "@
            + numbers::decimal(secs as nat) + "s, killing\n"@,
        timeout_error(name, secs) == "step '"@ + name + "' timed out after "@ + numbers::decimal(
            secs as nat,
        ) + "s"@,
        cancel_log(name) == "\n[canceled] step '"@ + name + "' canceled, killing\n"@,
{
}

/// A step that exits is done, as it exited. A step is killed when its time is up, which fails the
/// build, and when it is to stop, which cancels it; on nothing else.
pub proof fn law_when_steps_are_killed(res: StepAction, step: StepConfig, event: StepEvent)
    requires
        answers_event(res, step, event),
    ensures
        res is Kill <==> event is TimedOut || (event matches StepEvent::Signal { stop } && stop),
        res matches StepAction::Kill { log, end } ==> (end is Failed <==> event is TimedOut) && (end
            is Canceled <==> event is Signal) && text::holds_text(log@, step.name@),
        event matches StepEvent::Exited { success, code } ==> (res matches StepAction::Finish(o)
            && o.success == success && o.code == code),
        event is TimedOut ==> (res matches StepAction::Kill { log, end: StepEnd::Failed(e) }
            && text::holds_text(e@, step.name@) && text::holds_text(
            e@,
            numbers::decimal(step.timeout->0 as nat),
        )),
{
    broadcast use {text::lemma_holds_self, text::lemma_holds_sum};

}

} // verus!
