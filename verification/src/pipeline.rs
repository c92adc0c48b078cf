//! How a build goes on: it waits for its turn, brings its workspace up to date, runs its steps one
//! after the other, keeps its artifacts and ends.

use crate::config::{
    ArtifactConfig, ProjectBuildConfig, ProjectConfig, ProjectNixOverride, StepConfig,
};
use crate::git::{self, exit_code_text};
use crate::numbers;
use crate::runner::{StepCanceled, StepOutcome};
use crate::state::{self, ArtifactRef, BuildState, BuildStatus, BuildView};
use crate::text::{self, CharClass};
use crate::time::Timestamp;
use vstd::prelude::*;

verus! {

// ---------------------------------------------------------------------------------------------
// The order of a build
// ---------------------------------------------------------------------------------------------
/// What a build is at.
#[derive(Debug, Clone, Copy, PartialEq, Eq, Structural)]
pub enum Stage {
    /// It waits for its turn.
    Wait,
    /// It brings its workspace up to date.
    Sync,
    /// It finds out how the project is built.
    Configure,
    /// It runs the step of this index.
    Step(usize),
    /// It looks at the commit that the workspace is at behind the steps.
    Inspect,
    /// It keeps its artifacts.
    Collect,
    /// It becomes the latest build of its project.
    Link,
    Succeeded,
    Failed,
    Canceled,
}

/// How a part of a build went.
#[derive(Debug, Clone, Copy, PartialEq, Eq, Structural)]
pub enum Outcome {
    Good,
    Bad,
    /// It was stopped on request.
    Stopped,
}

impl Stage {
    /// Whether the build has ended.
    pub open spec fn over(self) -> bool {
        self == Stage::Succeeded || self == Stage::Failed || self == Stage::Canceled
    }

    /// What comes after this, in a build of the given number of steps.
    pub open spec fn next(self, steps: nat, outcome: Outcome) -> Stage {
        if self.over() {
            self
        } else {
            match outcome {
                Outcome::Bad => Stage::Failed,
                Outcome::Stopped => Stage::Canceled,
                Outcome::Good => match self {
                    Stage::Wait => Stage::Sync,
                    Stage::Sync => Stage::Configure,
                    Stage::Configure => if steps == 0 {
                        Stage::Inspect
                    } else {
                        Stage::Step(0)
                    },
                    Stage::Step(i) => if i + 1 < steps {
                        Stage::Step((i + 1) as usize)
                    } else {
                        Stage::Inspect
                    },
                    Stage::Inspect => Stage::Collect,
                    Stage::Collect => Stage::Link,
                    _ => Stage::Succeeded,
                },
            }
        }
    }

    /// Whether the build has ended.
    pub fn is_over(self) -> (res: bool)
        ensures
            res == self.over(),
    {
        match self {
            Stage::Succeeded | Stage::Failed | Stage::Canceled => true,
            _ => false,
        }
    }

    /// What comes after this, in a build of the given number of steps.
    pub fn after(self, steps: usize, outcome: Outcome) -> (res: Stage)
        ensures
            res == self.next(steps as nat, outcome),
    {
        if self.is_over() {
            return self;
        }
        match outcome {
            Outcome::Bad => Stage::Failed,
            Outcome::Stopped => Stage::Canceled,
            Outcome::Good => match self {
                Stage::Wait => Stage::Sync,
                Stage::Sync => Stage::Configure,
                Stage::Configure => if steps == 0 {
                    Stage::Inspect
                } else {
                    Stage::Step(0)
                },
                Stage::Step(i) => if steps > 0 && i < steps - 1 {
                    Stage::Step(i + 1)
                } else {
                    Stage::Inspect
                },
                Stage::Inspect => Stage::Collect,
                Stage::Collect => Stage::Link,
                _ => Stage::Succeeded,
            },
        }
    }
}

/// Where a build of the given number of steps is after its parts went as given.
pub open spec fn reached(steps: nat, outcomes: Seq<Outcome>) -> Stage
    decreases outcomes.len(),
{
    if outcomes.len() == 0 {
        Stage::Wait
    } else {
        reached(steps, outcomes.drop_last()).next(steps, outcomes.last())
    }
}

// ---------------------------------------------------------------------------------------------
// What is recorded
// ---------------------------------------------------------------------------------------------
/// An error with what was being done.
pub open spec fn in_context(what: Seq<char>, error: Seq<char>) -> Seq<char> {
    what + ": "@ + error
}

/// An error with what was being done.
pub fn with_context(what: &str, error: &str) -> (res: String)
    ensures
        res@ == in_context(what@, error@),
{
    let mut out = what.to_owned();
    out.append(": ");
    out.append(error);
    out
}

/// A build that begins. `previous` is the commit of the last successful build of its project.
pub open spec fn begun(b: BuildView, previous: Option<Seq<char>>, now: Timestamp) -> BuildView {
    BuildView {
        state: BuildState::Running,
        started_at: now,
        previous_commit: previous,
        ..b
    }
}

/// A build that comes to a step.
pub open spec fn at_step(b: BuildView, step: Seq<char>) -> BuildView {
    BuildView { current_step: Some(step), ..b }
}

/// A build with more in its log.
pub open spec fn logged(b: BuildView, more: Seq<char>) -> BuildView {
    BuildView { log: b.log + more, ..b }
}

/// What is logged of the commit that the workspace is at.
pub open spec fn head_line(head: Seq<char>) -> Seq<char> {
    "\n[git] HEAD="@ + head + "\n"@
}

/// A build whose workspace is at a commit.
pub open spec fn at_commit(b: BuildView, head: Seq<char>) -> BuildView {
    BuildView { commit: Some(head), ..logged(b, head_line(head)) }
}

/// A build behind whose steps the workspace is at `head`: where that is not the commit that the
/// build began with, a step has made it.
pub open spec fn left_at(b: BuildView, head: Seq<char>) -> BuildView {
    if b.commit == Some(head) {
        b
    } else {
        BuildView { docs_commit: Some(head), ..b }
    }
}

/// A build that has succeeded.
pub open spec fn successful(
    b: BuildView,
    artifacts: Seq<ArtifactRef>,
    now: Timestamp,
) -> BuildView {
    BuildView {
        artifacts,
        state: BuildState::Success,
        finished_at: Some(now),
        current_step: None,
        ..b
    }
}

/// What is logged of an error.
pub open spec fn error_line(error: Seq<char>) -> Seq<char> {
    "\n[error] "@ + error + "\n"@
}

/// A build that has failed.
pub open spec fn failed(b: BuildView, error: Seq<char>, now: Timestamp) -> BuildView {
    BuildView {
        error: Some(error),
        state: BuildState::Failed,
        finished_at: Some(now),
        current_step: None,
        ..logged(b, error_line(error))
    }
}

/// A build that was stopped on request.
pub open spec fn canceled(b: BuildView, now: Timestamp) -> BuildView {
    BuildView {
        state: BuildState::Canceled,
        finished_at: Some(now),
        current_step: None,
        ..b
    }
}

/// The build begins.
pub fn begin(b: BuildStatus, previous: Option<String>, now: Timestamp) -> (res: BuildStatus)
    ensures
        res@ == begun(b@, text::opt_text(previous), now),
{
    let mut r = b;
    r.state = BuildState::Running;
    r.started_at = now;
    r.previous_commit = previous;
    r
}

/// The build comes to a step.
pub fn enter(b: BuildStatus, step: &str) -> (res: BuildStatus)
    ensures
        res@ == at_step(b@, step@),
{
    let mut r = b;
    r.current_step = Some(step.to_owned());
    r
}

/// Adds to the log of the build.
pub fn add_log(b: BuildStatus, more: &str) -> (res: BuildStatus)
    ensures
        res@ == logged(b@, more@),
{
    let mut r = b;
    r.log.append(more);
    r
}

/// The workspace is at a commit.
pub fn synced(b: BuildStatus, head: &str) -> (res: BuildStatus)
    ensures
        res@ == at_commit(b@, head@),
{
    let mut line = "\n[git] HEAD=".to_owned();
    line.append(head);
    line.append("\n");
    let mut r = add_log(b, line.as_str());
    r.commit = Some(head.to_owned());
    r
}

/// The steps have run, and the workspace is at `head`.
pub fn inspected(b: BuildStatus, head: &str) -> (res: BuildStatus)
    ensures
        res@ == left_at(b@, head@),
{
    if text::same_opt(text::as_slice(&b.commit), Some(head)) {
        return b;
    }
    let mut r = b;
    r.docs_commit = Some(head.to_owned());
    r
}

/// The build has succeeded.
pub fn succeed(b: BuildStatus, artifacts: Vec<ArtifactRef>, now: Timestamp) -> (res: BuildStatus)
    ensures
        res@ == successful(b@, artifacts@, now),
{
    let mut r = b;
    r.artifacts = artifacts;
    r.state = BuildState::Success;
    r.finished_at = Some(now);
    r.current_step = None;
    r
}

/// The build has failed.
pub fn fail(b: BuildStatus, error: &str, now: Timestamp) -> (res: BuildStatus)
    ensures
        res@ == failed(b@, error@, now),
{
    let mut line = "\n[error] ".to_owned();
    line.append(error);
    line.append("\n");
    let mut r = add_log(b, line.as_str());
    r.error = Some(error.to_owned());
    r.state = BuildState::Failed;
    r.finished_at = Some(now);
    r.current_step = None;
    r
}

/// The build was stopped on request.
pub fn cancel(b: BuildStatus, now: Timestamp) -> (res: BuildStatus)
    ensures
        res@ == canceled(b@, now),
{
    let mut r = b;
    r.state = BuildState::Canceled;
    r.finished_at = Some(now);
    r.current_step = None;
    r
}

// ---------------------------------------------------------------------------------------------
// Steps and artifacts
// ---------------------------------------------------------------------------------------------
/// How a project is built, and what is logged about it.
#[derive(Debug, Clone, Copy)]
pub struct Recipe<'a> {
    pub nix: &'a ProjectNixOverride,
    pub steps: &'a Vec<StepConfig>,
    pub artifacts: &'a Vec<ArtifactConfig>,
    pub note: &'static str,
}

/// Whether `res` is how a project is built: as its workspace says, or else as its registration does.
pub open spec fn builds_by(
    res: Recipe,
    project: ProjectConfig,
    in_workspace: Option<ProjectBuildConfig>,
) -> bool {
    match in_workspace {
        Some(c) => {
            &&& *res.nix == c.nix
            &&& *res.steps == c.steps
            &&& *res.artifacts == c.artifacts
            &&& res.note@ == "\n[config] using workspace/kei.toml\n"@
        },
        None => {
            &&& *res.nix == project.nix
            &&& *res.steps == project.steps
            &&& *res.artifacts == project.artifacts
            &&& res.note@ == ""@
        },
    }
}

/// How a project is built: as its workspace says, or else as its registration does.
pub fn choose_recipe<'a>(
    project: &'a ProjectConfig,
    in_workspace: &'a Option<ProjectBuildConfig>,
) -> (res: Recipe<'a>)
    ensures
        builds_by(res, *project, *in_workspace),
{
    match in_workspace {
        Some(c) => Recipe {
            nix: &c.nix,
            steps: &c.steps,
            artifacts: &c.artifacts,
            note: "\n[config] using workspace/kei.toml\n",
        },
        None => Recipe {
            nix: &project.nix,
            steps: &project.steps,
            artifacts: &project.artifacts,
            note: "",
        },
    }
}

/// What is logged before a step.
pub open spec fn header_text(step: StepConfig) -> Seq<char> {
    "\n=== step: "@ + step.name@ + " ===\n"@
}

/// What is logged before a step.
pub fn step_header(step: &StepConfig) -> (res: String)
    ensures
        res@ == header_text(*step),
{
    let mut out = "\n=== step: ".to_owned();
    out.append(step.name.as_str());
    out.append(" ===\n");
    out
}

/// How a step came back: it ended by itself, it was stopped on request, or it could not be run to
/// its end, for this reason.
#[derive(Debug)]
pub enum StepReport {
    Ended(StepOutcome),
    Canceled(StepCanceled),
    Broken(String),
}

/// The error of a step that exited without success.
pub open spec fn step_failure(name: Seq<char>, code: Option<i32>) -> Seq<char> {
    "step '"@ + name + "' failed (exit "@ + git::exit_text(code) + ")"@
}

/// How a step went.
pub open spec fn step_outcome(report: StepReport) -> Outcome {
    match report {
        StepReport::Ended(o) => if o.success {
            Outcome::Good
        } else {
            Outcome::Bad
        },
        StepReport::Canceled(_) => Outcome::Stopped,
        StepReport::Broken(_) => Outcome::Bad,
    }
}

/// The error of a step that failed.
pub open spec fn step_error(step: StepConfig, report: StepReport) -> Seq<char> {
    match report {
        StepReport::Ended(o) => step_failure(step.name@, o.code),
        StepReport::Canceled(_) => "step canceled"@,
        StepReport::Broken(e) => in_context("run step "@ + step.name@, e@),
    }
}

/// How a step went, and the error where it did not go well.
pub fn judge_step(step: &StepConfig, report: &StepReport) -> (res: (Outcome, String))
    ensures
        res.0 == step_outcome(*report),
        res.0 == Outcome::Good ==> res.1@ == ""@,
        res.0 != Outcome::Good ==> res.1@ == step_error(*step, *report),
{
    match report {
        StepReport::Ended(o) => if o.success {
            (Outcome::Good, "".to_owned())
        } else {
            let mut e = "step '".to_owned();
            e.append(step.name.as_str());
            e.append("' failed (exit ");
            e.append(exit_code_text(o.code).as_str());
            e.append(")");
            (Outcome::Bad, e)
        },
        StepReport::Canceled(c) => (Outcome::Stopped, c.message().to_owned()),
        StepReport::Broken(e) => {
            let mut what = "run step ".to_owned();
            what.append(step.name.as_str());
            (Outcome::Bad, with_context(what.as_str(), e.as_str()))
        },
    }
}

/// What is logged of one artifact.
pub open spec fn artifact_line(a: ArtifactRef) -> Seq<char> {
    "  - "@ + a.path@ + " ("@ + numbers::decimal(a.size as nat) + " bytes)\n"@
}

/// What is logged of artifacts, one by one.
pub open spec fn artifact_lines(artifacts: Seq<ArtifactRef>) -> Seq<char>
    decreases artifacts.len(),
{
    if artifacts.len() == 0 {
        ""@
    } else {
        artifact_lines(artifacts.drop_last()) + artifact_line(artifacts.last())
    }
}

/// What is logged of the artifacts of a build.
pub open spec fn artifacts_text(artifacts: Seq<ArtifactRef>) -> Seq<char> {
    "\n[artifacts] collected "@ + numbers::decimal(artifacts.len()) + " files\n"@
        + artifact_lines(artifacts)
}

/// What is logged of the artifacts of a build.
pub fn artifacts_log(artifacts: &Vec<ArtifactRef>) -> (res: String)
    ensures
        res@ == artifacts_text(artifacts@),
{
    let mut lines = "".to_owned();
    let mut i: usize = 0;
    assert(artifacts@.take(0) =~= seq![]);
    while i < artifacts.len()
        invariant
            i <= artifacts@.len(),
            lines@ == artifact_lines(artifacts@.take(i as int)),
        decreases artifacts@.len() - i,
    {
        proof {
            assert(artifacts@.take(i + 1).drop_last() =~= artifacts@.take(i as int));
        }
        let a = &artifacts[i];
        let mut line = "  - ".to_owned();
        line.append(a.path.as_str());
        line.append(" (");
        line.append(numbers::decimal_text(a.size).as_str());
        line.append(" bytes)\n");
        lines.append(line.as_str());
        i = i + 1;
    }
    assert(artifacts@.take(i as int) =~= artifacts@);
    let mut out = "\n[artifacts] collected ".to_owned();
    out.append(numbers::decimal_text(artifacts.len() as u64).as_str());
    out.append(" files\n");
    out.append(lines.as_str());
    out
}

// ---------------------------------------------------------------------------------------------
// From event to event
// ---------------------------------------------------------------------------------------------
/// What happens to a build.
#[derive(Debug)]
pub enum BuildEvent {
    /// It is the build's turn. `previous` is the commit of the project's last successful build.
    Turn { previous: Option<String> },
    /// Git has run: what it logged, and the commit that the workspace is at or what went wrong.
    Synced { log: String, head: Result<String, String> },
    /// It is known how the project is built, and what is logged about it; or what went wrong.
    Configured(Result<String, String>),
    /// The step has ended.
    Stepped(StepReport),
    /// The commit that the workspace is at, if it can be told.
    Inspected(Option<String>),
    /// The artifacts that were kept, or what went wrong.
    Collected(Result<Vec<ArtifactRef>, String>),
    /// The build is the latest of its project, or there was a problem with that.
    Linked { artifacts: Vec<ArtifactRef>, problem: Option<String> },
}

/// Whether an event belongs to a stage.
pub open spec fn fits(stage: Stage, event: BuildEvent, steps: nat) -> bool {
    match stage {
        Stage::Wait => event is Turn,
        Stage::Sync => event is Synced,
        Stage::Configure => event is Configured,
        Stage::Step(i) => i < steps && event is Stepped,
        Stage::Inspect => event is Inspected,
        Stage::Collect => event is Collected,
        Stage::Link => event is Linked,
        _ => false,
    }
}

/// How the part of a build went that an event ends. A build whose turn it is begins, whatever it
/// was recorded as; that the latest build of a project cannot be told, or its commit, stops nothing.
pub open spec fn event_outcome(event: BuildEvent) -> Outcome {
    match event {
        BuildEvent::Turn { previous } => Outcome::Good,
        BuildEvent::Synced { log, head } => if head is Ok {
            Outcome::Good
        } else {
            Outcome::Bad
        },
        BuildEvent::Configured(r) => if r is Ok {
            Outcome::Good
        } else {
            Outcome::Bad
        },
        BuildEvent::Stepped(report) => step_outcome(report),
        BuildEvent::Inspected(_) => Outcome::Good,
        BuildEvent::Collected(r) => if r is Ok {
            Outcome::Good
        } else {
            Outcome::Bad
        },
        BuildEvent::Linked { artifacts, problem } => Outcome::Good,
    }
}

/// What is logged of a problem with becoming the latest build.
pub open spec fn link_warning(problem: Option<Seq<char>>) -> Seq<char> {
    match problem {
        Some(e) => "[warn] could not update latest link: "@ + e + "\n"@,
        None => ""@,
    }
}

/// What an event makes of a build.
pub open spec fn ended(
    b: BuildView,
    stage: Stage,
    event: BuildEvent,
    steps: Seq<StepConfig>,
    now: Timestamp,
) -> BuildView {
    match event {
        BuildEvent::Turn { previous } => begun(b, text::opt_text(previous), now),
        BuildEvent::Synced { log, head } => match head {
            Ok(h) => at_commit(logged(b, log@), h@),
            Err(e) => failed(logged(b, log@), in_context("git sync"@, e@), now),
        },
        BuildEvent::Configured(r) => match r {
            Ok(note) => logged(b, note@),
            Err(e) => failed(b, in_context("loading workspace kei.toml"@, e@), now),
        },
        BuildEvent::Stepped(report) => match step_outcome(report) {
            Outcome::Good => b,
            Outcome::Bad => failed(b, step_error(steps[stage->Step_0 as int], report), now),
            Outcome::Stopped => canceled(b, now),
        },
        BuildEvent::Inspected(head) => match head {
            Some(h) => left_at(b, h@),
            None => b,
        },
        BuildEvent::Collected(r) => match r {
            Ok(artifacts) => logged(b, artifacts_text(artifacts@)),
            Err(e) => failed(b, in_context("collect artifacts"@, e@), now),
        },
        BuildEvent::Linked { artifacts, problem } => successful(
            logged(b, link_warning(text::opt_text(problem))),
            artifacts@,
            now,
        ),
    }
}

/// What coming to a stage makes of a build.
pub open spec fn arrived(b: BuildView, stage: Stage, steps: Seq<StepConfig>) -> BuildView {
    match stage {
        Stage::Sync => at_step(b, "git-sync"@),
        Stage::Step(i) => logged(at_step(b, steps[i as int].name@), header_text(steps[i as int])),
        Stage::Collect => at_step(b, "artifacts"@),
        _ => b,
    }
}

/// What an event makes of a build that is at the given stage.
fn end_part(
    b: BuildStatus,
    stage: Stage,
    event: BuildEvent,
    steps: &Vec<StepConfig>,
    now: Timestamp,
) -> (res: (Outcome, BuildStatus))
    requires
        fits(stage, event, steps@.len()),
    ensures
        res.0 == event_outcome(event),
        res.1@ == ended(b@, stage, event, steps@, now),
{
    match event {
        BuildEvent::Turn { previous } => (Outcome::Good, begin(b, previous, now)),
        BuildEvent::Synced { log, head } => {
            let r = add_log(b, log.as_str());
            match head {
                Ok(h) => (Outcome::Good, synced(r, h.as_str())),
                Err(e) => (
                    Outcome::Bad,
                    fail(r, with_context("git sync", e.as_str()).as_str(), now),
                ),
            }
        },
        BuildEvent::Configured(r) => match r {
            Ok(note) => (Outcome::Good, add_log(b, note.as_str())),
            Err(e) => (
                Outcome::Bad,
                fail(b, with_context("loading workspace kei.toml", e.as_str()).as_str(), now),
            ),
        },
        BuildEvent::Stepped(report) => match stage {
            Stage::Step(i) => {
                let (outcome, error) = judge_step(&steps[i], &report);
                match outcome {
                    Outcome::Good => (outcome, b),
                    Outcome::Bad => (outcome, fail(b, error.as_str(), now)),
                    Outcome::Stopped => (outcome, cancel(b, now)),
                }
            },
            _ => (Outcome::Good, b),
        },
        BuildEvent::Inspected(head) => match head {
            Some(h) => (Outcome::Good, inspected(b, h.as_str())),
            None => (Outcome::Good, b),
        },
        BuildEvent::Collected(r) => match r {
            Ok(artifacts) => (Outcome::Good, add_log(b, artifacts_log(&artifacts).as_str())),
            Err(e) => (
                Outcome::Bad,
                fail(b, with_context("collect artifacts", e.as_str()).as_str(), now),
            ),
        },
        BuildEvent::Linked { artifacts, problem } => {
            let warning = match problem {
                Some(e) => {
                    let mut w = "[warn] could not update latest link: ".to_owned();
                    w.append(e.as_str());
                    w.append("\n");
                    w
                },
                None => "".to_owned(),
            };
            (Outcome::Good, succeed(add_log(b, warning.as_str()), artifacts, now))
        },
    }
}

/// Takes a build from the stage that it is at to the next one, by the event that ends the stage,
/// and records what happened and what comes.
pub fn advance(
    b: BuildStatus,
    stage: Stage,
    event: BuildEvent,
    steps: &Vec<StepConfig>,
    now: Timestamp,
) -> (res: (Stage, BuildStatus))
    requires
        fits(stage, event, steps@.len()),
    ensures
        res.0 == stage.next(steps@.len(), event_outcome(event)),
        res.1@ == arrived(ended(b@, stage, event, steps@, now), res.0, steps@),
        res.0 matches Stage::Step(i) ==> i < steps@.len() && res.1@.current_step == Some(
            steps@[i as int].name@,
        ),
{
    let (outcome, r) = end_part(b, stage, event, steps, now);
    let next = stage.after(steps.len(), outcome);
    match next {
        Stage::Sync => (next, enter(r, "git-sync")),
        Stage::Step(i) => {
            let step = &steps[i];
            let entered = enter(r, step.name.as_str());
            (next, add_log(entered, step_header(step).as_str()))
        },
        Stage::Collect => (next, enter(r, "artifacts")),
        _ => (next, r),
    }
}

// ---------------------------------------------------------------------------------------------
// What is remembered
// ---------------------------------------------------------------------------------------------
/// The commit that a successful build is remembered by: the one that a step made, so that it is
/// not built again, or else the one that was built.
pub open spec fn covered(b: BuildView) -> Option<Seq<char>> {
    match b.docs_commit {
        Some(d) => Some(d),
        None => b.commit,
    }
}

/// The commit that a successful build is remembered by.
pub fn covered_commit(b: &BuildStatus) -> (res: Option<&str>)
    ensures
        text::opt_slice(res) == covered(b@),
{
    match (&b.docs_commit, &b.commit) {
        (Some(d), _) => Some(d.as_str()),
        (None, Some(c)) => Some(c.as_str()),
        (None, None) => None,
    }
}

/// Whether the tip of a branch is not the last commit that was built.
pub open spec fn moved(last: Option<Seq<char>>, remote: Seq<char>) -> bool {
    last != Some(remote)
}

/// Whether a project is to be built when the server starts: the tip of its branch is not the last
/// commit that was built.
pub fn needs_build(last: Option<&str>, remote: &str) -> (res: bool)
    ensures
        res == moved(text::opt_slice(last), remote@),
{
    !text::same_opt(last, Some(remote))
}

// ---------------------------------------------------------------------------------------------
// Laws
// ---------------------------------------------------------------------------------------------
/// The stage of a build after the given number of parts, all of which went well.
pub open spec fn stage_at(steps: nat, parts: nat) -> Stage {
    if parts == 0 {
        Stage::Wait
    } else if parts == 1 {
        Stage::Sync
    } else if parts == 2 {
        Stage::Configure
    } else if parts < 3 + steps {
        Stage::Step((parts - 3) as usize)
    } else if parts == 3 + steps {
        Stage::Inspect
    } else if parts == 4 + steps {
        Stage::Collect
    } else if parts == 5 + steps {
        Stage::Link
    } else {
        Stage::Succeeded
    }
}

/// Where a build is after parts that all went well.
proof fn lemma_reached_good(steps: nat, outcomes: Seq<Outcome>)
    requires
        steps <= usize::MAX,
        forall|i: int| 0 <= i < outcomes.len() ==> outcomes[i] == Outcome::Good,
    ensures
        reached(steps, outcomes) == stage_at(steps, outcomes.len()),
    decreases outcomes.len(),
{
    if outcomes.len() > 0 {
        lemma_reached_good(steps, outcomes.drop_last());
    }
}

/// A build that is not over has had good outcomes only.
proof fn lemma_reached_only_good(steps: nat, outcomes: Seq<Outcome>)
    ensures
        !reached(steps, outcomes).over() ==> forall|i: int|
            0 <= i < outcomes.len() ==> outcomes[i] == Outcome::Good,
    decreases outcomes.len(),
{
    if outcomes.len() > 0 {
        lemma_reached_only_good(steps, outcomes.drop_last());
        if !reached(steps, outcomes).over() {
            assert(!reached(steps, outcomes.drop_last()).over());
            assert forall|i: int| 0 <= i < outcomes.len() implies outcomes[i] == Outcome::Good by {
                if i < outcomes.len() - 1 {
                    assert(outcomes[i] == outcomes.drop_last()[i]);
                }
            }
        }
    }
}

/// A build succeeds exactly when every part of it went well, one after the other: its turn,
/// synchronising, configuring, each step, inspecting, keeping the artifacts and linking.
pub proof fn law_success_needs_every_part(steps: nat, outcomes: Seq<Outcome>)
    requires
        steps <= usize::MAX,
    ensures
        reached(steps, outcomes) == Stage::Succeeded <==> outcomes.len() >= steps + 6 && forall|
            i: int,
        |
            0 <= i < steps + 6 ==> outcomes[i] == Outcome::Good,
    decreases outcomes.len(),
{
    if outcomes.len() > 0 {
        let up = outcomes.drop_last();
        let before = reached(steps, up);
        law_success_needs_every_part(steps, up);
        lemma_reached_only_good(steps, up);
        assert(forall|i: int| 0 <= i < up.len() ==> up[i] == outcomes[i]);
        if !before.over() {
            lemma_reached_good(steps, up);
        }
        if outcomes.len() == steps + 6 && (forall|i: int|
            0 <= i < steps + 6 ==> outcomes[i] == Outcome::Good) {
            lemma_reached_good(steps, outcomes);
        }
    }
}

/// The steps run in their order, each only after everything before it went well.
pub proof fn law_steps_in_order(steps: nat, outcomes: Seq<Outcome>, i: usize)
    requires
        steps <= usize::MAX,
        reached(steps, outcomes) == Stage::Step(i),
    ensures
        i < steps,
        outcomes.len() == i + 3,
        forall|k: int| 0 <= k < outcomes.len() ==> outcomes[k] == Outcome::Good,
{
    lemma_reached_only_good(steps, outcomes);
    lemma_reached_good(steps, outcomes);
}

/// What a build is recorded as agrees with where it has come to: running until it ends, and then
/// what it ended as, with the time and without a step.
pub proof fn law_record_agrees(
    b: BuildView,
    stage: Stage,
    event: BuildEvent,
    steps: Seq<StepConfig>,
    now: Timestamp,
)
    requires
        fits(stage, event, steps.len()),
        stage != Stage::Wait ==> b.state == BuildState::Running,
    ensures
        ({
            let next = stage.next(steps.len(), event_outcome(event));
            let r = arrived(ended(b, stage, event, steps, now), next, steps);
            &&& !next.over() ==> r.state == BuildState::Running
            &&& next == Stage::Succeeded ==> r.state == BuildState::Success
            &&& next == Stage::Failed ==> r.state == BuildState::Failed && r.error is Some
            &&& next == Stage::Canceled ==> r.state == BuildState::Canceled
            &&& next.over() ==> r.finished_at is Some && r.current_step is None
        }),
{
}

/// Nothing that happens to a build shortens its log or changes which build it is.
pub proof fn law_log_only_grows(
    b: BuildView,
    stage: Stage,
    event: BuildEvent,
    steps: Seq<StepConfig>,
    now: Timestamp,
)
    ensures
        ({
            let next = stage.next(steps.len(), event_outcome(event));
            let r = arrived(ended(b, stage, event, steps, now), next, steps);
            &&& b.log.is_prefix_of(r.log)
            &&& r.id == b.id && r.number == b.number && r.project == b.project
        }),
{
    let e = ended(b, stage, event, steps, now);
    assert(b.log.is_prefix_of(e.log)) by {
        assert(e.log.subrange(0, b.log.len() as int) =~= b.log);
    }
    let next = stage.next(steps.len(), event_outcome(event));
    let r = arrived(e, next, steps);
    assert(r.log.subrange(0, b.log.len() as int) =~= b.log);
}

/// A project whose branch has not moved since its last successful build is not built again when
/// the server starts, even where the tip is a commit that a step of that build made: what is
/// stored of the build is that tip.
pub proof fn law_unmoved_is_not_rebuilt(b: BuildView, tip: Seq<char>)
    requires
        text::trimmed(tip, CharClass::Space) == tip,
        tip.len() > 0,
        b.docs_commit == Some(tip) || (b.docs_commit is None && b.commit == Some(tip)),
    ensures
        !moved(state::last_commit(covered(b)), tip),
{
}

/// A project that was never built is built when the server starts.
pub proof fn law_new_project_is_built(tip: Seq<char>)
    ensures
        moved(state::last_commit(None), tip),
{
}

/// A build is recorded under the step that it comes to: a step of the project under the step's own
/// name, with a line in the log that names it; synchronising and keeping artifacts under theirs. At
/// the other stages the record keeps the step that it has.
pub proof fn law_current_step(
    b: BuildView,
    stage: Stage,
    event: BuildEvent,
    steps: Seq<StepConfig>,
    now: Timestamp,
)
    requires
        fits(stage, event, steps.len()),
    ensures
        ({
            let next = stage.next(steps.len(), event_outcome(event));
            let r = arrived(ended(b, stage, event, steps, now), next, steps);
            &&& next matches Stage::Step(i) ==> {
                &&& i < steps.len()
                &&& r.current_step == Some(steps[i as int].name@)
                &&& ("\n=== step: "@ + steps[i as int].name@ + " ===\n"@).is_suffix_of(r.log)
            }
            &&& next == Stage::Sync ==> r.current_step == Some("git-sync"@)
            &&& next == Stage::Collect ==> r.current_step == Some("artifacts"@)
            &&& next == Stage::Configure || next == Stage::Inspect || next == Stage::Link
                ==> r.current_step == b.current_step
            &&& next.over() ==> r.current_step is None
        }),
{
    let next = stage.next(steps.len(), event_outcome(event));
    let e = ended(b, stage, event, steps, now);
    let r = arrived(e, next, steps);
    if let Stage::Step(i) = next {
        let line = "\n=== step: "@ + steps[i as int].name@ + " ===\n"@;
        assert(r.log.subrange(r.log.len() - line.len(), r.log.len() as int) =~= line);
    }
}

/// A step that went well is followed by the step behind it, and the last one by looking at the
/// workspace; the first one follows the configuration.
pub proof fn law_steps_follow(
    report: StepReport,
    note: Result<String, String>,
    steps: nat,
    i: usize,
)
    requires
        i < steps <= usize::MAX,
        report matches StepReport::Ended(o) && o.success,
        note is Ok,
    ensures
        i + 1 < steps ==> Stage::Step(i).next(steps, event_outcome(BuildEvent::Stepped(report)))
            == Stage::Step((i + 1) as usize),
        i + 1 == steps ==> Stage::Step(i).next(steps, event_outcome(BuildEvent::Stepped(report)))
            == Stage::Inspect,
        Stage::Configure.next(steps, event_outcome(BuildEvent::Configured(note)))
            == Stage::Step(0),
        Stage::Configure.next(0, event_outcome(BuildEvent::Configured(note))) == Stage::Inspect,
{
}

/// The parts of a build that go well come in this order: its turn, synchronising, configuring, the
/// steps, inspecting, keeping the artifacts, linking. A part that does not go well ends the build,
/// as failed or, on request, as canceled; and a build that has ended stays as it is.
pub proof fn law_order_of_parts(steps: nat, outcomes: Seq<Outcome>, stage: Stage, outcome: Outcome)
    requires
        steps <= usize::MAX,
        forall|i: int| 0 <= i < outcomes.len() ==> outcomes[i] == Outcome::Good,
    ensures
        outcomes.len() == 0 ==> reached(steps, outcomes) == Stage::Wait,
        outcomes.len() == 1 ==> reached(steps, outcomes) == Stage::Sync,
        outcomes.len() == 2 ==> reached(steps, outcomes) == Stage::Configure,
        3 <= outcomes.len() < 3 + steps ==> reached(steps, outcomes) == Stage::Step(
            (outcomes.len() - 3) as usize,
        ),
        outcomes.len() == 3 + steps ==> reached(steps, outcomes) == Stage::Inspect,
        outcomes.len() == 4 + steps ==> reached(steps, outcomes) == Stage::Collect,
        outcomes.len() == 5 + steps ==> reached(steps, outcomes) == Stage::Link,
        outcomes.len() >= 6 + steps ==> reached(steps, outcomes) == Stage::Succeeded,
        !stage.over() && outcome == Outcome::Bad ==> stage.next(steps, outcome) == Stage::Failed,
        !stage.over() && outcome == Outcome::Stopped ==> stage.next(steps, outcome)
            == Stage::Canceled,
        stage == Stage::Succeeded || stage == Stage::Failed || stage == Stage::Canceled
            ==> stage.next(steps, outcome) == stage,
{
    lemma_reached_good(steps, outcomes);
}

/// What goes wrong in a part fails the build, and only a request to stop cancels it: a step fails it
/// when it exits without success or cannot be run.
pub proof fn law_what_fails_a_build(event: BuildEvent)
    ensures
        event_outcome(event) == Outcome::Bad <==> {
            ||| event matches BuildEvent::Synced { log, head } && head is Err
            ||| event matches BuildEvent::Configured(r) && r is Err
            ||| event matches BuildEvent::Stepped(StepReport::Ended(o)) && !o.success
            ||| event matches BuildEvent::Stepped(StepReport::Broken(_))
            ||| event matches BuildEvent::Collected(r) && r is Err
        },
        event_outcome(event) == Outcome::Stopped <==> event matches BuildEvent::Stepped(
            StepReport::Canceled(_),
        ),
{
}

/// What is recorded of an event: at its turn a build notes when it begins and the commit of the last
/// success; synchronising gives it its commit; a commit that the steps left behind is noted where it
/// is another one; linking gives it its artifacts; and its end, when it ended. Nothing else of the
/// record changes, but for its state, its step, its log and its error.
pub proof fn law_what_is_recorded(
    b: BuildView,
    stage: Stage,
    event: BuildEvent,
    steps: Seq<StepConfig>,
    now: Timestamp,
)
    requires
        fits(stage, event, steps.len()),
    ensures
        ({
            let next = stage.next(steps.len(), event_outcome(event));
            let r = arrived(ended(b, stage, event, steps, now), next, steps);
            &&& r.started_at == if event is Turn {
                now
            } else {
                b.started_at
            }
            &&& r.previous_commit == match event {
                BuildEvent::Turn { previous } => text::opt_text(previous),
                _ => b.previous_commit,
            }
            &&& r.commit == match event {
                BuildEvent::Synced { log, head: Ok(h) } => Some(h@),
                _ => b.commit,
            }
            &&& match event {
                BuildEvent::Inspected(Some(h)) => if b.commit == Some(h@) {
                    r.docs_commit == b.docs_commit
                } else {
                    r.docs_commit == Some(h@)
                },
                _ => r.docs_commit == b.docs_commit,
            }
            &&& r.artifacts == match event {
                BuildEvent::Linked { artifacts, problem } => artifacts@,
                _ => b.artifacts,
            }
            &&& r.finished_at == if next.over() {
                Some(now)
            } else {
                b.finished_at
            }
            &&& next != Stage::Failed ==> r.error == b.error
            &&& r.id == b.id && r.number == b.number && r.project == b.project
        }),
{
}

/// A build that fails is recorded with what it was at and what went wrong: for a step, the step's
/// name and its exit code or the reason. The error also stands at the end of the log.
pub proof fn law_errors_say_what_failed(
    b: BuildView,
    stage: Stage,
    event: BuildEvent,
    steps: Seq<StepConfig>,
    now: Timestamp,
)
    requires
        fits(stage, event, steps.len()),
        event_outcome(event) == Outcome::Bad,
    ensures
        ({
            let r = arrived(ended(b, stage, event, steps, now), Stage::Failed, steps);
            let name = steps[stage->Step_0 as int].name@;
            &&& r.error is Some
            &&& ("\n[error] "@ + r.error->0 + "\n"@).is_suffix_of(r.log)
            &&& match event {
                BuildEvent::Synced { log, head } => r.error->0 == "git sync: "@ + head->Err_0@,
                BuildEvent::Configured(c) => r.error->0 == "loading workspace kei.toml: "@
                    + c->Err_0@,
                BuildEvent::Stepped(StepReport::Ended(o)) => match o.code {
                    Some(c) => r.error->0 == "step '"@ + name + "' failed (exit Some("@
                        + numbers::signed_decimal(c as int) + "))"@,
                    None => r.error->0 == "step '"@ + name + "' failed (exit None)"@,
                },
                BuildEvent::Stepped(StepReport::Broken(e)) => r.error->0 == "run step "@ + name
                    + ": "@ + e@,
                BuildEvent::Collected(c) => r.error->0 == "collect artifacts: "@ + c->Err_0@,
                _ => true,
            }
        }),
{
    let r = arrived(ended(b, stage, event, steps, now), Stage::Failed, steps);
    let line = "\n[error] "@ + r.error->0 + "\n"@;
    assert(r.log.subrange(r.log.len() - line.len(), r.log.len() as int) =~= line);
    reveal_strlit(": ");
    reveal_strlit("git sync");
    reveal_strlit("git sync: ");
    reveal_strlit("loading workspace kei.toml");
    reveal_strlit("loading workspace kei.toml: ");
    reveal_strlit("collect artifacts");
    reveal_strlit("collect artifacts: ");
    reveal_strlit("None");
    reveal_strlit("Some(");
    reveal_strlit(")");
    reveal_strlit("))");
    reveal_strlit("' failed (exit ");
    reveal_strlit("' failed (exit None)");
    reveal_strlit("' failed (exit Some(");
    assert("git sync"@ + ": "@ =~= "git sync: "@);
    assert("loading workspace kei.toml"@ + ": "@ =~= "loading workspace kei.toml: "@);
    assert("collect artifacts"@ + ": "@ =~= "collect artifacts: "@);
    assert("' failed (exit "@ + "None"@ + ")"@ =~= "' failed (exit None)"@);
    assert("' failed (exit "@ + "Some("@ =~= "' failed (exit Some("@);
    assert(")"@ + ")"@ =~= "))"@);
    if let BuildEvent::Stepped(StepReport::Ended(o)) = event {
        let name = steps[stage->Step_0 as int].name@;
        match o.code {
            Some(c) => {
                assert(r.error->0 =~= "step '"@ + name + "' failed (exit Some("@
                    + numbers::signed_decimal(c as int) + "))"@);
            },
            None => {
                assert(r.error->0 =~= "step '"@ + name + "' failed (exit None)"@);
            },
        }
    }
}

/// What git and the configuration log is added to the log of the build as it is, and then the
/// commit that the workspace is at.
pub proof fn law_logs_are_kept(
    b: BuildView,
    stage: Stage,
    event: BuildEvent,
    steps: Seq<StepConfig>,
    now: Timestamp,
)
    requires
        fits(stage, event, steps.len()),
    ensures
        ({
            let next = stage.next(steps.len(), event_outcome(event));
            let r = arrived(ended(b, stage, event, steps, now), next, steps);
            match event {
                BuildEvent::Synced { log, head: Ok(h) } => r.log == b.log + log@
                    + "\n[git] HEAD="@ + h@ + "\n"@,
                BuildEvent::Synced { log, head: Err(e) } => (b.log + log@).is_prefix_of(r.log),
                BuildEvent::Configured(Ok(note)) => (b.log + note@).is_prefix_of(r.log),
                BuildEvent::Linked { artifacts, problem: None } => r.log == b.log,
                BuildEvent::Linked { artifacts, problem: Some(e) } => r.log == b.log
                    + "[warn] could not update latest link: "@ + e@ + "\n"@,
                BuildEvent::Inspected(_) => r.log == b.log,
                _ => true,
            }
        }),
{
    let next = stage.next(steps.len(), event_outcome(event));
    let r = arrived(ended(b, stage, event, steps, now), next, steps);
    reveal_strlit("");
    match event {
        BuildEvent::Synced { log, head } => {
            let front = b.log + log@;
            assert(r.log.subrange(0, front.len() as int) =~= front);
            if let Ok(h) = head {
                assert(r.log =~= b.log + log@ + "\n[git] HEAD="@ + h@ + "\n"@);
            }
        },
        BuildEvent::Configured(Ok(note)) => {
            let front = b.log + note@;
            assert(r.log.subrange(0, front.len() as int) =~= front);
        },
        BuildEvent::Linked { artifacts, problem } => {
            match problem {
                Some(e) => {
                    assert(r.log =~= b.log + "[warn] could not update latest link: "@ + e@
                        + "\n"@);
                },
                None => {
                    assert(r.log =~= b.log);
                },
            }
        },
        _ => {},
    }
}

/// The artifacts are logged in their order, each on a line with its path and its size in bytes,
/// behind a line that says how many there are.
pub proof fn law_artifacts_logged(a: Seq<ArtifactRef>, c: Seq<ArtifactRef>, one: ArtifactRef)
    ensures
        artifact_lines(a + c) == artifact_lines(a) + artifact_lines(c),
        artifact_lines(seq![one]) == "  - "@ + one.path@ + " ("@ + numbers::decimal(one.size as nat)
            + " bytes)\n"@,
        artifacts_text(a) == "\n[artifacts] collected "@ + numbers::decimal(a.len()) + " files\n"@
            + artifact_lines(a),
    decreases c.len(),
{
    reveal_strlit("");
    assert(seq![one].drop_last() =~= seq![]);
    assert(artifact_lines(seq![one].drop_last()) =~= ""@);
    assert(artifact_lines(seq![one]) =~= artifact_line(one));
    if c.len() == 0 {
        assert(a + c =~= a);
        assert(artifact_lines(a + c) =~= artifact_lines(a) + artifact_lines(c));
    } else {
        law_artifacts_logged(a, c.drop_last(), one);
        assert((a + c).drop_last() =~= a + c.drop_last());
        assert((a + c).last() == c.last());
        assert(artifact_lines(a + c) =~= artifact_lines(a) + artifact_lines(c));
    }
}

/// A project is built at the start of the server unless the tip of its branch is the commit that
/// was stored.
pub proof fn law_moved_is_built(stored: Seq<char>, tip: Seq<char>)
    requires
        text::trimmed(stored, CharClass::Space) == stored,
        stored.len() > 0,
    ensures
        moved(state::last_commit(Some(stored)), tip) <==> stored != tip,
{
}

/// A workspace that says how the project is built is followed in everything, and nothing of the
/// registration is; one that does not leaves everything to the registration.
pub proof fn law_workspace_decides(
    a: Recipe,
    b: Recipe,
    one: ProjectConfig,
    other: ProjectConfig,
    c: ProjectBuildConfig,
)
    requires
        builds_by(a, one, Some(c)),
        builds_by(b, one, None),
    ensures
        builds_by(a, other, Some(c)),
        a.steps@ == c.steps@ && a.artifacts@ == c.artifacts@ && *a.nix == c.nix,
        b.steps@ == one.steps@ && b.artifacts@ == one.artifacts@ && *b.nix == one.nix,
        a.note@ == "\n[config] using workspace/kei.toml\n"@ && b.note@ == ""@,
{
}

/// A step that was stopped says so, whichever step it was and whoever stopped it.
pub proof fn law_stopped_steps_say_so(
    one: StepConfig,
    other: StepConfig,
    a: StepReport,
    b: StepReport,
)
    requires
        a is Canceled,
        b is Canceled,
    ensures
        step_error(one, a) == "step canceled"@,
        step_error(one, a) == step_error(other, b),
{
}

} // verus!
