use kei::artifacts::{artifact_ref, collect, search_pattern};
use kei::config::{
    ArtifactConfig, EnvVars, NixConfig, NotifyConfig, ProjectBuildConfig, ProjectConfig,
    ProjectMavenConfig, ProjectNixOverride, StepConfig, Visibility,
};
use kei::git::{self, GitOutput, GitReply, SyncNext, SyncRun};
use kei::pipeline::{self, BuildEvent, Outcome, Stage, StepReport};
use kei::runner::{self, StepAction, StepCanceled, StepEnd, StepEvent, StepOutcome};
use kei::state::{AppState, BuildState, BuildStatus};
use kei::time::Timestamp;

fn step(name: &str, command: &str, args: Vec<&str>) -> StepConfig {
    StepConfig {
        name: name.to_string(),
        command: command.to_string(),
        args: args.into_iter().map(str::to_string).collect(),
        use_nix: None,
        nix_shell: None,
        cwd: None,
        timeout: None,
        env: EnvVars::new(),
    }
}

fn output(success: bool, code: Option<i32>, stdout: &str, stderr: &str) -> GitOutput {
    GitOutput { success, code, stdout: stdout.to_string(), stderr: stderr.to_string() }
}

fn argv(plan: &runner::StepPlan) -> Vec<&str> {
    let mut v = vec![plan.program.as_str()];
    v.extend(plan.args.iter().map(String::as_str));
    v
}

#[test]
fn plain_steps() {
    let mut s = step("build", "./gradlew", vec!["clean", "build"]);
    let plan = runner::plan_step(&s, "/w", &NixConfig::default(), &ProjectNixOverride::default());
    assert_eq!(argv(&plan), vec!["./gradlew", "clean", "build"]);
    assert_eq!(plan.cwd, "/w");
    assert_eq!(plan.preview, "$ ./gradlew clean build\n");
    s.cwd = Some("sub".to_string());
    s.env.set("A".to_string(), "1".to_string());
    s.env.set("B".to_string(), "2".to_string());
    s.env.set("A".to_string(), "3".to_string());
    let pairs: Vec<(String, String)> = vec![("A".into(), "3".into()), ("B".into(), "2".into())];
    assert_eq!(s.env.pairs(), &pairs);
    assert_eq!(s.env.clone().pairs(), &pairs);
    let plan = runner::plan_step(&s, "/w", &NixConfig::default(), &ProjectNixOverride::default());
    assert_eq!(plan.cwd, "/w/sub");
    assert_eq!(plan.preview, "$ A=3 B=2 ./gradlew clean build\n");
    s.cwd = Some("/abs".to_string());
    assert_eq!(
        runner::plan_step(&s, "/w", &NixConfig::default(), &ProjectNixOverride::default()).cwd,
        "/abs"
    );
}

#[test]
fn steps_inside_nix() {
    let s = step("build", "./gradlew", vec!["build"]);
    let mut nix = NixConfig::default();
    nix.enabled = true;
    let plan = runner::plan_step(&s, "/w", &nix, &ProjectNixOverride::default());
    assert_eq!(argv(&plan), vec!["nix", "develop", ".#default", "-c", "./gradlew", "build"]);
    assert_eq!(plan.preview, "$ nix develop .#default -c ./gradlew build\n");
    nix.extra_args = vec!["--impure".to_string()];
    let plan = runner::plan_step(&s, "/w", &nix, &ProjectNixOverride::default());
    assert_eq!(argv(&plan), vec!["nix", "develop", ".#default", "--impure", "-c", "./gradlew", "build"]);
}

#[test]
fn overrides_of_nix() {
    let mut nix = NixConfig::default();
    nix.enabled = true;
    nix.extra_args = vec!["--impure".to_string()];
    let project = ProjectNixOverride {
        enabled: None,
        flake: Some("github:o/f".to_string()),
        shell: Some("ci".to_string()),
        extra_args: Some(vec![]),
    };
    let mut s = step("lint", "make", vec![]);
    assert_eq!(
        argv(&runner::plan_step(&s, "/w", &nix, &project)),
        vec!["nix", "develop", "github:o/f#ci", "-c", "make"]
    );
    s.nix_shell = Some("lint".to_string());
    assert_eq!(
        argv(&runner::plan_step(&s, "/w", &nix, &project)),
        vec!["nix", "develop", "github:o/f#lint", "-c", "make"]
    );
    s.use_nix = Some(false);
    assert_eq!(argv(&runner::plan_step(&s, "/w", &nix, &project)), vec!["make"]);
    s.use_nix = Some(true);
    nix.enabled = false;
    let off = ProjectNixOverride { enabled: Some(false), flake: None, shell: None, extra_args: None };
    assert_eq!(argv(&runner::plan_step(&s, "/w", &nix, &off)).len(), 6);
    s.use_nix = None;
    let on = ProjectNixOverride { enabled: Some(true), flake: None, shell: None, extra_args: None };
    assert_eq!(argv(&runner::plan_step(&s, "/w", &nix, &on))[0], "nix");
    assert_eq!(argv(&runner::plan_step(&s, "/w", &nix, &off)), vec!["make"]);
}

#[test]
fn custom_wrappers() {
    let mut nix = NixConfig::default();
    nix.enabled = true;
    nix.command = vec!["nix-shell".to_string(), "shell.nix".to_string(), "--run".to_string()];
    let s = step("build", "make", vec!["all"]);
    assert_eq!(
        argv(&runner::plan_step(&s, "/w", &nix, &ProjectNixOverride::default())),
        vec!["nix-shell", "shell.nix", "--run", "make", "all"]
    );
}

#[test]
fn events_of_a_step() {
    let mut s = step("build", "make", vec![]);
    s.timeout = Some(90);
    match runner::on_step_event(&s, StepEvent::Exited { success: false, code: Some(2) }) {
        StepAction::Finish(o) => assert_eq!((o.success, o.code), (false, Some(2))),
        other => panic!("{other:?}"),
    }
    match runner::on_step_event(&s, StepEvent::TimedOut) {
        StepAction::Kill { log, end: StepEnd::Failed(e) } => {
            assert_eq!(log, "\n[timeout] step 'build' exceeded 90s, killing\n");
            assert_eq!(e, "step 'build' timed out after 90s");
        }
        other => panic!("{other:?}"),
    }
    match runner::on_step_event(&s, StepEvent::Signal { stop: true }) {
        StepAction::Kill { log, end: StepEnd::Canceled(c) } => {
            assert_eq!(log, "\n[canceled] step 'build' canceled, killing\n");
            assert_eq!(c.message(), "step canceled");
        }
        other => panic!("{other:?}"),
    }
    assert!(matches!(
        runner::on_step_event(&s, StepEvent::Signal { stop: false }),
        StepAction::Wait
    ));
}

#[test]
fn cloning_a_repository() {
    let mut sync = SyncRun::new("url", "main", "/w/p", false);
    assert_eq!(
        sync.command().args,
        vec!["clone", "--branch", "main", "--recurse-submodules", "url", "/w/p"]
    );
    assert!(!sync.command().in_dir);
    assert!(matches!(sync.on_reply(GitReply::Ran(output(true, Some(0), "", "Cloning\n"))), SyncNext::Run));
    assert_eq!(sync.command().args, vec!["rev-parse", "HEAD"]);
    assert!(sync.command().in_dir);
    match sync.on_reply(GitReply::Ran(output(true, Some(0), " abc\n", ""))) {
        SyncNext::Done(head) => assert_eq!(head, "abc"),
        other => panic!("{other:?}"),
    }
    assert_eq!(
        sync.log,
        "$ git clone --branch main --recurse-submodules url /w/p\nCloning\n$ git rev-parse HEAD\n abc\n"
    );
}

#[test]
fn updating_a_repository() {
    let mut sync = SyncRun::new("url", "dev", "/w/p", true);
    let mut seen: Vec<String> = vec![];
    loop {
        seen.push(sync.command().args.join(" "));
        match sync.on_reply(GitReply::Ran(output(true, Some(0), "h\n", ""))) {
            SyncNext::Run => {}
            SyncNext::Done(head) => {
                assert_eq!(head, "h");
                break;
            }
            SyncNext::Failed(e) => panic!("{e}"),
        }
    }
    assert_eq!(
        seen,
        vec![
            "remote set-url origin url",
            "fetch --prune --force origin",
            "checkout -B dev origin/dev",
            "reset --hard origin/dev",
            "clean -fdx",
            "submodule sync --recursive",
            "submodule update --init --recursive --force",
            "rev-parse HEAD",
        ]
    );
}

#[test]
fn failures_of_git() {
    let mut sync = SyncRun::new("url", "dev", "/w/p", true);
    assert!(matches!(sync.on_reply(GitReply::Ran(output(false, Some(2), "", "no such remote\n"))), SyncNext::Run));
    match sync.on_reply(GitReply::Ran(output(false, Some(128), "", "fatal\n"))) {
        SyncNext::Failed(e) => assert_eq!(e, "git fetch --prune --force origin failed (exit Some(128))"),
        other => panic!("{other:?}"),
    }
    assert!(sync.log.ends_with("$ git fetch --prune --force origin\nfatal\n"));
    let mut sync = SyncRun::new("url", "dev", "/w/p", true);
    assert!(matches!(sync.on_reply(GitReply::NotRun("gone".to_string())), SyncNext::Run));
    match sync.on_reply(GitReply::NotRun("gone".to_string())) {
        SyncNext::Failed(e) => assert_eq!(e, "gone"),
        other => panic!("{other:?}"),
    }
    assert_eq!(git::exit_code_text(None), "None");
    assert_eq!(git::exit_code_text(Some(-1)), "Some(-1)");
}

#[test]
fn keys_are_quoted() {
    assert_eq!(git::ssh_command("/k/id"), "ssh -i '/k/id' -o IdentitiesOnly=yes");
    assert_eq!(
        git::ssh_command("/a b/it's"),
        "ssh -i '/a b/it'\\''s' -o IdentitiesOnly=yes"
    );
}

#[test]
fn reading_a_commit() {
    assert_eq!(
        git::show_args("/w", "abc"),
        vec!["-C", "/w", "show", "-s", "--format=%H\x1e%an <%ae>\x1e%aI\x1e%s\x1e%B", "abc"]
    );
    assert_eq!(git::stat_args("/w", "abc"), vec!["-C", "/w", "show", "--stat", "--format=", "abc"]);
    assert_eq!(git::diff_args("/w", "abc"), vec!["-C", "/w", "show", "--format=", "abc"]);
    let show = output(true, Some(0), "abc\x1eA <a@b>\x1e2024\x1esub\x1esub\n\nbody\x1emore\n\n", "");
    let stat = output(true, Some(0), "\n f | 1 +\n", "");
    let bad = output(false, Some(1), "x", "");
    let c = git::show_commit("abc", &show, &stat, &bad).unwrap();
    assert_eq!((c.sha.as_str(), c.author.as_str(), c.date.as_str()), ("abc", "A <a@b>", "2024"));
    assert_eq!((c.subject.as_str(), c.body.as_str()), ("sub", "sub\n\nbody\x1emore"));
    assert_eq!((c.stat.as_str(), c.diff.as_str()), ("f | 1 +", ""));
    let c = git::show_commit("abc", &show, &bad, &stat).unwrap();
    assert_eq!((c.stat.as_str(), c.diff.as_str()), ("", "\n f | 1 +\n"));
}

#[test]
fn commits_that_cannot_be_read() {
    let ok = output(true, Some(0), "", "");
    let e = git::show_commit("abc", &output(false, Some(128), "", " fatal: bad\n"), &ok, &ok).unwrap_err();
    assert_eq!(e, "git show -s abc failed (exit Some(128)): fatal: bad");
    let e = git::show_commit("abc", &output(true, Some(0), "a\x1eb", ""), &ok, &ok).unwrap_err();
    assert_eq!(e, "git show output malformed for abc");
}

#[test]
fn reading_a_range() {
    assert_eq!(
        git::log_args("/w", "a", "b"),
        vec!["-C", "/w", "log", "--format=%H%x09%an <%ae>%x09%aI%x09%s", "a..b"]
    );
    let out = output(true, Some(0), "1\tA\tD1\tone\ttab\nbroken\n2\tB\tD2\ttwo\n", "");
    let v = git::log_range("a", "b", &out).unwrap();
    assert_eq!(v.len(), 2);
    assert_eq!((v[0].sha.as_str(), v[0].subject.as_str()), ("1", "one\ttab"));
    assert_eq!((v[1].author.as_str(), v[1].date.as_str()), ("B", "D2"));
    let e = git::log_range("a", "b", &output(false, None, "", "no\n")).unwrap_err();
    assert_eq!(e, "git log a..b failed (exit None): no");
}

#[test]
fn reading_heads() {
    assert_eq!(git::head_args("/w"), vec!["-C", "/w", "rev-parse", "HEAD"]);
    assert_eq!(git::current_head(&output(true, Some(0), "abc\n", "")), Ok("abc".to_string()));
    assert_eq!(
        git::current_head(&output(false, Some(1), "", "x")),
        Err("git rev-parse HEAD failed (exit Some(1)): x".to_string())
    );
    assert_eq!(git::remote_args("url", "main"), vec!["ls-remote", "url", "refs/heads/main"]);
    assert_eq!(
        git::remote_head("url", "main", &output(true, Some(0), "abc\trefs/heads/main\n", "")),
        Ok("abc".to_string())
    );
    assert_eq!(
        git::remote_head("url", "main", &output(true, Some(0), " \n", "")),
        Err("ls-remote returned no refs for main on url".to_string())
    );
    assert_eq!(
        git::remote_head("url", "main", &output(false, Some(2), "", "denied\n")),
        Err("git ls-remote url failed (exit Some(2)): denied".to_string())
    );
}

fn kept(file: &str, suffix: Option<&str>) -> String {
    let pattern = ArtifactConfig { pattern: "*".to_string(), suffix: suffix.map(str::to_string) };
    let v = collect(12, "/w/p", "/a/p/1", &pattern, &vec![file.to_string()]);
    assert_eq!(v.len(), 1);
    assert_eq!(v[0].source, file);
    assert_eq!(v[0].dest, format!("/a/p/1/{}", v[0].name));
    v[0].name.clone()
}

#[test]
fn names_of_artifacts() {
    assert_eq!(kept("/w/p/build/libs/a.jar", None), "build/libs/a.jar");
    assert_eq!(kept("/elsewhere/a.jar", None), "a.jar");
    assert_eq!(kept("/w/p/fabric/build/libs/aris-1.1.0.jar", Some("fabric")), "aris-1.1.0-fabric.jar");
    assert_eq!(kept("/w/p/x/a.jar", Some("")), "a.jar");
    assert_eq!(kept("/w/p/x/a.jar", Some("b{build_number}")), "a-b12.jar");
    assert_eq!(kept("/w/p/x/README", Some("x")), "README-x");
    assert_eq!(kept("/w/p/x/.env", Some("x")), ".env-x");
    assert_eq!(kept("/w/p/..", Some("")), "artifact");
}

#[test]
fn patterns_and_references() {
    assert_eq!(search_pattern("/w/p", "build/*.jar"), "/w/p/build/*.jar");
    assert_eq!(search_pattern("/w/p", "/opt/*.jar"), "/opt/*.jar");
    let a = artifact_ref("p", 1, "x/a.jar", 9);
    assert_eq!(a.path, "p/00000000-0000-0000-0000-000000000001/x/a.jar");
    assert_eq!(a.url, "/artifacts/p/00000000-0000-0000-0000-000000000001/x/a.jar");
    assert_eq!((a.project.as_str(), a.build_id, a.size), ("p", 1, 9));
}

fn at(secs: i64) -> Timestamp {
    Timestamp::new(secs, 0).unwrap()
}

fn project() -> ProjectConfig {
    ProjectConfig {
        name: "p".to_string(),
        repo_url: String::new(),
        branch: "main".to_string(),
        ssh_key: None,
        github_full_name: None,
        visibility: Visibility::Public,
        allowed_accounts: vec![],
        maven: ProjectMavenConfig::default(),
        nix: ProjectNixOverride::default(),
        steps: vec![step("s", "make", vec![])],
        artifacts: vec![],
        notify: NotifyConfig::default(),
    }
}

fn build() -> BuildStatus {
    let mut s = AppState::new(kei::config::Config {
        server: Default::default(),
        storage: Default::default(),
        github: Default::default(),
        nix: Default::default(),
        maven: Default::default(),
        auth: Default::default(),
        projects: vec![],
    });
    s.queue_build("p", 1, 4, at(1));
    s.get_build(1).unwrap().clone()
}

#[test]
fn a_build_that_succeeds() {
    let b = pipeline::begin(build(), Some("old".to_string()), at(5));
    assert_eq!(b.state, BuildState::Running);
    assert_eq!(b.previous_commit.as_deref(), Some("old"));
    assert_eq!(b.started_at.parts().0, 5);
    let b = pipeline::enter(b, "git-sync");
    assert_eq!(b.current_step.as_deref(), Some("git-sync"));
    let b = pipeline::synced(b, "abc");
    assert_eq!(b.log, "\n[git] HEAD=abc\n");
    assert_eq!(b.commit.as_deref(), Some("abc"));
    let b = pipeline::inspected(b, "abc");
    assert!(b.docs_commit.is_none());
    assert_eq!(pipeline::covered_commit(&b), Some("abc"));
    let b = pipeline::inspected(b, "def");
    assert_eq!(b.docs_commit.as_deref(), Some("def"));
    assert_eq!(pipeline::covered_commit(&b), Some("def"));
    let b = pipeline::succeed(b, vec![artifact_ref("p", 1, "f", 3)], at(9));
    assert_eq!(b.state, BuildState::Success);
    assert_eq!(b.artifacts.len(), 1);
    assert_eq!(b.finished_at.unwrap().parts().0, 9);
    assert!(b.current_step.is_none() && b.error.is_none());
}

#[test]
fn builds_that_end_otherwise() {
    let b = pipeline::fail(pipeline::enter(build(), "s"), "git sync: gone", at(3));
    assert_eq!(b.state, BuildState::Failed);
    assert_eq!(b.log, "\n[error] git sync: gone\n");
    assert_eq!(b.error.as_deref(), Some("git sync: gone"));
    assert!(b.current_step.is_none() && b.finished_at.is_some());
    let b = pipeline::cancel(pipeline::enter(build(), "s"), at(3));
    assert_eq!(b.state, BuildState::Canceled);
    assert!(b.current_step.is_none() && b.error.is_none() && b.finished_at.is_some());
    assert!(pipeline::covered_commit(&b).is_none());
    assert_eq!(pipeline::with_context("git sync", "gone"), "git sync: gone");
}

#[test]
fn judging_steps() {
    let s = step("build", "make", vec![]);
    assert_eq!(pipeline::step_header(&s), "\n=== step: build ===\n");
    let judge = |r: StepReport| pipeline::judge_step(&s, &r);
    let ended = |success: bool, code: Option<i32>| StepReport::Ended(StepOutcome { success, code });
    assert_eq!(judge(ended(true, Some(0))), (Outcome::Good, String::new()));
    assert_eq!(
        judge(ended(false, Some(1))),
        (Outcome::Bad, "step 'build' failed (exit Some(1))".to_string())
    );
    assert_eq!(
        judge(ended(false, None)),
        (Outcome::Bad, "step 'build' failed (exit None)".to_string())
    );
    assert_eq!(
        judge(StepReport::Broken("spawn make".to_string())),
        (Outcome::Bad, "run step build: spawn make".to_string())
    );
    assert_eq!(judge(StepReport::Canceled(StepCanceled)).0, Outcome::Stopped);
}

#[test]
fn the_order_of_a_build() {
    let run = |steps: usize, outcomes: Vec<Outcome>| {
        let mut stage = Stage::Wait;
        for o in outcomes {
            stage = stage.after(steps, o);
        }
        stage
    };
    let good = |n: usize| vec![Outcome::Good; n];
    let stages = [
        Stage::Wait,
        Stage::Sync,
        Stage::Configure,
        Stage::Step(0),
        Stage::Step(1),
        Stage::Inspect,
        Stage::Collect,
        Stage::Link,
        Stage::Succeeded,
        Stage::Succeeded,
    ];
    for (n, stage) in stages.into_iter().enumerate() {
        assert_eq!(run(2, good(n)), stage);
        assert_eq!(stage.is_over(), n >= 8);
    }
    assert_eq!(run(0, good(3)), Stage::Inspect);
    assert_eq!(run(0, good(6)), Stage::Succeeded);
    for n in 0..8 {
        let mut outcomes = good(n);
        outcomes.push(Outcome::Bad);
        assert_eq!(run(2, outcomes.clone()), Stage::Failed);
        outcomes.extend(good(9));
        assert_eq!(run(2, outcomes), Stage::Failed);
    }
    assert_eq!(run(2, vec![Outcome::Good, Outcome::Stopped]), Stage::Canceled);
}

fn drive(events: Vec<BuildEvent>, steps: Vec<StepConfig>) -> (Stage, BuildStatus) {
    let mut stage = Stage::Wait;
    let mut b = build();
    let mut now = 100;
    for event in events {
        let (next, changed) = pipeline::advance(b, stage, event, &steps, at(now));
        assert!(changed.id == 1 && changed.number == 4);
        stage = next;
        b = changed;
        now += 1;
    }
    (stage, b)
}

fn good_start() -> Vec<BuildEvent> {
    vec![
        BuildEvent::Turn { previous: Some("old".to_string()) },
        BuildEvent::Synced { log: "$ git\n".to_string(), head: Ok("abc".to_string()) },
        BuildEvent::Configured(Ok("\n[config]\n".to_string())),
    ]
}

#[test]
fn a_whole_build() {
    let mut events = good_start();
    let ended = || BuildEvent::Stepped(StepReport::Ended(StepOutcome { success: true, code: Some(0) }));
    events.push(ended());
    events.push(ended());
    events.push(BuildEvent::Inspected(Some("def".to_string())));
    let a = artifact_ref("p", 1, "f", 3);
    events.push(BuildEvent::Collected(Ok(vec![a.clone()])));
    events.push(BuildEvent::Linked { artifacts: vec![a], problem: Some("busy".to_string()) });
    let (stage, b) = drive(events, vec![step("one", "x", vec![]), step("two", "y", vec![])]);
    assert_eq!(stage, Stage::Succeeded);
    assert_eq!(b.state, BuildState::Success);
    assert_eq!(b.previous_commit.as_deref(), Some("old"));
    assert_eq!(b.docs_commit.as_deref(), Some("def"));
    assert_eq!(b.artifacts.len(), 1);
    assert_eq!(b.started_at.parts().0, 100);
    assert_eq!(b.finished_at.unwrap().parts().0, 107);
    assert_eq!(
        b.log,
        "$ git\n\n[git] HEAD=abc\n\n[config]\n\n=== step: one ===\n\n=== step: two ===\n\n[artifacts] collected 1 files\n  - p/00000000-0000-0000-0000-000000000001/f (3 bytes)\n[warn] could not update latest link: busy\n"
    );
}

#[test]
fn what_a_build_is_at() {
    let steps = || vec![step("one", "x", vec![])];
    let (stage, b) = drive(good_start().into_iter().take(1).collect(), steps());
    assert_eq!((stage, b.state, b.current_step.as_deref()), (Stage::Sync, BuildState::Running, Some("git-sync")));
    let (stage, b) = drive(good_start(), steps());
    assert_eq!((stage, b.current_step.as_deref()), (Stage::Step(0), Some("one")));
    let mut events = good_start();
    events.push(BuildEvent::Inspected(None));
    let (stage, b) = drive(events, vec![]);
    assert_eq!((stage, b.current_step.as_deref()), (Stage::Collect, Some("artifacts")));
    assert!(b.docs_commit.is_none());
}

#[test]
fn builds_that_fail_on_their_way() {
    let failed = |mut events: Vec<BuildEvent>, last: BuildEvent, steps: Vec<StepConfig>| {
        events.push(last);
        let (stage, b) = drive(events, steps);
        assert_eq!((stage, b.state), (Stage::Failed, BuildState::Failed));
        assert!(b.finished_at.is_some() && b.current_step.is_none());
        let error = b.error.unwrap();
        assert!(b.log.ends_with(&format!("\n[error] {error}\n")));
        error
    };
    let turn = || vec![BuildEvent::Turn { previous: None }];
    let sync = BuildEvent::Synced { log: "x".to_string(), head: Err("gone".to_string()) };
    assert_eq!(failed(turn(), sync, vec![]), "git sync: gone");
    let start = || good_start().into_iter().take(2).collect::<Vec<BuildEvent>>();
    assert_eq!(
        failed(start(), BuildEvent::Configured(Err("bad".to_string())), vec![]),
        "loading workspace kei.toml: bad"
    );
    let one = || vec![step("one", "x", vec![])];
    let exit = StepReport::Ended(StepOutcome { success: false, code: Some(3) });
    assert_eq!(failed(good_start(), BuildEvent::Stepped(exit), one()), "step 'one' failed (exit Some(3))");
    let mut late = good_start();
    late.push(BuildEvent::Inspected(None));
    assert_eq!(
        failed(late, BuildEvent::Collected(Err("full".to_string())), vec![]),
        "collect artifacts: full"
    );
}

#[test]
fn builds_that_are_stopped() {
    let mut events = good_start();
    events.push(BuildEvent::Stepped(StepReport::Canceled(StepCanceled)));
    let (stage, b) = drive(events, vec![step("one", "x", vec![])]);
    assert_eq!((stage, b.state), (Stage::Canceled, BuildState::Canceled));
    assert!(b.error.is_none() && b.finished_at.is_some());
    let waiting = pipeline::cancel(build(), at(2));
    let (stage, b) =
        pipeline::advance(waiting, Stage::Wait, BuildEvent::Turn { previous: None }, &vec![], at(9));
    assert_eq!((stage, b.state), (Stage::Sync, BuildState::Running));
    assert_eq!(b.started_at.parts().0, 9);
    assert_eq!(b.finished_at.unwrap().parts().0, 2);
}

#[test]
fn recipes() {
    let p = project();
    let none: Option<ProjectBuildConfig> = None;
    let r = pipeline::choose_recipe(&p, &none);
    assert_eq!((r.steps.len(), r.note), (1, ""));
    let own = Some(ProjectBuildConfig::default());
    let r = pipeline::choose_recipe(&p, &own);
    assert_eq!((r.steps.len(), r.note), (0, "\n[config] using workspace/kei.toml\n"));
}

#[test]
fn what_is_logged_of_artifacts() {
    assert_eq!(pipeline::artifacts_log(&vec![]), "\n[artifacts] collected 0 files\n");
    let v = vec![artifact_ref("p", 1, "f", 3), artifact_ref("p", 1, "g", 0)];
    assert_eq!(
        pipeline::artifacts_log(&v),
        "\n[artifacts] collected 2 files\n  - p/00000000-0000-0000-0000-000000000001/f (3 bytes)\n  - p/00000000-0000-0000-0000-000000000001/g (0 bytes)\n"
    );
}

#[test]
fn what_is_built_at_the_start() {
    assert!(pipeline::needs_build(None, "abc"));
    assert!(pipeline::needs_build(Some("old"), "abc"));
    assert!(!pipeline::needs_build(Some("abc"), "abc"));
}
