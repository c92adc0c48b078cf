use kei::auth::{public_artifact_url, public_build_url, public_path_url};
use kei::config::{
    DiscordTarget, NotifyConfig, ProjectConfig, ProjectMavenConfig, ProjectNixOverride, Visibility,
};
use kei::notify::{build_payload, discord_notify, webhook_url, DiscordEvent};
use kei::state::{ArtifactRef, BuildState, BuildStatus};
use kei::time::Timestamp;

const ID: &str = "00000000-0000-0000-0000-000000000001";

fn target() -> DiscordTarget {
    DiscordTarget {
        url: "https://d/w".to_string(),
        thread_id: None,
        on_failure: false,
        include_changes: true,
        include_docs_commit: true,
        include_artifacts: true,
        public_artifact_links: false,
        title: None,
        custom_message: None,
    }
}

fn project(targets: Vec<DiscordTarget>) -> ProjectConfig {
    ProjectConfig {
        name: "demo".to_string(),
        repo_url: String::new(),
        branch: "main".to_string(),
        ssh_key: None,
        github_full_name: Some("o/demo".to_string()),
        visibility: Visibility::Public,
        allowed_accounts: vec![],
        maven: ProjectMavenConfig::default(),
        nix: ProjectNixOverride::default(),
        steps: vec![],
        artifacts: vec![],
        notify: NotifyConfig { discord: targets },
    }
}

fn build(state: BuildState) -> BuildStatus {
    BuildStatus {
        id: 1,
        project: "demo".to_string(),
        number: 7,
        commit: Some("0123456789".to_string()),
        previous_commit: Some("fedcba9876".to_string()),
        docs_commit: None,
        state,
        started_at: Timestamp::new(0, 0).unwrap(),
        finished_at: Timestamp::new(60, 0),
        current_step: None,
        log: String::new(),
        artifacts: vec![ArtifactRef {
            project: "demo".to_string(),
            build_id: 1,
            path: "demo/1/x/a.jar".to_string(),
            size: 1_572_864,
            url: "/artifacts/demo/1/x/a.jar".to_string(),
        }],
        error: None,
    }
}

#[test]
fn events_without_links() {
    let p = project(vec![]);
    let e = build_payload(&p, &target(), None, None, &build(BuildState::Queued), DiscordEvent::Queued);
    assert_eq!(e.title, "demo #7 pending");
    assert_eq!(e.description, "**Commit:** `0123456`\n**State:** waiting for another build to finish");
    assert_eq!(e.color, 0xD29922);
    assert_eq!(e.timestamp, "1970-01-01T00:00:00+00:00");
    assert!(e.url.is_none());
    let mut b = build(BuildState::Running);
    b.commit = None;
    let e = build_payload(&p, &target(), None, None, &b, DiscordEvent::Started);
    assert_eq!(e.title, "demo #7 started");
    assert_eq!(e.description, "**Commit:** `?`\n**State:** build is running");
    assert_eq!(e.color, 0x6CB6FF);
}

#[test]
fn the_end_of_a_build() {
    let p = project(vec![]);
    let mut b = build(BuildState::Success);
    b.docs_commit = Some("aaaaaaaaaa".to_string());
    let e = build_payload(&p, &target(), Some("https://k"), None, &b, DiscordEvent::Finished);
    assert_eq!(e.title, "demo #7 succeeded");
    assert_eq!(e.color, 0x3FB950);
    assert_eq!(e.timestamp, "1970-01-01T00:01:00+00:00");
    assert_eq!(e.url, Some(format!("https://k/builds/{ID}")));
    let expected = format!(
        "**Result:** [Open build](https://k/builds/{ID})\n\
         **Commit:** [`0123456`](https://k/commits/demo/0123456789)\n\
         **Changes:** [fedcba9…0123456](https://k/compare/demo/fedcba9876...0123456789)\n\
         **Docs:** [`aaaaaaa`](https://k/commits/demo/aaaaaaaaaa)\n\n\
         **Artifacts**\n• [a.jar](https://k/artifacts/demo/1/x/a.jar) (1.50 MB)"
    );
    assert_eq!(e.description, expected);
}

#[test]
fn signed_links() {
    let p = project(vec![]);
    let mut t = target();
    t.include_changes = false;
    let b = build(BuildState::Success);
    let e = build_payload(&p, &t, Some("https://k"), Some("s"), &b, DiscordEvent::Finished);
    let url = public_build_url("https://k", "s", 1);
    assert_eq!(e.url, Some(url.clone()));
    let commit = public_path_url("https://k", "s", "/commits/demo/0123456789");
    let page = public_path_url("https://k", "s", "/artifacts/demo/1/x/a.jar");
    assert_eq!(
        e.description,
        format!("**Result:** [Open build]({url})\n**Commit:** [`0123456`]({commit})\n\n**Artifacts**\n• [a.jar]({page}) (1.50 MB)")
    );
    t.public_artifact_links = true;
    let e = build_payload(&p, &t, Some("https://k"), Some("s"), &b, DiscordEvent::Finished);
    let file = public_artifact_url("https://k", "s", "demo/1/x/a.jar");
    assert!(e.description.ends_with(&format!("\n• [a.jar]({file}) (1.50 MB)")));
}

#[test]
fn failures_name_their_error() {
    let p = project(vec![]);
    let mut t = target();
    t.include_artifacts = false;
    t.title = Some("{status}: {project}/{number} {status}".to_string());
    t.custom_message = Some("<@&1>".to_string());
    let mut b = build(BuildState::Failed);
    b.error = Some("step 'x' failed".to_string());
    b.previous_commit = b.commit.clone();
    b.finished_at = None;
    let e = build_payload(&p, &t, None, None, &b, DiscordEvent::Finished);
    assert_eq!(e.title, "failed: demo/7 failed");
    assert_eq!(e.description, "<@&1>\n\n**Commit:** `0123456`\n\n**Error:** step 'x' failed");
    assert_eq!(e.color, 0xF85149);
    assert_eq!(e.timestamp, "1970-01-01T00:00:00+00:00");
    t.custom_message = Some("line\n".to_string());
    let e = build_payload(&p, &t, None, None, &b, DiscordEvent::Finished);
    assert!(e.description.starts_with("line\n\n**Commit:**"));
    b.docs_commit = Some("bbbbbbbbbb".to_string());
    let e = build_payload(&p, &t, None, None, &b, DiscordEvent::Finished);
    assert!(e.description.contains("\n**Docs:** `bbbbbbb`"));
}

#[test]
fn artifacts_without_a_base_address() {
    let p = project(vec![]);
    let e = build_payload(&p, &target(), None, Some("s"), &build(BuildState::Canceled), DiscordEvent::Finished);
    assert_eq!(e.title, "demo #7 canceled");
    assert_eq!(
        e.description,
        format!(
            "**Commit:** `0123456`\n\n**Artifacts** of build `{ID}`\n\
             • [a.jar](/artifacts/demo/1/x/a.jar) (1.50 MB)"
        )
    );
    assert_eq!(e.color, 0xD29922);
    assert!(e.url.is_none());
    let mut none = build(BuildState::Success);
    none.artifacts.clear();
    let e = build_payload(&p, &target(), None, None, &none, DiscordEvent::Finished);
    assert_eq!(e.description, "**Commit:** `0123456`");
}

#[test]
fn changes_need_the_name_of_the_repository() {
    let mut p = project(vec![]);
    let b = build(BuildState::Success);
    let with = build_payload(&p, &target(), Some("https://k"), None, &b, DiscordEvent::Finished);
    assert!(with.description.contains("**Changes:**"));
    p.github_full_name = None;
    let without = build_payload(&p, &target(), Some("https://k"), None, &b, DiscordEvent::Finished);
    assert!(!without.description.contains("**Changes:**"));
}

#[test]
fn addresses_of_webhooks() {
    let mut t = target();
    assert_eq!(webhook_url(&t), "https://d/w?wait=true");
    t.thread_id = Some("42".to_string());
    assert_eq!(webhook_url(&t), "https://d/w?thread_id=42&wait=true");
}

#[test]
fn who_hears_of_failures() {
    let mut loud = target();
    loud.on_failure = true;
    loud.url = "https://loud".to_string();
    let p = project(vec![target(), loud]);
    let count = |state: BuildState, event: DiscordEvent| {
        discord_notify(&p, None, None, &build(state), event).len()
    };
    assert_eq!(count(BuildState::Success, DiscordEvent::Finished), 2);
    assert_eq!(count(BuildState::Failed, DiscordEvent::Finished), 1);
    assert_eq!(count(BuildState::Canceled, DiscordEvent::Finished), 1);
    assert_eq!(count(BuildState::Queued, DiscordEvent::Queued), 2);
    assert_eq!(count(BuildState::Running, DiscordEvent::Started), 2);
    let d = discord_notify(&p, None, None, &build(BuildState::Failed), DiscordEvent::Finished);
    assert_eq!(d[0].url, "https://loud?wait=true");
    assert_eq!(d[0].embed.title, "demo #7 failed");
}
