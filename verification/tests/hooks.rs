use kei::config::{
    AuthConfig, Config, GithubConfig, MavenConfig, NixConfig, NotifyConfig, ProjectConfig,
    ProjectMavenConfig, ProjectNixOverride, ServerConfig, StorageConfig, Visibility,
};
use kei::error::ApiError;
use kei::request::Headers;
use kei::webhook::{
    decide_push, handle, verify_signature, HeadCommit, HookAction, PushAction, PushPayload, PushRepo,
};

// The example of GitHub's documentation.
const SECRET: &str = "It's a Secret to Everybody";
const BODY: &[u8] = b"Hello, World!";
const SIGNATURE: &str = "sha256=757107ea0eb2509fc211221cce984b8a37570b6d7586c22c46f4379c8b043e17";

fn error(res: Result<(), ApiError>) -> (u16, String) {
    let e = res.unwrap_err();
    (e.status, e.message)
}

fn config(secret: Option<&str>) -> Config {
    Config {
        server: ServerConfig::default(),
        storage: StorageConfig::default(),
        github: GithubConfig { webhook_secret: secret.map(str::to_string) },
        nix: NixConfig::default(),
        maven: MavenConfig::default(),
        auth: AuthConfig::default(),
        projects: vec![ProjectConfig {
            name: "demo".to_string(),
            repo_url: String::new(),
            branch: "main".to_string(),
            ssh_key: None,
            github_full_name: Some("owner/repo".to_string()),
            visibility: Visibility::Public,
            allowed_accounts: vec![],
            maven: ProjectMavenConfig::default(),
            nix: ProjectNixOverride::default(),
            steps: vec![],
            artifacts: vec![],
            notify: NotifyConfig::default(),
        }],
    }
}

fn headers(signature: Option<&str>, event: Option<&str>) -> Headers {
    Headers {
        authorization: None,
        cookie: None,
        forwarded_for: None,
        hub_signature: signature.map(str::to_string),
        github_event: event.map(str::to_string),
    }
}

fn push(reference: &str, repo: &str, head: Option<&str>, commits: Vec<&str>) -> PushPayload {
    PushPayload {
        ref_field: reference.to_string(),
        repository: PushRepo { full_name: repo.to_string() },
        head_commit: head.map(|m| HeadCommit { message: m.to_string() }),
        commits: commits.into_iter().map(|m| HeadCommit { message: m.to_string() }).collect(),
    }
}

#[test]
fn signatures() {
    assert!(verify_signature(Some(SECRET), Some(SIGNATURE), BODY).is_ok());
    assert!(verify_signature(Some(SECRET), Some(&SIGNATURE[7..]), BODY).is_ok());
    assert!(verify_signature(None, None, BODY).is_ok());
    assert!(verify_signature(None, Some("junk"), BODY).is_ok());
}

#[test]
fn bad_signatures() {
    assert_eq!(error(verify_signature(Some(SECRET), None, BODY)), (401, "missing signature".to_string()));
    assert_eq!(
        error(verify_signature(Some(SECRET), Some("sha256=xyz"), BODY)),
        (401, "bad signature".to_string())
    );
    assert_eq!(
        error(verify_signature(Some(SECRET), Some("sha256=zz"), BODY)),
        (401, "bad signature".to_string())
    );
    assert_eq!(
        error(verify_signature(Some(SECRET), Some("sha256=abc"), BODY)),
        (401, "bad signature".to_string())
    );
    assert_eq!(
        error(verify_signature(Some(SECRET), Some(SIGNATURE), b"Hello, world!")),
        (401, "bad signature".to_string())
    );
    assert_eq!(
        error(verify_signature(Some("other"), Some(SIGNATURE), BODY)),
        (401, "bad signature".to_string())
    );
    assert_eq!(
        error(verify_signature(Some(SECRET), Some(""), BODY)),
        (401, "bad signature".to_string())
    );
}

#[test]
fn events() {
    let c = config(None);
    assert!(matches!(handle(&c, &headers(None, Some("ping")), BODY), Ok(HookAction::Pong)));
    assert!(matches!(handle(&c, &headers(None, Some("push")), BODY), Ok(HookAction::ReadPush)));
    match handle(&c, &headers(None, Some("issues")), BODY) {
        Ok(HookAction::Ignore(e)) => assert_eq!(e, "issues"),
        other => panic!("{other:?}"),
    }
    match handle(&c, &headers(None, None), BODY) {
        Ok(HookAction::Ignore(e)) => assert_eq!(e, ""),
        other => panic!("{other:?}"),
    }
}

#[test]
fn unsigned_events_are_refused() {
    let c = config(Some(SECRET));
    let e = handle(&c, &headers(None, Some("ping")), BODY).unwrap_err();
    assert_eq!((e.status, e.message.as_str()), (401, "missing signature"));
    assert!(handle(&c, &headers(Some(SIGNATURE), Some("ping")), BODY).is_ok());
}

#[test]
fn pushes_build_their_project() {
    let c = config(None);
    match decide_push(&c, &push("refs/heads/main", "owner/repo", None, vec!["fix"])) {
        PushAction::Build(p) => assert_eq!(p.name, "demo"),
        other => panic!("{other:?}"),
    }
    assert!(matches!(
        decide_push(&c, &push("main", "owner/repo", None, vec![])),
        PushAction::Build(_)
    ));
    assert!(matches!(
        decide_push(&c, &push("refs/heads/dev", "owner/repo", None, vec!["fix"])),
        PushAction::NoProject
    ));
    assert!(matches!(
        decide_push(&c, &push("refs/tags/main", "owner/repo", None, vec!["fix"])),
        PushAction::NoProject
    ));
    assert!(matches!(
        decide_push(&c, &push("refs/heads/main", "owner/other", None, vec!["fix"])),
        PushAction::NoProject
    ));
}

#[test]
fn pushes_that_ask_for_no_build() {
    let c = config(None);
    let skipped = |head: Option<&str>, commits: Vec<&str>| {
        matches!(decide_push(&c, &push("refs/heads/main", "owner/repo", head, commits)), PushAction::SkipCi)
    };
    assert!(skipped(None, vec!["docs [skip ci]"]));
    assert!(skipped(None, vec!["docs [Skip CI] \n", "more [ci skip]"]));
    assert!(!skipped(None, vec!["docs [skip ci]", "real change"]));
    assert!(!skipped(None, vec!["[skip ci] docs"]));
    assert!(skipped(Some("docs [ci skip]"), vec![]));
    assert!(!skipped(Some("docs [ci skip]"), vec!["real change"]));
    assert!(!skipped(None, vec![]));
}
