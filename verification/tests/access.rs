use hmac::Mac;
use kei::auth::{
    authenticate, authenticate_login, can_view_project, can_view_project_maven,
    public_artifact_token, public_artifact_url, public_build_token, public_build_url,
    public_path_token, public_path_url, query_param, require_project_access,
    require_project_maven_access, require_project_or_public_build_access,
    require_project_or_public_path_access, verify_public_artifact_token,
    verify_public_build_token, verify_public_path_token, visible_projects, Principal,
};
use kei::config::{
    AccountConfig, AuthConfig, Config, FileText, GithubConfig, MavenConfig, NixConfig, NotifyConfig,
    ProjectBuildConfig, ProjectConfig, ProjectMavenConfig, ProjectNixOverride, ServerConfig,
    StorageConfig, Visibility,
};
use kei::request::{Headers, Target};

fn project(name: &str, visibility: Visibility, allowed: Vec<&str>) -> ProjectConfig {
    ProjectConfig {
        name: name.to_string(),
        repo_url: String::new(),
        branch: "main".to_string(),
        ssh_key: None,
        github_full_name: None,
        visibility,
        allowed_accounts: allowed.into_iter().map(str::to_string).collect(),
        maven: ProjectMavenConfig::default(),
        nix: ProjectNixOverride::default(),
        steps: vec![],
        artifacts: vec![],
        notify: NotifyConfig::default(),
    }
}

fn account(name: &str, token: &str, admin: bool) -> AccountConfig {
    AccountConfig { name: name.to_string(), token: token.to_string(), admin }
}

fn config() -> Config {
    Config {
        server: ServerConfig::default(),
        storage: StorageConfig::default(),
        github: GithubConfig::default(),
        nix: NixConfig::default(),
        maven: MavenConfig::default(),
        auth: AuthConfig {
            accounts: vec![account("ann", "t1", false), account("root", "t2", true), account("dup", "t1", true)],
            public_link_secret: Some("s3".to_string()),
        },
        projects: vec![
            project("open", Visibility::Public, vec![]),
            project("team", Visibility::Restricted, vec!["ann"]),
            project("own", Visibility::Private, vec!["ann"]),
        ],
    }
}

fn headers(authorization: Option<&str>, cookie: Option<&str>) -> Headers {
    Headers {
        authorization: authorization.map(str::to_string),
        cookie: cookie.map(str::to_string),
        forwarded_for: None,
        hub_signature: None,
        github_event: None,
    }
}

fn target(path: &str, query: Option<&str>) -> Target {
    Target { path: path.to_string(), query: query.map(str::to_string) }
}

fn code(secret: &str, scope: &str) -> String {
    let mut mac = hmac::Hmac::<sha2::Sha256>::new_from_slice(secret.as_bytes()).unwrap();
    mac.update(scope.as_bytes());
    hex::encode(mac.finalize().into_bytes())
}

const ID: u128 = 0x0123_4567_89ab_4cde_8f01_2345_6789_abcd;

#[test]
fn bearer_tokens() {
    let c = config();
    let p = authenticate(&headers(Some("Bearer  t2 "), None), &c).unwrap();
    assert_eq!(p.account, "root");
    assert!(p.admin);
    assert!(authenticate(&headers(Some("bearer t2"), None), &c).is_none());
    assert!(authenticate(&headers(Some("Bearer  "), None), &c).is_none());
    assert!(authenticate(&headers(Some("Bearer nope"), Some("kei_token=t2")), &c).is_none());
    assert!(authenticate(&headers(None, None), &c).is_none());
}

#[test]
fn first_account_of_a_token() {
    let p = authenticate(&headers(Some("Bearer t1"), None), &config()).unwrap();
    assert_eq!(p.account, "ann");
    assert!(!p.admin);
}

#[test]
fn cookie_tokens() {
    let c = config();
    let p = authenticate(&headers(None, Some("a=b;  kei_token=t2 ; c=d")), &c).unwrap();
    assert_eq!(p.account, "root");
    assert!(authenticate(&headers(None, Some("kei_token=; kei_token=t2")), &c).is_none());
    assert!(authenticate(&headers(None, Some("kei_token")), &c).is_none());
    let empty = authenticate(&headers(Some("Bearer "), Some("kei_token=t2")), &c).unwrap();
    assert_eq!(empty.account, "root");
}

#[test]
fn logins() {
    let c = config();
    assert_eq!(authenticate_login("ann", "t1", &c).unwrap().account, "ann");
    assert!(authenticate_login("dup", "t1", &c).unwrap().admin);
    assert!(authenticate_login("ann", "t2", &c).is_none());
    assert!(authenticate_login("nobody", "t1", &c).is_none());
}

#[test]
fn who_sees_what() {
    let c = config();
    let ann = Principal { account: "ann".to_string(), admin: false };
    let bob = Principal { account: "bob".to_string(), admin: false };
    let root = Principal { account: "root".to_string(), admin: true };
    let seen = |p: Option<&Principal>| -> Vec<String> {
        visible_projects(p, &c).into_iter().map(|p| p.name.clone()).collect()
    };
    assert_eq!(seen(None), vec!["open"]);
    assert_eq!(seen(Some(&bob)), vec!["open"]);
    assert_eq!(seen(Some(&ann)), vec!["open", "team"]);
    assert_eq!(seen(Some(&root)), vec!["open", "team", "own"]);
    assert!(can_view_project(Some(&root), &c.projects[2]));
    assert!(!can_view_project(Some(&ann), &c.projects[2]));
}

#[test]
fn refusals_hide_the_project() {
    let c = config();
    assert!(require_project_access(None, &c.projects[0]).is_ok());
    let e = require_project_access(None, &c.projects[1]).unwrap_err();
    assert_eq!((e.status, e.message.as_str()), (404, "not found"));
}

#[test]
fn maven_is_public_by_default() {
    let mut p = project("own", Visibility::Private, vec![]);
    assert!(can_view_project_maven(None, &p));
    p.maven.public = Some(true);
    assert!(can_view_project_maven(None, &p));
    p.maven.public = Some(false);
    assert!(!can_view_project_maven(None, &p));
    let e = require_project_maven_access(None, &p).unwrap_err();
    assert_eq!((e.status, e.message.as_str()), (404, "not found"));
    let root = Principal { account: "root".to_string(), admin: true };
    assert!(require_project_maven_access(Some(&root), &p).is_ok());
}

#[test]
fn tokens_are_codes() {
    assert_eq!(public_artifact_token("s", "p/f.jar"), code("s", "artifact:p/f.jar"));
    assert_eq!(public_path_token("s", "/commits/p/1"), code("s", "path:/commits/p/1"));
    assert_eq!(
        public_build_token("s", ID),
        code("s", "build:01234567-89ab-4cde-8f01-23456789abcd")
    );
}

#[test]
fn tokens_are_accepted_for_what_they_are_made_for() {
    let s = Some("s");
    let t = public_artifact_token("s", "p/f.jar");
    assert!(verify_public_artifact_token(s, "p/f.jar", &t));
    assert!(verify_public_artifact_token(s, "p/f.jar", &t.to_uppercase()));
    assert!(!verify_public_artifact_token(s, "p/g.jar", &t));
    assert!(!verify_public_artifact_token(Some("other"), "p/f.jar", &t));
    assert!(!verify_public_artifact_token(None, "p/f.jar", &t));
    assert!(!verify_public_artifact_token(s, "p/f.jar", &t[1..]));
    assert!(!verify_public_artifact_token(s, "p/f.jar", "zz"));
    assert!(!verify_public_artifact_token(s, "p/f.jar", ""));
    let b = public_build_token("s", ID);
    assert!(verify_public_build_token(s, ID, &b));
    assert!(!verify_public_build_token(s, ID + 1, &b));
    assert!(!verify_public_path_token(s, "/x", &b));
    assert!(verify_public_path_token(s, "/x", &public_path_token("s", "/x")));
}

#[test]
fn different_builds_have_different_tokens() {
    for n in [1u128, 16, 1 << 64, 1 << 127] {
        assert!(public_build_token("s", ID) != public_build_token("s", ID ^ n));
    }
}

#[test]
fn changed_tokens_are_refused() {
    let s = Some("s");
    let t = public_path_token("s", "/commits/p/1");
    assert_eq!(t.len(), 64);
    assert!(t.chars().all(|c| c.is_ascii_digit() || ('a'..='f').contains(&c)));
    let url = public_path_url("https://k", "s", "/commits/p/1");
    let query = url.split_once('?').map(|p| p.1);
    assert_eq!(query_param(query, "token"), Some(t.as_str()));
    assert!(verify_public_path_token(s, "/commits/p/1", &t));
    assert!(!verify_public_path_token(None, "/commits/p/1", &t));
    assert!(!verify_public_path_token(s, "/commits/p/1", &t[..63]));
    for c in "0123456789abcdefg".chars() {
        let other = format!("{}{c}", &t[..63]);
        assert_eq!(verify_public_path_token(s, "/commits/p/1", &other), t.ends_with(c));
    }
}

#[test]
fn older_artifact_links_stay_valid() {
    let bare = code("s", "p/f.jar");
    assert!(verify_public_artifact_token(Some("s"), "p/f.jar", &bare));
    assert!(!verify_public_path_token(Some("s"), "p/f.jar", &bare));
}

#[test]
fn links() {
    let t = code("s", "artifact:p/f.jar");
    assert_eq!(
        public_artifact_url("https://k", "s", "p/f.jar"),
        format!("https://k/public/artifacts/p/f.jar?token={t}")
    );
    let b = code("s", "build:01234567-89ab-4cde-8f01-23456789abcd");
    assert_eq!(
        public_build_url("https://k", "s", ID),
        format!("https://k/builds/01234567-89ab-4cde-8f01-23456789abcd?token={b}")
    );
    let p = code("s", "path:/compare/p/a...b");
    assert_eq!(
        public_path_url("https://k", "s", "/compare/p/a...b"),
        format!("https://k/compare/p/a...b?token={p}")
    );
}

#[test]
fn query_parameters() {
    assert_eq!(query_param(Some("a=1&token=x=y&token=z"), "token"), Some("x=y"));
    assert_eq!(query_param(Some("token"), "token"), None);
    assert_eq!(query_param(Some("token="), "token"), Some(""));
    assert_eq!(query_param(None, "token"), None);
}

#[test]
fn a_link_opens_what_is_hidden() {
    let c = config();
    let team = &c.projects[1];
    let link = public_path_url("", "s3", "/commits/team/abc");
    let (path, query) = link.split_once('?').unwrap();
    assert!(require_project_or_public_path_access(None, team, Some("s3"), &target(path, Some(query))).is_ok());
    let e = require_project_or_public_path_access(None, team, Some("s3"), &target("/commits/team/abd", Some(query)))
        .unwrap_err();
    assert_eq!((e.status, e.message.as_str()), (404, "not found"));
    let t = public_build_token("s3", ID);
    assert!(require_project_or_public_build_access(None, team, Some("s3"), ID, Some(&t)).is_ok());
    assert!(require_project_or_public_build_access(None, team, Some("s3"), ID + 1, Some(&t)).is_err());
    assert!(require_project_or_public_build_access(None, team, Some("s3"), ID, None).is_err());
    assert!(require_project_or_public_build_access(None, &c.projects[0], None, ID, None).is_ok());
}

#[test]
fn configuration_defaults() {
    let s = ServerConfig::default();
    assert_eq!((s.host.as_str(), s.port), ("0.0.0.0", 5050));
    assert_eq!(s.address(), "0.0.0.0:5050");
    assert!(s.public_url.is_none());
    let d = StorageConfig::default();
    assert_eq!(d.workspace_dir, "./data/workspaces");
    assert_eq!(d.artifacts_dir, "./data/artifacts");
    let n = NixConfig::default();
    assert!(!n.enabled && n.extra_args.is_empty() && n.command.is_empty());
    assert_eq!((n.flake.as_str(), n.shell.as_str()), (".", "default"));
    assert_eq!(kei::config::default_branch(), "main");
    assert!(kei::config::default_true());
}

#[test]
fn configuration_files() {
    assert_eq!(ProjectBuildConfig::file_in("/w/p"), "/w/p/kei.toml");
    assert_eq!(
        ProjectBuildConfig::text_to_parse(FileText::Text("x".to_string())),
        Some("x".to_string())
    );
    assert_eq!(ProjectBuildConfig::text_to_parse(FileText::Missing("gone".to_string())), None);
    assert_eq!(ProjectBuildConfig::text_to_parse(FileText::Unreadable("denied".to_string())), None);
    assert!(ProjectBuildConfig::load_from_workspace("f", None).unwrap().is_none());
    let mut recipe = ProjectBuildConfig::default();
    recipe.nix.shell = Some("ci".to_string());
    let loaded = ProjectBuildConfig::load_from_workspace("f", Some(Ok(recipe))).unwrap().unwrap();
    assert_eq!(loaded.nix.shell, Some("ci".to_string()));
    assert_eq!(
        ProjectBuildConfig::load_from_workspace("f", Some(Err("line 1".to_string()))).unwrap_err(),
        "parsing f: line 1"
    );
    assert_eq!(Config::load("f", FileText::Text("x".to_string())), Ok("x".to_string()));
    assert_eq!(
        Config::load("f", FileText::Missing("gone".to_string())),
        Err("reading f: gone".to_string())
    );
}

#[test]
fn finding_projects() {
    let mut c = config();
    c.projects[1].github_full_name = Some("o/r".to_string());
    c.projects[2].github_full_name = Some("o/r".to_string());
    assert_eq!(c.project("own").unwrap().name, "own");
    assert!(c.project("none").is_none());
    assert_eq!(c.project_for_full_name("o/r").unwrap().name, "team");
    assert!(c.project_for_full_name("o/x").is_none());
}
