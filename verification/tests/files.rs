use kei::artifacts::{artifact_ref, collect};
use kei::auth::{public_artifact_url, public_path_url, Principal};
use kei::config::{
    AccountConfig, ArtifactConfig, AuthConfig, Config, GithubConfig, MavenConfig, NixConfig, NotifyConfig,
    ProjectConfig, ProjectMavenConfig, ProjectNixOverride, ServerConfig, StorageConfig, Visibility,
};
use kei::html::page;
use kei::request::{Headers, Target};
use kei::state::AppState;
use kei::time::Timestamp;
use kei::tree::{
    artifacts_handler, lists_entry, maven_handler, maven_project_for_path, mime_for,
    public_artifact_handler, render_artifacts_root, render_directory, resolve, serve_tree,
    sort_items, tree_rel_path, DirItem, EntryLink, FileKind, TreeAction, TreeAnswer,
};
use kei::views::Answer;

fn project(name: &str, visibility: Visibility, maven: Vec<&str>, public: Option<bool>) -> ProjectConfig {
    ProjectConfig {
        name: name.to_string(),
        repo_url: String::new(),
        branch: "main".to_string(),
        ssh_key: None,
        github_full_name: None,
        visibility,
        allowed_accounts: vec![],
        maven: ProjectMavenConfig {
            public,
            artifacts: maven.into_iter().map(str::to_string).collect(),
        },
        nix: ProjectNixOverride::default(),
        steps: vec![],
        artifacts: vec![],
        notify: NotifyConfig::default(),
    }
}

fn config() -> Config {
    Config {
        server: ServerConfig::default(),
        storage: StorageConfig { workspace_dir: "/w".to_string(), artifacts_dir: "/a".to_string() },
        github: GithubConfig::default(),
        nix: NixConfig::default(),
        maven: MavenConfig { repo_dir: Some("/m".to_string()) },
        auth: AuthConfig {
            accounts: vec![AccountConfig { name: "root".to_string(), token: "t".to_string(), admin: true }],
            public_link_secret: Some("s".to_string()),
        },
        projects: vec![
            project("p", Visibility::Public, vec!["plib", ""], None),
            project("own", Visibility::Private, vec!["ownlib", "plib"], Some(false)),
        ],
    }
}

fn headers(token: Option<&str>) -> Headers {
    Headers {
        authorization: token.map(|t| format!("Bearer {t}")),
        cookie: None,
        forwarded_for: None,
        hub_signature: None,
        github_event: None,
    }
}

fn target(url: &str) -> Target {
    match url.split_once('?') {
        Some((p, q)) => Target { path: p.to_string(), query: Some(q.to_string()) },
        None => Target { path: url.to_string(), query: None },
    }
}

fn reply(a: TreeAction) -> (u16, String) {
    match a {
        TreeAction::Reply(Answer::Plain { status, message }) => (status, message.to_string()),
        TreeAction::Reply(Answer::Refused(e)) => (e.status, e.message),
        other => panic!("{other:?}"),
    }
}

fn served(a: TreeAction) -> (String, &'static str, bool) {
    match a {
        TreeAction::Serve { root, prefix, listing } => (root, prefix, listing),
        other => panic!("{other:?}"),
    }
}

fn item(name: &str, is_dir: bool, modified: Option<i64>) -> DirItem {
    DirItem {
        name: name.to_string(),
        is_dir,
        size: 2048,
        modified: modified.map(|s| Timestamp::new(s, 0).unwrap()),
    }
}

#[test]
fn paths_in_trees() {
    assert_eq!(tree_rel_path("/artifacts", "/artifacts//p/x"), "p/x");
    assert_eq!(tree_rel_path("/artifacts", "/artifacts"), "");
    assert_eq!(tree_rel_path("/artifacts", "/other/p"), "");
    assert_eq!(tree_rel_path("/artifacts", "/artifacts/p/"), "p/");
}

#[test]
fn paths_that_lead_somewhere() {
    assert_eq!(resolve("/a", ""), Some("/a".to_string()));
    assert_eq!(resolve("/a", "p/x.jar"), Some("/a/p/x.jar".to_string()));
    assert_eq!(resolve("/a/", "p/"), Some("/a/p".to_string()));
    assert_eq!(resolve("/a", "p/..x/y"), Some("/a/p/..x/y".to_string()));
    assert_eq!(resolve("/a", "p//"), Some("/a/p".to_string()));
}

#[test]
fn paths_that_lead_nowhere() {
    for rel in ["..", "p/../q", "p/./q", "p//q", "./p", "p/.."] {
        assert_eq!(resolve("/a", rel), None, "{rel}");
    }
}

#[test]
fn asking_for_artifacts() {
    let c = config();
    let ask = |url: &str, token: Option<&str>| artifacts_handler(&c, &headers(token), &target(url));
    assert!(matches!(ask("/artifacts/", None), TreeAction::ListRoot));
    assert_eq!(served(ask("/artifacts/p/x", None)), ("/a".to_string(), "/artifacts", true));
    assert_eq!(reply(ask("/artifacts/x", None)), (404, "not found".to_string()));
    assert_eq!(reply(ask("/artifacts/own/x", None)), (404, "not found".to_string()));
    assert_eq!(served(ask("/artifacts/own/x", Some("t"))).0, "/a");
    let link = public_path_url("", "s", "/artifacts/own/x");
    assert_eq!(served(ask(&link, None)).0, "/a");
    assert_eq!(reply(ask(&link.replace("/x?", "/y?"), None)), (404, "not found".to_string()));
}

#[test]
fn signed_artifacts() {
    let c = config();
    let link = public_artifact_url("", "s", "own/1/x.jar");
    let ask = |url: &str| public_artifact_handler(&c, &target(url));
    assert_eq!(served(ask(&link)), ("/a".to_string(), "/public/artifacts", false));
    assert_eq!(reply(ask(&link.replace("x.jar", "y.jar"))), (403, "bad token".to_string()));
    assert_eq!(reply(ask("/public/artifacts/own/1/x.jar")), (401, "missing token".to_string()));
    assert_eq!(reply(ask("/public/artifacts/own/?token=1")), (404, "not found".to_string()));
    assert_eq!(reply(ask("/public/artifacts/")), (404, "not found".to_string()));
}

#[test]
fn owners_in_the_maven_repository() {
    let c = config();
    let owner = |rel: &str| maven_project_for_path(&c, rel).map(|p| p.name.clone());
    assert_eq!(owner("org/x/plib/1.0/a.jar"), Some("p".to_string()));
    assert_eq!(owner("/org/ownlib/"), Some("own".to_string()));
    assert_eq!(owner("org/plibx/1.0"), None);
    assert_eq!(owner(""), None);
    assert_eq!(owner("org//x"), None);
}

#[test]
fn asking_for_maven_artifacts() {
    let mut c = config();
    let url = "/maven/org/ownlib/1.0/a.jar";
    assert_eq!(served(maven_handler(&c, &headers(None), &target("/maven/org/plib/a.jar"))), ("/m".to_string(), "/maven", false));
    assert_eq!(served(maven_handler(&c, &headers(None), &target("/maven/other"))).0, "/m");
    assert_eq!(reply(maven_handler(&c, &headers(None), &target(url))), (404, "not found".to_string()));
    assert_eq!(served(maven_handler(&c, &headers(Some("t")), &target(url))).0, "/m");
    c.maven.repo_dir = None;
    assert_eq!(
        reply(maven_handler(&c, &headers(None), &target(url))),
        (404, "maven repo not configured".to_string())
    );
}

#[test]
fn answering_what_lies_there() {
    let ask = |path: &str, kind: FileKind, listing: bool, raw: &str| serve_tree("/a", path, kind, listing, raw);
    assert!(matches!(ask("/a/p/x", FileKind::File, false, "/artifacts/p/x"), TreeAnswer::Send));
    assert!(matches!(ask("/etc/passwd", FileKind::File, true, "/artifacts/p/x"), TreeAnswer::NotFound));
    assert!(matches!(ask("/ab/x", FileKind::File, true, "/artifacts/x"), TreeAnswer::NotFound));
    assert!(matches!(ask("/a/p", FileKind::Other, true, "/artifacts/p"), TreeAnswer::NotFound));
    assert!(matches!(ask("/a/p", FileKind::Directory, false, "/artifacts/p/"), TreeAnswer::NotFound));
    assert!(matches!(ask("/a/p", FileKind::Directory, true, "/artifacts/p/"), TreeAnswer::List));
    match ask("/a/p", FileKind::Directory, true, "/artifacts/p") {
        TreeAnswer::Moved(to) => assert_eq!(to, "/artifacts/p/"),
        other => panic!("{other:?}"),
    }
}

#[test]
fn media_types() {
    for (path, mime) in [
        ("/a/x.JAR", "application/java-archive"),
        ("x.zip", "application/zip"),
        ("x.html", "text/html; charset=utf-8"),
        ("x.htm", "text/html; charset=utf-8"),
        ("x.json", "application/json"),
        ("x.log", "text/plain; charset=utf-8"),
        ("x.txt", "text/plain; charset=utf-8"),
        ("x.xml", "application/xml"),
        ("x.css", "text/css"),
        ("x.js", "application/javascript"),
        ("x.png", "image/png"),
        ("x.jpg", "image/jpeg"),
        ("x.jpeg", "image/jpeg"),
        ("x.svg", "image/svg+xml"),
        ("x.tar.gz", "application/octet-stream"),
        (".jar", "application/octet-stream"),
        ("jar", "application/octet-stream"),
    ] {
        assert_eq!(mime_for(path), mime, "{path}");
    }
}

#[test]
fn entries_that_are_listed() {
    assert!(lists_entry("x", &EntryLink::Plain, "/a"));
    assert!(!lists_entry(".x", &EntryLink::Plain, "/a"));
    assert!(lists_entry("latest", &EntryLink::To("/a/p/1".to_string()), "/a"));
    assert!(!lists_entry("evil", &EntryLink::To("/etc/passwd".to_string()), "/a"));
    assert!(!lists_entry("gone", &EntryLink::Broken, "/a"));
}

#[test]
fn the_order_of_a_listing() {
    let sorted = sort_items(vec![
        item("b", false, Some(5)),
        item("z", false, None),
        item("a", false, Some(5)),
        item("d", true, Some(5)),
        item("y", true, None),
        item("new", false, Some(9)),
        item("latest", true, Some(1)),
    ]);
    let names: Vec<&str> = sorted.iter().map(|i| i.name.as_str()).collect();
    assert_eq!(names, vec!["latest", "new", "d", "a", "b", "y", "z"]);
}

#[test]
fn listings_do_not_depend_on_the_order_of_the_directory() {
    let items = vec![item("b", false, Some(5)), item("a", true, Some(5)), item("c", false, None)];
    let mut reversed = items.clone();
    reversed.reverse();
    assert_eq!(render_directory(items, "p/"), render_directory(reversed, "p/"));
}

fn frame(crumb: &str, rows: &str) -> String {
    page(
        crumb,
        &format!(
            "<h1><a href=\"/\">Kei</a> — {crumb}</h1>\n<table>\n  <thead><tr><th>Name</th><th>Size</th><th>Modified</th></tr></thead>\n  <tbody>{rows}</tbody>\n</table>"
        ),
    )
}

#[test]
fn the_page_of_a_directory() {
    let up = "<tr><td><a href=\"../\">../</a></td><td class=\"muted\"></td><td class=\"muted\"></td></tr>";
    let rows = format!(
        "{up}<tr><td><a href=\"d/\">d/</a></td><td class=\"muted\"></td><td class=\"muted\">1970-01-01 00:01 UTC</td></tr><tr><td><a href=\"f\">f</a></td><td class=\"muted\">2.0 KB</td><td class=\"muted\"></td></tr>"
    );
    assert_eq!(
        render_directory(vec![item("f", false, None), item("d", true, Some(60))], "p/1/"),
        frame("Artifacts / p/1", &rows)
    );
    assert_eq!(render_directory(vec![], "p/"), frame("Artifacts / p", up));
    assert_eq!(
        render_directory(vec![], ""),
        frame("Artifacts", "<tr><td colspan=\"3\" class=\"muted\">No artifacts yet.</td></tr>")
    );
}

#[test]
fn the_page_of_all_artifacts() {
    let c = config();
    let row = |n: &str| {
        format!("<tr><td><a href=\"{n}/\">{n}/</a></td><td class=\"muted\"></td><td class=\"muted\"></td></tr>")
    };
    assert_eq!(render_artifacts_root(&c, None, &vec![true]), frame("Artifacts", &row("p")));
    assert_eq!(
        render_artifacts_root(&c, None, &vec![false]),
        frame("Artifacts", "<tr><td colspan=\"3\" class=\"muted\">No artifacts yet.</td></tr>")
    );
    let root = Principal { account: "root".to_string(), admin: true };
    assert_eq!(
        render_artifacts_root(&c, Some(&root), &vec![true, true]),
        frame("Artifacts", &format!("{}{}", row("p"), row("own")))
    );
    assert_eq!(
        render_artifacts_root(&c, Some(&root), &vec![false, true]),
        frame("Artifacts", &row("own"))
    );
}

#[test]
fn what_is_kept_is_served() {
    let pattern = ArtifactConfig { pattern: "*".to_string(), suffix: None };
    let sources = vec!["/w/p/build/libs/x.jar".to_string(), "/w/p/y.txt".to_string()];
    let state = AppState::new(config());
    let kept = collect(1, "/w/p", &state.build_dir("p", 7), &pattern, &sources);
    for file in &kept {
        let url = artifact_ref("p", 7, &file.name, 1).url;
        assert_eq!(
            resolve("/a", tree_rel_path("/artifacts", &url)),
            Some(file.dest.clone())
        );
    }
    assert_eq!(kept[0].dest, "/a/p/00000000-0000-0000-0000-000000000007/build/libs/x.jar");
}
