use kei::auth::{public_build_token, public_build_url, public_path_url};
use kei::config::{
    AccountConfig, AuthConfig, Config, GithubConfig, MavenConfig, NixConfig, NotifyConfig,
    ProjectConfig, ProjectMavenConfig, ProjectNixOverride, ServerConfig, StorageConfig, Visibility,
};
use kei::git::{CommitInfo, CommitSummary};
use kei::html::page;
use kei::request::{Headers, Target};
use kei::state::{AppState, ArtifactRef, BuildState};
use kei::time::Timestamp;
use kei::views::{self, Answer, CommitLookup, LoginForm, RangeLookup};
use kei::{pipeline, views::valid_sha};

fn project(name: &str, visibility: Visibility) -> ProjectConfig {
    ProjectConfig {
        name: name.to_string(),
        repo_url: String::new(),
        branch: "main".to_string(),
        ssh_key: None,
        github_full_name: None,
        visibility,
        allowed_accounts: vec![],
        maven: ProjectMavenConfig::default(),
        nix: ProjectNixOverride::default(),
        steps: vec![],
        artifacts: vec![],
        notify: NotifyConfig::default(),
    }
}

fn config() -> Config {
    Config {
        server: ServerConfig::default(),
        storage: StorageConfig { workspace_dir: "/w".to_string(), artifacts_dir: "/a".to_string() },
        github: GithubConfig::default(),
        nix: NixConfig::default(),
        maven: MavenConfig::default(),
        auth: AuthConfig {
            accounts: vec![AccountConfig { name: "root".to_string(), token: "t".to_string(), admin: true }],
            public_link_secret: Some("s".to_string()),
        },
        projects: vec![project("p&q", Visibility::Public), project("own", Visibility::Private)],
    }
}

fn headers(cookie: Option<&str>) -> Headers {
    Headers {
        authorization: None,
        cookie: cookie.map(str::to_string),
        forwarded_for: None,
        hub_signature: None,
        github_event: None,
    }
}

fn target(path: &str, query: Option<&str>) -> Target {
    Target { path: path.to_string(), query: query.map(str::to_string) }
}

fn at(secs: i64) -> Timestamp {
    Timestamp::new(secs, 0).unwrap()
}

const ID: &str = "01234567-0000-0000-0000-000000000001";
const N: u128 = 0x0123_4567_0000_0000_0000_0000_0000_0001;

#[test]
fn the_first_page() {
    let p = views::index();
    assert!(p.contains("<title>Kei · Kei</title>"));
    assert!(p.contains("<li><a href=\"/artifacts/\">Artifact files</a></li>"));
}

#[test]
fn pages_after_login() {
    for (next, expected) in [
        ("/builds", "/builds"),
        ("", "/"),
        ("//evil.example", "/"),
        ("https://evil.example", "/"),
        ("/login", "/"),
        ("/login?next=/x", "/"),
        ("/loginx", "/"),
        ("/", "/"),
    ] {
        assert_eq!(views::sanitize_next(next), expected);
        assert_eq!(views::sanitize_next(&views::sanitize_next(next)), expected);
    }
}

#[test]
fn the_login_page() {
    let p = views::login_form(Some("/a\"b"));
    assert!(p.contains("<input type=\"hidden\" name=\"next\" value=\"/a&quot;b\">\n"));
    assert!(!p.contains("class=\"error\""));
    assert_eq!(views::login_form(None), views::login_form(Some("//x")));
    assert!(p.contains("<h1><a href=\"/\">Kei</a> — Login</h1>\n\n<form class=\"login\""));
}

#[test]
fn logging_in_and_out() {
    let c = config();
    let form = |token: &str| LoginForm {
        account: "root".to_string(),
        token: token.to_string(),
        next: "/builds".to_string(),
    };
    match views::login_submit(&c, &form("t")) {
        Answer::GoTo { path, cookie } => {
            assert_eq!(path, "/builds");
            assert_eq!(cookie, "kei_token=t; Path=/; HttpOnly; SameSite=Lax; Max-Age=2592000");
        }
        other => panic!("{other:?}"),
    }
    match views::login_submit(&c, &form("x")) {
        Answer::Page(p) => assert!(p.contains("<div class=\"error\">Invalid account or token.</div>\n<form")),
        other => panic!("{other:?}"),
    }
    match views::logout() {
        Answer::GoTo { path, cookie } => {
            assert_eq!(path, "/");
            assert_eq!(cookie, "kei_token=; Path=/; HttpOnly; SameSite=Lax; Max-Age=0");
        }
        other => panic!("{other:?}"),
    }
}

#[test]
fn the_cookie_of_a_login_authenticates() {
    let p = kei::auth::authenticate(&headers(Some("kei_token=t")), &config()).unwrap();
    assert_eq!(p.account, "root");
}

#[test]
fn the_list_of_builds() {
    let mut s = AppState::new(config());
    let empty = views::list_builds(&s, &headers(None), &at(100));
    let frame = |rows: &str| {
        page(
            "Builds",
            &format!(
                "<h1><a href=\"/\">Kei</a> — Builds</h1>\n<table>\n  <thead><tr><th>ID</th><th>Project</th><th>State</th><th>Step</th><th>Started · Duration</th></tr></thead>\n  <tbody>{rows}</tbody>\n</table>"
            ),
        )
    };
    assert_eq!(empty, frame("<tr><td colspan=\"5\" class=\"muted\">No builds yet.</td></tr>"));
    s.queue_build("p&q", N, 5, at(40));
    s.update_build(N, |b| pipeline::enter(b, "a<b"));
    s.queue_build("own", 2, 5, at(41));
    let row = format!(
        "<tr>\n  <td><a href=\"/builds/{ID}\">#5</a> <span class=\"muted\"><code>01234567</code></span></td>\n  <td>p&amp;q</td>\n  <td><span class=\"state queued\">queued</span></td>\n  <td>a&lt;b</td>\n  <td class=\"muted\">1970-01-01 00:00:40 UTC · 60s+</td>\n</tr>"
    );
    assert_eq!(views::list_builds(&s, &headers(None), &at(100)), frame(&row));
    s.update_build(N, |b| pipeline::succeed(b, vec![], at(47)));
    let done = views::list_builds(&s, &headers(None), &at(100));
    assert!(done.contains("<td></td>\n  <td class=\"muted\">1970-01-01 00:00:40 UTC · 7s</td>"));
    assert!(done.contains("<span class=\"state success\">success</span>"));
}

#[test]
fn the_page_of_a_finished_build() {
    let mut s = AppState::new(config());
    s.queue_build("p&q", N, 5, at(40));
    s.update_build(N, |b| pipeline::synced(b, "abc"));
    s.update_build(N, |b| pipeline::fail(b, "x<y", at(47)));
    let p = views::build_detail(&s, &headers(None), &target("/builds/x", None), N, &at(100)).unwrap();
    let body = format!(
        "<h1><a href=\"/builds\">Builds</a> / #5 <span class=\"muted\"><code>01234567</code></span></h1>\n\
         <dl class=\"meta\">\n\
         \x20 <dt>Project</dt><dd>p&amp;q</dd>\n\
         \x20 <dt>State</dt><dd><span class=\"state failed\" id=\"state\">failed</span></dd>\n\
         \x20 <dt>Current step</dt><dd id=\"step\">—</dd>\n\
         \x20 <dt>Commit</dt><dd><code>abc</code></dd>\n\
         \x20 <dt>Started</dt><dd>1970-01-01 00:00:40 UTC</dd>\n\
         \x20 <dt>Duration</dt><dd id=\"dur\">7s</dd>\n\
         </dl>\n\
         \n\
         <div class=\"error\" id=\"error-box\" style=\"\"><strong>Error:</strong> <span id=\"error-text\">x&lt;y</span></div>\n\
         <section id=\"artifacts-section\" style=\"display:none\"><h2>Artifacts</h2><ul class=\"artifacts\" id=\"artifacts\"></ul></section>\n\
         <h2>Log <a class=\"raw\" href=\"/api/builds/{ID}/log\">raw</a></h2>\n\
         <p class=\"muted\" id=\"log-empty\" style=\"display:none\">No output yet.</p><pre class=\"log\" id=\"log\">\n[git] HEAD=abc\n\n[error] x&lt;y\n</pre>\n"
    );
    assert_eq!(p, page("Build #5", &body));
}

#[test]
fn the_page_of_a_live_build() {
    let mut s = AppState::new(config());
    s.queue_build("p&q", N, 5, at(40));
    s.update_build(N, |b| pipeline::begin(b, None, at(40)));
    let t = target("/builds/x", Some("token=abc"));
    let anonymous = views::build_detail(&s, &headers(None), &t, N, &at(50)).unwrap();
    assert!(anonymous.contains(&format!("  const buildId = \"{ID}\";\n")));
    assert!(anonymous.contains("<dd id=\"dur\">10s (running)</dd>"));
    assert!(anonymous.contains("<p class=\"muted\" id=\"log-empty\">No output yet.</p>"));
    assert!(anonymous.contains("/log?token=abc\">raw</a>"));
    assert!(!anonymous.contains("id=\"stop-build\""));
    assert!(anonymous.contains("  setTimeout(tick, 2000);\n})();\n</script>"));
    let known = views::build_detail(&s, &headers(Some("kei_token=t")), &t, N, &at(50)).unwrap();
    assert!(known.contains("<button class=\"danger\" id=\"stop-build\" type=\"button\">Stop build</button>"));
}

#[test]
fn artifacts_on_the_page_of_a_build() {
    let mut s = AppState::new(config());
    s.queue_build("p&q", N, 5, at(40));
    let a = ArtifactRef {
        project: "p&q".to_string(),
        build_id: N,
        path: "p/x.jar".to_string(),
        size: 2048,
        url: "/artifacts/p/x.jar".to_string(),
    };
    s.update_build(N, |b| pipeline::succeed(b, vec![a], at(47)));
    let p = views::build_detail(&s, &headers(None), &target("/", None), N, &at(50)).unwrap();
    assert!(p.contains(
        "style=\"\"><h2>Artifacts</h2><ul class=\"artifacts\" id=\"artifacts\"><li><a href=\"/artifacts/p/x.jar\">p/x.jar</a> <span class=\"muted\">(2.0 KB)</span></li></ul>"
    ));
    assert!(!p.contains("<script>"));
}

#[test]
fn builds_that_are_not_shown() {
    let mut s = AppState::new(config());
    s.queue_build("own", N, 5, at(40));
    s.queue_build("gone", 3, 5, at(40));
    let get = |id: u128, query: Option<&str>, cookie: Option<&str>| {
        views::build_detail(&s, &headers(cookie), &target("/", query), id, &at(50))
    };
    for (id, message) in [(9, "build not found"), (3, "project not found"), (N, "not found")] {
        let e = get(id, None, None).unwrap_err();
        assert_eq!((e.status, e.message.as_str()), (404, message));
        let e = views::build_log_raw(&s, &headers(None), None, id).unwrap_err();
        assert_eq!((e.status, e.message.as_str()), (404, message));
    }
    assert!(get(N, None, Some("kei_token=t")).is_ok());
    let link = public_build_url("", "s", N);
    assert!(get(N, Some(link.split_once('?').unwrap().1), None).is_ok());
    let token = public_build_token("s", N);
    assert_eq!(views::build_log_raw(&s, &headers(None), Some(&token), N).unwrap(), "");
    assert!(views::build_log_raw(&s, &headers(None), Some(&token), 3).is_err());
}

#[test]
fn what_names_a_commit() {
    for s in ["abc", "0123456789abcdefABCDEF", "A"] {
        assert!(valid_sha(s));
    }
    for s in ["", "..", "abg", "a/b", "HEAD", "-a", "ä"] {
        assert!(!valid_sha(s));
    }
}

#[test]
fn workspaces() {
    assert_eq!(views::workspace_for(&config(), "own"), Some("/w/own".to_string()));
    assert_eq!(views::workspace_for(&config(), "../etc"), None);
}

fn plain(a: Answer) -> (u16, String) {
    match a {
        Answer::Plain { status, message } => (status, message.to_string()),
        Answer::Refused(e) => (e.status, e.message),
        other => panic!("{other:?}"),
    }
}

#[test]
fn looking_up_commits() {
    let c = config();
    let look = |project: &str, sha: &str, query: Option<&str>| {
        views::commit_view(&c, &headers(None), &target(&format!("/commits/{project}/{sha}"), query), project, sha)
    };
    match look("p&q", "abc", None) {
        CommitLookup::Look { workspace } => assert_eq!(workspace, "/w/p&q"),
        other => panic!("{other:?}"),
    }
    let refused = |l: CommitLookup| match l {
        CommitLookup::Refuse(a) => plain(a),
        other => panic!("{other:?}"),
    };
    assert_eq!(refused(look("p&q", "..", None)), (400, "invalid sha".to_string()));
    assert_eq!(refused(look("x", "abc", None)), (404, "no such project".to_string()));
    assert_eq!(refused(look("own", "abc", None)), (404, "not found".to_string()));
    let link = public_path_url("", "s", "/commits/own/abc");
    assert!(matches!(
        look("own", "abc", Some(link.split_once('?').unwrap().1)),
        CommitLookup::Look { .. }
    ));
}

#[test]
fn looking_up_ranges() {
    let c = config();
    let look = |project: &str, range: &str| {
        views::compare_view(&c, &headers(None), &target("/x", None), project, range)
    };
    match look("p&q", "abc...def") {
        RangeLookup::Look { workspace, from, to } => {
            assert_eq!((workspace.as_str(), from.as_str(), to.as_str()), ("/w/p&q", "abc", "def"));
        }
        other => panic!("{other:?}"),
    }
    let refused = |l: RangeLookup| match l {
        RangeLookup::Refuse(a) => plain(a),
        other => panic!("{other:?}"),
    };
    for range in ["abc..def", "abc...", "...", "abc", "abc...d...e", "x...abc"] {
        assert_eq!(refused(look("p&q", range)), (400, "invalid range".to_string()));
    }
    assert_eq!(refused(look("x", "a...b")), (404, "no such project".to_string()));
    assert_eq!(refused(look("own", "a...b")), (404, "not found".to_string()));
}

#[test]
fn diffs() {
    assert_eq!(views::render_diff(" \n"), "<p class=\"muted\">No diff (empty commit?).</p>");
    let diff = "diff --git a b\nindex 1..2\n--- a\n+++ b\n@@ -1 +1 @@\n+new<\n-old\n\n same\nBinary files x\nrename from\n";
    let expected = "<div class=\"diff\">\
        <div class=\"diff-meta\">diff --git a b</div>\
        <div class=\"diff-meta\">index 1..2</div>\
        <div class=\"diff-fileheader\">--- a</div>\
        <div class=\"diff-fileheader\">+++ b</div>\
        <div class=\"diff-hunk\">@@ -1 +1 @@</div>\
        <div class=\"diff-add\">+new&lt;</div>\
        <div class=\"diff-del\">-old</div>\
        <div class=\"diff-ctx\">&nbsp;</div>\
        <div class=\"diff-ctx\"> same</div>\
        <div class=\"diff-meta\">Binary files x</div>\
        <div class=\"diff-meta\">rename from</div></div>";
    assert_eq!(views::render_diff(diff), expected);
}

#[test]
fn the_page_of_a_commit() {
    let c = CommitInfo {
        sha: "0123456789".to_string(),
        author: "A <a@b>".to_string(),
        date: "2024".to_string(),
        subject: "s&t".to_string(),
        body: "b".to_string(),
        stat: "f | 1".to_string(),
        diff: String::new(),
    };
    let body = "<h1><a href=\"/\">Kei</a> — p · <code>0123456</code></h1>\n\
        <dl class=\"meta\">\n\
        \x20 <dt>Project</dt><dd>p</dd>\n\
        \x20 <dt>SHA</dt><dd><code>0123456789</code></dd>\n\
        \x20 <dt>Author</dt><dd>A &lt;a@b&gt;</dd>\n\
        \x20 <dt>Date</dt><dd>2024</dd>\n\
        \x20 <dt>Subject</dt><dd>s&amp;t</dd>\n\
        </dl>\n\
        <h2>Message</h2>\n\
        <pre class=\"log\">b</pre>\n\
        <h2>Files changed</h2>\n\
        <pre class=\"log\">f | 1</pre>\n\
        <h2>Diff</h2>\n\
        <p class=\"muted\">No diff (empty commit?).</p>";
    match views::commit_page("p", &Ok(c)) {
        Answer::Page(p) => assert_eq!(p, page("Commit 0123456 · p", body)),
        other => panic!("{other:?}"),
    }
    assert_eq!(
        plain(views::commit_page("p", &Err("x".to_string()))),
        (404, "commit not found".to_string())
    );
}

#[test]
fn the_page_of_a_range() {
    let c = CommitSummary {
        sha: "0123456789".to_string(),
        author: "A".to_string(),
        date: "2024".to_string(),
        subject: "s".to_string(),
    };
    let frame = |count: usize, rows: &str| {
        page(
            "p compare aaaaaaa…bbb",
            &format!(
                "<h1><a href=\"/\">Kei</a> — p · <code>aaaaaaa</code>…<code>bbb</code></h1>\n<p class=\"muted\">{count} commits</p>\n<table>\n  <thead><tr><th>SHA</th><th>Subject</th><th>Author · Date</th></tr></thead>\n  <tbody>{rows}</tbody>\n</table>"
            ),
        )
    };
    match views::compare_page("p", "aaaaaaaaaa", "bbb", &Ok(vec![c])) {
        Answer::Page(p) => assert_eq!(
            p,
            frame(1, "<tr><td><a href=\"/commits/p/0123456789\"><code>0123456</code></a></td><td>s</td><td class=\"muted\">A · 2024</td></tr>")
        ),
        other => panic!("{other:?}"),
    }
    match views::compare_page("p", "aaaaaaaaaa", "bbb", &Ok(vec![])) {
        Answer::Page(p) => assert_eq!(
            p,
            frame(0, "<tr><td colspan=\"3\" class=\"muted\">No commits in range.</td></tr>")
        ),
        other => panic!("{other:?}"),
    }
    assert_eq!(
        plain(views::compare_page("p", "a", "b", &Err("x".to_string()))),
        (404, "compare not available".to_string())
    );
}

#[test]
fn words_for_states() {
    for (s, w) in [
        (BuildState::Queued, "queued"),
        (BuildState::Running, "running"),
        (BuildState::Success, "success"),
        (BuildState::Failed, "failed"),
        (BuildState::Canceled, "canceled"),
    ] {
        assert_eq!(views::state_class(&s), w);
        assert_eq!(views::state_label(&s), w);
    }
    assert_eq!(views::short_id(N), "01234567");
    assert_eq!(views::short_str("abc"), "abc");
}
