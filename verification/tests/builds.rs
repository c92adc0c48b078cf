use kei::config::{
    AuthConfig, Config, GithubConfig, MavenConfig, NixConfig, NotifyConfig, ProjectConfig,
    ProjectMavenConfig, ProjectNixOverride, ServerConfig, StorageConfig, Visibility,
};
use kei::pipeline;
use kei::request::Headers;
use kei::routes;
use kei::state::{may_hold_build, AppState, ArtifactRef, BuildState, StoredBuild};
use kei::time::Timestamp;

fn project(name: &str, visibility: Visibility) -> ProjectConfig {
    ProjectConfig {
        name: name.to_string(),
        repo_url: String::new(),
        branch: "main".to_string(),
        ssh_key: None,
        github_full_name: None,
        visibility,
        allowed_accounts: vec![],
        maven: ProjectMavenConfig::default(),
        nix: ProjectNixOverride::default(),
        steps: vec![],
        artifacts: vec![],
        notify: NotifyConfig::default(),
    }
}

fn state() -> AppState {
    AppState::new(Config {
        server: ServerConfig::default(),
        storage: StorageConfig { workspace_dir: "/w".to_string(), artifacts_dir: "/a".to_string() },
        github: GithubConfig::default(),
        nix: NixConfig::default(),
        maven: MavenConfig::default(),
        auth: AuthConfig::default(),
        projects: vec![project("p", Visibility::Public), project("q", Visibility::Private)],
    })
}

fn at(secs: i64) -> Timestamp {
    Timestamp::new(secs, 0).unwrap()
}

fn nobody() -> Headers {
    Headers { authorization: None, cookie: None, forwarded_for: None, hub_signature: None, github_event: None }
}

fn artifact(path: &str) -> ArtifactRef {
    ArtifactRef {
        project: "p".to_string(),
        build_id: 1,
        path: path.to_string(),
        size: 3,
        url: format!("/artifacts/{path}"),
    }
}

#[test]
fn a_new_build_waits() {
    let mut s = state();
    s.queue_build("p", 7, 3, at(10));
    let b = s.get_build(7).unwrap();
    assert_eq!((b.id, b.project.as_str(), b.number), (7, "p", 3));
    assert_eq!(b.state, BuildState::Queued);
    assert_eq!(b.started_at.parts(), (10, 0));
    assert!(b.log.is_empty() && b.artifacts.is_empty() && b.error.is_none());
    assert!(b.commit.is_none() && b.finished_at.is_none() && b.current_step.is_none());
    assert!(s.get_build(8).is_none());
}

#[test]
fn builds_get_identifiers_of_their_own() {
    let mut s = state();
    let a = s.create_build("p", 1);
    let b = s.create_build("p", 2);
    assert!(a != b);
    assert_eq!(uuid::Uuid::from_u128(a).get_version_num(), 4);
    assert_eq!(s.get_build(a).unwrap().number, 1);
    assert_eq!(s.get_build(b).unwrap().number, 2);
    assert_eq!(s.list_builds().len(), 2);
}

#[test]
fn builds_are_listed_newest_first() {
    let mut s = state();
    for (id, t) in [(1, 50), (2, 70), (3, 60), (4, 70)] {
        s.queue_build("p", id, 1, at(t));
    }
    let secs: Vec<i64> = s.list_builds().iter().map(|b| b.started_at.parts().0).collect();
    assert_eq!(secs, vec![70, 70, 60, 50]);
    let mut ids: Vec<u128> = s.list_builds().iter().map(|b| b.id).collect();
    ids.sort();
    assert_eq!(ids, vec![1, 2, 3, 4]);
}

#[test]
fn superseded_builds() {
    let mut s = state();
    for id in 1..5u128 {
        s.queue_build(if id == 4 { "q" } else { "p" }, id, 1, at(1));
    }
    s.update_build(2, |b| pipeline::begin(b, None, at(2)));
    s.update_build(3, |b| pipeline::succeed(b, vec![], at(2)));
    let mut ids = s.cancel_superseded_builds("p");
    ids.sort();
    assert_eq!(ids, vec![1, 2]);
}

#[test]
fn stopping_a_waiting_build() {
    let mut s = state();
    s.queue_build("p", 1, 1, at(1));
    s.update_build(1, |b| pipeline::enter(b, "x"));
    s.record_cancel(1, true, "stop\n", at(9));
    let b = s.get_build(1).unwrap();
    assert_eq!(b.state, BuildState::Canceled);
    assert_eq!(b.log, "stop\n");
    assert_eq!(b.finished_at.unwrap().parts(), (9, 0));
    assert!(b.current_step.is_none());
}

#[test]
fn stopping_a_running_build() {
    let mut s = state();
    s.queue_build("p", 1, 1, at(1));
    s.update_build(1, |b| pipeline::begin(b, None, at(2)));
    assert!(s.request_cancel_build(1, true, "stop\n"));
    let b = s.get_build(1).unwrap();
    assert_eq!(b.state, BuildState::Running);
    assert_eq!(b.log, "stop\n");
    assert!(b.finished_at.is_none());
}

#[test]
fn stopping_what_cannot_be_stopped() {
    let mut s = state();
    s.queue_build("p", 1, 1, at(1));
    assert!(!s.request_cancel_build(1, false, "stop\n"));
    assert_eq!(s.get_build(1).unwrap().state, BuildState::Queued);
    s.update_build(1, |b| pipeline::fail(b, "e", at(2)));
    let log = s.get_build(1).unwrap().log.clone();
    assert!(s.request_cancel_build(1, true, "stop\n"));
    assert_eq!(s.get_build(1).unwrap().log, log);
    assert!(s.request_cancel_build(9, true, "stop\n"));
    assert!(s.get_build(9).is_none());
}

#[test]
fn logs_grow() {
    let mut s = state();
    s.queue_build("p", 1, 1, at(1));
    s.append_log(1, "a");
    s.append_log(1, "b");
    s.append_log(2, "c");
    assert_eq!(s.get_build(1).unwrap().log, "ab");
    assert!(s.get_build(2).is_none());
}

#[test]
fn build_numbers() {
    assert_eq!(AppState::next_build_number(None), 1);
    assert_eq!(AppState::next_build_number(Some("41\n")), 42);
    assert_eq!(AppState::next_build_number(Some("x")), 1);
    assert_eq!(AppState::last_build_number(Some(" 18446744073709551615 ")), u64::MAX);
    let mut stored: Option<String> = None;
    for n in 1..12u64 {
        let next = AppState::next_build_number(stored.as_deref());
        assert_eq!(next, n);
        stored = Some(next.to_string());
    }
}

#[test]
fn last_commits() {
    assert_eq!(AppState::last_built_commit(None), None);
    assert_eq!(AppState::last_built_commit(Some(" \n")), None);
    assert_eq!(AppState::last_built_commit(Some("abc\n")), Some("abc".to_string()));
    let kept = AppState::last_built_commit(Some(" abc ")).unwrap();
    assert_eq!(AppState::last_built_commit(Some(&kept)), Some(kept.clone()));
}

#[test]
fn files_of_builds() {
    let s = state();
    assert_eq!(s.build_number_file("p"), "/a/p/.build_number");
    assert_eq!(s.last_commit_file("p"), "/a/p/.last_commit");
    assert_eq!(
        s.latest_link("p", 1),
        ("/a/p/latest".to_string(), "00000000-0000-0000-0000-000000000001".to_string())
    );
    assert_eq!(s.build_file("p", 1), "/a/p/00000000-0000-0000-0000-000000000001/build.json");
    assert!(may_hold_build("00000000-0000-0000-0000-000000000001"));
    assert!(!may_hold_build("latest"));
    assert!(!may_hold_build(".last_commit"));
    assert!(may_hold_build(""));
}

#[test]
fn builds_are_replaced_in_their_place() {
    let mut s = state();
    s.queue_build("p", 1, 1, at(1));
    s.update_build(2, |b| pipeline::enter(b, "x"));
    assert!(s.get_build(2).is_none());
    s.update_build(1, |mut b| {
        b.id = 9;
        b
    });
    assert_eq!(s.get_build(1).unwrap().id, 9);
    assert!(s.get_build(9).is_none());
}

fn stored(name: &str, id: u128, number: u64) -> StoredBuild {
    let mut s = state();
    s.queue_build("p", id, number, at(5));
    StoredBuild { name: name.to_string(), build: Some(s.get_build(id).unwrap().clone()) }
}

#[test]
fn earlier_builds_are_loaded() {
    let mut s = state();
    s.queue_build("p", 9, 9, at(1));
    let found = vec![
        stored("a", 1, 1),
        StoredBuild { name: "malformed".to_string(), build: None },
        stored("b", 2, 2),
        stored("c", 1, 3),
        stored("latest", 1, 4),
        stored(".hidden", 5, 5),
    ];
    assert_eq!(s.load_persisted_builds(found), 3);
    assert_eq!(s.get_build(1).unwrap().number, 3);
    assert_eq!(s.get_build(2).unwrap().number, 2);
    assert_eq!(s.get_build(9).unwrap().number, 9);
    assert_eq!(s.list_builds().len(), 3);
}

#[test]
fn requests_see_builds_of_their_projects() {
    let mut s = state();
    s.queue_build("p", 1, 1, at(1));
    s.queue_build("q", 2, 1, at(2));
    s.queue_build("gone", 3, 1, at(3));
    s.queue_build("p", 4, 2, at(4));
    let ids: Vec<u128> = routes::list_builds(&s, &nobody()).iter().map(|b| b.id).collect();
    assert_eq!(ids, vec![4, 1]);
    assert_eq!(routes::list_projects(&s.config, &nobody()), vec!["p"]);
}

#[test]
fn requests_for_one_build() {
    let mut s = state();
    s.queue_build("p", 1, 1, at(1));
    s.queue_build("q", 2, 1, at(2));
    s.queue_build("gone", 3, 1, at(3));
    assert_eq!(routes::get_build(&s, &nobody(), 1).unwrap().id, 1);
    for (id, message) in [(9, "build not found"), (3, "project not found"), (2, "not found")] {
        let e = routes::get_build(&s, &nobody(), id).unwrap_err();
        assert_eq!((e.status, e.message.as_str()), (404, message));
    }
}

#[test]
fn artifacts_of_visible_builds() {
    let mut s = state();
    for (id, name) in [(1, "p"), (2, "q"), (3, "p")] {
        s.queue_build(name, id, 1, at(id as i64));
        let path = format!("{name}/{id}/f");
        s.update_build(id, |b| pipeline::succeed(b, vec![artifact(&path), artifact("x")], at(9)));
    }
    let paths: Vec<&str> =
        routes::list_artifacts(&s, &nobody()).into_iter().map(|a| a.path.as_str()).collect();
    assert_eq!(paths, vec!["p/3/f", "x", "p/1/f", "x"]);
}

/// The address that is written with dots.
fn v4(s: &str) -> routes::IpAddr {
    let mut n: u32 = 0;
    for octet in s.split('.') {
        n = n * 256 + octet.parse::<u32>().unwrap();
    }
    routes::IpAddr::V4(n)
}

/// The address of the given groups.
fn v6(groups: [u16; 8]) -> routes::IpAddr {
    let mut n: u128 = 0;
    for group in groups {
        n = n * 0x1_0000 + group as u128;
    }
    routes::IpAddr::V6(n)
}

#[test]
fn near_addresses() {
    for a in ["127.0.0.1", "127.9.9.9", "10.0.0.1", "172.16.0.1", "172.31.255.255", "192.168.1.1"] {
        assert!(routes::is_private_or_loopback(v4(a)), "{a}");
    }
    for a in ["8.8.8.8", "172.15.0.1", "172.32.0.1", "192.169.0.1", "11.0.0.1", "128.0.0.1", "126.255.255.255"] {
        assert!(!routes::is_private_or_loopback(v4(a)), "{a}");
    }
    for a in [
        [0, 0, 0, 0, 0, 0, 0, 1],
        [0xfc00, 0, 0, 0, 0, 0, 0, 1],
        [0xfdff, 0, 0, 0, 0, 0, 0, 1],
        [0, 0, 0, 0, 0, 0xffff, 0x0a01, 0x0203],
        [0, 0, 0, 0, 0, 0xffff, 0x7f00, 1],
    ] {
        assert!(routes::is_private_or_loopback(v6(a)), "{a:x?}");
    }
    for a in [
        [0, 0, 0, 0, 0, 0, 0, 2],
        [0xfe80, 0, 0, 0, 0, 0, 0, 1],
        [0xfbff, 0, 0, 0, 0, 0, 0, 1],
        [0x2001, 0xdb8, 0, 0, 0, 0, 0, 1],
        [0, 0, 0, 0, 0, 0xffff, 0x0808, 0x0808],
        [0, 0, 0, 0, 0, 0, 0x0a00, 1],
        [0, 0, 0, 0, 1, 0xffff, 0x0a00, 1],
    ] {
        assert!(!routes::is_private_or_loopback(v6(a)), "{a:x?}");
    }
}

#[test]
fn only_the_machine_itself_forwards() {
    assert_eq!(routes::effective_client_ip(Some(v4("8.8.8.8")), v4("127.0.0.1")), v4("8.8.8.8"));
    assert_eq!(routes::effective_client_ip(Some(v4("10.0.0.1")), v6([0, 0, 0, 0, 0, 0, 0, 1])), v4("10.0.0.1"));
    assert_eq!(routes::effective_client_ip(Some(v4("10.0.0.1")), v4("9.9.9.9")), v4("9.9.9.9"));
    assert_eq!(routes::effective_client_ip(None, v4("127.0.0.1")), v4("127.0.0.1"));
    let mut h = nobody();
    assert_eq!(routes::forwarded_address(&h), None);
    h.forwarded_for = Some(" 1.2.3.4 , 5.6.7.8".to_string());
    assert_eq!(routes::forwarded_address(&h), Some("1.2.3.4"));
}

#[test]
fn triggers() {
    let s = state();
    let body = |p: &str| routes::TriggerBody { project: p.to_string() };
    assert_eq!(routes::trigger(&s.config, v4("10.0.0.1"), &body("p")).unwrap().name, "p");
    let e = routes::trigger(&s.config, v4("8.8.8.8"), &body("p")).unwrap_err();
    assert_eq!(
        (e.status, e.message.as_str()),
        (403, "trigger is restricted to private/loopback networks")
    );
    let e = routes::trigger(&s.config, v4("10.0.0.1"), &body("x")).unwrap_err();
    assert_eq!((e.status, e.message.as_str()), (404, "unknown project 'x'"));
}
