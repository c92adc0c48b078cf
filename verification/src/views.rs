//! The pages that browsers are shown.

use crate::auth::{self, Principal, Viewer};
use crate::config::{Config, ProjectConfig};
use crate::error::{ApiError, BAD_REQUEST, NOT_FOUND};
use crate::git::{CommitInfo, CommitSummary};
use crate::html::{self, html_escape, html_escape_or, page, LIVE_END, LIVE_TOP};
use crate::numbers;
use crate::outside::{self, uuid_to_text};
use crate::paths;
use crate::request::{Headers, Target};
use crate::routes;
use crate::state::{self, AppState, ArtifactRef, BuildState, BuildStatus};
use crate::text::{self, CharClass};
use crate::time::Timestamp;
use vstd::prelude::*;

verus! {

/// What a browser is answered.
#[derive(Debug, Clone)]
pub enum Answer {
    /// A page.
    Page(String),
    /// A line of plain text, with its status.
    Plain { status: u16, message: &'static str },
    /// An error of the programming interface.
    Refused(ApiError),
    /// Another page is to be asked for; the cookie is to be set.
    GoTo { path: String, cookie: String },
}

impl Answer {
    /// Whether this is the line of plain text of the given status.
    pub open spec fn is_plain(self, status: u16, message: Seq<char>) -> bool {
        self matches Answer::Plain { status: s, message: m } && s == status && m@ == message
    }
}

// ---------------------------------------------------------------------------------------------
// Words
// ---------------------------------------------------------------------------------------------
/// The name of a state.
pub open spec fn state_text(s: BuildState) -> Seq<char> {
    match s {
        BuildState::Queued => "queued"@,
        BuildState::Running => "running"@,
        BuildState::Success => "success"@,
        BuildState::Failed => "failed"@,
        BuildState::Canceled => "canceled"@,
    }
}

/// The style of a state.
pub fn state_class(s: &BuildState) -> (res: &'static str)
    ensures
        res@ == state_text(*s),
{
    match s {
        BuildState::Queued => "queued",
        BuildState::Running => "running",
        BuildState::Success => "success",
        BuildState::Failed => "failed",
        BuildState::Canceled => "canceled",
    }
}

/// The name of a state.
pub fn state_label(s: &BuildState) -> (res: &'static str)
    ensures
        res@ == state_text(*s),
{
    state_class(s)
}

/// The first eight characters of an identifier.
pub open spec fn id_start(id: u128) -> Seq<char> {
    text::first_chars(outside::uuid_text(id), 8)
}

/// The first eight characters of an identifier.
pub fn short_id(id: u128) -> (res: String)
    ensures
        res@ == id_start(id),
{
    text::first_n(uuid_to_text(id).as_str(), 8)
}

/// The first seven characters of a commit.
pub open spec fn sha_start(sha: Seq<char>) -> Seq<char> {
    text::first_chars(sha, 7)
}

/// The first seven characters of a commit.
pub fn short_str(sha: &str) -> (res: String)
    ensures
        res@ == sha_start(sha@),
{
    text::first_n(sha, 7)
}

/// For how many seconds a build has run, with the given ending where it has not finished.
pub open spec fn duration_text(b: BuildStatus, now: Timestamp, ending: Seq<char>) -> Seq<char> {
    match b.finished_at {
        Some(end) => numbers::signed_decimal(b.started_at.seconds_to(end)) + "s"@,
        None => numbers::signed_decimal(b.started_at.seconds_to(now)) + ending,
    }
}

/// For how many seconds a build has run.
fn duration(b: &BuildStatus, now: &Timestamp, ending: &str) -> (res: String)
    ensures
        res@ == duration_text(*b, *now, ending@),
{
    match &b.finished_at {
        Some(end) => {
            let mut out = numbers::signed_decimal_text(b.started_at.seconds_until(end));
            out.append("s");
            out
        },
        None => {
            let mut out = numbers::signed_decimal_text(b.started_at.seconds_until(now));
            out.append(ending);
            out
        },
    }
}

// ---------------------------------------------------------------------------------------------
// The first page
// ---------------------------------------------------------------------------------------------
/// The body of the first page.
pub const INDEX_BODY: &'static str = r#"<h1>Kei</h1>
<ul class="nav">
  <li><a href="/builds">Builds</a></li>
  <li><a href="/artifacts/">Artifact files</a></li>
  <li><a href="/login">Login</a></li>
</ul>"#;

/// The first page.
pub fn index() -> (res: String)
    ensures
        res@ == html::page_text("Kei"@, INDEX_BODY@),
{
    page("Kei", INDEX_BODY)
}

// ---------------------------------------------------------------------------------------------
// Logging in
// ---------------------------------------------------------------------------------------------
/// What is sent to log in.
#[derive(Debug, Clone)]
pub struct LoginForm {
    pub account: String,
    pub token: String,
    pub next: String,
}

/// The page to go to after logging in: one of this server, and not the login itself.
pub open spec fn safe_next(next: Seq<char>) -> Seq<char> {
    if "/"@.is_prefix_of(next) && !"//"@.is_prefix_of(next) && !"/login"@.is_prefix_of(next) {
        next
    } else {
        "/"@
    }
}

/// The page to go to after logging in.
pub fn sanitize_next(next: &str) -> (res: String)
    ensures
        res@ == safe_next(next@),
{
    if text::starts_with(next, "/") && !text::starts_with(next, "//") && !text::starts_with(
        next,
        "/login",
    ) {
        next.to_owned()
    } else {
        "/".to_owned()
    }
}

/// The box that names an error.
pub open spec fn error_box(error: Option<Seq<char>>) -> Seq<char> {
    match error {
        Some(msg) => r#"<div class="error">"#@ + html::escaped(msg) + "</div>"@,
        None => ""@,
    }
}

/// The body of the login page.
pub open spec fn login_text(next: Seq<char>, error: Option<Seq<char>>) -> Seq<char> {
    r#"<h1><a href="/">Kei</a> — Login</h1>
"#@ + error_box(error) + r#"
<form class="login" method="post" action="/login">
  <input type="hidden" name="next" value=""#@ + html::escaped(next) + r#"">
  <label>Account <input name="account" autocomplete="username" required autofocus></label>
  <label>Token <input name="token" type="password" autocomplete="current-password" required></label>
  <button type="submit">Login</button>
</form>"#@
}

/// The body of the login page.
fn login_body(next: &str, error: Option<&str>) -> (res: String)
    ensures
        res@ == login_text(next@, text::opt_slice(error)),
{
    let error_html = match error {
        Some(msg) => {
            let mut b = r#"<div class="error">"#.to_owned();
            b.append(html_escape(msg).as_str());
            b.append("</div>");
            b
        },
        None => "".to_owned(),
    };
    let mut out = r#"<h1><a href="/">Kei</a> — Login</h1>
"#.to_owned();
    out.append(error_html.as_str());
    out.append(r#"
<form class="login" method="post" action="/login">
  <input type="hidden" name="next" value=""#);
    out.append(html_escape(next).as_str());
    out.append(r#"">
  <label>Account <input name="account" autocomplete="username" required autofocus></label>
  <label>Token <input name="token" type="password" autocomplete="current-password" required></label>
  <button type="submit">Login</button>
</form>"#);
    out
}

/// The login page. `next` is the page to go to afterwards.
pub fn login_form(next: Option<&str>) -> (res: String)
    ensures
        res@ == html::page_text(
            "Login"@,
            login_text(
                match next {
                    Some(n) => safe_next(n@),
                    None => safe_next("/"@),
                },
                None,
            ),
        ),
{
    let n = match next {
        Some(n) => sanitize_next(n),
        None => sanitize_next("/"),
    };
    page("Login", login_body(n.as_str(), None).as_str())
}

/// The cookie that keeps a token.
pub open spec fn token_cookie(token: Seq<char>) -> Seq<char> {
    "kei_token="@ + token + "; Path=/; HttpOnly; SameSite=Lax; Max-Age=2592000"@
}

/// The answer to a login: the page that was asked for, with a cookie that keeps the token; or the
/// login page again where account and token do not belong together.
pub fn login_submit(config: &Config, form: &LoginForm) -> (res: Answer)
    ensures
        answers_login(res, *config, *form),
{
    let next = sanitize_next(form.next.as_str());
    match auth::authenticate_login(form.account.as_str(), form.token.as_str(), config) {
        None => {
            let body = login_body(next.as_str(), Some("Invalid account or token."));
            Answer::Page(page("Login", body.as_str()))
        },
        Some(_) => {
            let mut cookie = "kei_token=".to_owned();
            cookie.append(form.token.as_str());
            cookie.append("; Path=/; HttpOnly; SameSite=Lax; Max-Age=2592000");
            Answer::GoTo { path: next, cookie }
        },
    }
}

/// The answer to a logout: the first page, with a cookie that forgets the token.
pub fn logout() -> (res: Answer)
    ensures
        ({
            &&& res matches Answer::GoTo { path, cookie }
            &&& path@ == "/"@
            &&& cookie@ == "kei_token=; Path=/; HttpOnly; SameSite=Lax; Max-Age=0"@
        }),
{
    Answer::GoTo {
        path: "/".to_owned(),
        cookie: "kei_token=; Path=/; HttpOnly; SameSite=Lax; Max-Age=0".to_owned(),
    }
}

// ---------------------------------------------------------------------------------------------
// The list of builds
// ---------------------------------------------------------------------------------------------
/// The row of one build.
pub open spec fn build_row(b: BuildStatus, now: Timestamp) -> Seq<char> {
    r#"<tr>
  <td><a href="/builds/"#@ + outside::uuid_text(b.id) + r#"">#"#@ + numbers::decimal(
        b.number as nat,
    ) + r#"</a> <span class="muted"><code>"#@ + id_start(b.id) + r#"</code></span></td>
  <td>"#@ + html::escaped(b.project@) + r#"</td>
  <td><span class="state "#@ + state_text(b.state) + r#"">"#@ + state_text(b.state)
        + r#"</span></td>
  <td>"#@ + html::escaped_or(text::opt_text(b.current_step), ""@) + r#"</td>
  <td class="muted">"#@ + b.started_at.clock_text() + " · "@ + duration_text(b, now, "s+"@)
        + r#"</td>
</tr>"#@
}

/// The rows of builds.
pub open spec fn build_rows(builds: Seq<BuildStatus>, now: Timestamp) -> Seq<char>
    decreases builds.len(),
{
    if builds.len() == 0 {
        ""@
    } else {
        build_rows(builds.drop_last(), now) + build_row(builds.last(), now)
    }
}

/// The body of the page that lists builds.
pub open spec fn builds_body(builds: Seq<BuildStatus>, now: Timestamp) -> Seq<char> {
    r#"<h1><a href="/">Kei</a> — Builds</h1>
<table>
  <thead><tr><th>ID</th><th>Project</th><th>State</th><th>Step</th><th>Started · Duration</th></tr></thead>
  <tbody>"#@ + if builds.len() == 0 {
        r#"<tr><td colspan="5" class="muted">No builds yet.</td></tr>"#@
    } else {
        build_rows(builds, now)
    } + r#"</tbody>
</table>"#@
}

/// The row of one build.
fn render_build_row(b: &BuildStatus, now: &Timestamp) -> (res: String)
    ensures
        res@ == build_row(*b, *now),
{
    let mut out = r#"<tr>
  <td><a href="/builds/"#.to_owned();
    out.append(uuid_to_text(b.id).as_str());
    out.append(r#"">#"#);
    out.append(numbers::decimal_text(b.number).as_str());
    out.append(r#"</a> <span class="muted"><code>"#);
    out.append(short_id(b.id).as_str());
    out.append(r#"</code></span></td>
  <td>"#);
    out.append(html_escape(b.project.as_str()).as_str());
    out.append(r#"</td>
  <td><span class="state "#);
    out.append(state_class(&b.state));
    out.append(r#"">"#);
    out.append(state_label(&b.state));
    out.append(r#"</span></td>
  <td>"#);
    out.append(html_escape_or(&b.current_step, "").as_str());
    out.append(r#"</td>
  <td class="muted">"#);
    out.append(b.started_at.to_clock_text().as_str());
    out.append(" · ");
    out.append(duration(b, now, "s+").as_str());
    out.append(r#"</td>
</tr>"#);
    out
}

/// The page that lists the given builds.
pub fn render_builds(builds: &Vec<&BuildStatus>, now: &Timestamp) -> (res: String)
    ensures
        res@ == html::page_text("Builds"@, builds_body(state::referred(builds@), *now)),
{
    let ghost all = state::referred(builds@);
    let mut rows = "".to_owned();
    if builds.len() == 0 {
        rows = r#"<tr><td colspan="5" class="muted">No builds yet.</td></tr>"#.to_owned();
    } else {
        let mut i: usize = 0;
        assert(all.take(0) =~= seq![]);
        while i < builds.len()
            invariant
                i <= builds@.len(),
                all == state::referred(builds@),
                rows@ == build_rows(all.take(i as int), *now),
            decreases builds@.len() - i,
        {
            proof {
                assert(all.take(i + 1).drop_last() =~= all.take(i as int));
                assert(all[i as int] == *builds@[i as int]);
            }
            rows.append(render_build_row(builds[i], now).as_str());
            i = i + 1;
        }
        assert(all.take(i as int) =~= all);
    }
    let mut body = r#"<h1><a href="/">Kei</a> — Builds</h1>
<table>
  <thead><tr><th>ID</th><th>Project</th><th>State</th><th>Step</th><th>Started · Duration</th></tr></thead>
  <tbody>"#.to_owned();
    body.append(rows.as_str());
    body.append(r#"</tbody>
</table>"#);
    page("Builds", body.as_str())
}

/// The page that lists the builds that a request may see, those that began last first.
pub fn list_builds(state: &AppState, headers: &Headers, now: &Timestamp) -> (res: String)
    requires
        state.wf(),
    ensures
        exists|builds: Seq<BuildStatus>|
            {
                &&& state::lists_all(
                    builds,
                    routes::viewable(auth::sender(*headers, state.config), *state),
                )
                &&& state::newest_first(builds)
                &&& res@ == html::page_text("Builds"@, #[trigger] builds_body(builds, *now))
            },
{
    let builds = routes::list_builds(state, headers);
    render_builds(&builds, now)
}

// ---------------------------------------------------------------------------------------------
// One build
// ---------------------------------------------------------------------------------------------
/// Whether a request may see the build: it may see the build's project, or it bears the build's
/// public token.
pub open spec fn may_open_build(
    config: Config,
    project: ProjectConfig,
    id: u128,
    viewer: Viewer,
    token: Option<Seq<char>>,
) -> bool {
    auth::may_view(viewer, project) || (token matches Some(t) && auth::token_valid(
        text::opt_text(config.auth.public_link_secret),
        auth::build_scope(id),
        t,
    ))
}

/// Whether `res` refuses a request for a build as it must, or else holds the build.
pub open spec fn opens_build(
    res: Result<&BuildStatus, ApiError>,
    state: AppState,
    id: u128,
    viewer: Viewer,
    token: Option<Seq<char>>,
) -> bool {
    if !state.all().dom().contains(id) {
        res matches Err(e) && e.is(NOT_FOUND, "build not found"@)
    } else {
        let build = state.all()[id];
        match state.config.named(build.project@) {
            None => res matches Err(e) && e.is(NOT_FOUND, "project not found"@),
            Some(p) => if may_open_build(state.config, p, id, viewer, token) {
                res matches Ok(b) && *b == build
            } else {
                res matches Err(e) && e.is(NOT_FOUND, "not found"@)
            },
        }
    }
}

/// The build that a request asks for and may see.
fn open_build<'a>(
    state: &'a AppState,
    principal: Option<&Principal>,
    id: u128,
    token: Option<&str>,
) -> (res: Result<&'a BuildStatus, ApiError>)
    ensures
        opens_build(res, *state, id, Viewer::of(principal), text::opt_slice(token)),
{
    let build = match state.get_build(id) {
        Some(b) => b,
        None => {
            return Err(ApiError::not_found("build not found"));
        },
    };
    let project = match state.config.project(build.project.as_str()) {
        Some(p) => p,
        None => {
            return Err(ApiError::not_found("project not found"));
        },
    };
    match auth::require_project_or_public_build_access(
        principal,
        project,
        text::as_slice(&state.config.auth.public_link_secret),
        id,
        token,
    ) {
        Ok(_) => Ok(build),
        Err(e) => Err(e),
    }
}

/// The items that link artifacts.
pub open spec fn artifact_items(artifacts: Seq<ArtifactRef>) -> Seq<char>
    decreases artifacts.len(),
{
    if artifacts.len() == 0 {
        ""@
    } else {
        let a = artifacts.last();
        artifact_items(artifacts.drop_last()) + (r#"<li><a href=""#@ + html::escaped(a.url@)
            + r#"">"#@ + html::escaped(a.path@) + r#"</a> <span class="muted">("#@
            + numbers::human_size(a.size as nat) + ")</span></li>"@)
    }
}

/// The items that link artifacts.
fn render_artifact_items(artifacts: &Vec<ArtifactRef>) -> (res: String)
    ensures
        res@ == artifact_items(artifacts@),
{
    let mut out = "".to_owned();
    let mut i: usize = 0;
    assert(artifacts@.take(0) =~= seq![]);
    while i < artifacts.len()
        invariant
            i <= artifacts@.len(),
            out@ == artifact_items(artifacts@.take(i as int)),
        decreases artifacts@.len() - i,
    {
        proof {
            assert(artifacts@.take(i + 1).drop_last() =~= artifacts@.take(i as int));
        }
        let a = &artifacts[i];
        let mut item = r#"<li><a href=""#.to_owned();
        item.append(html_escape(a.url.as_str()).as_str());
        item.append(r#"">"#);
        item.append(html_escape(a.path.as_str()).as_str());
        item.append(r#"</a> <span class="muted">("#);
        item.append(numbers::human_bytes(a.size).as_str());
        item.append(")</span></li>");
        out.append(item.as_str());
        i = i + 1;
    }
    assert(artifacts@.take(i as int) =~= artifacts@);
    out
}

/// The log of a build.
pub open spec fn log_html(log: Seq<char>) -> Seq<char> {
    if log.len() == 0 {
        r#"<p class="muted" id="log-empty">No output yet.</p><pre class="log" id="log" style="display:none"></pre>"#@
    } else {
        r#"<p class="muted" id="log-empty" style="display:none">No output yet.</p><pre class="log" id="log">"#@
            + html::escaped(log) + "</pre>"@
    }
}

/// The log of a build.
fn render_log(log: &str) -> (res: String)
    ensures
        res@ == log_html(log@),
{
    if log.is_empty() {
        r#"<p class="muted" id="log-empty">No output yet.</p><pre class="log" id="log" style="display:none"></pre>"#.to_owned()
    } else {
        let mut out = r#"<p class="muted" id="log-empty" style="display:none">No output yet.</p><pre class="log" id="log">"#.to_owned();
        out.append(html_escape(log).as_str());
        out.append("</pre>");
        out
    }
}

/// The script that keeps the page of a live build up to date.
pub open spec fn live_script(b: BuildStatus) -> Seq<char> {
    if b.state.live() {
        LIVE_TOP@ + "\""@ + outside::uuid_text(b.id) + "\""@ + LIVE_END@
    } else {
        ""@
    }
}

/// The button that stops a build.
pub const STOP_BUTTON: &'static str = r#"<div class="actions"><button class="danger" id="stop-build" type="button">Stop build</button></div>"#;

/// The body of the page of a build. `can_stop` says whether it has the button that stops it, and
/// `token` is the token that the request bears.
pub open spec fn build_body(
    b: BuildStatus,
    now: Timestamp,
    can_stop: bool,
    token: Option<Seq<char>>,
) -> Seq<char> {
    let hidden = "display:none"@;
    r#"<h1><a href="/builds">Builds</a> / #"#@ + numbers::decimal(b.number as nat)
        + r#" <span class="muted"><code>"#@ + id_start(b.id) + r#"</code></span></h1>
<dl class="meta">
  <dt>Project</dt><dd>"#@ + html::escaped(b.project@) + r#"</dd>
  <dt>State</dt><dd><span class="state "#@ + state_text(b.state) + r#"" id="state">"#@
        + state_text(b.state) + r#"</span></dd>
  <dt>Current step</dt><dd id="step">"#@ + html::escaped_or(
        text::opt_text(b.current_step),
        "—"@,
    ) + r#"</dd>
  <dt>Commit</dt><dd><code>"#@ + html::escaped_or(text::opt_text(b.commit), ""@)
        + r#"</code></dd>
  <dt>Started</dt><dd>"#@ + b.started_at.clock_text() + r#"</dd>
  <dt>Duration</dt><dd id="dur">"#@ + duration_text(b, now, "s (running)"@) + r#"</dd>
</dl>
"#@ + (if can_stop {
        STOP_BUTTON@
    } else {
        ""@
    }) + r#"
<div class="error" id="error-box" style=""#@ + (if b.error is Some {
        ""@
    } else {
        hidden
    }) + r#""><strong>Error:</strong> <span id="error-text">"#@ + html::escaped_or(
        text::opt_text(b.error),
        ""@,
    ) + r#"</span></div>
<section id="artifacts-section" style=""#@ + (if b.artifacts@.len() == 0 {
        hidden
    } else {
        ""@
    }) + r#""><h2>Artifacts</h2><ul class="artifacts" id="artifacts">"#@ + artifact_items(
        b.artifacts@,
    ) + r#"</ul></section>
<h2>Log <a class="raw" href="/api/builds/"#@ + outside::uuid_text(b.id) + "/log"@ + (match token {
        Some(t) => "?token="@ + t,
        None => ""@,
    }) + r#"">raw</a></h2>
"#@ + log_html(b.log@) + "\n"@ + live_script(b)
}

/// The page of a build.
pub fn render_build(b: &BuildStatus, now: &Timestamp, can_stop: bool, token: Option<&str>) -> (res:
    String)
    ensures
        res@ == html::page_text(
            "Build #"@ + numbers::decimal(b.number as nat),
            build_body(*b, *now, can_stop, text::opt_slice(token)),
        ),
{
    let number = numbers::decimal_text(b.number);
    let id = uuid_to_text(b.id);
    let mut out = r#"<h1><a href="/builds">Builds</a> / #"#.to_owned();
    out.append(number.as_str());
    out.append(r#" <span class="muted"><code>"#);
    out.append(short_id(b.id).as_str());
    out.append(r#"</code></span></h1>
<dl class="meta">
  <dt>Project</dt><dd>"#);
    out.append(html_escape(b.project.as_str()).as_str());
    out.append(r#"</dd>
  <dt>State</dt><dd><span class="state "#);
    out.append(state_class(&b.state));
    out.append(r#"" id="state">"#);
    out.append(state_label(&b.state));
    out.append(r#"</span></dd>
  <dt>Current step</dt><dd id="step">"#);
    out.append(html_escape_or(&b.current_step, "—").as_str());
    out.append(r#"</dd>
  <dt>Commit</dt><dd><code>"#);
    out.append(html_escape_or(&b.commit, "").as_str());
    out.append(r#"</code></dd>
  <dt>Started</dt><dd>"#);
    out.append(b.started_at.to_clock_text().as_str());
    out.append(r#"</dd>
  <dt>Duration</dt><dd id="dur">"#);
    out.append(duration(b, now, "s (running)").as_str());
    out.append(r#"</dd>
</dl>
"#);
    if can_stop {
        out.append(STOP_BUTTON);
    } else {
        out.append("");
    }
    out.append(r#"
<div class="error" id="error-box" style=""#);
    if b.error.is_some() {
        out.append("");
    } else {
        out.append("display:none");
    }
    out.append(r#""><strong>Error:</strong> <span id="error-text">"#);
    out.append(html_escape_or(&b.error, "").as_str());
    out.append(r#"</span></div>
<section id="artifacts-section" style=""#);
    if b.artifacts.len() == 0 {
        out.append("display:none");
    } else {
        out.append("");
    }
    out.append(r#""><h2>Artifacts</h2><ul class="artifacts" id="artifacts">"#);
    out.append(render_artifact_items(&b.artifacts).as_str());
    out.append(r#"</ul></section>
<h2>Log <a class="raw" href="/api/builds/"#);
    out.append(id.as_str());
    out.append("/log");
    let mut raw_token = "".to_owned();
    if let Some(t) = token {
        raw_token = "?token=".to_owned();
        raw_token.append(t);
    }
    out.append(raw_token.as_str());
    out.append(r#"">raw</a></h2>
"#);
    out.append(render_log(b.log.as_str()).as_str());
    out.append("\n");
    let mut script = "".to_owned();
    if b.state.is_live() {
        script = LIVE_TOP.to_owned();
        script.append("\"");
        script.append(id.as_str());
        script.append("\"");
        script.append(LIVE_END);
    }
    out.append(script.as_str());
    let mut title = "Build #".to_owned();
    title.append(number.as_str());
    page(title.as_str(), out.as_str())
}

/// Whether `res` is the page of a build that a request may see, or the refusal that it must be.
pub open spec fn answers_build(
    res: Result<String, ApiError>,
    state: AppState,
    id: u128,
    viewer: Viewer,
    token: Option<Seq<char>>,
    now: Timestamp,
) -> bool {
    match res {
        Ok(html) => {
            let b = state.all()[id];
            let project = state.config.named(b.project@);
            &&& opens_build(Ok(&b), state, id, viewer, token)
            &&& html@ == html::page_text(
                "Build #"@ + numbers::decimal(b.number as nat),
                build_body(
                    b,
                    now,
                    b.state.live() && viewer is Account && auth::may_view(viewer, project->0),
                    token,
                ),
            )
        },
        Err(e) => opens_build(Err(e), state, id, viewer, token),
    }
}

/// The page of a build, for a request that may see it. An account that sees the project may stop
/// the build while it is live.
pub fn build_detail(
    state: &AppState,
    headers: &Headers,
    target: &Target,
    id: u128,
    now: &Timestamp,
) -> (res: Result<String, ApiError>)
    ensures
        answers_build(
            res,
            *state,
            id,
            auth::sender(*headers, state.config),
            auth::param(text::opt_text(target.query), "token"@),
            *now,
        ),
{
    let principal = auth::authenticate(headers, &state.config);
    let token = auth::query_param(text::as_slice(&target.query), "token");
    let b = match open_build(state, principal.as_ref(), id, token) {
        Ok(b) => b,
        Err(e) => {
            return Err(e);
        },
    };
    let may_view = match (&principal, state.config.project(b.project.as_str())) {
        (Some(p), Some(project)) => auth::can_view_project(Some(p), project),
        _ => false,
    };
    let can_stop = b.state.is_live() && may_view;
    Ok(render_build(b, now, can_stop, token))
}

/// Whether `res` is the log of a build that a request may see, or the refusal that it must be.
pub open spec fn answers_log(
    res: Result<&str, ApiError>,
    state: AppState,
    id: u128,
    viewer: Viewer,
    token: Option<Seq<char>>,
) -> bool {
    match res {
        Ok(log) => {
            &&& opens_build(Ok(&state.all()[id]), state, id, viewer, token)
            &&& log@ == state.all()[id].log@
        },
        Err(e) => opens_build(Err(e), state, id, viewer, token),
    }
}

/// The log of a build, for a request that may see it. `token` is the token that it bears.
pub fn build_log_raw<'a>(
    state: &'a AppState,
    headers: &Headers,
    token: Option<&str>,
    id: u128,
) -> (res: Result<&'a str, ApiError>)
    ensures
        answers_log(
            res,
            *state,
            id,
            auth::sender(*headers, state.config),
            text::opt_slice(token),
        ),
{
    let principal = auth::authenticate(headers, &state.config);
    match open_build(state, principal.as_ref(), id, token) {
        Ok(b) => Ok(b.log.as_str()),
        Err(e) => Err(e),
    }
}

// ---------------------------------------------------------------------------------------------
// Commits
// ---------------------------------------------------------------------------------------------
/// Whether `s` can name a commit: hexadecimal digits and nothing else.
pub open spec fn sha_like(s: Seq<char>) -> bool {
    s.len() > 0 && forall|i: int| 0 <= i < s.len() ==> outside::is_hex_digit(#[trigger] s[i])
}

/// Whether `s` can name a commit.
pub fn valid_sha(s: &str) -> (res: bool)
    ensures
        res == sha_like(s@),
{
    let v = text::chars_of(s);
    if v.len() == 0 {
        return false;
    }
    let mut i: usize = 0;
    while i < v.len()
        invariant
            i <= v@.len(),
            v@ == s@,
            forall|k: int| 0 <= k < i ==> outside::is_hex_digit(#[trigger] v@[k]),
        decreases v@.len() - i,
    {
        let c = v[i];
        if !(('0' <= c && c <= '9') || ('a' <= c && c <= 'f') || ('A' <= c && c <= 'F')) {
            assert(!outside::is_hex_digit(s@[i as int]));
            return false;
        }
        i = i + 1;
    }
    true
}

/// The workspace of a project.
pub open spec fn workspace_path(config: Config, project: ProjectConfig) -> Seq<char> {
    paths::joined(config.storage.workspace_dir@, project.name@)
}

/// The workspace of a configured project.
pub fn workspace_for(config: &Config, project: &str) -> (res: Option<String>)
    ensures
        match (res, config.named(project@)) {
            (Some(w), Some(p)) => w@ == workspace_path(*config, p),
            (None, None) => true,
            _ => false,
        },
{
    match config.project(project) {
        Some(p) => Some(
            paths::join(config.storage.workspace_dir.as_str(), p.name.as_str()),
        ),
        None => None,
    }
}

/// Where a commit is looked up, or the answer to a request that may not do so.
#[derive(Debug, Clone)]
pub enum CommitLookup {
    Refuse(Answer),
    Look { workspace: String },
}

/// Where a range of commits is looked up, or the answer to a request that may not do so.
#[derive(Debug, Clone)]
pub enum RangeLookup {
    Refuse(Answer),
    Look { workspace: String, from: String, to: String },
}

/// Whether `res` lets a request look into a project's workspace, or refuses it as it must.
pub open spec fn enters(
    res: Result<String, Answer>,
    config: Config,
    project: Seq<char>,
    viewer: Viewer,
    target: Target,
) -> bool {
    match config.named(project) {
        None => res matches Err(a) && a.is_plain(NOT_FOUND, "no such project"@),
        Some(p) => if auth::may_view(viewer, p) || auth::bears_path_token(
            text::opt_text(config.auth.public_link_secret),
            target,
        ) {
            res matches Ok(w) && w@ == workspace_path(config, p)
        } else {
            res matches Err(Answer::Refused(e)) && e.is(NOT_FOUND, "not found"@)
        },
    }
}

/// Lets a request look into a project's workspace that may see the project or bears the public
/// token of its path.
fn enter_workspace(config: &Config, headers: &Headers, target: &Target, project: &str) -> (res:
    Result<String, Answer>)
    ensures
        enters(res, *config, project@, auth::sender(*headers, *config), *target),
{
    let (found, workspace) = match (config.project(project), workspace_for(config, project)) {
        (Some(p), Some(w)) => (p, w),
        _ => {
            return Err(Answer::Plain { status: NOT_FOUND, message: "no such project" });
        },
    };
    let principal = auth::authenticate(headers, config);
    match auth::require_project_or_public_path_access(
        principal.as_ref(),
        found,
        text::as_slice(&config.auth.public_link_secret),
        target,
    ) {
        Ok(_) => Ok(workspace),
        Err(e) => Err(Answer::Refused(e)),
    }
}

/// Where the commit that a request asks for is looked up.
pub fn commit_view(
    config: &Config,
    headers: &Headers,
    target: &Target,
    project: &str,
    sha: &str,
) -> (res: CommitLookup)
    ensures
        answers_commit(res, *config, project@, auth::sender(*headers, *config), *target, sha@),
{
    if !valid_sha(sha) {
        return CommitLookup::Refuse(
            Answer::Plain { status: BAD_REQUEST, message: "invalid sha" },
        );
    }
    match enter_workspace(config, headers, target, project) {
        Ok(workspace) => CommitLookup::Look { workspace },
        Err(a) => CommitLookup::Refuse(a),
    }
}

/// The style of a line of a diff.
pub open spec fn line_class(line: Seq<char>) -> Seq<char> {
    if "diff --git"@.is_prefix_of(line) || "index "@.is_prefix_of(line)
        || "new file mode"@.is_prefix_of(line) || "deleted file mode"@.is_prefix_of(line)
        || "rename "@.is_prefix_of(line) || "similarity "@.is_prefix_of(line)
        || "Binary files"@.is_prefix_of(line) {
        "diff-meta"@
    } else if "---"@.is_prefix_of(line) || "+++"@.is_prefix_of(line) {
        "diff-fileheader"@
    } else if "@@"@.is_prefix_of(line) {
        "diff-hunk"@
    } else if "+"@.is_prefix_of(line) {
        "diff-add"@
    } else if "-"@.is_prefix_of(line) {
        "diff-del"@
    } else {
        "diff-ctx"@
    }
}

/// A line of a diff. An empty line holds a space, so that it has height.
pub open spec fn diff_line(line: Seq<char>) -> Seq<char> {
    r#"<div class=""#@ + line_class(line) + r#"">"#@ + (if line.len() == 0 {
        "&nbsp;"@
    } else {
        html::escaped(line)
    }) + "</div>"@
}

/// The lines of a diff.
pub open spec fn diff_lines(lines: Seq<Seq<char>>) -> Seq<char>
    decreases lines.len(),
{
    if lines.len() == 0 {
        ""@
    } else {
        diff_lines(lines.drop_last()) + diff_line(lines.last())
    }
}

/// A unified diff.
pub open spec fn diff_html(diff: Seq<char>) -> Seq<char> {
    if text::trimmed(diff, CharClass::Space).len() == 0 {
        r#"<p class="muted">No diff (empty commit?).</p>"#@
    } else {
        r#"<div class="diff">"#@ + diff_lines(text::lines(diff)) + "</div>"@
    }
}

/// The style of a line of a diff.
fn class_of_line(line: &str) -> (res: &'static str)
    ensures
        res@ == line_class(line@),
{
    if text::starts_with(line, "diff --git") || text::starts_with(line, "index ")
        || text::starts_with(line, "new file mode") || text::starts_with(
        line,
        "deleted file mode",
    ) || text::starts_with(line, "rename ") || text::starts_with(line, "similarity ")
        || text::starts_with(line, "Binary files") {
        "diff-meta"
    } else if text::starts_with(line, "---") || text::starts_with(line, "+++") {
        "diff-fileheader"
    } else if text::starts_with(line, "@@") {
        "diff-hunk"
    } else if text::starts_with(line, "+") {
        "diff-add"
    } else if text::starts_with(line, "-") {
        "diff-del"
    } else {
        "diff-ctx"
    }
}

/// A line of a diff.
fn render_diff_line(line: &str) -> (res: String)
    ensures
        res@ == diff_line(line@),
{
    let mut out = r#"<div class=""#.to_owned();
    out.append(class_of_line(line));
    out.append(r#"">"#);
    if line.is_empty() {
        out.append("&nbsp;");
    } else {
        out.append(html_escape(line).as_str());
    }
    out.append("</div>");
    out
}

/// A unified diff.
pub fn render_diff(diff: &str) -> (res: String)
    ensures
        res@ == diff_html(diff@),
{
    if text::trim(diff, CharClass::Space).is_empty() {
        return r#"<p class="muted">No diff (empty commit?).</p>"#.to_owned();
    }
    let lines = text::lines_of(diff);
    let ghost all = text::lines(diff@);
    let mut rows = "".to_owned();
    let mut i: usize = 0;
    assert(all.take(0) =~= seq![]);
    while i < lines.len()
        invariant
            i <= lines@.len(),
            all == text::slices(lines@),
            rows@ == diff_lines(all.take(i as int)),
        decreases lines@.len() - i,
    {
        proof {
            assert(all.take(i + 1).drop_last() =~= all.take(i as int));
            assert(all[i as int] == lines@[i as int]@);
        }
        rows.append(render_diff_line(lines[i]).as_str());
        i = i + 1;
    }
    assert(all.take(i as int) =~= all);
    let mut out = r#"<div class="diff">"#.to_owned();
    out.append(rows.as_str());
    out.append("</div>");
    out
}

/// The body of the page of a commit.
pub open spec fn commit_body(project: Seq<char>, c: CommitInfo) -> Seq<char> {
    r#"<h1><a href="/">Kei</a> — "#@ + html::escaped(project) + " · <code>"@ + html::escaped(
        sha_start(c.sha@),
    ) + r#"</code></h1>
<dl class="meta">
  <dt>Project</dt><dd>"#@ + html::escaped(project) + r#"</dd>
  <dt>SHA</dt><dd><code>"#@ + html::escaped(c.sha@) + r#"</code></dd>
  <dt>Author</dt><dd>"#@ + html::escaped(c.author@) + r#"</dd>
  <dt>Date</dt><dd>"#@ + html::escaped(c.date@) + r#"</dd>
  <dt>Subject</dt><dd>"#@ + html::escaped(c.subject@) + r#"</dd>
</dl>
<h2>Message</h2>
<pre class="log">"#@ + html::escaped(c.body@) + r#"</pre>
<h2>Files changed</h2>
<pre class="log">"#@ + html::escaped(c.stat@) + r#"</pre>
<h2>Diff</h2>
"#@ + diff_html(c.diff@)
}

/// The page of a commit.
fn render_commit(project: &str, c: &CommitInfo) -> (res: String)
    ensures
        res@ == html::page_text(
            "Commit "@ + sha_start(c.sha@) + " · "@ + project@,
            commit_body(project@, *c),
        ),
{
    let short = short_str(c.sha.as_str());
    let name = html_escape(project);
    let mut out = r#"<h1><a href="/">Kei</a> — "#.to_owned();
    out.append(name.as_str());
    out.append(" · <code>");
    out.append(html_escape(short.as_str()).as_str());
    out.append(r#"</code></h1>
<dl class="meta">
  <dt>Project</dt><dd>"#);
    out.append(name.as_str());
    out.append(r#"</dd>
  <dt>SHA</dt><dd><code>"#);
    out.append(html_escape(c.sha.as_str()).as_str());
    out.append(r#"</code></dd>
  <dt>Author</dt><dd>"#);
    out.append(html_escape(c.author.as_str()).as_str());
    out.append(r#"</dd>
  <dt>Date</dt><dd>"#);
    out.append(html_escape(c.date.as_str()).as_str());
    out.append(r#"</dd>
  <dt>Subject</dt><dd>"#);
    out.append(html_escape(c.subject.as_str()).as_str());
    out.append(r#"</dd>
</dl>
<h2>Message</h2>
<pre class="log">"#);
    out.append(html_escape(c.body.as_str()).as_str());
    out.append(r#"</pre>
<h2>Files changed</h2>
<pre class="log">"#);
    out.append(html_escape(c.stat.as_str()).as_str());
    out.append(r#"</pre>
<h2>Diff</h2>
"#);
    out.append(render_diff(c.diff.as_str()).as_str());
    let mut title = "Commit ".to_owned();
    title.append(short.as_str());
    title.append(" · ");
    title.append(project);
    page(title.as_str(), out.as_str())
}

/// The answer to a request for a commit that has been looked up.
pub fn commit_page(project: &str, found: &Result<CommitInfo, String>) -> (res: Answer)
    ensures
        match found {
            Ok(c) => {
                &&& res matches Answer::Page(p)
                &&& p@ == html::page_text(
                    "Commit "@ + sha_start(c.sha@) + " · "@ + project@,
                    commit_body(project@, *c),
                )
            },
            Err(_) => res.is_plain(NOT_FOUND, "commit not found"@),
        },
{
    match found {
        Ok(c) => Answer::Page(render_commit(project, c)),
        Err(_) => Answer::Plain { status: NOT_FOUND, message: "commit not found" },
    }
}

// ---------------------------------------------------------------------------------------------
// Ranges of commits
// ---------------------------------------------------------------------------------------------
/// The ends of a range of commits that is written as `from...to`.
pub open spec fn range_ends(range: Seq<char>) -> Option<(Seq<char>, Seq<char>)> {
    match text::split_at_text(range, "..."@) {
        Some((from, to)) => if sha_like(from) && sha_like(to) {
            Some((from, to))
        } else {
            None
        },
        None => None,
    }
}

/// Where the range of commits that a request asks for is looked up.
pub fn compare_view(
    config: &Config,
    headers: &Headers,
    target: &Target,
    project: &str,
    range: &str,
) -> (res: RangeLookup)
    ensures
        answers_range(
            res,
            *config,
            project@,
            auth::sender(*headers, *config),
            *target,
            range@,
        ),
{
    if let Some((from, to)) = text::split_once_text(range, "...") {
        if valid_sha(from) && valid_sha(to) {
            return match enter_workspace(config, headers, target, project) {
                Ok(workspace) => RangeLookup::Look {
                    workspace,
                    from: from.to_owned(),
                    to: to.to_owned(),
                },
                Err(a) => RangeLookup::Refuse(a),
            };
        }
    }
    RangeLookup::Refuse(Answer::Plain { status: BAD_REQUEST, message: "invalid range" })
}

/// The row of a commit.
pub open spec fn commit_row(project: Seq<char>, c: CommitSummary) -> Seq<char> {
    r#"<tr><td><a href="/commits/"#@ + html::escaped(project) + "/"@ + html::escaped(c.sha@)
        + r#""><code>"#@ + html::escaped(sha_start(c.sha@)) + "</code></a></td><td>"@
        + html::escaped(c.subject@) + r#"</td><td class="muted">"#@ + html::escaped(c.author@)
        + " · "@ + html::escaped(c.date@) + "</td></tr>"@
}

/// The rows of commits.
pub open spec fn commit_rows(project: Seq<char>, commits: Seq<CommitSummary>) -> Seq<char>
    decreases commits.len(),
{
    if commits.len() == 0 {
        ""@
    } else {
        commit_rows(project, commits.drop_last()) + commit_row(project, commits.last())
    }
}

/// The body of the page of a range of commits.
pub open spec fn range_body(
    project: Seq<char>,
    from: Seq<char>,
    to: Seq<char>,
    commits: Seq<CommitSummary>,
) -> Seq<char> {
    r#"<h1><a href="/">Kei</a> — "#@ + html::escaped(project) + " · <code>"@ + html::escaped(
        sha_start(from),
    ) + "</code>…<code>"@ + html::escaped(sha_start(to)) + r#"</code></h1>
<p class="muted">"#@ + numbers::decimal(commits.len()) + r#" commits</p>
<table>
  <thead><tr><th>SHA</th><th>Subject</th><th>Author · Date</th></tr></thead>
  <tbody>"#@ + (if commits.len() == 0 {
        r#"<tr><td colspan="3" class="muted">No commits in range.</td></tr>"#@
    } else {
        commit_rows(project, commits)
    }) + r#"</tbody>
</table>"#@
}

/// The title of the page of a range of commits.
pub open spec fn range_title(project: Seq<char>, from: Seq<char>, to: Seq<char>) -> Seq<char> {
    project + " compare "@ + sha_start(from) + "…"@ + sha_start(to)
}

/// The row of a commit.
fn render_commit_row(project: &str, c: &CommitSummary) -> (res: String)
    ensures
        res@ == commit_row(project@, *c),
{
    let mut out = r#"<tr><td><a href="/commits/"#.to_owned();
    out.append(html_escape(project).as_str());
    out.append("/");
    out.append(html_escape(c.sha.as_str()).as_str());
    out.append(r#""><code>"#);
    out.append(html_escape(short_str(c.sha.as_str()).as_str()).as_str());
    out.append("</code></a></td><td>");
    out.append(html_escape(c.subject.as_str()).as_str());
    out.append(r#"</td><td class="muted">"#);
    out.append(html_escape(c.author.as_str()).as_str());
    out.append(" · ");
    out.append(html_escape(c.date.as_str()).as_str());
    out.append("</td></tr>");
    out
}

/// The page of a range of commits.
fn render_range(project: &str, from: &str, to: &str, commits: &Vec<CommitSummary>) -> (res: String)
    ensures
        res@ == html::page_text(
            range_title(project@, from@, to@),
            range_body(project@, from@, to@, commits@),
        ),
{
    let mut rows = "".to_owned();
    if commits.len() == 0 {
        rows = r#"<tr><td colspan="3" class="muted">No commits in range.</td></tr>"#.to_owned();
    } else {
        let mut i: usize = 0;
        assert(commits@.take(0) =~= seq![]);
        while i < commits.len()
            invariant
                i <= commits@.len(),
                rows@ == commit_rows(project@, commits@.take(i as int)),
            decreases commits@.len() - i,
        {
            proof {
                assert(commits@.take(i + 1).drop_last() =~= commits@.take(i as int));
            }
            rows.append(render_commit_row(project, &commits[i]).as_str());
            i = i + 1;
        }
        assert(commits@.take(i as int) =~= commits@);
    }
    let mut out = r#"<h1><a href="/">Kei</a> — "#.to_owned();
    out.append(html_escape(project).as_str());
    out.append(" · <code>");
    out.append(html_escape(short_str(from).as_str()).as_str());
    out.append("</code>…<code>");
    out.append(html_escape(short_str(to).as_str()).as_str());
    out.append(r#"</code></h1>
<p class="muted">"#);
    out.append(numbers::decimal_text(commits.len() as u64).as_str());
    out.append(r#" commits</p>
<table>
  <thead><tr><th>SHA</th><th>Subject</th><th>Author · Date</th></tr></thead>
  <tbody>"#);
    out.append(rows.as_str());
    out.append(r#"</tbody>
</table>"#);
    let mut title = project.to_owned();
    title.append(" compare ");
    title.append(short_str(from).as_str());
    title.append("…");
    title.append(short_str(to).as_str());
    page(title.as_str(), out.as_str())
}

/// The answer to a request for a range of commits that has been looked up.
pub fn compare_page(
    project: &str,
    from: &str,
    to: &str,
    found: &Result<Vec<CommitSummary>, String>,
) -> (res: Answer)
    ensures
        match found {
            Ok(commits) => {
                &&& res matches Answer::Page(p)
                &&& p@ == html::page_text(
                    range_title(project@, from@, to@),
                    range_body(project@, from@, to@, commits@),
                )
            },
            Err(_) => res.is_plain(NOT_FOUND, "compare not available"@),
        },
{
    match found {
        Ok(commits) => Answer::Page(render_range(project, from, to, commits)),
        Err(_) => Answer::Plain { status: NOT_FOUND, message: "compare not available" },
    }
}

// ---------------------------------------------------------------------------------------------
// Laws
// ---------------------------------------------------------------------------------------------
/// Whatever is asked for, the page to go to after logging in is a path of this server that is not
/// the login.
pub proof fn law_next_is_safe(next: Seq<char>)
    ensures
        "/"@.is_prefix_of(safe_next(next)),
        !"//"@.is_prefix_of(safe_next(next)),
        !"/login"@.is_prefix_of(safe_next(next)),
        safe_next(safe_next(next)) == safe_next(next),
{
    reveal_strlit("/");
    reveal_strlit("//");
    reveal_strlit("/login");
    assert("/"@.subrange(0, 1) =~= "/"@);
}

/// What names a commit is no path: it has no separator and no dot.
pub proof fn law_sha_is_no_path(sha: Seq<char>)
    requires
        sha_like(sha),
    ensures
        !sha.contains('/'),
        !sha.contains('.'),
        !sha.contains('-'),
{
    assert forall|i: int| 0 <= i < sha.len() implies sha[i] != '/' && sha[i] != '.' && sha[i]
        != '-' by {
        assert(outside::is_hex_digit(sha[i]));
    }
}

/// The token that a login keeps in a cookie is the token that later requests bear, unless it is
/// empty, holds a semicolon or ends with a space.
pub proof fn law_cookie_kept(token: Seq<char>)
    requires
        token.len() > 0,
        !token.contains(';'),
        !text::is_space(token.last()),
    ensures
        auth::cookie(Some("kei_token="@ + token)) == Some(token),
{
    reveal_strlit("kei_token=");
    reveal_strlit("kei_token");
    let s = "kei_token="@ + token;
    assert forall|k: int| 0 <= k < s.len() implies s[k] != ';' by {
        if k >= 10 {
            assert(s[k] == token[k - 10]);
        }
    }
    text::lemma_find_char(s, ';', s.len() as int);
    assert(text::split(s, ';') =~= seq![s]);
    assert(s.last() == token.last());
    text::lemma_trimmed_clean(s, CharClass::Space);
    let parts = text::split(s, ';').map_values(
        |c: Seq<char>| text::trimmed(c, CharClass::Space),
    );
    assert(parts =~= seq![s]);
    text::lemma_find_char(s, '=', 9);
    assert(s.take(9) =~= "kei_token"@);
    assert(s.skip(10) =~= token);
}

/// The link to a build that carries its token opens the page of the build, for everybody.
pub proof fn law_link_opens_build(
    state: AppState,
    id: u128,
    viewer: Viewer,
    secret: Seq<char>,
    res: Result<&BuildStatus, ApiError>,
)
    requires
        text::opt_text(state.config.auth.public_link_secret) == Some(secret),
        state.all().dom().contains(id),
        state.config.named(state.all()[id].project@) is Some,
        opens_build(
            res,
            state,
            id,
            viewer,
            auth::param(
                Some(auth::link_query(secret, auth::build_scope(id))),
                "token"@,
            ),
        ),
    ensures
        res is Ok,
{
    auth::law_link_token_read(secret, auth::build_scope(id));
    auth::law_token_accepted(secret, auth::build_scope(id));
}

/// The rows of builds stand one below the other, in the order of the builds.
pub proof fn law_rows_in_order(
    a: Seq<BuildStatus>,
    c: Seq<BuildStatus>,
    one: BuildStatus,
    now: Timestamp,
)
    ensures
        build_rows(a + c, now) == build_rows(a, now) + build_rows(c, now),
        build_rows(seq![one], now) == build_row(one, now),
    decreases c.len(),
{
    reveal_strlit("");
    assert(seq![one].drop_last() =~= seq![]);
    assert(build_rows(seq![one].drop_last(), now) =~= ""@);
    assert(build_rows(seq![one], now) =~= build_row(one, now));
    if c.len() == 0 {
        assert(a + c =~= a);
        assert(build_rows(a + c, now) =~= build_rows(a, now) + build_rows(c, now));
    } else {
        law_rows_in_order(a, c.drop_last(), one, now);
        assert((a + c).drop_last() =~= a + c.drop_last());
        assert((a + c).last() == c.last());
        assert(build_rows(a + c, now) =~= build_rows(a, now) + build_rows(c, now));
    }
}

/// The rows of builds hold that of each of them.
proof fn lemma_rows_hold(builds: Seq<BuildStatus>, now: Timestamp, i: int)
    requires
        0 <= i < builds.len(),
    ensures
        text::holds_text(build_rows(builds, now), build_row(builds[i], now)),
    decreases builds.len(),
{
    broadcast use {text::lemma_holds_self, text::lemma_holds_sum};

    if i < builds.len() - 1 {
        lemma_rows_hold(builds.drop_last(), now, i);
        assert(builds.drop_last()[i] == builds[i]);
    }
    assert(text::holds_text(
        build_rows(builds.drop_last(), now) + build_row(builds.last(), now),
        build_row(builds[i], now),
    ));
}

/// On the page that lists builds, a build that began later has its row above that of one that began
/// earlier.
pub proof fn law_newest_row_above(builds: Seq<BuildStatus>, now: Timestamp, i: int, j: int)
    requires
        state::newest_first(builds),
        0 <= i < builds.len(),
        0 <= j < builds.len(),
        builds[i].started_at.later(builds[j].started_at),
    ensures
        i < j,
        text::holds_in_order(
            html::page_text("Builds"@, builds_body(builds, now)),
            build_row(builds[i], now),
            build_row(builds[j], now),
        ),
{
    assert(i < j) by {
        if j < i {
            assert(!builds[i].started_at.later(builds[j].started_at));
        }
    }
    let a = builds.take(j);
    let c = builds.skip(j);
    let x = build_row(builds[i], now);
    let y = build_row(builds[j], now);
    assert(builds =~= a + c);
    law_rows_in_order(a, c, builds[i], now);
    assert(a[i] == builds[i]);
    assert(c[0] == builds[j]);
    lemma_rows_hold(a, now, i);
    lemma_rows_hold(c, now, 0);
    text::lemma_in_order_sum(build_rows(a, now), build_rows(c, now), x, y);
    let rows = build_rows(builds, now);
    let top = r#"<h1><a href="/">Kei</a> — Builds</h1>
<table>
  <thead><tr><th>ID</th><th>Project</th><th>State</th><th>Step</th><th>Started · Duration</th></tr></thead>
  <tbody>"#@;
    let end = r#"</tbody>
</table>"#@;
    let body = builds_body(builds, now);
    assert(body == top + rows + end);
    text::lemma_in_order_wider(top, rows, end, x, y);
    let front = html::PAGE_TOP@ + html::escaped("Builds"@) + html::PAGE_MIDDLE@;
    text::lemma_in_order_wider(front, body, html::PAGE_END@, x, y);
}

/// Whatever builds are listed, the page has a row for each of them; where there are none, it says so.
pub proof fn law_every_build_has_a_row(builds: Seq<BuildStatus>, now: Timestamp, i: int)
    ensures
        0 <= i < builds.len() ==> text::holds_text(
            html::page_text("Builds"@, builds_body(builds, now)),
            build_row(builds[i], now),
        ),
        builds.len() == 0 ==> text::holds_text(
            html::page_text("Builds"@, builds_body(builds, now)),
            r#"<tr><td colspan="5" class="muted">No builds yet.</td></tr>"#@,
        ),
{
    broadcast use {text::lemma_holds_self, text::lemma_holds_sum};

    if 0 <= i < builds.len() {
        lemma_rows_hold(builds, now, i);
        assert(text::holds_text(builds_body(builds, now), build_row(builds[i], now)));
    }
    if builds.len() == 0 {
        assert(text::holds_text(
            builds_body(builds, now),
            r#"<tr><td colspan="5" class="muted">No builds yet.</td></tr>"#@,
        ));
    }
}

/// The row of a build links its page and shows its number, its project, its state, its step, when it
/// began and for how long it ran: until it finished, or until now.
pub proof fn law_row_shows_build(b: BuildStatus, now: Timestamp)
    ensures
        ({
            let row = build_row(b, now);
            &&& text::holds_text(row, outside::uuid_text(b.id))
            &&& text::holds_text(row, numbers::decimal(b.number as nat))
            &&& text::holds_text(row, html::escaped(b.project@))
            &&& text::holds_text(row, state_text(b.state))
            &&& b.current_step matches Some(s) ==> text::holds_text(row, html::escaped(s@))
            &&& text::holds_text(row, b.started_at.clock_text())
            &&& b.finished_at matches Some(end) ==> text::holds_text(
                row,
                numbers::signed_decimal(b.started_at.seconds_to(end)) + "s"@,
            )
            &&& b.finished_at is None ==> text::holds_text(
                row,
                numbers::signed_decimal(b.started_at.seconds_to(now)) + "s+"@,
            )
        }),
{
    broadcast use {text::lemma_holds_self, text::lemma_holds_sum};

}

/// The words for states.
pub proof fn law_words_for_states(s: BuildState)
    ensures
        s == BuildState::Queued ==> state_text(s) == "queued"@,
        s == BuildState::Running ==> state_text(s) == "running"@,
        s == BuildState::Success ==> state_text(s) == "success"@,
        s == BuildState::Failed ==> state_text(s) == "failed"@,
        s == BuildState::Canceled ==> state_text(s) == "canceled"@,
{
}

/// The page of a build shows its number, project, state, step, commit, error and log, when it began
/// and for how long it ran, and has the button that stops it where that is allowed. The link to the
/// raw log carries the token of the request.
pub proof fn law_page_shows_build(
    b: BuildStatus,
    now: Timestamp,
    can_stop: bool,
    token: Option<Seq<char>>,
)
    ensures
        ({
            let body = build_body(b, now, can_stop, token);
            &&& text::holds_text(body, numbers::decimal(b.number as nat))
            &&& text::holds_text(body, html::escaped(b.project@))
            &&& text::holds_text(body, state_text(b.state))
            &&& b.current_step matches Some(s) ==> text::holds_text(body, html::escaped(s@))
            &&& b.commit matches Some(c) ==> text::holds_text(body, html::escaped(c@))
            &&& text::holds_text(body, b.started_at.clock_text())
            &&& b.finished_at matches Some(end) ==> text::holds_text(
                body,
                numbers::signed_decimal(b.started_at.seconds_to(end)) + "s"@,
            )
            &&& b.finished_at is None ==> text::holds_text(
                body,
                numbers::signed_decimal(b.started_at.seconds_to(now)) + "s (running)"@,
            )
            &&& can_stop ==> text::holds_text(body, STOP_BUTTON@)
            &&& b.error matches Some(e) ==> text::holds_text(body, html::escaped(e@))
            &&& text::holds_text(body, artifact_items(b.artifacts@))
            &&& b.log@.len() > 0 ==> text::holds_text(body, html::escaped(b.log@))
            &&& token matches Some(t) ==> text::holds_text(body, "?token="@ + t)
            &&& text::holds_text(body, outside::uuid_text(b.id))
        }),
{
    broadcast use {text::lemma_holds_self, text::lemma_holds_sum};

    if b.log@.len() > 0 {
        assert(text::holds_text(log_html(b.log@), html::escaped(b.log@)));
    }
}

/// Only while a build waits or runs does its page ask for it again and again.
pub proof fn law_script_while_live(b: BuildStatus)
    ensures
        b.state == BuildState::Queued || b.state == BuildState::Running ==> text::holds_text(
            live_script(b),
            outside::uuid_text(b.id),
        ),
        b.state == BuildState::Success || b.state == BuildState::Failed || b.state
            == BuildState::Canceled ==> live_script(b) == ""@,
{
    broadcast use {text::lemma_holds_self, text::lemma_holds_sum};

}

/// The button that stops a build is offered to an account that sees the project, while the build is
/// live; to nobody else is it, whatever token they bear.
pub proof fn law_who_may_stop(
    res: Result<String, ApiError>,
    state: AppState,
    id: u128,
    viewer: Viewer,
    token: Option<Seq<char>>,
    now: Timestamp,
)
    requires
        answers_build(res, state, id, viewer, token, now),
        res is Ok,
    ensures
        ({
            let b = state.all()[id];
            let p = state.config.named(b.project@)->0;
            let title = "Build #"@ + numbers::decimal(b.number as nat);
            let live = b.state == BuildState::Queued || b.state == BuildState::Running;
            let page = |stop: bool| html::page_text(title, build_body(b, now, stop, token));
            &&& state.all().dom().contains(id)
            &&& live && viewer is Account && auth::may_view(viewer, p) ==> res->Ok_0@ == page(true)
            &&& !live || viewer is Anonymous || !auth::may_view(viewer, p) ==> res->Ok_0@ == page(
                false,
            )
        }),
{
}

/// A build is shown to whoever sees its project, and to whoever bears the build's token; to anybody
/// else it is as if it were not there.
pub proof fn law_who_sees_a_build(
    res: Result<&BuildStatus, ApiError>,
    state: AppState,
    id: u128,
    viewer: Viewer,
    token: Option<Seq<char>>,
)
    requires
        opens_build(res, state, id, viewer, token),
    ensures
        res is Ok <==> {
            &&& state.all().dom().contains(id)
            &&& state.config.named(state.all()[id].project@) is Some
            &&& auth::may_view(viewer, state.config.named(state.all()[id].project@)->0) || (
            token is Some && auth::token_valid(
                text::opt_text(state.config.auth.public_link_secret),
                auth::build_scope(id),
                token->0,
            ))
        },
        res matches Ok(b) ==> *b == state.all()[id],
        res matches Err(e) ==> e.status == 404,
{
}

/// The artifacts of a build are listed in their order, each with its address, its path and its size.
pub proof fn law_artifact_items(a: Seq<ArtifactRef>, c: Seq<ArtifactRef>, one: ArtifactRef)
    ensures
        artifact_items(a + c) == artifact_items(a) + artifact_items(c),
        text::holds_text(
            artifact_items(seq![one]),
            r#"<li><a href=""#@ + html::escaped(one.url@) + r#"">"#@ + html::escaped(one.path@),
        ),
        text::holds_text(artifact_items(seq![one]), numbers::human_size(one.size as nat)),
    decreases c.len(),
{
    broadcast use {text::lemma_holds_self, text::lemma_holds_sum};

    reveal_strlit("");
    assert(seq![one].last() == one);
    assert(seq![one].drop_last() =~= seq![]);
    if c.len() == 0 {
        assert(a + c =~= a);
        assert(artifact_items(a + c) =~= artifact_items(a) + artifact_items(c));
    } else {
        law_artifact_items(a, c.drop_last(), one);
        assert((a + c).drop_last() =~= a + c.drop_last());
        assert((a + c).last() == c.last());
        assert(artifact_items(a + c) =~= artifact_items(a) + artifact_items(c));
    }
}

/// The lines of a diff are shown in their order, each with its text.
pub proof fn law_diff_lines(a: Seq<Seq<char>>, c: Seq<Seq<char>>, line: Seq<char>)
    ensures
        diff_lines(a + c) == diff_lines(a) + diff_lines(c),
        line.len() > 0 ==> text::holds_text(diff_lines(seq![line]), html::escaped(line)),
        text::holds_text(diff_lines(seq![line]), line_class(line)),
    decreases c.len(),
{
    broadcast use {text::lemma_holds_self, text::lemma_holds_sum};

    reveal_strlit("");
    assert(seq![line].last() == line);
    assert(seq![line].drop_last() =~= seq![]);
    assert(text::holds_text(diff_line(line), line_class(line)));
    if c.len() == 0 {
        assert(a + c =~= a);
        assert(diff_lines(a + c) =~= diff_lines(a) + diff_lines(c));
    } else {
        law_diff_lines(a, c.drop_last(), line);
        assert((a + c).drop_last() =~= a + c.drop_last());
        assert((a + c).last() == c.last());
        assert(diff_lines(a + c) =~= diff_lines(a) + diff_lines(c));
    }
}

/// A line that a diff adds, one that it removes, one that it leaves and one that begins a hunk are
/// told apart by their beginnings, whatever follows.
pub proof fn law_diff_classes(rest: Seq<char>)
    requires
        rest.len() > 0 ==> rest[0] != '+' && rest[0] != '-',
    ensures
        line_class(seq!['+'] + rest) == "diff-add"@,
        line_class(seq!['-'] + rest) == "diff-del"@,
        line_class(seq![' '] + rest) == "diff-ctx"@,
        line_class("@@"@ + rest) == "diff-hunk"@,
        line_class("+++"@ + rest) == "diff-fileheader"@,
        line_class("---"@ + rest) == "diff-fileheader"@,
        line_class("diff --git"@ + rest) == "diff-meta"@,
{
    reveal_strlit("diff --git");
    reveal_strlit("index ");
    reveal_strlit("new file mode");
    reveal_strlit("deleted file mode");
    reveal_strlit("rename ");
    reveal_strlit("similarity ");
    reveal_strlit("Binary files");
    reveal_strlit("---");
    reveal_strlit("+++");
    reveal_strlit("@@");
    reveal_strlit("+");
    reveal_strlit("-");
    assert forall|s: Seq<char>, p: Seq<char>| #[trigger] p.is_prefix_of(s) && p.len() > 0 implies s[0]
        == p[0] && (p.len() > 1 ==> s[1] == p[1]) by {
        assert(s.subrange(0, p.len() as int)[0] == p[0]);
        if p.len() > 1 {
            assert(s.subrange(0, p.len() as int)[1] == p[1]);
        }
    }
    let add = seq!['+'] + rest;
    assert(add.subrange(0, 1) =~= "+"@);
    let del = seq!['-'] + rest;
    assert(del.subrange(0, 1) =~= "-"@);
    let ctx = seq![' '] + rest;
    assert(ctx[0] == ' ');
    let hunk = "@@"@ + rest;
    assert(hunk.subrange(0, 2) =~= "@@"@);
    let new = "+++"@ + rest;
    assert(new.subrange(0, 3) =~= "+++"@);
    let old_file = "---"@ + rest;
    assert(old_file.subrange(0, 3) =~= "---"@);
    let meta = "diff --git"@ + rest;
    assert(meta.subrange(0, 10) =~= "diff --git"@);
}

/// The commits of a range are listed in their order, each with its identifier, subject, author and
/// date, and the page says how many there are.
pub proof fn law_commit_rows(
    project: Seq<char>,
    a: Seq<CommitSummary>,
    c: Seq<CommitSummary>,
    one: CommitSummary,
    from: Seq<char>,
    to: Seq<char>,
)
    ensures
        commit_rows(project, a + c) == commit_rows(project, a) + commit_rows(project, c),
        text::holds_text(commit_rows(project, seq![one]), html::escaped(one.sha@)),
        text::holds_text(commit_rows(project, seq![one]), html::escaped(one.subject@)),
        text::holds_text(commit_rows(project, seq![one]), html::escaped(one.author@)),
        text::holds_text(commit_rows(project, seq![one]), html::escaped(one.date@)),
        a.len() > 0 ==> text::holds_text(range_body(project, from, to, a), commit_rows(project, a)),
        text::holds_text(range_body(project, from, to, a), numbers::decimal(a.len())),
    decreases c.len(),
{
    broadcast use {text::lemma_holds_self, text::lemma_holds_sum};

    reveal_strlit("");
    assert(seq![one].last() == one);
    assert(seq![one].drop_last() =~= seq![]);
    assert(text::holds_text(commit_row(project, one), html::escaped(one.sha@)));
    assert(text::holds_text(commit_row(project, one), html::escaped(one.subject@)));
    assert(text::holds_text(commit_row(project, one), html::escaped(one.author@)));
    assert(text::holds_text(commit_row(project, one), html::escaped(one.date@)));
    if c.len() == 0 {
        assert(a + c =~= a);
        assert(commit_rows(project, a + c) =~= commit_rows(project, a) + commit_rows(project, c));
    } else {
        law_commit_rows(project, a, c.drop_last(), one, from, to);
        assert((a + c).drop_last() =~= a + c.drop_last());
        assert((a + c).last() == c.last());
        assert(commit_rows(project, a + c) =~= commit_rows(project, a) + commit_rows(project, c));
    }
}

/// The page of a commit shows its identifier, author, date, subject, message, files and diff.
pub proof fn law_page_shows_commit(project: Seq<char>, c: CommitInfo)
    ensures
        ({
            let body = commit_body(project, c);
            &&& text::holds_text(body, html::escaped(c.sha@))
            &&& text::holds_text(body, html::escaped(c.author@))
            &&& text::holds_text(body, html::escaped(c.date@))
            &&& text::holds_text(body, html::escaped(c.subject@))
            &&& text::holds_text(body, html::escaped(c.body@))
            &&& text::holds_text(body, html::escaped(c.stat@))
            &&& text::holds_text(body, diff_html(c.diff@))
            &&& text::trimmed(c.diff@, CharClass::Space).len() > 0 ==> text::holds_text(
                body,
                diff_lines(text::lines(c.diff@)),
            )
        }),
{
    broadcast use {text::lemma_holds_self, text::lemma_holds_sum};

    let body = commit_body(project, c);
    assert(text::holds_text(body, diff_html(c.diff@)));
    if text::trimmed(c.diff@, CharClass::Space).len() > 0 {
        assert(text::holds_text(diff_html(c.diff@), diff_lines(text::lines(c.diff@))));
        text::lemma_holds_through(body, diff_html(c.diff@), diff_lines(text::lines(c.diff@)));
    }
}

/// Two commits with `...` between them are a range from the first to the second.
pub proof fn law_range_is_read(from: Seq<char>, to: Seq<char>)
    requires
        sha_like(from),
        sha_like(to),
    ensures
        range_ends(from + "..."@ + to) == Some((from, to)),
{
    reveal_strlit("...");
    law_sha_is_no_path(from);
    text::law_split_at_text(from, "..."@, to);
}

/// A range that is looked up is two commits, and `...` between them.
pub proof fn law_range_is_two_commits(range: Seq<char>)
    ensures
        range_ends(range) matches Some((from, to)) ==> range == from + "..."@ + to && sha_like(from)
            && sha_like(to),
{
    text::law_split_at_text_whole(range, "..."@);
}

/// What names a commit is hexadecimal digits, at least one and nothing else.
pub proof fn law_what_names_a_commit(s: Seq<char>)
    ensures
        sha_like(s) <==> s.len() > 0 && forall|i: int|
            0 <= i < s.len() ==> ('0' <= #[trigger] s[i] <= '9' || 'a' <= s[i] <= 'f' || 'A' <= s[i]
                <= 'F'),
{
    if s.len() > 0 && forall|i: int|
        0 <= i < s.len() ==> ('0' <= #[trigger] s[i] <= '9' || 'a' <= s[i] <= 'f' || 'A' <= s[i]
            <= 'F') {
        assert forall|i: int| 0 <= i < s.len() implies outside::is_hex_digit(#[trigger] s[i]) by {}
    }
    if sha_like(s) {
        assert forall|i: int| 0 <= i < s.len() implies ('0' <= #[trigger] s[i] <= '9' || 'a' <= s[i]
            <= 'f' || 'A' <= s[i] <= 'F') by {
            assert(outside::is_hex_digit(s[i]));
        }
    }
}

/// A path of this server that is not the login is gone to after logging in as it was asked for.
pub proof fn law_next_is_kept(next: Seq<char>)
    requires
        next.len() > 0,
        next[0] == '/',
        next.len() > 1 ==> next[1] != '/',
        !"/login"@.is_prefix_of(next),
    ensures
        safe_next(next) == next,
{
    reveal_strlit("/");
    reveal_strlit("//");
    assert(next.subrange(0, 1) =~= "/"@);
    if "//"@.is_prefix_of(next) {
        assert(next.subrange(0, 2)[1] == "//"@[1]);
    }
}

/// What a login keeps is the token, under the name that it is read by.
pub proof fn law_login_keeps_token(token: Seq<char>)
    requires
        !token.contains(';'),
    ensures
        text::split(token_cookie(token), ';')[0] == "kei_token="@ + token,
{
    reveal_strlit("kei_token=");
    reveal_strlit("; Path=/; HttpOnly; SameSite=Lax; Max-Age=2592000");
    let a = "kei_token="@ + token;
    let end = "; Path=/; HttpOnly; SameSite=Lax; Max-Age=2592000"@;
    assert(!a.contains(';')) by {
        if a.contains(';') {
            let k = choose|k: int| 0 <= k < a.len() && a[k] == ';';
            assert(k >= 10);
            assert(token[k - 10] == ';');
        }
    }
    assert(end =~= seq![';'] + end.skip(1));
    assert(token_cookie(token) =~= a + seq![';'] + end.skip(1));
    text::law_split_pieces(a, ';', end.skip(1));
}

/// A commit is looked up in the workspace of its project: under the directory of workspaces, by the
/// project's name.
pub proof fn law_workspace_of_project(config: Config, project: ProjectConfig)
    requires
        config.storage.workspace_dir@.len() > 0,
        config.storage.workspace_dir@.last() != '/',
        project.name@.len() > 0,
        project.name@[0] != '/',
    ensures
        workspace_path(config, project) == config.storage.workspace_dir@ + seq!['/'] + project.name@,
{
    assert(config.storage.workspace_dir@.push('/') =~= config.storage.workspace_dir@ + seq!['/']);
}

/// Whoever sees a project looks into its workspace, and so does whoever bears the token of the path
/// that they ask for; to anybody else the project is hidden.
pub proof fn law_who_looks_at_commits(
    res: Result<String, Answer>,
    config: Config,
    project: Seq<char>,
    viewer: Viewer,
    target: Target,
)
    requires
        enters(res, config, project, viewer, target),
    ensures
        res is Ok <==> config.named(project) is Some && (auth::may_view(
            viewer,
            config.named(project)->0,
        ) || auth::bears_path_token(text::opt_text(config.auth.public_link_secret), target)),
        res matches Ok(w) ==> w@ == workspace_path(config, config.named(project)->0),
{
}

/// A browser shows of a row, of the page of a build and of a commit the first eight characters of an
/// identifier, and the first seven of a commit.
pub proof fn law_short_forms(id: u128, sha: Seq<char>)
    ensures
        id_start(id) == outside::uuid_text(id).subrange(0, 8),
        sha.len() >= 7 ==> sha_start(sha) == sha.subrange(0, 7),
        sha.len() < 7 ==> sha_start(sha) == sha,
{
    assert(outside::uuid_text(id).len() == 36);
    assert(outside::uuid_text(id).take(8) =~= outside::uuid_text(id).subrange(0, 8));
    if sha.len() >= 7 {
        assert(sha.take(7) =~= sha.subrange(0, 7));
        assert(sha.len() == 7 ==> sha =~= sha.subrange(0, 7));
    }
}

/// The login page carries on where the login leads, and says what was wrong.
pub proof fn law_login_page(next: Seq<char>, error: Seq<char>)
    ensures
        text::holds_text(login_text(next, None), html::escaped(next)),
        text::holds_text(login_text(next, Some(error)), html::escaped(next)),
        text::holds_text(login_text(next, Some(error)), html::escaped(error)),
        error_box(None) == ""@,
{
    broadcast use {text::lemma_holds_self, text::lemma_holds_sum};

    let top = r#"<h1><a href="/">Kei</a> — Login</h1>
"#@;
    let boxed = error_box(Some(error));
    assert(text::holds_text(boxed, html::escaped(error)));
    assert(text::holds_text(top + boxed, boxed));
    text::lemma_holds_through(top + boxed, boxed, html::escaped(error));
}

/// The row of a commit shows its identifier, its subject, its author and its date in this order, and
/// the title of a range names the commit that it begins at before the one that it ends at.
pub proof fn law_order_in_commit_row(
    project: Seq<char>,
    c: CommitSummary,
    from: Seq<char>,
    to: Seq<char>,
)
    ensures
        ({
            let row = commit_rows(project, seq![c]);
            &&& text::holds_in_order(row, html::escaped(c.sha@), html::escaped(c.subject@))
            &&& text::holds_in_order(row, html::escaped(c.subject@), html::escaped(c.author@))
            &&& text::holds_in_order(row, html::escaped(c.author@), html::escaped(c.date@))
            &&& text::holds_text(
                row,
                r#"<tr><td><a href="/commits/"#@ + html::escaped(project) + "/"@ + html::escaped(
                    c.sha@,
                ) + r#""><code>"#@,
            )
            &&& text::holds_text(row, html::escaped(sha_start(c.sha@)))
        }),
        text::holds_in_order(range_title(project, from, to), sha_start(from), sha_start(to)),
        text::holds_in_order(range_title(project, from, to), project, sha_start(from)),
{
    broadcast use {
        text::lemma_holds_self,
        text::lemma_holds_sum,
        text::lemma_order_last,
        text::lemma_order_kept,
    };

    let row = commit_row(project, c);
    reveal_strlit("");
    assert(seq![c].last() == c);
    assert(seq![c].drop_last() =~= seq![]);
    assert(commit_rows(project, seq![c]) == commit_rows(project, seq![c].drop_last()) + row);
    assert(""@ + row =~= row);
    assert(text::holds_in_order(row, html::escaped(c.sha@), html::escaped(c.subject@)));
    assert(text::holds_in_order(row, html::escaped(c.subject@), html::escaped(c.author@)));
    assert(text::holds_in_order(row, html::escaped(c.author@), html::escaped(c.date@)));
}

/// The log that is shown is the log of the build that was asked for, and is shown exactly where the
/// build is.
pub proof fn law_which_log(
    res: Result<&str, ApiError>,
    state: AppState,
    id: u128,
    viewer: Viewer,
    token: Option<Seq<char>>,
)
    requires
        answers_log(res, state, id, viewer, token),
    ensures
        res matches Ok(log) ==> log@ == state.all()[id].log@ && opens_build(
            Ok(&state.all()[id]),
            state,
            id,
            viewer,
            token,
        ),
        res matches Err(e) ==> opens_build(Err(e), state, id, viewer, token),
{
}

/// In the row of a build each value stands in its cell: the state is also the class of its mark.
pub proof fn law_cells_of_row(b: BuildStatus, now: Timestamp)
    ensures
        ({
            let row = build_row(b, now);
            &&& text::holds_text(
                row,
                r#"<tr>
  <td><a href="/builds/"#@ + outside::uuid_text(b.id),
            )
            &&& text::holds_text(row, r#"">#"#@ + numbers::decimal(b.number as nat))
            &&& text::holds_text(
                row,
                r#"</code></span></td>
  <td>"#@ + html::escaped(b.project@),
            )
            &&& text::holds_text(
                row,
                r#"</td>
  <td><span class="state "#@ + state_text(b.state) + r#"">"#@ + state_text(b.state),
            )
            &&& text::holds_text(
                row,
                r#"</span></td>
  <td>"#@ + html::escaped_or(text::opt_text(b.current_step), ""@),
            )
            &&& text::holds_text(
                row,
                r#"</td>
  <td class="muted">"#@ + b.started_at.clock_text(),
            )
        }),
{
    broadcast use {
        text::lemma_holds_self,
        text::lemma_holds_sum,
        text::lemma_holds_pair,
        text::lemma_holds_four,
    };

}

/// On the page of a build each value stands behind its label.
pub proof fn law_labels_of_page(
    b: BuildStatus,
    now: Timestamp,
    can_stop: bool,
    token: Option<Seq<char>>,
)
    ensures
        ({
            let body = build_body(b, now, can_stop, token);
            &&& text::holds_text(
                body,
                r#"</code></span></h1>
<dl class="meta">
  <dt>Project</dt><dd>"#@ + html::escaped(b.project@),
            )
            &&& text::holds_text(
                body,
                r#"</dd>
  <dt>State</dt><dd><span class="state "#@ + state_text(b.state) + r#"" id="state">"#@
                    + state_text(b.state),
            )
            &&& text::holds_text(
                body,
                r#"</span></dd>
  <dt>Current step</dt><dd id="step">"#@ + html::escaped_or(
                    text::opt_text(b.current_step),
                    "—"@,
                ),
            )
            &&& text::holds_text(
                body,
                r#"</dd>
  <dt>Commit</dt><dd><code>"#@ + html::escaped_or(text::opt_text(b.commit), ""@),
            )
            &&& text::holds_text(
                body,
                r#"</code></dd>
  <dt>Started</dt><dd>"#@ + b.started_at.clock_text(),
            )
            &&& text::holds_text(
                body,
                r#"</dd>
  <dt>Duration</dt><dd id="dur">"#@ + duration_text(b, now, "s (running)"@),
            )
        }),
{
    broadcast use {
        text::lemma_holds_self,
        text::lemma_holds_sum,
        text::lemma_holds_pair,
        text::lemma_holds_four,
    };

}

/// The box of the error is shown exactly where there is an error, with the error in it, and the list
/// of artifacts exactly where there is an artifact, with all of them.
pub proof fn law_boxes_of_page(
    b: BuildStatus,
    now: Timestamp,
    can_stop: bool,
    token: Option<Seq<char>>,
)
    ensures
        ({
            let body = build_body(b, now, can_stop, token);
            let error_box = r#"
<div class="error" id="error-box" style=""#@;
            let error_text = r#""><strong>Error:</strong> <span id="error-text">"#@;
            let list_box = r#"</span></div>
<section id="artifacts-section" style=""#@;
            let list = r#""><h2>Artifacts</h2><ul class="artifacts" id="artifacts">"#@;
            &&& b.error matches Some(e) ==> text::holds_text(
                body,
                error_box + ""@ + error_text + html::escaped(e@),
            )
            &&& b.error is None ==> text::holds_text(
                body,
                error_box + "display:none"@ + error_text + ""@,
            )
            &&& b.artifacts@.len() > 0 ==> text::holds_text(
                body,
                list_box + ""@ + list + artifact_items(b.artifacts@),
            )
            &&& b.artifacts@.len() == 0 ==> text::holds_text(
                body,
                list_box + "display:none"@ + list + ""@,
            )
        }),
{
    broadcast use {text::lemma_holds_self, text::lemma_holds_sum, text::lemma_holds_four};

    reveal_strlit("");
    html::law_optional_text(text::opt_text(b.error)->0, ""@);
}

/// A line of git's own about a file is marked as such.
pub proof fn law_lines_about_files(rest: Seq<char>)
    ensures
        line_class("index "@ + rest) == "diff-meta"@,
        line_class("new file mode"@ + rest) == "diff-meta"@,
        line_class("deleted file mode"@ + rest) == "diff-meta"@,
        line_class("rename "@ + rest) == "diff-meta"@,
        line_class("similarity "@ + rest) == "diff-meta"@,
        line_class("Binary files"@ + rest) == "diff-meta"@,
{
    assert forall|p: Seq<char>| #[trigger] p.is_prefix_of(p + rest) by {
        assert((p + rest).subrange(0, p.len() as int) =~= p);
    }
}

/// Whether `res` is what a login leads to.
pub open spec fn answers_login(res: Answer, config: Config, form: LoginForm) -> bool {
    match auth::account_of_login(config, form.account@, form.token@) {
        Some(_) => {
            &&& res matches Answer::GoTo { path, cookie }
            &&& path@ == safe_next(form.next@)
            &&& cookie@ == token_cookie(form.token@)
        },
        None => {
            &&& res matches Answer::Page(p)
            &&& p@ == html::page_text(
                "Login"@,
                login_text(safe_next(form.next@), Some("Invalid account or token."@)),
            )
        },
    }
}

/// Whether `res` is what a request for a commit of a project leads to.
pub open spec fn answers_commit(
    res: CommitLookup,
    config: Config,
    project: Seq<char>,
    viewer: Viewer,
    target: Target,
    sha: Seq<char>,
) -> bool {
    if !sha_like(sha) {
        res matches CommitLookup::Refuse(a) && a.is_plain(BAD_REQUEST, "invalid sha"@)
    } else {
        enters(
            match res {
                CommitLookup::Refuse(a) => Err(a),
                CommitLookup::Look { workspace } => Ok(workspace),
            },
            config,
            project,
            viewer,
            target,
        )
    }
}

/// Whether `res` is what a request for a range of commits of a project leads to.
pub open spec fn answers_range(
    res: RangeLookup,
    config: Config,
    project: Seq<char>,
    viewer: Viewer,
    target: Target,
    range: Seq<char>,
) -> bool {
    match range_ends(range) {
        None => res matches RangeLookup::Refuse(a) && a.is_plain(BAD_REQUEST, "invalid range"@),
        Some((a, b)) => {
            &&& enters(
                match res {
                    RangeLookup::Refuse(a) => Err(a),
                    RangeLookup::Look { workspace, from, to } => Ok(workspace),
                },
                config,
                project,
                viewer,
                target,
            )
            &&& res matches RangeLookup::Look { workspace, from, to } ==> from@ == a && to@ == b
        },
    }
}

/// A login leads on exactly where some account has the name and the token that were given, and then
/// keeps that token. Else the page of the login comes back, with the same place to lead on to.
pub proof fn law_who_logs_in(res: Answer, config: Config, form: LoginForm)
    requires
        answers_login(res, config, form),
    ensures
        res is GoTo <==> exists|i: int|
            0 <= i < config.auth.accounts@.len() && (#[trigger] config.auth.accounts@[i]).name@
                == form.account@ && config.auth.accounts@[i].token@ == form.token@,
        res matches Answer::GoTo { path, cookie } ==> path@ == safe_next(form.next@)
            && ("kei_token="@ + form.token@).is_prefix_of(cookie@),
        !(res is GoTo) ==> (res matches Answer::Page(p) && text::holds_text(
            p@,
            html::escaped(safe_next(form.next@)),
        )),
{
    broadcast use {text::lemma_holds_self, text::lemma_holds_sum};

    auth::law_login_needs_both(config, form.account@, form.token@);
    let set = "kei_token="@ + form.token@;
    assert(token_cookie(form.token@).subrange(0, set.len() as int) =~= set);
    let error = "Invalid account or token."@;
    let body = login_text(safe_next(form.next@), Some(error));
    law_login_page(safe_next(form.next@), error);
    assert(text::holds_text(html::page_text("Login"@, body), body));
    text::lemma_holds_through(
        html::page_text("Login"@, body),
        body,
        html::escaped(safe_next(form.next@)),
    );
}

/// A commit is looked for exactly where its name can be one and its project may be looked at; what is
/// no name of a commit is refused whoever asks.
pub proof fn law_who_looks_at_a_commit(
    res: CommitLookup,
    config: Config,
    project: Seq<char>,
    viewer: Viewer,
    target: Target,
    sha: Seq<char>,
)
    requires
        answers_commit(res, config, project, viewer, target, sha),
    ensures
        res is Look <==> sha_like(sha) && (config.named(project) matches Some(p) && (auth::may_view(
            viewer,
            p,
        ) || auth::bears_path_token(text::opt_text(config.auth.public_link_secret), target))),
        res matches CommitLookup::Look { workspace } ==> (config.named(project) matches Some(p)
            && workspace@ == workspace_path(config, p)),
        !sha_like(sha) ==> (res matches CommitLookup::Refuse(a) && a.is_plain(
            400,
            "invalid sha"@,
        )),
{
}

/// A range is looked at from the commit before its dots to the one behind them, by whoever may look
/// at the project.
pub proof fn law_which_range_is_looked_at(
    res: RangeLookup,
    config: Config,
    project: Seq<char>,
    viewer: Viewer,
    target: Target,
    first: Seq<char>,
    last: Seq<char>,
)
    requires
        answers_range(res, config, project, viewer, target, first + "..."@ + last),
        sha_like(first),
        sha_like(last),
    ensures
        res is Look <==> (config.named(project) matches Some(p) && (auth::may_view(viewer, p)
            || auth::bears_path_token(text::opt_text(config.auth.public_link_secret), target))),
        res matches RangeLookup::Look { workspace, from, to } ==> from@ == first && to@ == last && (
        config.named(project) matches Some(p) && workspace@ == workspace_path(config, p)),
{
    law_range_is_read(first, last);
}

} // verus!
