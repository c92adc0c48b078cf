//! What Discord is told about a build.

use crate::auth;
use crate::config::{DiscordTarget, ProjectConfig};
use crate::list;
use crate::numbers::{self, MB};
use crate::outside::{self, uuid_to_text};
use crate::request::Target;
use crate::state::{ArtifactRef, BuildState, BuildStatus};
use crate::text;
use vstd::prelude::*;

verus! {

/// What has happened to a build.
#[derive(Debug, Clone, Copy, PartialEq, Eq, Structural)]
pub enum DiscordEvent {
    Queued,
    Started,
    Finished,
}

/// The one embed of a message.
#[derive(Debug, Clone)]
pub struct Embed {
    pub title: String,
    pub description: String,
    pub color: u32,
    pub timestamp: String,
    pub url: Option<String>,
}

/// A message and the address that it is posted to.
#[derive(Debug, Clone)]
pub struct Delivery {
    pub url: String,
    pub embed: Embed,
}

/// How links are made: the base address, and the secret that signs them.
#[derive(Debug, Clone, Copy)]
pub struct Links<'a> {
    pub public_url: Option<&'a str>,
    pub secret: Option<&'a str>,
}

// ---------------------------------------------------------------------------------------------
// Links
// ---------------------------------------------------------------------------------------------
impl<'a> Links<'a> {
    /// The link to a page, signed where there is a secret.
    pub open spec fn to_page(self, base: Seq<char>, path: Seq<char>) -> Seq<char> {
        match self.secret {
            Some(s) => auth::path_url(base, s@, path),
            None => base + path,
        }
    }

    /// The link to a build, signed where there is a secret.
    pub open spec fn to_build(self, id: u128) -> Option<Seq<char>> {
        match self.public_url {
            Some(base) => Some(
                match self.secret {
                    Some(s) => auth::build_url(base@, s@, id),
                    None => base@ + "/builds/"@ + outside::uuid_text(id),
                },
            ),
            None => None,
        }
    }

    /// The link to a page, signed where there is a secret.
    fn path_url(&self, base: &str, path: &str) -> (res: String)
        ensures
            res@ == self.to_page(base@, path@),
    {
        match self.secret {
            Some(s) => auth::public_path_url(base, s, path),
            None => {
                let mut out = base.to_owned();
                out.append(path);
                out
            },
        }
    }

    /// The link to a build, signed where there is a secret.
    fn build_url(&self, id: u128) -> (res: Option<String>)
        ensures
            text::opt_text(res) == self.to_build(id),
    {
        match self.public_url {
            Some(base) => match self.secret {
                Some(s) => Some(auth::public_build_url(base, s, id)),
                None => {
                    let mut out = base.to_owned();
                    out.append("/builds/");
                    out.append(uuid_to_text(id).as_str());
                    Some(out)
                },
            },
            None => None,
        }
    }
}

/// What follows the last slash of a path.
pub open spec fn base_name(path: Seq<char>) -> Seq<char> {
    match text::split_at_last(path, '/') {
        Some((_, name)) => name,
        None => path,
    }
}

/// What follows the last slash of a path.
fn basename(path: &str) -> (res: &str)
    ensures
        res@ == base_name(path@),
{
    match text::rsplit_once(path, '/') {
        Some((_, name)) => name,
        None => path,
    }
}

// ---------------------------------------------------------------------------------------------
// Words and colours
// ---------------------------------------------------------------------------------------------
pub const GREEN: u32 = 0x3FB950;

pub const RED: u32 = 0xF85149;

pub const AMBER: u32 = 0xD29922;

pub const BLUE: u32 = 0x6CB6FF;

/// The word for what became of a build.
pub open spec fn status_word(state: BuildState) -> Seq<char> {
    match state {
        BuildState::Success => "succeeded"@,
        BuildState::Failed => "failed"@,
        BuildState::Canceled => "canceled"@,
        BuildState::Queued | BuildState::Running => "finished"@,
    }
}

/// The colour for what became of a build.
pub open spec fn status_color(state: BuildState) -> u32 {
    match state {
        BuildState::Success => GREEN,
        BuildState::Failed => RED,
        BuildState::Canceled => AMBER,
        BuildState::Queued | BuildState::Running => BLUE,
    }
}

/// The word for an event.
pub open spec fn event_word(event: DiscordEvent, state: BuildState) -> Seq<char> {
    match event {
        DiscordEvent::Queued => "pending"@,
        DiscordEvent::Started => "started"@,
        DiscordEvent::Finished => status_word(state),
    }
}

/// The colour for an event.
pub open spec fn event_color(event: DiscordEvent, state: BuildState) -> u32 {
    match event {
        DiscordEvent::Queued => AMBER,
        DiscordEvent::Started => BLUE,
        DiscordEvent::Finished => status_color(state),
    }
}

/// The title where the target has none.
pub open spec fn default_title(event: DiscordEvent) -> Seq<char> {
    match event {
        DiscordEvent::Queued => "{project} #{number} pending"@,
        DiscordEvent::Started => "{project} #{number} started"@,
        DiscordEvent::Finished => "{project} #{number} {status}"@,
    }
}

/// The title of a message.
pub open spec fn title_text(
    target: DiscordTarget,
    build: BuildStatus,
    event: DiscordEvent,
) -> Seq<char> {
    let template = match target.title {
        Some(t) => t@,
        None => default_title(event),
    };
    text::replaced(
        text::replaced(
            text::replaced(template, "{project}"@, build.project@),
            "{number}"@,
            numbers::decimal(build.number as nat),
        ),
        "{status}"@,
        event_word(event, build.state),
    )
}

/// The title of a message.
fn title_of(target: &DiscordTarget, build: &BuildStatus, event: DiscordEvent) -> (res: String)
    ensures
        res@ == title_text(*target, *build, event),
{
    let (word, default): (&str, &str) = match event {
        DiscordEvent::Queued => ("pending", "{project} #{number} pending"),
        DiscordEvent::Started => ("started", "{project} #{number} started"),
        DiscordEvent::Finished => (
            match build.state {
                BuildState::Success => "succeeded",
                BuildState::Failed => "failed",
                BuildState::Canceled => "canceled",
                BuildState::Queued | BuildState::Running => "finished",
            },
            "{project} #{number} {status}",
        ),
    };
    let template: &str = match &target.title {
        Some(t) => t.as_str(),
        None => default,
    };
    proof {
        reveal_strlit("{project}");
        reveal_strlit("{number}");
        reveal_strlit("{status}");
    }
    let a = text::replace(template, "{project}", build.project.as_str());
    let b = text::replace(
        a.as_str(),
        "{number}",
        numbers::decimal_text(build.number).as_str(),
    );
    text::replace(b.as_str(), "{status}", word)
}

/// The colour for an event.
fn color_of(event: DiscordEvent, state: BuildState) -> (res: u32)
    ensures
        res == event_color(event, state),
{
    match event {
        DiscordEvent::Queued => AMBER,
        DiscordEvent::Started => BLUE,
        DiscordEvent::Finished => match state {
            BuildState::Success => GREEN,
            BuildState::Failed => RED,
            BuildState::Canceled => AMBER,
            BuildState::Queued | BuildState::Running => BLUE,
        },
    }
}

// ---------------------------------------------------------------------------------------------
// The description
// ---------------------------------------------------------------------------------------------
/// The first seven characters of a commit.
pub open spec fn short_commit(commit: Seq<char>) -> Seq<char> {
    text::first_chars(commit, 7)
}

/// The first seven characters of a build's commit, or a question mark.
pub open spec fn short_commit_of(build: BuildStatus) -> Seq<char> {
    match build.commit {
        Some(c) => short_commit(c@),
        None => "?"@,
    }
}

/// The target's own text, with an empty line behind it.
pub open spec fn custom_part(target: DiscordTarget) -> Seq<char> {
    match target.custom_message {
        Some(m) => if m@.len() > 0 && m@.last() == '\n' {
            m@ + "\n"@
        } else {
            m@ + "\n\n"@
        },
        None => ""@,
    }
}

/// The line that links the build.
pub open spec fn build_part(links: Links, id: u128, event: DiscordEvent) -> Seq<char> {
    match links.to_build(id) {
        Some(url) => if event == DiscordEvent::Finished {
            "**Result:** [Open build]("@ + url + ")\n"@
        } else {
            "**Build:** [Open build]("@ + url + ")\n"@
        },
        None => ""@,
    }
}

/// The path of the page of a commit.
pub open spec fn commit_path(project: Seq<char>, commit: Seq<char>) -> Seq<char> {
    "/commits/"@ + project + "/"@ + commit
}

/// The path of the page that compares two commits.
pub open spec fn compare_path(project: Seq<char>, from: Seq<char>, to: Seq<char>) -> Seq<char> {
    "/compare/"@ + project + "/"@ + from + "..."@ + to
}

/// The line that names the commit, with a link where there is a base address.
pub open spec fn commit_part(links: Links, project: ProjectConfig, build: BuildStatus) -> Seq<char> {
    match (links.public_url, build.commit) {
        (Some(base), Some(c)) => "**Commit:** [`"@ + short_commit_of(build) + "`]("@
            + links.to_page(base@, commit_path(project.name@, c@)) + ")"@,
        _ => "**Commit:** `"@ + short_commit_of(build) + "`"@,
    }
}

/// Whether a message links the changes: the target asks for it, the project has a GitHub name,
/// there is a base address, and the last successful build was of another commit.
pub open spec fn shows_changes(
    links: Links,
    project: ProjectConfig,
    target: DiscordTarget,
    build: BuildStatus,
) -> bool {
    &&& target.include_changes
    &&& project.github_full_name is Some
    &&& links.public_url is Some
    &&& build.previous_commit is Some
    &&& build.commit is Some
    &&& build.previous_commit->0@ != build.commit->0@
}

/// The line that links the changes.
pub open spec fn changes_part(
    links: Links,
    project: ProjectConfig,
    target: DiscordTarget,
    build: BuildStatus,
) -> Seq<char> {
    if shows_changes(links, project, target, build) {
        let from = build.previous_commit->0@;
        let to = build.commit->0@;
        "\n**Changes:** ["@ + short_commit(from) + "…"@ + short_commit_of(build) + "]("@
            + links.to_page(
            links.public_url->0@,
            compare_path(project.name@, from, to),
        ) + ")"@
    } else {
        ""@
    }
}

/// The line that names the commit that the build made.
pub open spec fn docs_part(
    links: Links,
    project: ProjectConfig,
    target: DiscordTarget,
    build: BuildStatus,
) -> Seq<char> {
    match build.docs_commit {
        Some(docs) => if target.include_docs_commit {
            match links.public_url {
                Some(base) => "\n**Docs:** [`"@ + short_commit(docs@) + "`]("@ + links.to_page(
                    base@,
                    commit_path(project.name@, docs@),
                ) + ")"@,
                None => "\n**Docs:** `"@ + short_commit(docs@) + "`"@,
            }
        } else {
            ""@
        },
        None => ""@,
    }
}

/// The paragraph that names the error.
pub open spec fn error_part(build: BuildStatus) -> Seq<char> {
    match build.error {
        Some(e) => "\n\n**Error:** "@ + e@,
        None => ""@,
    }
}

/// Where the line of an artifact leads: without a base address to the relative address of the
/// artifact. The link is one that everybody may follow where the target asks for that.
pub open spec fn artifact_link(links: Links, target: DiscordTarget, a: ArtifactRef) -> Seq<char> {
    match (links.public_url, links.secret) {
        (Some(base), Some(secret)) => if target.public_artifact_links {
            auth::artifact_url(base@, secret@, a.path@)
        } else {
            links.to_page(base@, a.url@)
        },
        (Some(base), None) => links.to_page(base@, a.url@),
        (None, _) => a.url@,
    }
}

/// The line of one artifact: its name, linked, and its size.
pub open spec fn artifact_line(links: Links, target: DiscordTarget, a: ArtifactRef) -> Seq<char> {
    "\n• ["@ + base_name(a.path@) + "]("@ + artifact_link(links, target, a) + ") ("@
        + numbers::quotient_text(a.size as nat, MB as nat, 2) + " MB)"@
}

/// The lines of the first artifacts.
pub open spec fn artifact_lines(
    links: Links,
    target: DiscordTarget,
    artifacts: Seq<ArtifactRef>,
) -> Seq<char>
    decreases artifacts.len(),
{
    if artifacts.len() == 0 {
        ""@
    } else {
        artifact_lines(links, target, artifacts.drop_last()) + artifact_line(
            links,
            target,
            artifacts.last(),
        )
    }
}

/// The heading of the artifacts. Without a base address there is no link to the build, and the
/// heading names it by its identifier.
pub open spec fn artifacts_heading(links: Links, id: u128) -> Seq<char> {
    match links.public_url {
        Some(_) => "\n\n**Artifacts**"@,
        None => "\n\n**Artifacts** of build `"@ + outside::uuid_text(id) + "`"@,
    }
}

/// The paragraph that lists the artifacts.
pub open spec fn artifacts_part(
    links: Links,
    target: DiscordTarget,
    build: BuildStatus,
) -> Seq<char> {
    if target.include_artifacts && build.artifacts@.len() > 0 {
        artifacts_heading(links, build.id) + artifact_lines(links, target, build.artifacts@)
    } else {
        ""@
    }
}

/// The description of a message.
pub open spec fn description_text(
    links: Links,
    project: ProjectConfig,
    target: DiscordTarget,
    build: BuildStatus,
    event: DiscordEvent,
) -> Seq<char> {
    let head = custom_part(target) + build_part(links, build.id, event) + commit_part(
        links,
        project,
        build,
    );
    match event {
        DiscordEvent::Queued => head + "\n**State:** waiting for another build to finish"@,
        DiscordEvent::Started => head + "\n**State:** build is running"@,
        DiscordEvent::Finished => head + changes_part(links, project, target, build) + docs_part(
            links,
            project,
            target,
            build,
        ) + error_part(build) + artifacts_part(links, target, build),
    }
}

/// The target's own text, with an empty line behind it.
fn custom_text(target: &DiscordTarget) -> (res: String)
    ensures
        res@ == custom_part(*target),
{
    match &target.custom_message {
        Some(m) => {
            let mut out = m.clone();
            let v = text::chars_of(m.as_str());
            if v.len() > 0 && v[v.len() - 1] == '\n' {
                out.append("\n");
            } else {
                out.append("\n\n");
            }
            out
        },
        None => "".to_owned(),
    }
}

/// The line that links the build.
fn build_text(links: &Links, id: u128, event: DiscordEvent) -> (res: String)
    ensures
        res@ == build_part(*links, id, event),
{
    match links.build_url(id) {
        Some(url) => {
            let mut out = match event {
                DiscordEvent::Queued | DiscordEvent::Started => "**Build:** [Open build](".to_owned(),
                DiscordEvent::Finished => "**Result:** [Open build](".to_owned(),
            };
            out.append(url.as_str());
            out.append(")\n");
            out
        },
        None => "".to_owned(),
    }
}

/// The path of the page of a commit.
fn commit_page(project: &str, commit: &str) -> (res: String)
    ensures
        res@ == commit_path(project@, commit@),
{
    let mut out = "/commits/".to_owned();
    out.append(project);
    out.append("/");
    out.append(commit);
    out
}

/// The path of the page that compares two commits.
fn compare_page(project: &str, from: &str, to: &str) -> (res: String)
    ensures
        res@ == compare_path(project@, from@, to@),
{
    let mut out = "/compare/".to_owned();
    out.append(project);
    out.append("/");
    out.append(from);
    out.append("...");
    out.append(to);
    out
}

/// The first seven characters of a build's commit, or a question mark.
fn short_text(build: &BuildStatus) -> (res: String)
    ensures
        res@ == short_commit_of(*build),
{
    match &build.commit {
        Some(c) => text::first_n(c.as_str(), 7),
        None => "?".to_owned(),
    }
}

/// The line that names the commit.
fn commit_text(links: &Links, project: &ProjectConfig, build: &BuildStatus) -> (res: String)
    ensures
        res@ == commit_part(*links, *project, *build),
{
    let short = short_text(build);
    match (links.public_url, &build.commit) {
        (Some(base), Some(c)) => {
            let page = commit_page(project.name.as_str(), c.as_str());
            let mut out = "**Commit:** [`".to_owned();
            out.append(short.as_str());
            out.append("`](");
            out.append(links.path_url(base, page.as_str()).as_str());
            out.append(")");
            out
        },
        _ => {
            let mut out = "**Commit:** `".to_owned();
            out.append(short.as_str());
            out.append("`");
            out
        },
    }
}

/// The line that links the changes.
fn changes_text(
    links: &Links,
    project: &ProjectConfig,
    target: &DiscordTarget,
    build: &BuildStatus,
) -> (res: String)
    ensures
        res@ == changes_part(*links, *project, *target, *build),
{
    if !target.include_changes || project.github_full_name.is_none() {
        return "".to_owned();
    }
    match (links.public_url, &build.previous_commit, &build.commit) {
        (Some(base), Some(from), Some(to)) => {
            if text::same(from.as_str(), to.as_str()) {
                return "".to_owned();
            }
            let page = compare_page(project.name.as_str(), from.as_str(), to.as_str());
            let mut out = "\n**Changes:** [".to_owned();
            out.append(text::first_n(from.as_str(), 7).as_str());
            out.append("…");
            out.append(short_text(build).as_str());
            out.append("](");
            out.append(links.path_url(base, page.as_str()).as_str());
            out.append(")");
            out
        },
        _ => "".to_owned(),
    }
}

/// The line that names the commit that the build made.
fn docs_text(
    links: &Links,
    project: &ProjectConfig,
    target: &DiscordTarget,
    build: &BuildStatus,
) -> (res: String)
    ensures
        res@ == docs_part(*links, *project, *target, *build),
{
    if !target.include_docs_commit {
        return "".to_owned();
    }
    match &build.docs_commit {
        Some(docs) => {
            let short = text::first_n(docs.as_str(), 7);
            match links.public_url {
                Some(base) => {
                    let page = commit_page(project.name.as_str(), docs.as_str());
                    let mut out = "\n**Docs:** [`".to_owned();
                    out.append(short.as_str());
                    out.append("`](");
                    out.append(links.path_url(base, page.as_str()).as_str());
                    out.append(")");
                    out
                },
                None => {
                    let mut out = "\n**Docs:** `".to_owned();
                    out.append(short.as_str());
                    out.append("`");
                    out
                },
            }
        },
        None => "".to_owned(),
    }
}

/// The line of one artifact.
fn artifact_text(links: &Links, target: &DiscordTarget, a: &ArtifactRef) -> (res: String)
    ensures
        res@ == artifact_line(*links, *target, *a),
{
    let name = basename(a.path.as_str());
    let mut size = String::new();
    numbers::push_quotient(&mut size, a.size, MB, 2);
    assert(size@ =~= numbers::quotient_text(a.size as nat, MB as nat, 2));
    let url = match links.public_url {
        Some(base) => match links.secret {
            Some(secret) => if target.public_artifact_links {
                auth::public_artifact_url(base, secret, a.path.as_str())
            } else {
                links.path_url(base, a.url.as_str())
            },
            None => links.path_url(base, a.url.as_str()),
        },
        None => a.url.clone(),
    };
    let mut out = "\n• [".to_owned();
    out.append(name);
    out.append("](");
    out.append(url.as_str());
    out.append(") (");
    out.append(size.as_str());
    out.append(" MB)");
    out
}

/// The paragraph that lists the artifacts.
fn artifacts_text(links: &Links, target: &DiscordTarget, build: &BuildStatus) -> (res: String)
    ensures
        res@ == artifacts_part(*links, *target, *build),
{
    if !target.include_artifacts || build.artifacts.len() == 0 {
        return "".to_owned();
    }
    let mut lines = "".to_owned();
    let ghost all = build.artifacts@;
    let mut i: usize = 0;
    assert(all.take(0) =~= seq![]);
    while i < build.artifacts.len()
        invariant
            i <= all.len(),
            all == build.artifacts@,
            lines@ == artifact_lines(*links, *target, all.take(i as int)),
        decreases all.len() - i,
    {
        proof {
            assert(all.take(i + 1).drop_last() =~= all.take(i as int));
        }
        lines.append(artifact_text(links, target, &build.artifacts[i]).as_str());
        i = i + 1;
    }
    assert(all.take(i as int) =~= all);
    let mut out = match links.public_url {
        Some(_) => "\n\n**Artifacts**".to_owned(),
        None => {
            let mut heading = "\n\n**Artifacts** of build `".to_owned();
            heading.append(uuid_to_text(build.id).as_str());
            heading.append("`");
            heading
        },
    };
    out.append(lines.as_str());
    out
}

/// The description of a message.
fn description_of(
    links: &Links,
    project: &ProjectConfig,
    target: &DiscordTarget,
    build: &BuildStatus,
    event: DiscordEvent,
) -> (res: String)
    ensures
        res@ == description_text(*links, *project, *target, *build, event),
{
    let mut out = custom_text(target);
    out.append(build_text(links, build.id, event).as_str());
    out.append(commit_text(links, project, build).as_str());
    match event {
        DiscordEvent::Queued => {
            out.append("\n**State:** waiting for another build to finish");
        },
        DiscordEvent::Started => {
            out.append("\n**State:** build is running");
        },
        DiscordEvent::Finished => {
            out.append(changes_text(links, project, target, build).as_str());
            out.append(docs_text(links, project, target, build).as_str());
            match &build.error {
                Some(e) => {
                    let mut part = "\n\n**Error:** ".to_owned();
                    part.append(e.as_str());
                    out.append(part.as_str());
                },
                None => {
                    out.append("");
                },
            }
            out.append(artifacts_text(links, target, build).as_str());
        },
    }
    out
}

// ---------------------------------------------------------------------------------------------
// Messages
// ---------------------------------------------------------------------------------------------
/// When the event of a message took place.
pub open spec fn event_time(build: BuildStatus, event: DiscordEvent) -> Seq<char> {
    match (event, build.finished_at) {
        (DiscordEvent::Finished, Some(t)) => t.rfc_text(),
        _ => build.started_at.rfc_text(),
    }
}

/// Whether `e` is the message that tells a target of an event.
pub open spec fn tells(
    e: Embed,
    links: Links,
    project: ProjectConfig,
    target: DiscordTarget,
    build: BuildStatus,
    event: DiscordEvent,
) -> bool {
    &&& e.title@ == title_text(target, build, event)
    &&& e.description@ == description_text(links, project, target, build, event)
    &&& e.color == event_color(event, build.state)
    &&& e.timestamp@ == event_time(build, event)
    &&& text::opt_text(e.url) == links.to_build(build.id)
}

/// The message that tells a target of an event.
pub fn build_payload(
    project: &ProjectConfig,
    target: &DiscordTarget,
    public_url: Option<&str>,
    public_link_secret: Option<&str>,
    build: &BuildStatus,
    event: DiscordEvent,
) -> (res: Embed)
    ensures
        tells(
            res,
            (Links { public_url, secret: public_link_secret }),
            *project,
            *target,
            *build,
            event,
        ),
{
    let links = Links { public_url, secret: public_link_secret };
    let timestamp = match (event, &build.finished_at) {
        (DiscordEvent::Finished, Some(t)) => t.to_rfc_text(),
        _ => build.started_at.to_rfc_text(),
    };
    Embed {
        title: title_of(target, build, event),
        description: description_of(&links, project, target, build, event),
        color: color_of(event, build.state),
        timestamp,
        url: links.build_url(build.id),
    }
}

/// The address that messages to a target are posted to.
pub open spec fn post_url(target: DiscordTarget) -> Seq<char> {
    match target.thread_id {
        Some(t) => target.url@ + "?thread_id="@ + t@ + "&wait=true"@,
        None => target.url@ + "?wait=true"@,
    }
}

/// The address that messages to a target are posted to.
pub fn webhook_url(target: &DiscordTarget) -> (res: String)
    ensures
        res@ == post_url(*target),
{
    let mut out = target.url.clone();
    match &target.thread_id {
        Some(t) => {
            out.append("?thread_id=");
            out.append(t.as_str());
            out.append("&wait=true");
        },
        None => {
            out.append("?wait=true");
        },
    }
    out
}

/// Whether a target is told of an event: of the end of a build that did not succeed, only where
/// it asks for that.
pub open spec fn wants(target: DiscordTarget, build: BuildStatus, event: DiscordEvent) -> bool {
    event != DiscordEvent::Finished || build.state == BuildState::Success || target.on_failure
}

/// The messages by which a project's targets are told of an event, in the order of the targets.
pub fn discord_notify(
    project: &ProjectConfig,
    public_url: Option<&str>,
    public_link_secret: Option<&str>,
    build: &BuildStatus,
    event: DiscordEvent,
) -> (res: Vec<Delivery>)
    ensures
        delivers(
            res@,
            (Links { public_url, secret: public_link_secret }),
            *project,
            *build,
            event,
        ),
{
    let ghost links = Links { public_url, secret: public_link_secret };
    let ghost cond = |t: DiscordTarget| wants(t, *build, event);
    let targets = &project.notify.discord;
    let mut out: Vec<Delivery> = Vec::new();
    let mut i: usize = 0;
    proof {
        reveal(Seq::filter);
        assert(targets@.take(0).filter(cond) =~= seq![]);
    }
    while i < targets.len()
        invariant
            i <= targets@.len(),
            targets == &project.notify.discord,
            links == (Links { public_url, secret: public_link_secret }),
            cond == (|t: DiscordTarget| wants(t, *build, event)),
            out@.len() == targets@.take(i as int).filter(cond).len(),
            forall|k: int|
                #![trigger out@[k]]
                0 <= k < out@.len() ==> out@[k].url@ == post_url(
                    targets@.take(i as int).filter(cond)[k],
                ) && tells(
                    out@[k].embed,
                    links,
                    *project,
                    targets@.take(i as int).filter(cond)[k],
                    *build,
                    event,
                ),
        decreases targets@.len() - i,
    {
        let target = &targets[i];
        proof {
            assert(targets@.take(i + 1) =~= targets@.take(i as int).push(*target));
            list::lemma_filter_push(targets@.take(i as int), cond, *target);
        }
        let success = match build.state {
            BuildState::Success => true,
            _ => false,
        };
        let finished = match event {
            DiscordEvent::Finished => true,
            _ => false,
        };
        if !finished || success || target.on_failure {
            let embed = build_payload(
                project,
                target,
                public_url,
                public_link_secret,
                build,
                event,
            );
            out.push(Delivery { url: webhook_url(target), embed });
        }
        i = i + 1;
    }
    assert(targets@.take(i as int) =~= targets@);
    out
}

// ---------------------------------------------------------------------------------------------
// Laws
// ---------------------------------------------------------------------------------------------
/// A target that does not ask for failures hears of the end of successful builds only.
pub proof fn law_only_successes(target: DiscordTarget, build: BuildStatus)
    requires
        !target.on_failure,
    ensures
        wants(target, build, DiscordEvent::Finished) <==> build.state == BuildState::Success,
{
}

/// The lines of artifacts hold the line of each of them.
proof fn lemma_lines_hold(
    links: Links,
    target: DiscordTarget,
    artifacts: Seq<ArtifactRef>,
    i: int,
)
    requires
        0 <= i < artifacts.len(),
    ensures
        text::holds_text(
            artifact_lines(links, target, artifacts),
            artifact_link(links, target, artifacts[i]),
        ),
    decreases artifacts.len(),
{
    let before = artifact_lines(links, target, artifacts.drop_last());
    let last = artifacts.last();
    let link = artifact_link(links, target, artifacts[i]);
    let line = artifact_line(links, target, last);
    if i == artifacts.len() - 1 {
        let front = "\n• ["@ + base_name(last.path@) + "]("@;
        let behind = ") ("@ + numbers::quotient_text(last.size as nat, MB as nat, 2) + " MB)"@;
        assert(line =~= front + link + behind);
        text::lemma_holds_part(front, link, behind);
        text::lemma_holds_wider(before, line, ""@, link);
        assert(before + line + ""@ =~= before + line) by {
            reveal_strlit("");
        }
    } else {
        assert(artifacts.drop_last()[i] == artifacts[i]);
        lemma_lines_hold(links, target, artifacts.drop_last(), i);
        text::lemma_holds_wider(""@, before, line, link);
        assert(""@ + before + line =~= before + line) by {
            reveal_strlit("");
        }
    }
}

/// Without a base address a message has no link of its own and none to changes. Where it lists
/// artifacts, it gives the relative address of each and refers to the build by its identifier.
pub proof fn law_no_base_relative(
    secret: Option<&str>,
    project: ProjectConfig,
    target: DiscordTarget,
    build: BuildStatus,
)
    ensures
        ({
            let links = Links { public_url: None, secret };
            let said = description_text(links, project, target, build, DiscordEvent::Finished);
            &&& links.to_build(build.id) is None
            &&& changes_part(links, project, target, build) == ""@
            &&& target.include_artifacts && build.artifacts@.len() > 0 ==> text::holds_text(
                said,
                outside::uuid_text(build.id),
            )
            &&& target.include_artifacts ==> forall|i: int|
                0 <= i < build.artifacts@.len() ==> text::holds_text(
                    said,
                    (#[trigger] build.artifacts@[i]).url@,
                )
        }),
{
    let links = Links { public_url: None, secret };
    let said = description_text(links, project, target, build, DiscordEvent::Finished);
    if target.include_artifacts && build.artifacts@.len() > 0 {
        let id = outside::uuid_text(build.id);
        let heading = artifacts_heading(links, build.id);
        let lines = artifact_lines(links, target, build.artifacts@);
        let front = custom_part(target) + build_part(links, build.id, DiscordEvent::Finished)
            + commit_part(links, project, build) + changes_part(links, project, target, build)
            + docs_part(links, project, target, build) + error_part(build);
        text::lemma_holds_part("\n\n**Artifacts** of build `"@, id, "`"@);
        text::lemma_holds_wider(front, heading, lines, id);
        assert(said =~= front + heading + lines);
        assert forall|i: int| 0 <= i < build.artifacts@.len() implies text::holds_text(
            said,
            (#[trigger] build.artifacts@[i]).url@,
        ) by {
            lemma_lines_hold(links, target, build.artifacts@, i);
            text::lemma_holds_wider(front + heading, lines, ""@, build.artifacts@[i].url@);
            reveal_strlit("");
            assert(said =~= (front + heading) + lines + ""@);
        }
    }
}

/// A description holds what any of its parts holds.
proof fn lemma_description_holds(
    links: Links,
    project: ProjectConfig,
    target: DiscordTarget,
    build: BuildStatus,
    event: DiscordEvent,
    part: Seq<char>,
)
    requires
        ({
            ||| text::holds_text(custom_part(target), part)
            ||| text::holds_text(build_part(links, build.id, event), part)
            ||| text::holds_text(commit_part(links, project, build), part)
            ||| event == DiscordEvent::Finished && {
                ||| text::holds_text(changes_part(links, project, target, build), part)
                ||| text::holds_text(docs_part(links, project, target, build), part)
                ||| text::holds_text(error_part(build), part)
                ||| text::holds_text(artifacts_part(links, target, build), part)
            }
        }),
    ensures
        text::holds_text(description_text(links, project, target, build, event), part),
{
    broadcast use text::lemma_holds_sum;

}

/// With a base address and a secret, a message links the page of the commit, of the changes where it
/// shows them, and of the commit that a step made, each by a signed link.
pub proof fn law_links_are_signed(
    base: &str,
    secret: &str,
    project: ProjectConfig,
    target: DiscordTarget,
    build: BuildStatus,
    event: DiscordEvent,
)
    ensures
        ({
            let links = Links { public_url: Some(base), secret: Some(secret) };
            let said = description_text(links, project, target, build, event);
            let name = project.name@;
            &&& build.commit matches Some(c) ==> text::holds_text(
                said,
                "`]("@ + auth::path_url(base@, secret@, "/commits/"@ + name + "/"@ + c@) + ")"@,
            )
            &&& event == DiscordEvent::Finished && target.include_changes
                && project.github_full_name is Some && build.previous_commit is Some
                && build.commit is Some && build.previous_commit->0@ != build.commit->0@
                ==> text::holds_text(
                said,
                "]("@ + auth::path_url(
                    base@,
                    secret@,
                    "/compare/"@ + name + "/"@ + build.previous_commit->0@ + "..."@
                        + build.commit->0@,
                ) + ")"@,
            )
            &&& event == DiscordEvent::Finished && target.include_docs_commit
                && build.docs_commit is Some ==> text::holds_text(
                said,
                "`]("@ + auth::path_url(
                    base@,
                    secret@,
                    "/commits/"@ + name + "/"@ + build.docs_commit->0@,
                ) + ")"@,
            )
            &&& text::holds_text(
                said,
                "[Open build]("@ + auth::build_url(base@, secret@, build.id) + ")"@,
            )
        }),
{
    let links = Links { public_url: Some(base), secret: Some(secret) };
    lemma_links_held(links, base, project, target, build, event);
}

/// Without a secret, a message that has a base address links the same pages by plain links.
pub proof fn law_links_without_secret(
    base: &str,
    project: ProjectConfig,
    target: DiscordTarget,
    build: BuildStatus,
    event: DiscordEvent,
)
    ensures
        ({
            let links = Links { public_url: Some(base), secret: None };
            let said = description_text(links, project, target, build, event);
            let name = project.name@;
            &&& build.commit matches Some(c) ==> text::holds_text(
                said,
                "`]("@ + (base@ + ("/commits/"@ + name + "/"@ + c@)) + ")"@,
            )
            &&& event == DiscordEvent::Finished && target.include_changes
                && project.github_full_name is Some && build.previous_commit is Some
                && build.commit is Some && build.previous_commit->0@ != build.commit->0@
                ==> text::holds_text(
                said,
                "]("@ + (base@ + ("/compare/"@ + name + "/"@ + build.previous_commit->0@ + "..."@
                    + build.commit->0@)) + ")"@,
            )
            &&& event == DiscordEvent::Finished && target.include_docs_commit
                && build.docs_commit is Some ==> text::holds_text(
                said,
                "`]("@ + (base@ + ("/commits/"@ + name + "/"@ + build.docs_commit->0@)) + ")"@,
            )
            &&& text::holds_text(
                said,
                "[Open build]("@ + (base@ + "/builds/"@ + outside::uuid_text(build.id)) + ")"@,
            )
        }),
{
    let links = Links { public_url: Some(base), secret: None };
    lemma_links_held(links, base, project, target, build, event);
}

/// With a base address, a description holds the links to the pages that it refers to.
proof fn lemma_links_held(
    links: Links,
    base: &str,
    project: ProjectConfig,
    target: DiscordTarget,
    build: BuildStatus,
    event: DiscordEvent,
)
    requires
        links.public_url == Some(base),
    ensures
        ({
            let said = description_text(links, project, target, build, event);
            &&& build.commit matches Some(c) ==> text::holds_text(
                said,
                "`]("@ + links.to_page(base@, commit_path(project.name@, c@)) + ")"@,
            )
            &&& event == DiscordEvent::Finished && shows_changes(links, project, target, build)
                ==> text::holds_text(
                said,
                "]("@ + links.to_page(
                    base@,
                    compare_path(
                        project.name@,
                        build.previous_commit->0@,
                        build.commit->0@,
                    ),
                ) + ")"@,
            )
            &&& event == DiscordEvent::Finished && target.include_docs_commit
                && build.docs_commit is Some ==> text::holds_text(
                said,
                "`]("@ + links.to_page(
                    base@,
                    commit_path(project.name@, build.docs_commit->0@),
                ) + ")"@,
            )
            &&& text::holds_text(said, "[Open build]("@ + links.to_build(build.id)->0 + ")"@)
        }),
{
    broadcast use {text::lemma_holds_self, text::lemma_holds_sum};

    if let Some(c) = build.commit {
        let page = links.to_page(base@, commit_path(project.name@, c@));
        let part = "`]("@ + page + ")"@;
        let front = "**Commit:** [`"@ + short_commit_of(build);
        assert(commit_part(links, project, build) =~= front + part);
        assert(text::holds_text(front + part, part));
        lemma_description_holds(links, project, target, build, event, part);
    }
    if event == DiscordEvent::Finished && shows_changes(links, project, target, build) {
        let from = build.previous_commit->0@;
        let page = links.to_page(base@, compare_path(project.name@, from, build.commit->0@));
        let part = "]("@ + page + ")"@;
        let front = "\n**Changes:** ["@ + short_commit(from) + "…"@ + short_commit_of(build);
        assert(changes_part(links, project, target, build) =~= front + part);
        assert(text::holds_text(front + part, part));
        lemma_description_holds(links, project, target, build, event, part);
    }
    if event == DiscordEvent::Finished && target.include_docs_commit && build.docs_commit is Some {
        let docs = build.docs_commit->0@;
        let part = "`]("@ + links.to_page(base@, commit_path(project.name@, docs)) + ")"@;
        let front = "\n**Docs:** [`"@ + short_commit(docs);
        assert(docs_part(links, project, target, build) =~= front + part);
        assert(text::holds_text(front + part, part));
        lemma_description_holds(links, project, target, build, event, part);
    }
    let part = "[Open build]("@ + links.to_build(build.id)->0 + ")"@;
    reveal_strlit("[Open build](");
    reveal_strlit("**Result:** ");
    reveal_strlit("**Build:** ");
    reveal_strlit("**Result:** [Open build](");
    reveal_strlit("**Build:** [Open build](");
    reveal_strlit(")\n");
    reveal_strlit(")");
    reveal_strlit("\n");
    assert("**Result:** [Open build]("@ =~= "**Result:** "@ + "[Open build]("@);
    assert("**Build:** [Open build]("@ =~= "**Build:** "@ + "[Open build]("@);
    assert(")\n"@ =~= ")"@ + "\n"@);
    let front = if event == DiscordEvent::Finished {
        "**Result:** "@
    } else {
        "**Build:** "@
    };
    assert(build_part(links, build.id, event) =~= front + part + "\n"@);
    assert(text::holds_text(front + part + "\n"@, part));
    lemma_description_holds(links, project, target, build, event, part);
}

/// A signed link of a message opens its page, for everybody: a request for the path of the link,
/// with the query that the link carries, bears the token of that path.
pub proof fn law_message_link_opens(
    base: Seq<char>,
    secret: Seq<char>,
    request: Target,
    query: Seq<char>,
)
    requires
        auth::path_url(base, secret, request.path@) == base + request.path@ + "?"@ + query,
        text::opt_text(request.query) == Some(query),
    ensures
        auth::bears_path_token(Some(secret), request),
{
    let scope = auth::path_scope(request.path@);
    let front = base + request.path@ + "?"@;
    auth::law_links_carry_query(base, secret, request.path@, 0);
    assert((front + query).skip(front.len() as int) =~= query);
    assert((front + auth::link_query(secret, scope)).skip(front.len() as int) =~= auth::link_query(
        secret,
        scope,
    ));
    auth::law_link_opens_page(secret, request);
}

/// A message links the build itself as its description does, where there is a base address.
pub proof fn law_embed_links_build(
    e: Embed,
    links: Links,
    project: ProjectConfig,
    target: DiscordTarget,
    build: BuildStatus,
    event: DiscordEvent,
)
    requires
        tells(e, links, project, target, build, event),
    ensures
        links.public_url is None ==> e.url is None,
        links.public_url is Some && links.secret is Some ==> (e.url matches Some(u) && u@
            == auth::build_url(links.public_url->0@, links.secret->0@, build.id)),
        links.public_url is Some && links.secret is None ==> (e.url matches Some(u) && u@
            == links.public_url->0@ + "/builds/"@ + outside::uuid_text(build.id)),
{
}

/// The lines of artifacts stand in the order of the artifacts, and each of them holds the name of the
/// file, its link and its size.
pub proof fn law_artifact_lines(
    links: Links,
    target: DiscordTarget,
    a: Seq<ArtifactRef>,
    c: Seq<ArtifactRef>,
    one: ArtifactRef,
)
    ensures
        artifact_lines(links, target, a + c) == artifact_lines(links, target, a) + artifact_lines(
            links,
            target,
            c,
        ),
        artifact_lines(links, target, seq![one]) == "\n• ["@ + base_name(one.path@) + "]("@
            + artifact_link(links, target, one) + ") ("@ + numbers::quotient_text(
            one.size as nat,
            1048576,
            2,
        ) + " MB)"@,
    decreases c.len(),
{
    reveal_strlit("");
    let none = seq![one].drop_last();
    assert(none =~= seq![]);
    assert(artifact_lines(links, target, none) =~= ""@);
    assert(artifact_lines(links, target, seq![one]) =~= artifact_line(links, target, one));
    let both = artifact_lines(links, target, a) + artifact_lines(links, target, c);
    if c.len() == 0 {
        assert(a + c =~= a);
        assert(artifact_lines(links, target, a + c) =~= both);
    } else {
        law_artifact_lines(links, target, a, c.drop_last(), one);
        assert((a + c).drop_last() =~= a + c.drop_last());
        assert((a + c).last() == c.last());
        assert(artifact_lines(links, target, a + c) =~= both);
    }
}

/// The line of an artifact leads to the file itself, by a link that everybody may follow, where the
/// target asks for that and there is a secret; otherwise to the address of the artifact, by a signed
/// link where there is a secret.
pub proof fn law_artifact_links(
    base: &str,
    secret: &str,
    target: DiscordTarget,
    a: ArtifactRef,
)
    ensures
        ({
            let signed = Links { public_url: Some(base), secret: Some(secret) };
            let plain = Links { public_url: Some(base), secret: None };
            &&& target.public_artifact_links ==> artifact_link(signed, target, a)
                == auth::artifact_url(base@, secret@, a.path@)
            &&& !target.public_artifact_links ==> artifact_link(signed, target, a)
                == auth::path_url(base@, secret@, a.url@)
            &&& artifact_link(plain, target, a) == base@ + a.url@
        }),
{
}

/// A message lists all artifacts of a finished build, where the target asks for them, and none
/// otherwise.
pub proof fn law_artifacts_listed(
    links: Links,
    project: ProjectConfig,
    target: DiscordTarget,
    build: BuildStatus,
    i: int,
)
    ensures
        target.include_artifacts && 0 <= i < build.artifacts@.len() ==> text::holds_text(
            description_text(links, project, target, build, DiscordEvent::Finished),
            artifact_link(links, target, build.artifacts@[i]),
        ),
        !target.include_artifacts || build.artifacts@.len() == 0 ==> artifacts_part(
            links,
            target,
            build,
        ) == ""@,
{
    broadcast use text::lemma_holds_sum;

    if target.include_artifacts && 0 <= i < build.artifacts@.len() {
        let link = artifact_link(links, target, build.artifacts@[i]);
        lemma_lines_hold(links, target, build.artifacts@, i);
        assert(text::holds_text(artifacts_part(links, target, build), link));
        lemma_description_holds(links, project, target, build, DiscordEvent::Finished, link);
    }
}

/// A message links the changes exactly when the target asks for them, the project has a GitHub name,
/// there is a base address, and the commit is another one than that of the last success; the commit
/// that a step made is named exactly when there is one and the target asks for it; and the error when
/// there is one.
pub proof fn law_what_is_told(
    links: Links,
    project: ProjectConfig,
    target: DiscordTarget,
    build: BuildStatus,
)
    ensures
        changes_part(links, project, target, build).len() > 0 <==> target.include_changes
            && project.github_full_name is Some && links.public_url is Some
            && build.previous_commit is Some && build.commit is Some
            && build.previous_commit->0@ != build.commit->0@,
        docs_part(links, project, target, build).len() > 0 <==> target.include_docs_commit
            && build.docs_commit is Some,
        build.error is None <==> error_part(build).len() == 0,
        build.error matches Some(e) ==> text::holds_text(
            description_text(links, project, target, build, DiscordEvent::Finished),
            "**Error:** "@ + e@,
        ),
{
    broadcast use {text::lemma_holds_self, text::lemma_holds_sum};

    reveal_strlit("");
    reveal_strlit("\n**Changes:** [");
    reveal_strlit("\n**Docs:** [`");
    reveal_strlit("\n**Docs:** `");
    reveal_strlit("\n\n**Error:** ");
    reveal_strlit("**Error:** ");
    reveal_strlit("\n\n");
    if let Some(e) = build.error {
        let part = "**Error:** "@ + e@;
        assert(error_part(build) =~= "\n\n"@ + part);
        assert(text::holds_text("\n\n"@ + part, part));
        lemma_description_holds(links, project, target, build, DiscordEvent::Finished, part);
    }
}

/// The text of the target stands before everything else, with an empty line behind it.
pub proof fn law_custom_message_first(
    links: Links,
    project: ProjectConfig,
    target: DiscordTarget,
    build: BuildStatus,
    event: DiscordEvent,
)
    requires
        target.custom_message is Some,
    ensures
        ({
            let m = target.custom_message->0@;
            let said = description_text(links, project, target, build, event);
            if m.len() > 0 && m.last() == '\n' {
                (m + seq!['\n']).is_prefix_of(said)
            } else {
                (m + seq!['\n', '\n']).is_prefix_of(said)
            }
        }),
{
    let m = target.custom_message->0@;
    let said = description_text(links, project, target, build, event);
    reveal_strlit("\n");
    reveal_strlit("\n\n");
    let c = custom_part(target);
    assert(said.subrange(0, c.len() as int) =~= c);
    assert("\n"@ =~= seq!['\n']);
    assert("\n\n"@ =~= seq!['\n', '\n']);
}

/// The variables of a title are replaced by the project, the number of the build and the word for
/// the event; what else a title holds is left as it is.
pub proof fn law_title_variables(
    a: Seq<char>,
    b: Seq<char>,
    target: DiscordTarget,
    build: BuildStatus,
    event: DiscordEvent,
)
    requires
        target.title is Some,
        !a.contains('{'),
        !b.contains('{'),
        !build.project@.contains('{'),
    ensures
        target.title->0@ == a ==> title_text(target, build, event) == a,
        target.title->0@ == a + "{project}"@ + b ==> title_text(target, build, event) == a
            + build.project@ + b,
        target.title->0@ == a + "{number}"@ + b ==> title_text(target, build, event) == a
            + numbers::decimal(build.number as nat) + b,
        target.title->0@ == a + "{status}"@ + b ==> title_text(target, build, event) == a
            + event_word(event, build.state) + b,
{
    let n = numbers::decimal(build.number as nat);
    let w = event_word(event, build.state);
    let p = build.project@;
    let title = target.title->0@;
    lemma_words_are_plain(event, build.state, build.number);
    if title == a {
        lemma_filled_plain(a, p, n, w);
    }
    if title == a + "{project}"@ + b {
        lemma_filled_project(a, b, p, n, w);
    }
    if title == a + "{number}"@ + b {
        lemma_filled_number(a, b, p, n, w);
    }
    if title == a + "{status}"@ + b {
        lemma_filled_status(a, b, p, n, w);
    }
}

/// A template with its variables replaced one after the other.
spec fn filled(t: Seq<char>, p: Seq<char>, n: Seq<char>, w: Seq<char>) -> Seq<char> {
    text::replaced(
        text::replaced(text::replaced(t, "{project}"@, p), "{number}"@, n),
        "{status}"@,
        w,
    )
}

/// A template without variables is left as it is.
proof fn lemma_filled_plain(a: Seq<char>, p: Seq<char>, n: Seq<char>, w: Seq<char>)
    requires
        !a.contains('{'),
    ensures
        filled(a, p, n, w) == a,
{
    reveal_strlit("{project}");
    reveal_strlit("{number}");
    reveal_strlit("{status}");
    text::law_replaced(a, "{project}"@, seq![], p);
    text::law_replaced(a, "{number}"@, seq![], n);
    text::law_replaced(a, "{status}"@, seq![], w);
}

/// The project is put in its place.
proof fn lemma_filled_project(
    a: Seq<char>,
    b: Seq<char>,
    p: Seq<char>,
    n: Seq<char>,
    w: Seq<char>,
)
    requires
        !a.contains('{'),
        !b.contains('{'),
        !p.contains('{'),
    ensures
        filled(a + "{project}"@ + b, p, n, w) == a + p + b,
{
    reveal_strlit("{project}");
    reveal_strlit("{number}");
    reveal_strlit("{status}");
    let one = a + p + b;
    lemma_no_brace(a, p, b);
    text::law_replaced(a, "{project}"@, b, p);
    text::law_replaced(b, "{project}"@, seq![], p);
    text::law_replaced(one, "{number}"@, seq![], n);
    text::law_replaced(one, "{status}"@, seq![], w);
}

/// The number is put in its place.
proof fn lemma_filled_number(
    a: Seq<char>,
    b: Seq<char>,
    p: Seq<char>,
    n: Seq<char>,
    w: Seq<char>,
)
    requires
        !a.contains('{'),
        !b.contains('{'),
        !n.contains('{'),
    ensures
        filled(a + "{number}"@ + b, p, n, w) == a + n + b,
{
    reveal_strlit("{project}");
    reveal_strlit("{number}");
    reveal_strlit("{status}");
    let two = a + n + b;
    lemma_no_brace(a, n, b);
    lemma_other_variable(a, "{number}"@, b, "{project}"@, p);
    text::law_replaced(a, "{number}"@, b, n);
    text::law_replaced(b, "{number}"@, seq![], n);
    text::law_replaced(two, "{status}"@, seq![], w);
}

/// The word for the event is put in its place.
proof fn lemma_filled_status(
    a: Seq<char>,
    b: Seq<char>,
    p: Seq<char>,
    n: Seq<char>,
    w: Seq<char>,
)
    requires
        !a.contains('{'),
        !b.contains('{'),
    ensures
        filled(a + "{status}"@ + b, p, n, w) == a + w + b,
{
    reveal_strlit("{project}");
    reveal_strlit("{number}");
    reveal_strlit("{status}");
    lemma_other_variable(a, "{status}"@, b, "{project}"@, p);
    lemma_other_variable(a, "{status}"@, b, "{number}"@, n);
    text::law_replaced(a, "{status}"@, b, w);
    text::law_replaced(b, "{status}"@, seq![], w);
}

/// Texts without an opening brace, one behind the other, have none.
proof fn lemma_no_brace(a: Seq<char>, m: Seq<char>, b: Seq<char>)
    requires
        !a.contains('{'),
        !m.contains('{'),
        !b.contains('{'),
    ensures
        !(a + m + b).contains('{'),
{
    let s = a + m + b;
    if s.contains('{') {
        let k = choose|k: int| 0 <= k < s.len() && s[k] == '{';
        if k < a.len() {
            assert(a[k] == '{');
        } else if k < a.len() + m.len() {
            assert(m[k - a.len()] == '{');
        } else {
            assert(b[k - a.len() - m.len()] == '{');
        }
    }
}

/// Numerals and the words for events hold no brace.
proof fn lemma_words_are_plain(event: DiscordEvent, state: BuildState, number: u64)
    ensures
        !numbers::decimal(number as nat).contains('{'),
        !event_word(event, state).contains('{'),
{
    let n = numbers::decimal(number as nat);
    numbers::lemma_decimal_digits(number as nat);
    if n.contains('{') {
        let k = choose|k: int| 0 <= k < n.len() && n[k] == '{';
        assert(numbers::is_digit(n[k]));
    }
    reveal_strlit("pending");
    reveal_strlit("started");
    reveal_strlit("succeeded");
    reveal_strlit("failed");
    reveal_strlit("canceled");
    reveal_strlit("finished");
}

/// A variable is not found where another one stands.
proof fn lemma_other_variable(
    a: Seq<char>,
    other: Seq<char>,
    b: Seq<char>,
    p: Seq<char>,
    r: Seq<char>,
)
    requires
        !a.contains('{'),
        !b.contains('{'),
        p.len() > 1,
        other.len() > 1,
        p[0] == '{',
        other[0] == '{',
        p[1] != other[1],
        forall|k: int| 1 <= k < other.len() ==> other[k] != '{',
    ensures
        text::replaced(a + other + b, p, r) == a + other + b,
{
    let s = a + other + b;
    let i = a.len() as int;
    text::lemma_find_text(s, p);
    if let Some(k) = text::find_text(s, p) {
        assert(s.subrange(k, k + p.len())[0] == p[0]);
        assert(s.subrange(k, k + p.len())[1] == p[1]);
        assert(s[k] == '{');
        if k < i {
            assert(a[k] == '{');
        } else if k >= i + other.len() {
            assert(b[k - i - other.len()] == '{');
        } else {
            assert(other[k - i] == '{');
            assert(k == i);
            assert(s[k + 1] == other[1]);
        }
    }
}

/// Without a title of its own, a target is told as if its title were the project, the number of the
/// build behind `#`, and the word for the event.
pub proof fn law_default_title(
    target: DiscordTarget,
    with: DiscordTarget,
    build: BuildStatus,
    event: DiscordEvent,
)
    requires
        target.title is None,
        with.title matches Some(t) && t@ == (match event {
            DiscordEvent::Queued => "{project} #{number} pending"@,
            DiscordEvent::Started => "{project} #{number} started"@,
            DiscordEvent::Finished => "{project} #{number} {status}"@,
        }),
    ensures
        title_text(target, build, event) == title_text(with, build, event),
{
}

/// The words and the colours for what happened.
pub proof fn law_words_and_colours(state: BuildState)
    ensures
        event_word(DiscordEvent::Queued, state) == "pending"@,
        event_word(DiscordEvent::Started, state) == "started"@,
        event_word(DiscordEvent::Finished, BuildState::Success) == "succeeded"@,
        event_word(DiscordEvent::Finished, BuildState::Failed) == "failed"@,
        event_word(DiscordEvent::Finished, BuildState::Canceled) == "canceled"@,
        event_color(DiscordEvent::Queued, state) == 0xD29922,
        event_color(DiscordEvent::Started, state) == 0x6CB6FF,
        event_color(DiscordEvent::Finished, BuildState::Success) == 0x3FB950,
        event_color(DiscordEvent::Finished, BuildState::Failed) == 0xF85149,
        event_color(DiscordEvent::Finished, BuildState::Canceled) == 0xD29922,
{
}

/// A message tells when its event took place: a finished build when it finished, and any other when
/// it began.
pub proof fn law_message_time(build: BuildStatus, event: DiscordEvent)
    ensures
        event == DiscordEvent::Finished && build.finished_at is Some ==> event_time(build, event)
            == build.finished_at->0.rfc_text(),
        event != DiscordEvent::Finished || build.finished_at is None ==> event_time(build, event)
            == build.started_at.rfc_text(),
{
}

/// A target that asks for failures hears of every end, and every target hears of what waits and of
/// what begins.
pub proof fn law_who_hears(target: DiscordTarget, build: BuildStatus, event: DiscordEvent)
    ensures
        event == DiscordEvent::Queued || event == DiscordEvent::Started ==> wants(
            target,
            build,
            event,
        ),
        target.on_failure ==> wants(target, build, event),
        build.state == BuildState::Success ==> wants(target, build, event),
{
}

/// Messages are posted to the address of the target, in its thread where it names one.
pub proof fn law_where_messages_go(target: DiscordTarget)
    ensures
        (target.url@ + "?"@).is_prefix_of(post_url(target)),
        target.thread_id matches Some(t) ==> text::holds_text(
            post_url(target),
            "?thread_id="@ + t@ + "&"@,
        ),
        "wait=true"@.is_suffix_of(post_url(target)),
{
    broadcast use {text::lemma_holds_self, text::lemma_holds_sum};

    reveal_strlit("?");
    reveal_strlit("&");
    reveal_strlit("wait=true");
    reveal_strlit("?thread_id=");
    reveal_strlit("&wait=true");
    reveal_strlit("?wait=true");
    let p = post_url(target);
    let front = target.url@ + "?"@;
    assert(p.subrange(0, front.len() as int) =~= front);
    assert(p.subrange(p.len() - 9, p.len() as int) =~= "wait=true"@);
    if let Some(t) = target.thread_id {
        let part = "?thread_id="@ + t@ + "&"@;
        assert(p =~= target.url@ + part + "wait=true"@);
        assert(text::holds_text(target.url@ + part + "wait=true"@, part));
    }
}

/// An artifact is named by what follows the last slash of its path.
pub proof fn law_artifact_name(dir: Seq<char>, name: Seq<char>)
    requires
        !name.contains('/'),
    ensures
        base_name(dir + seq!['/'] + name) == name,
        base_name(name) == name,
{
    text::law_split_at_last(dir, '/', name);
}

/// Commits are shown by their first seven characters, and a question mark stands for none.
pub proof fn law_short_commits(build: BuildStatus, c: Seq<char>)
    ensures
        c.len() >= 7 ==> short_commit(c) == c.subrange(0, 7),
        c.len() < 7 ==> short_commit(c) == c,
        build.commit matches Some(s) ==> short_commit_of(build) == short_commit(s@),
        build.commit is None ==> short_commit_of(build) == "?"@,
{
    if c.len() >= 7 {
        assert(c.take(7) =~= c.subrange(0, 7));
        assert(c.len() == 7 ==> c =~= c.subrange(0, 7));
    }
}

/// The text of the target changes nothing of what follows it: the rest of the message is the whole
/// message of a target without a text.
pub proof fn law_custom_message_apart(
    links: Links,
    project: ProjectConfig,
    target: DiscordTarget,
    bare: DiscordTarget,
    build: BuildStatus,
    event: DiscordEvent,
)
    requires
        target.custom_message is Some,
        bare == (DiscordTarget { custom_message: None, ..target }),
    ensures
        ({
            let m = target.custom_message->0@;
            let rest = description_text(links, project, bare, build, event);
            let behind = if m.len() > 0 && m.last() == '\n' {
                seq!['\n']
            } else {
                seq!['\n', '\n']
            };
            description_text(links, project, target, build, event) == m + behind + rest
        }),
{
    reveal_strlit("\n");
    reveal_strlit("\n\n");
    reveal_strlit("");
    let m = target.custom_message->0@;
    let one = description_text(links, project, target, build, event);
    let rest = description_text(links, project, bare, build, event);
    assert(custom_part(bare) == ""@);
    assert(changes_part(links, project, target, build) == changes_part(links, project, bare, build));
    assert(docs_part(links, project, target, build) == docs_part(links, project, bare, build));
    lemma_lines_same(links, target, bare, build.artifacts@);
    assert(artifacts_part(links, target, build) == artifacts_part(links, bare, build));
    let front = custom_part(target);
    let build_line = build_part(links, build.id, event);
    let commit_line = commit_part(links, project, build);
    assert(""@ + build_line =~= build_line);
    text::lemma_grouped(front, build_line, commit_line);
    let head = build_line + commit_line;
    match event {
        DiscordEvent::Queued => {
            text::lemma_grouped(front, head, "\n**State:** waiting for another build to finish"@);
        },
        DiscordEvent::Started => {
            text::lemma_grouped(front, head, "\n**State:** build is running"@);
        },
        DiscordEvent::Finished => {
            let changes = changes_part(links, project, target, build);
            let docs = docs_part(links, project, target, build);
            text::lemma_grouped(front, head, changes);
            text::lemma_grouped(front, head + changes, docs);
            text::lemma_grouped(front, head + changes + docs, error_part(build));
            text::lemma_grouped(
                front,
                head + changes + docs + error_part(build),
                artifacts_part(links, target, build),
            );
        },
    }
    assert(one == front + rest);
    assert("\n"@ =~= seq!['\n']);
    assert("\n\n"@ =~= seq!['\n', '\n']);
}

/// The lines of artifacts depend on a target only by whether its links are public.
proof fn lemma_lines_same(
    links: Links,
    a: DiscordTarget,
    b: DiscordTarget,
    artifacts: Seq<ArtifactRef>,
)
    requires
        a.public_artifact_links == b.public_artifact_links,
    ensures
        artifact_lines(links, a, artifacts) == artifact_lines(links, b, artifacts),
    decreases artifacts.len(),
{
    if artifacts.len() > 0 {
        lemma_lines_same(links, a, b, artifacts.drop_last());
    }
}

/// Whether `res` are the messages about an event of a build: one for each target that wants it, in
/// the order of the targets.
pub open spec fn delivers(
    res: Seq<Delivery>,
    links: Links,
    project: ProjectConfig,
    build: BuildStatus,
    event: DiscordEvent,
) -> bool {
    let told = project.notify.discord@.filter(|t: DiscordTarget| wants(t, build, event));
    &&& res.len() == told.len()
    &&& forall|i: int|
        #![trigger res[i]]
        0 <= i < told.len() ==> res[i].url@ == post_url(told[i]) && tells(
            res[i].embed,
            links,
            project,
            told[i],
            build,
            event,
        )
}

/// Where every target wants to hear of an event each gets its message, in their order; where none
/// does there is no message. That a build is queued, begins or succeeds is told to all.
pub proof fn law_all_who_want_hear(
    res: Seq<Delivery>,
    links: Links,
    project: ProjectConfig,
    build: BuildStatus,
    event: DiscordEvent,
)
    requires
        delivers(res, links, project, build, event),
    ensures
        ({
            let targets = project.notify.discord@;
            let all = event != DiscordEvent::Finished || build.state == BuildState::Success
                || forall|i: int| 0 <= i < targets.len() ==> (#[trigger] targets[i]).on_failure;
            let quiet = event == DiscordEvent::Finished && build.state != BuildState::Success
                && forall|i: int| 0 <= i < targets.len() ==> !(#[trigger] targets[i]).on_failure;
            &&& all ==> res.len() == targets.len() && forall|i: int|
                #![trigger res[i]]
                0 <= i < res.len() ==> res[i].url@ == post_url(targets[i]) && tells(
                    res[i].embed,
                    links,
                    project,
                    targets[i],
                    build,
                    event,
                )
            &&& quiet ==> res.len() == 0
        }),
{
    let targets = project.notify.discord@;
    let p = |t: DiscordTarget| wants(t, build, event);
    lemma_filter_ends(targets, p);
    let all = event != DiscordEvent::Finished || build.state == BuildState::Success || forall|i: int|
        0 <= i < targets.len() ==> (#[trigger] targets[i]).on_failure;
    if all {
        assert forall|i: int| 0 <= i < targets.len() implies p(#[trigger] targets[i]) by {}
        assert(targets.filter(p) == targets);
    }
    let quiet = event == DiscordEvent::Finished && build.state != BuildState::Success
        && forall|i: int| 0 <= i < targets.len() ==> !(#[trigger] targets[i]).on_failure;
    if quiet {
        assert forall|i: int| 0 <= i < targets.len() implies !p(#[trigger] targets[i]) by {}
        assert(targets.filter(p).len() == 0);
    }
}

/// What is left of a list where all of it is kept, and where nothing is.
proof fn lemma_filter_ends<T>(s: Seq<T>, p: spec_fn(T) -> bool)
    ensures
        (forall|i: int| 0 <= i < s.len() ==> p(#[trigger] s[i])) ==> s.filter(p) == s,
        (forall|i: int| 0 <= i < s.len() ==> !p(#[trigger] s[i])) ==> s.filter(p).len() == 0,
    decreases s.len(),
{
    reveal(Seq::filter);
    if s.len() > 0 {
        let up = s.drop_last();
        lemma_filter_ends(up, p);
        assert(s =~= up.push(s.last()));
        assert forall|i: int| 0 <= i < up.len() implies #[trigger] up[i] == s[i] by {}
        if forall|i: int| 0 <= i < s.len() ==> p(#[trigger] s[i]) {
            assert(p(s[s.len() - 1]));
            assert(forall|i: int| 0 <= i < up.len() ==> p(#[trigger] up[i]));
        }
        if forall|i: int| 0 <= i < s.len() ==> !p(#[trigger] s[i]) {
            assert(!p(s[s.len() - 1]));
            assert(forall|i: int| 0 <= i < up.len() ==> !p(#[trigger] up[i]));
        }
    } else {
        assert(s.filter(p) =~= s);
    }
}

} // verus!
