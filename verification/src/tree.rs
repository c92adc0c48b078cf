//! The directories that are served as files: artifacts, and the Maven repository.

use crate::artifacts;
use crate::auth::{self, Principal, Viewer};
use crate::config::{Config, ProjectConfig};
use crate::error::{FORBIDDEN, NOT_FOUND, UNAUTHORIZED};
use crate::html::{self, html_escape, page};
use crate::list;
use crate::numbers;
use crate::outside;
use crate::paths;
use crate::request::{Headers, Target};
use crate::state;
use crate::text::{self, CharClass};
use crate::time::Timestamp;
use crate::views::Answer;
use vstd::prelude::*;
use vstd::utf8::encode_utf8;

verus! {

/// What a request for a file leads to.
#[derive(Debug, Clone)]
pub enum TreeAction {
    /// Answer this.
    Reply(Answer),
    /// List the projects that have artifacts.
    ListRoot,
    /// Serve what lies at the path under `root`.
    Serve { root: String, prefix: &'static str, listing: bool },
}

impl TreeAction {
    /// Whether this is an answer of plain text.
    pub open spec fn replies(self, status: u16, message: Seq<char>) -> bool {
        self matches TreeAction::Reply(a) && a.is_plain(status, message)
    }

    /// Whether this serves the tree under `root`.
    pub open spec fn serves(self, root: Seq<char>, prefix: Seq<char>, listing: bool) -> bool {
        self matches TreeAction::Serve { root: r, prefix: p, listing: l } && r@ == root && p@
            == prefix && l == listing
    }

    /// Whether this hides what was asked for.
    pub open spec fn hides(self) -> bool {
        self matches TreeAction::Reply(Answer::Refused(e)) && e.is(NOT_FOUND, "not found"@)
    }
}

// ---------------------------------------------------------------------------------------------
// Paths in requests
// ---------------------------------------------------------------------------------------------
/// What follows the prefix of a tree in a path, without slashes at its start.
pub open spec fn rel_path(prefix: Seq<char>, raw: Seq<char>) -> Seq<char> {
    match text::without_prefix(raw, prefix) {
        Some(rest) => text::trim_front(rest, CharClass::Slash),
        None => ""@,
    }
}

/// What follows the prefix of a tree in a path, without slashes at its start.
pub fn tree_rel_path<'a>(prefix: &str, raw: &'a str) -> (res: &'a str)
    ensures
        res@ == rel_path(prefix@, raw@),
{
    match text::strip_prefix(raw, prefix) {
        Some(rest) => text::trim_start(rest, CharClass::Slash),
        None => "",
    }
}

/// The segments of a path in a tree.
pub open spec fn segments(rel: Seq<char>) -> Seq<Seq<char>> {
    text::split(text::trim_back(rel, CharClass::Slash), '/')
}

/// Whether a segment of a path names an entry of a directory.
pub open spec fn plain_segment(s: Seq<char>) -> bool {
    s.len() > 0 && s != "."@ && s != ".."@
}

/// Whether all segments of a path name entries of directories.
pub open spec fn plain_segments(parts: Seq<Seq<char>>) -> bool {
    forall|i: int| 0 <= i < parts.len() ==> plain_segment(#[trigger] parts[i])
}

/// The path of the given segments under `root`.
pub open spec fn descend(root: Seq<char>, parts: Seq<Seq<char>>) -> Seq<char>
    decreases parts.len(),
{
    if parts.len() == 0 {
        root
    } else {
        paths::joined(descend(root, parts.drop_last()), parts.last())
    }
}

/// Where a path in a tree leads to. Nowhere, where a segment is empty, `.` or `..`.
pub open spec fn resolved(root: Seq<char>, rel: Seq<char>) -> Option<Seq<char>> {
    if rel.len() == 0 {
        Some(root)
    } else if plain_segments(segments(rel)) {
        Some(descend(root, segments(rel)))
    } else {
        None
    }
}

/// Where a path in a tree leads to.
pub fn resolve(root: &str, rel: &str) -> (res: Option<String>)
    ensures
        text::opt_text(res) == resolved(root@, rel@),
{
    if rel.is_empty() {
        return Some(root.to_owned());
    }
    let parts = text::split_on(text::trim_end(rel, CharClass::Slash), '/');
    let ghost all = segments(rel@);
    let mut path = root.to_owned();
    let mut i: usize = 0;
    assert(all.take(0) =~= seq![]);
    while i < parts.len()
        invariant
            i <= parts@.len(),
            rel@.len() > 0,
            all == segments(rel@),
            all == text::slices(parts@),
            forall|k: int| 0 <= k < i ==> plain_segment(#[trigger] all[k]),
            path@ == descend(root@, all.take(i as int)),
        decreases parts@.len() - i,
    {
        let part = parts[i];
        assert(all[i as int] == part@);
        if part.is_empty() || text::same(part, ".") || text::same(part, "..") {
            assert(!plain_segment(all[i as int]));
            return None;
        }
        proof {
            assert(all.take(i + 1).drop_last() =~= all.take(i as int));
        }
        path = paths::join(path.as_str(), part);
        i = i + 1;
    }
    assert(all.take(i as int) =~= all);
    Some(path)
}

// ---------------------------------------------------------------------------------------------
// Who may ask for what
// ---------------------------------------------------------------------------------------------
/// What a request under `/artifacts/` leads to: the first segment names the project, which the
/// request must be allowed to see, or whose page it must bear the token of.
pub fn artifacts_handler(config: &Config, headers: &Headers, target: &Target) -> (res: TreeAction)
    ensures
        answers_artifacts(res, *config, auth::sender(*headers, *config), *target),
{
    let rel = tree_rel_path("/artifacts", target.path.as_str());
    let parts = text::split_on(rel, '/');
    assert(text::slices(parts@)[0] == parts@[0]@);
    let name = parts[0];
    if name.is_empty() {
        return TreeAction::ListRoot;
    }
    let project = match config.project(name) {
        Some(p) => p,
        None => {
            return TreeAction::Reply(Answer::Plain { status: NOT_FOUND, message: "not found" });
        },
    };
    let principal = auth::authenticate(headers, config);
    match auth::require_project_or_public_path_access(
        principal.as_ref(),
        project,
        text::as_slice(&config.auth.public_link_secret),
        target,
    ) {
        Ok(_) => TreeAction::Serve {
            root: config.storage.artifacts_dir.clone(),
            prefix: "/artifacts",
            listing: true,
        },
        Err(e) => TreeAction::Reply(Answer::Refused(e)),
    }
}

/// Whether `res` is the right answer to a request under `/public/artifacts/`: everybody may fetch
/// the one file whose token the request bears, and no directory.
pub open spec fn answers_public(res: TreeAction, config: Config, target: Target) -> bool {
    let rel = rel_path("/public/artifacts"@, target.path@);
    if rel.len() == 0 || rel.last() == '/' {
        res.replies(NOT_FOUND, "not found"@)
    } else {
        match auth::param(text::opt_text(target.query), "token"@) {
            None => res.replies(UNAUTHORIZED, "missing token"@),
            Some(t) => if auth::artifact_token_valid(
                text::opt_text(config.auth.public_link_secret),
                rel,
                t,
            ) {
                res.serves(config.storage.artifacts_dir@, "/public/artifacts"@, false)
            } else {
                res.replies(FORBIDDEN, "bad token"@)
            },
        }
    }
}

/// What a request under `/public/artifacts/` leads to: everybody may fetch the one file whose
/// token the request bears.
pub fn public_artifact_handler(config: &Config, target: &Target) -> (res: TreeAction)
    ensures
        answers_public(res, *config, *target),
{
    let rel = tree_rel_path("/public/artifacts", target.path.as_str());
    let v = text::chars_of(rel);
    if v.len() == 0 || v[v.len() - 1] == '/' {
        return TreeAction::Reply(Answer::Plain { status: NOT_FOUND, message: "not found" });
    }
    let token = match auth::query_param(text::as_slice(&target.query), "token") {
        Some(t) => t,
        None => {
            return TreeAction::Reply(
                Answer::Plain { status: UNAUTHORIZED, message: "missing token" },
            );
        },
    };
    if !auth::verify_public_artifact_token(
        text::as_slice(&config.auth.public_link_secret),
        rel,
        token,
    ) {
        return TreeAction::Reply(Answer::Plain { status: FORBIDDEN, message: "bad token" });
    }
    TreeAction::Serve {
        root: config.storage.artifacts_dir.clone(),
        prefix: "/public/artifacts",
        listing: false,
    }
}

/// Whether a project owns what lies at a path of the Maven repository: one of its artifact
/// identifiers is a segment of the path.
pub open spec fn owns(project: ProjectConfig, rel: Seq<char>) -> bool {
    let parts = text::split(text::trimmed(rel, CharClass::Slash), '/');
    exists|i: int, j: int|
        {
            &&& 0 <= i < project.maven.artifacts@.len()
            &&& 0 <= j < parts.len()
            &&& (#[trigger] parts[j]).len() > 0
            &&& (#[trigger] project.maven.artifacts@[i])@ == parts[j]
        }
}

/// The first project that owns what lies at a path of the Maven repository.
pub open spec fn maven_owner(config: Config, rel: Seq<char>) -> Option<ProjectConfig> {
    list::find_first(config.projects@, |p: ProjectConfig| owns(p, rel))
}

/// Whether a project owns what lies at a path of the given segments.
fn is_owner(project: &ProjectConfig, rel: &str) -> (res: bool)
    ensures
        res == owns(*project, rel@),
{
    let parts = text::split_on(text::trim(rel, CharClass::Slash), '/');
    let ghost all = text::split(text::trimmed(rel@, CharClass::Slash), '/');
    let artifacts = &project.maven.artifacts;
    let mut i: usize = 0;
    while i < artifacts.len()
        invariant
            i <= artifacts@.len(),
            artifacts == &project.maven.artifacts,
            all == text::slices(parts@),
            all == text::split(text::trimmed(rel@, CharClass::Slash), '/'),
            forall|k: int, j: int|
                0 <= k < i && 0 <= j < all.len() && (#[trigger] all[j]).len() > 0 ==> (
                #[trigger] artifacts@[k])@ != all[j],
        decreases artifacts@.len() - i,
    {
        let mut j: usize = 0;
        while j < parts.len()
            invariant
                i < artifacts@.len(),
                j <= parts@.len(),
                artifacts == &project.maven.artifacts,
                all == text::slices(parts@),
                all == text::split(text::trimmed(rel@, CharClass::Slash), '/'),
                forall|m: int|
                    0 <= m < j && (#[trigger] all[m]).len() > 0 ==> artifacts@[i as int]@
                        != all[m],
            decreases parts@.len() - j,
        {
            assert(all[j as int] == parts@[j as int]@);
            if !parts[j].is_empty() && text::same(artifacts[i].as_str(), parts[j]) {
                assert(artifacts@[i as int]@ == all[j as int]);
                return true;
            }
            j = j + 1;
        }
        i = i + 1;
    }
    false
}

/// The first project that owns what lies at a path of the Maven repository.
pub fn maven_project_for_path<'a>(config: &'a Config, rel: &str) -> (res: Option<
    &'a ProjectConfig,
>)
    ensures
        match res {
            Some(p) => maven_owner(*config, rel@) == Some(*p),
            None => maven_owner(*config, rel@) is None,
        },
{
    let ghost cond = |p: ProjectConfig| owns(p, rel@);
    let mut i: usize = 0;
    assert(config.projects@.skip(0) =~= config.projects@);
    while i < config.projects.len()
        invariant
            i <= config.projects@.len(),
            cond == (|p: ProjectConfig| owns(p, rel@)),
            maven_owner(*config, rel@) == list::find_first(config.projects@.skip(i as int), cond),
        decreases config.projects@.len() - i,
    {
        proof {
            list::lemma_find_first_step(config.projects@, cond, i as int);
        }
        if is_owner(&config.projects[i], rel) {
            return Some(&config.projects[i]);
        }
        i = i + 1;
    }
    None
}

/// What a request under `/maven/` leads to: what a project owns is served to those who may fetch
/// that project's artifacts, and everything else to everybody.
pub fn maven_handler(config: &Config, headers: &Headers, target: &Target) -> (res: TreeAction)
    ensures
        answers_maven(res, *config, auth::sender(*headers, *config), *target),
{
    let root = match &config.maven.repo_dir {
        Some(r) => r.clone(),
        None => {
            return TreeAction::Reply(
                Answer::Plain { status: NOT_FOUND, message: "maven repo not configured" },
            );
        },
    };
    let rel = tree_rel_path("/maven", target.path.as_str());
    if let Some(project) = maven_project_for_path(config, rel) {
        let principal = auth::authenticate(headers, config);
        match auth::require_project_maven_access(principal.as_ref(), project) {
            Ok(_) => {},
            Err(e) => {
                return TreeAction::Reply(Answer::Refused(e));
            },
        }
    }
    TreeAction::Serve { root, prefix: "/maven", listing: false }
}

// ---------------------------------------------------------------------------------------------
// What lies there
// ---------------------------------------------------------------------------------------------
/// What a path leads to.
#[derive(Debug, Clone, Copy, PartialEq, Eq, Structural)]
pub enum FileKind {
    File,
    Directory,
    Other,
}

/// How what lies at a path is answered.
#[derive(Debug, Clone)]
pub enum TreeAnswer {
    NotFound,
    /// Send the file.
    Send,
    /// Ask for this path instead, for ever.
    Moved(String),
    /// List the directory.
    List,
}

/// How what lies at a path is answered. `canonical` is where the path leads to when links are
/// followed, `canonical_root` is where the root of the tree does; what lies outside of the root is
/// not shown.
pub fn serve_tree(
    canonical_root: &str,
    canonical: &str,
    kind: FileKind,
    listing: bool,
    raw_path: &str,
) -> (res: TreeAnswer)
    ensures
        answers_entry(res, canonical_root@, canonical@, kind, listing, raw_path@),
{
    if !paths::within(canonical, canonical_root) {
        return TreeAnswer::NotFound;
    }
    match kind {
        FileKind::File => TreeAnswer::Send,
        FileKind::Other => TreeAnswer::NotFound,
        FileKind::Directory => {
            if !listing {
                return TreeAnswer::NotFound;
            }
            let v = text::chars_of(raw_path);
            if v.len() > 0 && v[v.len() - 1] == '/' {
                TreeAnswer::List
            } else {
                let mut to = raw_path.to_owned();
                to.append("/");
                TreeAnswer::Moved(to)
            }
        },
    }
}

/// The media type of a file with the given extension.
pub open spec fn media_type(ext: Option<Seq<char>>) -> Seq<char> {
    match ext {
        None => "application/octet-stream"@,
        Some(e) => {
            let l = text::ascii_lower(e);
            if l == "jar"@ {
                "application/java-archive"@
            } else if l == "zip"@ {
                "application/zip"@
            } else if l == "html"@ || l == "htm"@ {
                "text/html; charset=utf-8"@
            } else if l == "json"@ {
                "application/json"@
            } else if l == "log"@ || l == "txt"@ {
                "text/plain; charset=utf-8"@
            } else if l == "xml"@ {
                "application/xml"@
            } else if l == "css"@ {
                "text/css"@
            } else if l == "js"@ {
                "application/javascript"@
            } else if l == "png"@ {
                "image/png"@
            } else if l == "jpg"@ || l == "jpeg"@ {
                "image/jpeg"@
            } else if l == "svg"@ {
                "image/svg+xml"@
            } else {
                "application/octet-stream"@
            }
        },
    }
}

/// The media type of a file.
pub fn mime_for(path: &str) -> (res: &'static str)
    ensures
        res@ == media_type(paths::extension_of(path@)),
{
    let lower = match paths::extension(path) {
        Some(e) => text::to_ascii_lower(e),
        None => {
            return "application/octet-stream";
        },
    };
    let l = lower.as_str();
    if text::same(l, "jar") {
        "application/java-archive"
    } else if text::same(l, "zip") {
        "application/zip"
    } else if text::same(l, "html") || text::same(l, "htm") {
        "text/html; charset=utf-8"
    } else if text::same(l, "json") {
        "application/json"
    } else if text::same(l, "log") || text::same(l, "txt") {
        "text/plain; charset=utf-8"
    } else if text::same(l, "xml") {
        "application/xml"
    } else if text::same(l, "css") {
        "text/css"
    } else if text::same(l, "js") {
        "application/javascript"
    } else if text::same(l, "png") {
        "image/png"
    } else if text::same(l, "jpg") || text::same(l, "jpeg") {
        "image/jpeg"
    } else if text::same(l, "svg") {
        "image/svg+xml"
    } else {
        "application/octet-stream"
    }
}

// ---------------------------------------------------------------------------------------------
// Listings
// ---------------------------------------------------------------------------------------------
/// An entry of a directory. Size and kind are those of what a link leads to.
#[derive(Debug, Clone)]
pub struct DirItem {
    pub name: String,
    pub is_dir: bool,
    pub size: u64,
    pub modified: Option<Timestamp>,
}

/// Where an entry of a directory leads to.
#[derive(Debug, Clone)]
pub enum EntryLink {
    /// It is no link.
    Plain,
    /// It is a link that leads here when links are followed.
    To(String),
    /// It is a link that leads nowhere.
    Broken,
}

/// Whether an entry is listed: it is not hidden, and it is no link that leads out of the tree.
pub fn lists_entry(name: &str, link: &EntryLink, canonical_root: &str) -> (res: bool)
    ensures
        res == is_listed(name@, *link, canonical_root@),
{
    let v = text::chars_of(name);
    if v.len() > 0 && v[0] == '.' {
        return false;
    }
    match link {
        EntryLink::Plain => true,
        EntryLink::To(p) => paths::within(p.as_str(), canonical_root),
        EntryLink::Broken => false,
    }
}

/// Whether one time of modification is newer than another; a known one is newer than an unknown.
pub open spec fn newer(a: Option<Timestamp>, b: Option<Timestamp>) -> bool {
    match (a, b) {
        (Some(x), Some(y)) => x.later(y),
        (Some(_), None) => true,
        (None, _) => false,
    }
}

/// Whether an entry is the link to the latest build.
pub open spec fn is_latest(a: DirItem) -> bool {
    a.name@ == "latest"@
}

/// Whether one entry is listed before another: the link to the latest build before all, then what
/// was modified last, then directories, then by name.
pub open spec fn listed_before(a: DirItem, b: DirItem) -> bool {
    if is_latest(a) != is_latest(b) {
        is_latest(a)
    } else if newer(a.modified, b.modified) || newer(b.modified, a.modified) {
        newer(a.modified, b.modified)
    } else if a.is_dir != b.is_dir {
        a.is_dir
    } else {
        text::text_before(a.name@, b.name@)
    }
}

/// Whether no entry of `v` is to be listed before one that stands before it.
pub open spec fn in_order(v: Seq<DirItem>) -> bool {
    forall|i: int, j: int| 0 <= i < j < v.len() ==> !listed_before(v[j], v[i])
}

/// Whether one time of modification is newer than another.
fn is_newer(a: &Option<Timestamp>, b: &Option<Timestamp>) -> (res: bool)
    ensures
        res == newer(*a, *b),
{
    match (a, b) {
        (Some(x), Some(y)) => x.is_later(y),
        (Some(_), None) => true,
        (None, _) => false,
    }
}

/// Whether one entry is listed before another.
fn goes_before(a: &DirItem, b: &DirItem) -> (res: bool)
    ensures
        res == listed_before(*a, *b),
{
    let a_latest = text::same(a.name.as_str(), "latest");
    let b_latest = text::same(b.name.as_str(), "latest");
    if a_latest != b_latest {
        return a_latest;
    }
    if is_newer(&a.modified, &b.modified) {
        return true;
    }
    if is_newer(&b.modified, &a.modified) {
        return false;
    }
    if a.is_dir != b.is_dir {
        return a.is_dir;
    }
    text::before(a.name.as_str(), b.name.as_str())
}

/// Of two entries of different names one is listed before the other, and never both.
pub proof fn law_listing_order_total(a: DirItem, b: DirItem)
    ensures
        !(listed_before(a, b) && listed_before(b, a)),
        a.name@ != b.name@ ==> listed_before(a, b) || listed_before(b, a),
{
    text::lemma_text_before_total(a.name@, b.name@);
}

/// The order of a listing is transitive: what is before `b` is before all that is not before `b`.
pub proof fn law_listing_order_transitive(a: DirItem, b: DirItem, c: DirItem)
    requires
        listed_before(a, b),
        !listed_before(c, b),
    ensures
        listed_before(a, c),
{
    text::lemma_text_before_total(c.name@, b.name@);
    text::lemma_text_before_total(a.name@, b.name@);
    if text::text_before(a.name@, b.name@) && text::text_before(b.name@, c.name@) {
        text::lemma_text_before_transitive(a.name@, b.name@, c.name@);
    }
}

/// An entry put before the first one that it is before keeps the order.
proof fn lemma_in_order_insert(v: Seq<DirItem>, p: int, x: DirItem)
    requires
        in_order(v),
        0 <= p <= v.len(),
        forall|k: int| 0 <= k < p ==> !listed_before(x, #[trigger] v[k]),
        p < v.len() ==> listed_before(x, v[p]),
    ensures
        in_order(v.insert(p, x)),
        v.insert(p, x).to_multiset() == v.to_multiset().insert(x),
{
    let w = v.insert(p, x);
    assert forall|i: int, j: int| 0 <= i < j < w.len() implies !listed_before(w[j], w[i]) by {
        if j == p {
            assert(w[i] == v[i]);
        } else if i == p {
            assert(w[j] == v[j - 1]);
            if p < j - 1 {
                assert(!listed_before(v[j - 1], v[p]));
                law_listing_order_transitive(x, v[p], v[j - 1]);
            }
            law_listing_order_total(x, v[j - 1]);
        } else if j < p {
            assert(!listed_before(v[j], v[i]));
        } else if i < p {
            assert(!listed_before(v[j - 1], v[i]));
        } else {
            assert(!listed_before(v[j - 1], v[i - 1]));
        }
    }
    w.to_multiset_ensures();
    assert(w.remove(p) =~= v);
    assert(w[p] == x);
    assert(w.contains(x));
    assert(w.to_multiset() =~= v.to_multiset().insert(x));
}

/// The entries in the order of a listing.
pub fn sort_items(items: Vec<DirItem>) -> (res: Vec<DirItem>)
    ensures
        in_order(res@),
        res@.to_multiset() == items@.to_multiset(),
{
    let ghost all = items@;
    let mut out: Vec<DirItem> = Vec::new();
    proof {
        assert(all.take(0) =~= seq![]);
        assert(all.take(all.len() as int) =~= all);
    }
    for x in it: items
        invariant
            it.seq() == all,
            in_order(out@),
            out@.to_multiset() == all.take(it.index()).to_multiset(),
            it.index() == all.len() ==> out@.to_multiset() == all.to_multiset(),
    {
        let mut p: usize = 0;
        while p < out.len() && !goes_before(&x, &out[p])
            invariant
                p <= out@.len(),
                forall|k: int| 0 <= k < p ==> !listed_before(x, #[trigger] out@[k]),
            decreases out@.len() - p,
        {
            p = p + 1;
        }
        proof {
            lemma_in_order_insert(out@, p as int, x);
            assert(all.take(it.index() + 1) =~= all.take(it.index()).push(x));
            all.take(it.index()).to_multiset_ensures();
            assert(all.take(all.len() as int) =~= all);
        }
        out.insert(p, x);
    }
    out
}

/// The row of an entry.
pub open spec fn item_row(a: DirItem) -> Seq<char> {
    let name = html::escaped(a.name@);
    let label = if a.is_dir {
        name + "/"@
    } else {
        name
    };
    let size = if a.is_dir {
        ""@
    } else {
        numbers::human_size(a.size as nat)
    };
    let time = match a.modified {
        Some(t) => t.minute_text(),
        None => ""@,
    };
    r#"<tr><td><a href=""#@ + label + r#"">"#@ + label + r#"</a></td><td class="muted">"#@ + size
        + r#"</td><td class="muted">"#@ + time + "</td></tr>"@
}

/// The rows of entries.
pub open spec fn item_rows(items: Seq<DirItem>) -> Seq<char>
    decreases items.len(),
{
    if items.len() == 0 {
        ""@
    } else {
        item_rows(items.drop_last()) + item_row(items.last())
    }
}

/// The body of a listing.
pub open spec fn listing_body(crumb: Seq<char>, rows: Seq<char>) -> Seq<char> {
    r#"<h1><a href="/">Kei</a> — "#@ + crumb + r#"</h1>
<table>
  <thead><tr><th>Name</th><th>Size</th><th>Modified</th></tr></thead>
  <tbody>"#@ + rows + r#"</tbody>
</table>"#@
}

/// The row that says that there is nothing.
pub const EMPTY_ROW: &'static str = r#"<tr><td colspan="3" class="muted">No artifacts yet.</td></tr>"#;

/// The row that leads to the directory above.
pub const PARENT_ROW: &'static str = r#"<tr><td><a href="../">../</a></td><td class="muted"></td><td class="muted"></td></tr>"#;

/// What a listing of a directory is headed by.
pub open spec fn crumb_text(rel: Seq<char>) -> Seq<char> {
    if rel.len() == 0 {
        "Artifacts"@
    } else {
        "Artifacts / "@ + html::escaped(text::trim_back(rel, CharClass::Slash))
    }
}

/// The rows of the listing of a directory: first the one that leads above, unless it is the root.
pub open spec fn directory_rows(items: Seq<DirItem>, rel: Seq<char>) -> Seq<char> {
    (if rel.len() > 0 {
        PARENT_ROW@
    } else if items.len() == 0 {
        EMPTY_ROW@
    } else {
        ""@
    }) + item_rows(items)
}

/// The page that lists a directory.
pub open spec fn directory_page(items: Seq<DirItem>, rel: Seq<char>) -> Seq<char> {
    html::page_text(
        crumb_text(rel),
        listing_body(crumb_text(rel), directory_rows(items, rel)),
    )
}

/// The row of an entry.
fn render_item(a: &DirItem) -> (res: String)
    ensures
        res@ == item_row(*a),
{
    let mut label = html_escape(a.name.as_str());
    let mut size = "".to_owned();
    if a.is_dir {
        label.append("/");
    } else {
        size = numbers::human_bytes(a.size);
    }
    let time = match &a.modified {
        Some(t) => t.to_minute_text(),
        None => "".to_owned(),
    };
    let mut out = r#"<tr><td><a href=""#.to_owned();
    out.append(label.as_str());
    out.append(r#"">"#);
    out.append(label.as_str());
    out.append(r#"</a></td><td class="muted">"#);
    out.append(size.as_str());
    out.append(r#"</td><td class="muted">"#);
    out.append(time.as_str());
    out.append("</td></tr>");
    out
}

/// The body of a listing.
fn render_listing(crumb: &str, rows: &str) -> (res: String)
    ensures
        res@ == listing_body(crumb@, rows@),
{
    let mut body = r#"<h1><a href="/">Kei</a> — "#.to_owned();
    body.append(crumb);
    body.append(r#"</h1>
<table>
  <thead><tr><th>Name</th><th>Size</th><th>Modified</th></tr></thead>
  <tbody>"#);
    body.append(rows);
    body.append(r#"</tbody>
</table>"#);
    body
}

/// The page that lists the given entries in their order.
pub fn render_items(items: &Vec<DirItem>, rel: &str) -> (res: String)
    ensures
        res@ == directory_page(items@, rel@),
{
    let mut inner = "".to_owned();
    let mut i: usize = 0;
    assert(items@.take(0) =~= seq![]);
    while i < items.len()
        invariant
            i <= items@.len(),
            inner@ == item_rows(items@.take(i as int)),
        decreases items@.len() - i,
    {
        proof {
            assert(items@.take(i + 1).drop_last() =~= items@.take(i as int));
        }
        inner.append(render_item(&items[i]).as_str());
        i = i + 1;
    }
    assert(items@.take(i as int) =~= items@);
    let mut rows = if !rel.is_empty() {
        PARENT_ROW.to_owned()
    } else if items.len() == 0 {
        EMPTY_ROW.to_owned()
    } else {
        "".to_owned()
    };
    rows.append(inner.as_str());
    let crumb = if rel.is_empty() {
        "Artifacts".to_owned()
    } else {
        let mut c = "Artifacts / ".to_owned();
        c.append(html_escape(text::trim_end(rel, CharClass::Slash)).as_str());
        c
    };
    let body = render_listing(crumb.as_str(), rows.as_str());
    page(crumb.as_str(), body.as_str())
}

/// The page that lists a directory of the given entries.
pub fn render_directory(items: Vec<DirItem>, rel: &str) -> (res: String)
    ensures
        exists|sorted: Seq<DirItem>|
            {
                &&& in_order(sorted)
                &&& sorted.to_multiset() == items@.to_multiset()
                &&& res@ == #[trigger] directory_page(sorted, rel@)
            },
{
    let sorted = sort_items(items);
    render_items(&sorted, rel)
}

/// The row of a project.
pub open spec fn project_row(name: Seq<char>) -> Seq<char> {
    r#"<tr><td><a href=""#@ + html::escaped(name) + r#"/">"#@ + html::escaped(name)
        + r#"/</a></td><td class="muted"></td><td class="muted"></td></tr>"#@
}

/// The rows of projects.
pub open spec fn project_rows(names: Seq<Seq<char>>) -> Seq<char>
    decreases names.len(),
{
    if names.len() == 0 {
        ""@
    } else {
        project_rows(names.drop_last()) + project_row(names.last())
    }
}

/// The page that lists the projects of the given names.
pub open spec fn root_page(names: Seq<Seq<char>>) -> Seq<char> {
    html::page_text(
        "Artifacts"@,
        listing_body(
            "Artifacts"@,
            if names.len() == 0 {
                EMPTY_ROW@
            } else {
                project_rows(names)
            },
        ),
    )
}

/// The names of the projects that are listed: those that a viewer may see and whose artifacts
/// have a directory; `present` says that of each project that the viewer may see.
pub open spec fn present_names(projects: Seq<ProjectConfig>, present: Seq<bool>) -> Seq<Seq<char>>
    decreases projects.len(),
{
    if projects.len() == 0 {
        seq![]
    } else {
        let rest = present_names(projects.drop_last(), present);
        if present[projects.len() - 1] {
            rest.push(projects.last().name@)
        } else {
            rest
        }
    }
}

/// The page that lists the projects that have artifacts, among those that the viewer may see.
/// `present` says of each project that the viewer may see whether it has a directory of artifacts.
pub fn render_artifacts_root(
    config: &Config,
    principal: Option<&Principal>,
    present: &Vec<bool>,
) -> (res: String)
    requires
        present@.len() == auth::visible(Viewer::of(principal), *config).len(),
    ensures
        res@ == root_page(
            present_names(auth::visible(Viewer::of(principal), *config), present@),
        ),
{
    let projects = auth::visible_projects(principal, config);
    let ghost all = auth::visible(Viewer::of(principal), *config);
    let ghost mut names: Seq<Seq<char>> = seq![];
    let mut rows = "".to_owned();
    let mut some = false;
    let mut i: usize = 0;
    assert(all.take(0) =~= seq![]);
    while i < projects.len()
        invariant
            i <= projects@.len(),
            all == projects@.map_values(|p: &ProjectConfig| *p),
            present@.len() == all.len(),
            names == present_names(all.take(i as int), present@),
            rows@ == project_rows(names),
            some == (names.len() > 0),
        decreases projects@.len() - i,
    {
        let project = projects[i];
        proof {
            assert(all[i as int] == *project);
            assert(all.take(i + 1).drop_last() =~= all.take(i as int));
        }
        if present[i] {
            let name = html_escape(project.name.as_str());
            let mut row = r#"<tr><td><a href=""#.to_owned();
            row.append(name.as_str());
            row.append(r#"/">"#);
            row.append(name.as_str());
            row.append(r#"/</a></td><td class="muted"></td><td class="muted"></td></tr>"#);
            rows.append(row.as_str());
            some = true;
            proof {
                assert(names.push(project.name@).drop_last() =~= names);
                names = names.push(project.name@);
            }
        }
        i = i + 1;
    }
    assert(all.take(i as int) =~= all);
    if !some {
        rows = EMPTY_ROW.to_owned();
    }
    let body = render_listing("Artifacts", rows.as_str());
    page("Artifacts", body.as_str())
}

// ---------------------------------------------------------------------------------------------
// Laws
// ---------------------------------------------------------------------------------------------
/// The link to the latest build is listed first.
pub proof fn law_latest_first(v: Seq<DirItem>, k: int)
    requires
        in_order(v),
        0 <= k < v.len(),
        is_latest(v[k]),
    ensures
        is_latest(v[0]),
{
    if k > 0 {
        assert(!listed_before(v[k], v[0]));
    }
}

/// A directory has one listing only: the order of entries of different names is fixed.
pub proof fn law_listing_unique(v: Seq<DirItem>, w: Seq<DirItem>)
    requires
        in_order(v),
        in_order(w),
        v.to_multiset() == w.to_multiset(),
        forall|i: int, j: int| 0 <= i < j < v.len() ==> v[i].name@ != v[j].name@,
    ensures
        v == w,
    decreases v.len(),
{
    v.to_multiset_ensures();
    w.to_multiset_ensures();
    assert(v.len() == w.len());
    if v.len() > 0 {
        assert(v.contains(v[0]));
        assert(w.contains(w[0]));
        assert(w.to_multiset().count(v[0]) > 0);
        assert(v.to_multiset().count(w[0]) > 0);
        let i = choose|i: int| 0 <= i < w.len() && w[i] == v[0];
        let j = choose|j: int| 0 <= j < v.len() && v[j] == w[0];
        if i > 0 {
            assert(!listed_before(w[i], w[0]));
        }
        if j > 0 {
            assert(!listed_before(v[j], v[0]));
            assert(v[0].name@ != v[j].name@);
            law_listing_order_total(v[0], w[0]);
        }
        assert(v[0] == w[0]);
        let rv = v.remove(0);
        let rw = w.remove(0);
        assert(rv.to_multiset() =~= rw.to_multiset());
        assert(in_order(rv)) by {
            assert forall|x: int, y: int| 0 <= x < y < rv.len() implies !listed_before(
                rv[y],
                rv[x],
            ) by {
                assert(!listed_before(v[y + 1], v[x + 1]));
            }
        }
        assert(in_order(rw)) by {
            assert forall|x: int, y: int| 0 <= x < y < rw.len() implies !listed_before(
                rw[y],
                rw[x],
            ) by {
                assert(!listed_before(w[y + 1], w[x + 1]));
            }
        }
        assert forall|x: int, y: int| 0 <= x < y < rv.len() implies rv[x].name@
            != rv[y].name@ by {
            assert(v[x + 1].name@ != v[y + 1].name@);
        }
        law_listing_unique(rv, rw);
        assert forall|k: int| 0 <= k < v.len() implies v[k] == w[k] by {
            if k > 0 {
                assert(rv[k - 1] == rw[k - 1]);
            }
        }
    }
    assert(v =~= w);
}

/// A path that leads somewhere in a tree leads to a place under its root, as far as it is written:
/// it begins with the root.
pub proof fn law_path_stays_below(root: Seq<char>, rel: Seq<char>)
    requires
        root.len() > 0,
    ensures
        resolved(root, rel) matches Some(p) ==> root.is_prefix_of(p),
{
    if rel.len() > 0 && plain_segments(segments(rel)) {
        text::lemma_split_pieces(text::trim_back(rel, CharClass::Slash), '/');
        lemma_descend(root, segments(rel));
    } else {
        assert(root.subrange(0, root.len() as int) =~= root);
    }
}

/// Going down from a directory keeps its path at the front.
proof fn lemma_descend(root: Seq<char>, parts: Seq<Seq<char>>)
    requires
        root.len() > 0,
        forall|i: int| 0 <= i < parts.len() ==> !(#[trigger] parts[i]).contains('/'),
    ensures
        root.is_prefix_of(descend(root, parts)),
    decreases parts.len(),
{
    if parts.len() == 0 {
        assert(root.subrange(0, root.len() as int) =~= root);
    } else {
        let up = parts.drop_last();
        let last = parts.last();
        lemma_descend(root, up);
        let p = descend(root, up);
        let q = descend(root, parts);
        assert(!last.contains('/'));
        assert(!paths::absolute(last)) by {
            if last.len() > 0 && last[0] == '/' {
                assert(last.contains('/'));
            }
        }
        assert(root =~= p.subrange(0, root.len() as int));
        assert(q.subrange(0, root.len() as int) =~= p.subrange(0, root.len() as int));
    }
}

/// A path with a segment that is empty, `.` or `..` leads nowhere.
pub proof fn law_no_detours(root: Seq<char>, rel: Seq<char>, i: int)
    requires
        rel.len() > 0,
        0 <= i < segments(rel).len(),
        !plain_segment(segments(rel)[i]),
    ensures
        resolved(root, rel) is None,
{
}

/// The signed link to an artifact serves it, to everybody, and nothing but it: no directory is
/// listed.
pub proof fn law_signed_artifact_served(
    config: Config,
    secret: Seq<char>,
    path: Seq<char>,
    target: Target,
    res: TreeAction,
)
    requires
        text::opt_text(config.auth.public_link_secret) == Some(secret),
        path.len() > 0,
        path[0] != '/',
        path.last() != '/',
        target.path@ == "/public/artifacts/"@ + path,
        text::opt_text(target.query) == Some(
            auth::link_query(secret, auth::artifact_scope(path)),
        ),
        answers_public(res, config, target),
    ensures
        res.serves(config.storage.artifacts_dir@, "/public/artifacts"@, false),
{
    reveal_strlit("/");
    reveal_strlit("/public/artifacts");
    reveal_strlit("/public/artifacts/");
    assert(target.path@ =~= "/public/artifacts"@ + "/"@ + path);
    lemma_tree_rel("/public/artifacts"@, path);
    auth::law_link_token_read(secret, auth::artifact_scope(path));
    auth::law_artifact_token_accepted(secret, path);
}

/// The signed link to an artifact serves no other: with its query, a request for another path is
/// refused, unless the codes of the two collide.
pub proof fn law_signed_link_is_exact(
    config: Config,
    secret: Seq<char>,
    path: Seq<char>,
    other: Seq<char>,
    target: Target,
    res: TreeAction,
)
    requires
        text::opt_text(config.auth.public_link_secret) == Some(secret),
        other.len() > 0,
        other[0] != '/',
        other.last() != '/',
        target.path@ == "/public/artifacts/"@ + other,
        text::opt_text(target.query) == Some(
            auth::link_query(secret, auth::artifact_scope(path)),
        ),
        outside::hmac_sha256(encode_utf8(secret), encode_utf8(auth::artifact_scope(path)))
            != outside::hmac_sha256(encode_utf8(secret), encode_utf8(auth::artifact_scope(other))),
        outside::hmac_sha256(encode_utf8(secret), encode_utf8(auth::artifact_scope(path)))
            != outside::hmac_sha256(encode_utf8(secret), encode_utf8(other)),
        answers_public(res, config, target),
    ensures
        res.replies(FORBIDDEN, "bad token"@),
{
    reveal_strlit("/");
    reveal_strlit("/public/artifacts");
    reveal_strlit("/public/artifacts/");
    assert(target.path@ =~= "/public/artifacts"@ + "/"@ + other);
    lemma_tree_rel("/public/artifacts"@, other);
    auth::law_link_token_read(secret, auth::artifact_scope(path));
    auth::law_token_exact(secret, auth::artifact_scope(path), auth::artifact_scope(other));
    auth::law_token_exact(secret, auth::artifact_scope(path), other);
}

/// What follows the prefix of a tree in the path of a request.
proof fn lemma_tree_rel(prefix: Seq<char>, path: Seq<char>)
    requires
        path.len() > 0,
        path[0] != '/',
    ensures
        rel_path(prefix, prefix + "/"@ + path) == path,
{
    reveal_strlit("/");
    let raw = prefix + "/"@ + path;
    assert(raw.subrange(0, prefix.len() as int) =~= prefix);
    let rest = raw.skip(prefix.len() as int);
    assert(rest =~= seq!['/'] + path);
    assert(rest.drop_first() =~= path);
    reveal_with_fuel(text::trim_front, 2);
}

/// Parts of a path without separators, joined, are a path that neither begins nor ends with one.
proof fn lemma_joined_ends(parts: Seq<Seq<char>>)
    requires
        parts.len() > 0,
        forall|i: int| 0 <= i < parts.len() ==> plain_name(#[trigger] parts[i]),
    ensures
        text::joined(parts, seq!['/']).len() > 0,
        text::joined(parts, seq!['/'])[0] != '/',
        text::joined(parts, seq!['/']).last() != '/',
    decreases parts.len(),
{
    let s = text::joined(parts, seq!['/']);
    let last = parts.last();
    assert(plain_name(last));
    assert(last.last() != '/') by {
        assert(last.contains(last.last()));
    }
    if parts.len() == 1 {
        assert(plain_name(parts[0]));
        assert(parts[0].contains(parts[0][0]));
    } else {
        lemma_joined_ends(parts.drop_last());
        assert(s[0] == text::joined(parts.drop_last(), seq!['/'])[0]);
        assert(s.last() == last.last());
    }
}

/// Going down one part after the other leads to where the joined parts lead to.
proof fn lemma_descend_joined(base: Seq<char>, parts: Seq<Seq<char>>)
    requires
        parts.len() > 0,
        forall|i: int| 0 <= i < parts.len() ==> plain_name(#[trigger] parts[i]),
    ensures
        descend(base, parts) == paths::joined(base, text::joined(parts, seq!['/'])),
    decreases parts.len(),
{
    let up = parts.drop_last();
    let last = parts.last();
    lemma_joined_ends(parts);
    if parts.len() == 1 {
        assert(descend(base, up) == base);
    } else {
        lemma_joined_ends(up);
        lemma_descend_joined(base, up);
        let j = text::joined(up, seq!['/']);
        let x = paths::joined(base, j);
        assert(x.last() == j.last());
        assert(plain_name(last));
        assert(last.contains(last[0]));
        assert(descend(base, parts) =~= paths::joined(base, text::joined(parts, seq!['/'])));
    }
}

/// Going down along two lists of parts, one after the other.
proof fn lemma_descend_both(root: Seq<char>, a: Seq<Seq<char>>, b: Seq<Seq<char>>)
    ensures
        descend(root, a + b) == descend(descend(root, a), b),
    decreases b.len(),
{
    if b.len() == 0 {
        assert(a + b =~= a);
    } else {
        assert((a + b).drop_last() =~= a + b.drop_last());
        assert((a + b).last() == b.last());
        lemma_descend_both(root, a, b.drop_last());
    }
}

/// The text of an identifier can be a part of a path.
proof fn lemma_id_is_plain(id: u128)
    ensures
        plain_name(outside::uuid_text(id)),
{
    let t = outside::uuid_text(id);
    let d = outside::uuid_digits(id);
    reveal_strlit(".");
    reveal_strlit("..");
    assert(t.len() == 36);
    assert forall|k: int| 0 <= k < 32 implies d[k] != '/' by {
        let x = (id as int / vstd::arithmetic::power::pow(16, (31 - k) as nat)) % 16;
        assert(d[k] == outside::hex_digit(x));
        assert(0 <= x < 16);
    }
    assert forall|k: int| 0 <= k < 36 implies t[k] != '/' by {
        if k < 8 {
            assert(t[k] == d[k]);
        } else if 8 < k < 13 {
            assert(t[k] == d[k - 1]);
        } else if 13 < k < 18 {
            assert(t[k] == d[k - 2]);
        } else if 18 < k < 23 {
            assert(t[k] == d[k - 3]);
        } else if 23 < k {
            assert(t[k] == d[k - 4]);
        }
    }
}

/// Whether `s` can be a part of a path that is served.
pub open spec fn plain_name(s: Seq<char>) -> bool {
    plain_segment(s) && !s.contains('/')
}

/// What a build keeps is served: the address of an artifact leads to the file that the artifact
/// was copied to. `parts` are the parts of the path under which the build keeps it.
pub proof fn law_kept_file_is_served(
    config: Config,
    project: Seq<char>,
    id: u128,
    parts: Seq<Seq<char>>,
)
    requires
        plain_name(project),
        parts.len() > 0,
        forall|i: int| 0 <= i < parts.len() ==> plain_name(#[trigger] parts[i]),
    ensures
        ({
            let name = text::joined(parts, seq!['/']);
            let url = "/artifacts/"@ + artifacts::artifact_path(project, id, name);
            resolved(config.storage.artifacts_dir@, rel_path("/artifacts"@, url)) == Some(
                paths::joined(state::build_path(config, project, id), name),
            )
        }),
{
    let root = config.storage.artifacts_dir@;
    let uuid = outside::uuid_text(id);
    let name = text::joined(parts, seq!['/']);
    let path = artifacts::artifact_path(project, id, name);
    let dirs = seq![project, uuid];
    let all = dirs + parts;
    reveal_strlit("/");
    reveal_strlit("/artifacts");
    reveal_strlit("/artifacts/");
    assert("/"@ =~= seq!['/']);
    lemma_id_is_plain(id);
    assert(dirs.drop_last() =~= seq![project]);
    assert(text::joined(seq![project], seq!['/']) == project);
    assert(dirs.last() == uuid);
    assert(text::joined(dirs, seq!['/']) =~= project + seq!['/'] + uuid);
    text::lemma_joined_both(dirs, parts, seq!['/']);
    assert(path =~= text::joined(all, seq!['/']));
    assert forall|i: int| 0 <= i < all.len() implies plain_name(#[trigger] all[i]) by {
        if i >= 2 {
            assert(all[i] == parts[i - 2]);
        }
    }
    lemma_joined_ends(all);
    lemma_tree_rel("/artifacts"@, path);
    assert("/artifacts/"@ =~= "/artifacts"@ + "/"@);
    assert("/artifacts/"@ + path =~= "/artifacts"@ + "/"@ + path);
    text::law_joined_is_split(all, '/');
    assert(segments(path) == all);
    lemma_descend_both(root, dirs, parts);
    assert(descend(root, seq![project]) == paths::joined(root, project)) by {
        let none = seq![project].drop_last();
        assert(none.len() == 0);
        assert(descend(root, none) == root);
    }
    assert(descend(root, dirs) == state::build_path(config, project, id));
    lemma_descend_joined(descend(root, dirs), parts);
}

/// What follows the prefix of a tree in the path of a request is the path in the tree.
pub proof fn law_path_in_tree(prefix: Seq<char>, path: Seq<char>, other: Seq<char>)
    requires
        path.len() > 0,
        path[0] != '/',
        !prefix.is_prefix_of(other),
    ensures
        rel_path(prefix, prefix + "/"@ + path) == path,
        rel_path(prefix, other) == ""@,
        rel_path(prefix, prefix) == ""@,
{
    lemma_tree_rel(prefix, path);
    reveal_strlit("");
    assert(prefix.subrange(0, prefix.len() as int) =~= prefix);
    assert(prefix.skip(prefix.len() as int) =~= ""@);
}

/// A path of plain parts leads to where its parts lead under the root.
pub proof fn law_plain_path_leads_below(root: Seq<char>, parts: Seq<Seq<char>>)
    requires
        parts.len() > 0,
        forall|i: int| 0 <= i < parts.len() ==> plain_name(#[trigger] parts[i]),
    ensures
        ({
            let path = text::joined(parts, seq!['/']);
            resolved(root, path) == Some(paths::joined(root, path))
        }),
{
    let path = text::joined(parts, seq!['/']);
    lemma_joined_ends(parts);
    text::law_joined_is_split(parts, '/');
    assert(text::trim_back(path, CharClass::Slash) == path);
    assert(segments(path) == parts);
    lemma_descend_joined(root, parts);
}

/// A project owns what lies at a path of the Maven repository exactly when one of its artifact
/// identifiers is a part of the path.
pub proof fn law_maven_owner(project: ProjectConfig, parts: Seq<Seq<char>>)
    requires
        parts.len() > 0,
        forall|i: int| 0 <= i < parts.len() ==> plain_name(#[trigger] parts[i]),
    ensures
        owns(project, text::joined(parts, seq!['/'])) <==> exists|i: int, j: int|
            0 <= i < project.maven.artifacts@.len() && 0 <= j < parts.len() && (
            #[trigger] project.maven.artifacts@[i])@ == #[trigger] parts[j],
{
    let rel = text::joined(parts, seq!['/']);
    lemma_joined_ends(parts);
    text::lemma_trimmed_clean(rel, CharClass::Slash);
    text::law_joined_is_split(parts, '/');
    if exists|i: int, j: int|
        0 <= i < project.maven.artifacts@.len() && 0 <= j < parts.len() && (
        #[trigger] project.maven.artifacts@[i])@ == #[trigger] parts[j] {
        let (i, j) = choose|i: int, j: int|
            0 <= i < project.maven.artifacts@.len() && 0 <= j < parts.len() && (
            #[trigger] project.maven.artifacts@[i])@ == #[trigger] parts[j];
        assert(plain_name(parts[j]));
        assert(parts[j].len() > 0);
    }
}

/// What several projects own belongs to the first of them.
pub proof fn law_first_owner(config: Config, rel: Seq<char>, i: int)
    requires
        0 <= i < config.projects@.len(),
        owns(config.projects@[i], rel),
        forall|j: int| 0 <= j < i ==> !owns(#[trigger] config.projects@[j], rel),
    ensures
        maven_owner(config, rel) == Some(config.projects@[i]),
{
    let cond = |p: ProjectConfig| owns(p, rel);
    assert(maven_owner(config, rel) == list::find_first(config.projects@, cond));
    list::law_first_found(config.projects@, cond, i);
}

/// A public request for no file is answered 404, one without a token 401, and one whose token is not
/// the file's 403.
pub proof fn law_public_refusals(config: Config, target: Target, res: TreeAction)
    requires
        answers_public(res, config, target),
    ensures
        ({
            let rel = rel_path("/public/artifacts"@, target.path@);
            let token = auth::param(text::opt_text(target.query), "token"@);
            let secret = text::opt_text(config.auth.public_link_secret);
            let file = rel.len() > 0 && rel.last() != '/';
            &&& !file ==> res.replies(404, "not found"@)
            &&& file && token is None ==> res.replies(401, "missing token"@)
            &&& file && token is Some && !auth::artifact_token_valid(secret, rel, token->0)
                ==> res.replies(403, "bad token"@)
            &&& file && token is Some && secret is None ==> res.replies(403, "bad token"@)
        }),
{
}

/// The media type of a file does not depend on capitals in its extension.
pub proof fn law_media_types(e: Seq<char>)
    ensures
        media_type(Some(e)) == media_type(Some(text::ascii_lower(e))),
        text::ascii_lower(e) == "jar"@ ==> media_type(Some(e)) == "application/java-archive"@,
        text::ascii_lower(e) == "html"@ ==> media_type(Some(e)) == "text/html; charset=utf-8"@,
        text::ascii_lower(e) == "json"@ ==> media_type(Some(e)) == "application/json"@,
        text::ascii_lower(e) == "txt"@ || text::ascii_lower(e) == "log"@ ==> media_type(Some(e))
            == "text/plain; charset=utf-8"@,
        media_type(None) == "application/octet-stream"@,
{
    assert(text::ascii_lower(text::ascii_lower(e)) =~= text::ascii_lower(e));
    reveal_strlit("jar");
    reveal_strlit("zip");
    reveal_strlit("html");
    reveal_strlit("htm");
    reveal_strlit("json");
    reveal_strlit("log");
    reveal_strlit("txt");
    if text::ascii_lower(e) == "html"@ {
        assert("html"@.len() != "jar"@.len() && "html"@.len() != "zip"@.len());
    }
    if text::ascii_lower(e) == "json"@ {
        assert("json"@[0] != "html"@[0]);
    }
    if text::ascii_lower(e) == "txt"@ {
        assert("txt"@[0] != "jar"@[0] && "txt"@[0] != "zip"@[0] && "txt"@[0] != "htm"@[0]);
    }
    if text::ascii_lower(e) == "log"@ {
        assert("log"@[0] != "jar"@[0] && "log"@[0] != "zip"@[0] && "log"@[0] != "htm"@[0]);
    }
}

/// In a listing the link to the latest build is before all; of other entries, what was modified later
/// is before what was modified earlier, and an entry of known time before one of unknown; then
/// directories are before files, and then names go by the order of their characters.
pub proof fn law_listing_order(a: DirItem, b: DirItem)
    ensures
        a.name@ == "latest"@ && b.name@ != "latest"@ ==> listed_before(a, b),
        a.name@ != "latest"@ && b.name@ != "latest"@ ==> {
            &&& a.modified is Some && b.modified is Some && a.modified->0.later(b.modified->0)
                ==> listed_before(a, b)
            &&& a.modified is Some && b.modified is None ==> listed_before(a, b)
            &&& a.modified == b.modified && a.is_dir && !b.is_dir ==> listed_before(a, b)
            &&& a.modified == b.modified && a.is_dir == b.is_dir ==> listed_before(a, b)
                == text::text_before(a.name@, b.name@)
        },
{
}

/// In an ordered listing, an entry that is to be before another stands above it.
pub proof fn law_listing_in_order(v: Seq<DirItem>, i: int, j: int)
    requires
        in_order(v),
        0 <= i < v.len(),
        0 <= j < v.len(),
        listed_before(v[i], v[j]),
    ensures
        i < j,
{
    if i == j {
        law_listing_order_total(v[i], v[j]);
    } else if j < i {
        assert(!listed_before(v[i], v[j]));
    }
}

/// The rows of entries stand in the order of the entries. The row of an entry has its name, with a
/// slash behind that of a directory, the size of a file, and when it was modified.
pub proof fn law_item_rows(a: Seq<DirItem>, c: Seq<DirItem>, one: DirItem)
    ensures
        item_rows(a + c) == item_rows(a) + item_rows(c),
        ({
            let row = item_rows(seq![one]);
            let label = if one.is_dir {
                html::escaped(one.name@) + "/"@
            } else {
                html::escaped(one.name@)
            };
            &&& text::holds_text(row, r#"<tr><td><a href=""#@ + label + r#"">"#@ + label)
            &&& !one.is_dir ==> text::holds_text(row, numbers::human_size(one.size as nat))
            &&& one.modified matches Some(t) ==> text::holds_text(row, t.minute_text())
        }),
    decreases c.len(),
{
    broadcast use {text::lemma_holds_self, text::lemma_holds_sum};

    reveal_strlit("");
    assert(seq![one].last() == one);
    assert(seq![one].drop_last() =~= seq![]);
    assert(item_rows(seq![one]) == item_rows(seq![one].drop_last()) + item_row(one));
    if c.len() == 0 {
        assert(a + c =~= a);
        assert(item_rows(a + c) =~= item_rows(a) + item_rows(c));
    } else {
        law_item_rows(a, c.drop_last(), one);
        assert((a + c).drop_last() =~= a + c.drop_last());
        assert((a + c).last() == c.last());
        assert(item_rows(a + c) =~= item_rows(a) + item_rows(c));
    }
}

/// The page of a directory holds the rows of its entries and names the directory; below the root it
/// leads to the directory above, and an empty root says that there is nothing.
pub proof fn law_directory_page(items: Seq<DirItem>, rel: Seq<char>)
    ensures
        text::holds_text(directory_page(items, rel), item_rows(items)),
        rel.len() > 0 ==> text::holds_text(directory_page(items, rel), PARENT_ROW@),
        rel.len() > 0 ==> text::holds_text(
            directory_page(items, rel),
            html::escaped(text::trim_back(rel, CharClass::Slash)),
        ),
        rel.len() == 0 && items.len() == 0 ==> text::holds_text(
            directory_page(items, rel),
            EMPTY_ROW@,
        ),
{
    broadcast use {text::lemma_holds_self, text::lemma_holds_sum};

    let rows = directory_rows(items, rel);
    let page = directory_page(items, rel);
    let crumb = crumb_text(rel);
    let body = listing_body(crumb, rows);
    assert(text::holds_text(body, rows));
    assert(text::holds_text(body, crumb));
    assert(text::holds_text(page, body));
    text::lemma_holds_through(page, body, rows);
    text::lemma_holds_through(page, body, crumb);
    assert(text::holds_text(rows, item_rows(items)));
    text::lemma_holds_through(page, rows, item_rows(items));
    if rel.len() > 0 {
        assert(text::holds_text(rows, PARENT_ROW@));
        text::lemma_holds_through(page, rows, PARENT_ROW@);
        let name = html::escaped(text::trim_back(rel, CharClass::Slash));
        assert(text::holds_text(crumb, name));
        text::lemma_holds_through(page, crumb, name);
    } else if items.len() == 0 {
        assert(text::holds_text(rows, EMPTY_ROW@));
        text::lemma_holds_through(page, rows, EMPTY_ROW@);
    }
}

/// The projects that have artifacts are listed in their order, each by its name; the others are not.
pub proof fn law_projects_listed(
    a: Seq<Seq<char>>,
    c: Seq<Seq<char>>,
    name: Seq<char>,
    projects: Seq<ProjectConfig>,
    present: Seq<bool>,
)
    requires
        projects.len() <= present.len(),
    ensures
        project_rows(a + c) == project_rows(a) + project_rows(c),
        text::holds_text(
            project_rows(seq![name]),
            r#"<tr><td><a href=""#@ + html::escaped(name) + r#"/">"#@ + html::escaped(name),
        ),
        a.len() > 0 ==> text::holds_text(root_page(a), project_rows(a)),
        present_names(projects, present).contains(name) <==> exists|i: int|
            0 <= i < projects.len() && present[i] && (#[trigger] projects[i]).name@ == name,
    decreases c.len(),
{
    broadcast use {text::lemma_holds_self, text::lemma_holds_sum};

    reveal_strlit("");
    assert(seq![name].last() == name);
    assert(seq![name].drop_last() =~= seq![]);
    assert(project_rows(seq![name]) == project_rows(seq![name].drop_last()) + project_row(name));
    assert(text::holds_text(
        project_row(name),
        r#"<tr><td><a href=""#@ + html::escaped(name) + r#"/">"#@ + html::escaped(name),
    ));
    lemma_present(projects, present, name);
    if a.len() > 0 {
        let body = listing_body("Artifacts"@, project_rows(a));
        assert(text::holds_text(body, project_rows(a)));
        assert(text::holds_text(root_page(a), body));
        text::lemma_holds_through(root_page(a), body, project_rows(a));
    }
    if c.len() == 0 {
        assert(a + c =~= a);
        assert(project_rows(a + c) =~= project_rows(a) + project_rows(c));
    } else {
        law_projects_listed(a, c.drop_last(), name, projects, present);
        assert((a + c).drop_last() =~= a + c.drop_last());
        assert((a + c).last() == c.last());
        assert(project_rows(a + c) =~= project_rows(a) + project_rows(c));
    }
}

/// Which names are listed.
proof fn lemma_present(projects: Seq<ProjectConfig>, present: Seq<bool>, name: Seq<char>)
    requires
        projects.len() <= present.len(),
    ensures
        present_names(projects, present).contains(name) <==> exists|i: int|
            0 <= i < projects.len() && present[i] && (#[trigger] projects[i]).name@ == name,
    decreases projects.len(),
{
    if projects.len() > 0 {
        let up = projects.drop_last();
        let before = present_names(up, present);
        let last = projects.last().name@;
        lemma_present(up, present, name);
        list::lemma_contains_push(before, last);
        assert(forall|i: int| 0 <= i < up.len() ==> #[trigger] up[i] == projects[i]);
        if exists|i: int| 0 <= i < up.len() && present[i] && (#[trigger] up[i]).name@ == name {
            let i = choose|i: int|
                0 <= i < up.len() && present[i] && (#[trigger] up[i]).name@ == name;
            assert(projects[i].name@ == name);
        }
        if exists|i: int|
            0 <= i < projects.len() && present[i] && (#[trigger] projects[i]).name@ == name {
            let i = choose|i: int|
                0 <= i < projects.len() && present[i] && (#[trigger] projects[i]).name@ == name;
            if i < up.len() {
                assert(up[i].name@ == name);
            }
        }
        assert(projects[projects.len() - 1].name@ == last);
    }
}

/// Whether `res` is what a request for the tree of the artifacts leads to.
pub open spec fn answers_artifacts(
    res: TreeAction,
    config: Config,
    viewer: Viewer,
    target: Target,
) -> bool {
    let name = text::split(rel_path("/artifacts"@, target.path@), '/')[0];
    if name.len() == 0 {
        res is ListRoot
    } else {
        match config.named(name) {
            None => res.replies(NOT_FOUND, "not found"@),
            Some(p) => if auth::may_view(viewer, p) || auth::bears_path_token(
                text::opt_text(config.auth.public_link_secret),
                target,
            ) {
                res.serves(config.storage.artifacts_dir@, "/artifacts"@, true)
            } else {
                res.hides()
            },
        }
    }
}

/// Whether `res` is what a request for the Maven repository leads to.
pub open spec fn answers_maven(
    res: TreeAction,
    config: Config,
    viewer: Viewer,
    target: Target,
) -> bool {
    match config.maven.repo_dir {
        None => res.replies(NOT_FOUND, "maven repo not configured"@),
        Some(root) => match maven_owner(config, rel_path("/maven"@, target.path@)) {
            Some(p) => if auth::may_view_maven(viewer, p) {
                res.serves(root@, "/maven"@, false)
            } else {
                res.hides()
            },
            None => res.serves(root@, "/maven"@, false),
        },
    }
}

/// Whether `res` is what is answered for something that was found at a path of a tree.
pub open spec fn answers_entry(
    res: TreeAnswer,
    canonical_root: Seq<char>,
    canonical: Seq<char>,
    kind: FileKind,
    listing: bool,
    raw_path: Seq<char>,
) -> bool {
    if paths::relative_to(canonical, canonical_root) is None {
        res is NotFound
    } else {
        match kind {
            FileKind::File => res is Send,
            FileKind::Other => res is NotFound,
            FileKind::Directory => if !listing {
                res is NotFound
            } else if raw_path.len() > 0 && raw_path.last() == '/' {
                res is List
            } else {
                res matches TreeAnswer::Moved(to) && to@ == raw_path + "/"@
            },
        }
    }
}

/// Whether an entry of a directory is listed.
pub open spec fn is_listed(name: Seq<char>, link: EntryLink, canonical_root: Seq<char>) -> bool {
    !(name.len() > 0 && name[0] == '.') && match link {
        EntryLink::Plain => true,
        EntryLink::To(p) => paths::relative_to(p@, canonical_root) is Some,
        EntryLink::Broken => false,
    }
}

/// The artifacts under `/artifacts/`, the name of a project and a slash are the project's: whoever
/// may see the project is served, and so is whoever bears the token of that very path. Others are
/// told that nothing is there, as for a project that does not exist.
pub proof fn law_whose_artifacts(
    res: TreeAction,
    config: Config,
    viewer: Viewer,
    target: Target,
    name: Seq<char>,
    rest: Seq<char>,
)
    requires
        answers_artifacts(res, config, viewer, target),
        target.path@ == "/artifacts"@ + "/"@ + (name + seq!['/'] + rest),
        name.len() > 0,
        !name.contains('/'),
    ensures
        config.named(name) is None ==> res.replies(404, "not found"@),
        config.named(name) matches Some(p) ==> (res is Serve <==> auth::may_view(viewer, p)
            || auth::bears_path_token(
            text::opt_text(config.auth.public_link_secret),
            target,
        )),
        config.named(name) is Some && !(res is Serve) ==> res.hides(),
        res matches TreeAction::Serve { root, prefix, listing } ==> root@
            == config.storage.artifacts_dir@ && prefix@ == "/artifacts"@ && listing,
{
    let path = name + seq!['/'] + rest;
    assert(name.contains(name[0]));
    assert(path[0] == name[0]);
    lemma_tree_rel("/artifacts"@, path);
    text::law_split_pieces(name, '/', rest);
}

/// What no project owns of the Maven repository is served to everyone, and what one owns to those
/// who may fetch its artifacts. Without a repository nothing is.
pub proof fn law_whose_maven(
    res: TreeAction,
    config: Config,
    viewer: Viewer,
    target: Target,
    rel: Seq<char>,
)
    requires
        answers_maven(res, config, viewer, target),
        target.path@ == "/maven"@ + "/"@ + rel,
        rel.len() > 0,
        rel[0] != '/',
    ensures
        config.maven.repo_dir is None ==> res.replies(404, "maven repo not configured"@),
        config.maven.repo_dir is Some && maven_owner(config, rel) is None ==> res is Serve,
        config.maven.repo_dir is Some ==> (maven_owner(config, rel) matches Some(p) ==> (res is Serve
            <==> p.maven.public != Some(false) || auth::may_view(viewer, p)) && (!(res is Serve)
            ==> res.hides())),
        res matches TreeAction::Serve { root, prefix, listing } ==> (config.maven.repo_dir matches Some(
            dir,
        ) && root@ == dir@ && prefix@ == "/maven"@ && !listing),
{
    lemma_tree_rel("/maven"@, rel);
}

/// A file is sent and a directory is listed only where it lies under the root of its tree, and where
/// the tree has listings for a directory. A directory is first moved to its path with a slash.
pub proof fn law_what_is_sent(
    res: TreeAnswer,
    root: Seq<char>,
    found: Seq<char>,
    kind: FileKind,
    listing: bool,
    raw: Seq<char>,
)
    requires
        answers_entry(res, root, found, kind, listing, raw),
    ensures
        res is Send <==> kind is File && paths::relative_to(found, root) is Some,
        res is List || res is Moved <==> kind is Directory && listing && paths::relative_to(
            found,
            root,
        ) is Some,
        res is List ==> raw.len() > 0 && raw.last() == '/',
        res matches TreeAnswer::Moved(to) ==> to@ == raw + "/"@ && (raw.len() == 0 || raw.last()
            != '/') && answers_entry(TreeAnswer::List, root, found, kind, listing, to@),
{
    reveal_strlit("/");
}

/// A name that begins with a dot is never listed, and neither is a link that leads nowhere or out of
/// the tree.
pub proof fn law_what_is_listed(
    rest: Seq<char>,
    name: Seq<char>,
    to: String,
    root: Seq<char>,
    link: EntryLink,
)
    requires
        name.len() > 0,
        name[0] != '.',
    ensures
        !is_listed("."@ + rest, link, root),
        is_listed(name, EntryLink::Plain, root),
        !is_listed(name, EntryLink::Broken, root),
        is_listed(name, EntryLink::To(to), root) <==> paths::relative_to(to@, root) is Some,
{
    reveal_strlit(".");
}

/// What is shown of a directory does not depend on its size, and nothing is shown in place of a time
/// that is not known.
pub proof fn law_directories_have_no_size(one: DirItem, other: DirItem)
    requires
        one.is_dir && other.is_dir,
        one.name@ == other.name@,
        one.modified == other.modified,
    ensures
        item_rows(seq![one]) == item_rows(seq![other]),
        ({
            let label = html::escaped(one.name@) + "/"@;
            one.modified is None ==> item_rows(seq![one]) == r#"<tr><td><a href=""#@ + label
                + r#"">"#@ + label + r#"</a></td><td class="muted"></td><td class="muted"></td></tr>"#@
        }),
{
    reveal_strlit("");
    reveal_strlit(r#"</a></td><td class="muted">"#);
    reveal_strlit(r#"</td><td class="muted">"#);
    reveal_strlit("</td></tr>");
    reveal_strlit(r#"</a></td><td class="muted"></td><td class="muted"></td></tr>"#);
    assert(seq![one].last() == one);
    assert(seq![other].last() == other);
    assert(seq![one].drop_last() =~= seq![]);
    assert(seq![other].drop_last() =~= seq![]);
    assert(item_rows(seq![one]) == item_rows(seq![one].drop_last()) + item_row(one));
    assert(item_rows(seq![other]) == item_rows(seq![other].drop_last()) + item_row(other));
    assert(""@ + item_row(one) =~= item_row(one));
    assert(r#"</a></td><td class="muted"></td><td class="muted"></td></tr>"#@
        =~= r#"</a></td><td class="muted">"#@ + r#"</td><td class="muted">"#@ + "</td></tr>"@);
    if one.modified is None {
        let label = html::escaped(one.name@) + "/"@;
        let row = r#"<tr><td><a href=""#@ + label + r#"">"#@ + label;
        assert(item_row(one) =~= row + (r#"</a></td><td class="muted">"#@
            + r#"</td><td class="muted">"#@ + "</td></tr>"@));
    }
}

/// The media types of archives, of pages and their parts, and of pictures; what has none of the
/// known extensions is sent as plain bytes.
pub proof fn law_other_media_types(e: Seq<char>)
    ensures
        ({
            let low = text::ascii_lower(e);
            let media = media_type(Some(e));
            &&& low == "zip"@ ==> media == "application/zip"@
            &&& low == "htm"@ ==> media == "text/html; charset=utf-8"@
            &&& low == "xml"@ ==> media == "application/xml"@
            &&& low == "css"@ ==> media == "text/css"@
            &&& low == "js"@ ==> media == "application/javascript"@
            &&& low == "png"@ ==> media == "image/png"@
            &&& low == "jpg"@ || low == "jpeg"@ ==> media == "image/jpeg"@
            &&& low == "svg"@ ==> media == "image/svg+xml"@
            &&& low.len() == 0 || low.len() > 4 ==> media == "application/octet-stream"@
        }),
{
    reveal_strlit("jar");
    reveal_strlit("zip");
    reveal_strlit("html");
    reveal_strlit("htm");
    reveal_strlit("json");
    reveal_strlit("log");
    reveal_strlit("txt");
    reveal_strlit("xml");
    reveal_strlit("css");
    reveal_strlit("js");
    reveal_strlit("png");
    reveal_strlit("jpg");
    reveal_strlit("jpeg");
    reveal_strlit("svg");
    let low = text::ascii_lower(e);
    assert("jar"@[0] == 'j' && "jar"@[1] == 'a');
    assert("zip"@[0] == 'z');
    assert("html"@[0] == 'h' && "htm"@[0] == 'h');
    assert("json"@[1] == 's');
    assert("log"@[0] == 'l');
    assert("txt"@[0] == 't');
    assert("xml"@[0] == 'x');
    assert("css"@[0] == 'c');
    assert("png"@[0] == 'p');
    assert("jpg"@[0] == 'j' && "jpg"@[1] == 'p');
    assert("jpeg"@[0] == 'j' && "jpeg"@[1] == 'p');
    assert("svg"@[0] == 's');
    assert("js"@.len() == 2);
    assert("jpeg"@.len() == 4 && "html"@.len() == 4 && "json"@.len() == 4);
}

} // verus!
