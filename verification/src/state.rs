//! The builds that the server knows of.

use crate::config::Config;
use crate::list;
use crate::numbers;
use crate::outside::{random_id, uuid_to_text};
use crate::paths;
use crate::text::{self, CharClass};
use crate::time::Timestamp;
use std::collections::HashMap;
use vstd::prelude::*;

verus! {

/// How far a build has come.
#[derive(Debug, Clone, Copy, PartialEq, Eq, Structural)]
pub enum BuildState {
    Queued,
    Running,
    Success,
    Failed,
    Canceled,
}

impl BuildState {
    /// Whether the build is still to run or running.
    pub open spec fn live(self) -> bool {
        self == BuildState::Queued || self == BuildState::Running
    }

    /// Whether the build is still to run or running.
    pub fn is_live(&self) -> (res: bool)
        ensures
            res == self.live(),
    {
        match self {
            BuildState::Queued | BuildState::Running => true,
            _ => false,
        }
    }
}

/// One build.
#[derive(Debug, Clone)]
pub struct BuildStatus {
    pub id: u128,
    pub project: String,
    /// The number of the build among those of its project.
    pub number: u64,
    pub commit: Option<String>,
    /// The commit of the project's last successful build when this one began.
    pub previous_commit: Option<String>,
    /// The commit that a step of the build itself made.
    pub docs_commit: Option<String>,
    pub state: BuildState,
    pub started_at: Timestamp,
    pub finished_at: Option<Timestamp>,
    pub current_step: Option<String>,
    pub log: String,
    pub artifacts: Vec<ArtifactRef>,
    pub error: Option<String>,
}

/// What a build is, texts taken by their characters.
#[verifier::ext_equal]
pub struct BuildView {
    pub id: u128,
    pub project: Seq<char>,
    pub number: u64,
    pub commit: Option<Seq<char>>,
    pub previous_commit: Option<Seq<char>>,
    pub docs_commit: Option<Seq<char>>,
    pub state: BuildState,
    pub started_at: Timestamp,
    pub finished_at: Option<Timestamp>,
    pub current_step: Option<Seq<char>>,
    pub log: Seq<char>,
    pub artifacts: Seq<ArtifactRef>,
    pub error: Option<Seq<char>>,
}

impl View for BuildStatus {
    type V = BuildView;

    open spec fn view(&self) -> BuildView {
        BuildView {
            id: self.id,
            project: self.project@,
            number: self.number,
            commit: text::opt_text(self.commit),
            previous_commit: text::opt_text(self.previous_commit),
            docs_commit: text::opt_text(self.docs_commit),
            state: self.state,
            started_at: self.started_at,
            finished_at: self.finished_at,
            current_step: text::opt_text(self.current_step),
            log: self.log@,
            artifacts: self.artifacts@,
            error: text::opt_text(self.error),
        }
    }
}

/// One file that a build has kept.
#[derive(Debug, Clone)]
pub struct ArtifactRef {
    pub project: String,
    pub build_id: u128,
    pub path: String,
    pub size: u64,
    pub url: String,
}

/// The configuration and the builds.
#[derive(Debug)]
pub struct AppState {
    pub config: Config,
    /// Each build under its identifier.
    pub builds: HashMap<u128, BuildStatus>,
}

/// Whether `b` is a build that has just been queued.
pub open spec fn just_queued(
    b: BuildStatus,
    project: Seq<char>,
    id: u128,
    number: u64,
    now: Timestamp,
) -> bool {
    &&& b.id == id
    &&& b.project@ == project
    &&& b.number == number
    &&& b.commit is None
    &&& b.previous_commit is None
    &&& b.docs_commit is None
    &&& b.state == BuildState::Queued
    &&& b.started_at == now
    &&& b.finished_at is None
    &&& b.current_step is None
    &&& b.log@.len() == 0
    &&& b.artifacts@.len() == 0
    &&& b.error is None
}

/// Whether `b` is what a request to stop makes of `a`: the reason is added to the log of a live
/// build, and one that still waits is canceled there and then.
pub open spec fn asked_to_stop(
    a: BuildStatus,
    b: BuildStatus,
    reason: Seq<char>,
    now: Timestamp,
) -> bool {
    &&& b.log@ == a.log@ + reason
    &&& match a.state {
        BuildState::Queued => b == (BuildStatus {
            log: b.log,
            state: BuildState::Canceled,
            finished_at: Some(now),
            current_step: None,
            ..a
        }),
        _ => b == (BuildStatus { log: b.log, ..a }),
    }
}

/// Whether `b` is what a request to stop a build makes of `a`. Nothing changes where the build
/// could not be told, where it is not known, and where it is not live.
pub open spec fn stop_recorded(
    a: AppState,
    b: AppState,
    id: u128,
    sent: bool,
    reason: Seq<char>,
    now: Timestamp,
) -> bool {
    if sent && a.all().dom().contains(id) && a.all()[id].state.live() {
        &&& b.all() == a.all().insert(id, b.all()[id])
        &&& asked_to_stop(a.all()[id], b.all()[id], reason, now)
    } else {
        b.all() == a.all()
    }
}

/// Whether an entry of a project's directory may hold a build: the link to the latest build and
/// hidden entries do not.
pub open spec fn names_build(name: Seq<char>) -> bool {
    name != "latest"@ && !(name.len() > 0 && name[0] == '.')
}

/// An entry of a project's directory, and the build that was read from it. There is none where the
/// file of the build is missing or malformed.
#[derive(Debug, Clone)]
pub struct StoredBuild {
    pub name: String,
    pub build: Option<BuildStatus>,
}

impl StoredBuild {
    /// Whether the entry gives a build.
    pub open spec fn counts(self) -> bool {
        names_build(self.name@) && self.build is Some
    }

    /// Whether the entry gives a build of the identifier.
    pub open spec fn gives(self, id: u128) -> bool {
        self.counts() && self.build->0.id == id
    }
}

/// The builds, with those of the entries added, a later one in place of an earlier one.
pub open spec fn with_found(
    builds: Map<u128, BuildStatus>,
    found: Seq<StoredBuild>,
) -> Map<u128, BuildStatus>
    decreases found.len(),
{
    if found.len() == 0 {
        builds
    } else {
        let before = with_found(builds, found.drop_last());
        if found.last().counts() {
            before.insert(found.last().build->0.id, found.last().build->0)
        } else {
            before
        }
    }
}

/// How many of the entries give a build.
pub open spec fn found_count(found: Seq<StoredBuild>) -> nat {
    found.filter(|e: StoredBuild| e.counts()).len()
}

/// The views of a list of references to builds.
pub open spec fn referred(v: Seq<&BuildStatus>) -> Seq<BuildStatus> {
    v.map_values(|b: &BuildStatus| *b)
}

/// Whether `v` lists each build exactly once.
pub open spec fn lists_all(v: Seq<BuildStatus>, builds: Map<u128, BuildStatus>) -> bool {
    &&& forall|i: int|
        0 <= i < v.len() ==> builds.contains_pair((#[trigger] v[i]).id, v[i])
    &&& forall|i: int, j: int| 0 <= i < j < v.len() ==> v[i].id != v[j].id
    &&& forall|id: u128| #[trigger]
        builds.dom().contains(id) ==> exists|i: int| 0 <= i < v.len() && (#[trigger] v[i]).id == id
}

/// Whether no build of `v` began later than one before it.
pub open spec fn newest_first(v: Seq<BuildStatus>) -> bool {
    forall|i: int, j: int| 0 <= i < j < v.len() ==> !v[j].started_at.later(v[i].started_at)
}

/// A build put before the first one that began earlier keeps the order.
proof fn lemma_newest_first_insert(v: Seq<BuildStatus>, p: int, b: BuildStatus)
    requires
        newest_first(v),
        0 <= p <= v.len(),
        forall|k: int| 0 <= k < p ==> !b.started_at.later((#[trigger] v[k]).started_at),
        p < v.len() ==> b.started_at.later(v[p].started_at),
    ensures
        newest_first(v.insert(p, b)),
{
    let w = v.insert(p, b);
    assert forall|i: int, j: int| 0 <= i < j < w.len() implies !w[j].started_at.later(
        w[i].started_at,
    ) by {
        if i < p && j == p {
            assert(w[i] == v[i]);
        } else if i == p {
            assert(w[j] == v[j - 1]);
            if p < j - 1 {
                assert(!v[j - 1].started_at.later(v[p].started_at));
            }
        } else if i < p && j < p {
            assert(!v[j].started_at.later(v[i].started_at));
        } else if i < p {
            assert(!v[j - 1].started_at.later(v[i].started_at));
        } else {
            assert(!v[j - 1].started_at.later(v[i - 1].started_at));
        }
    }
}

impl AppState {
    /// The builds by their identifiers.
    pub open spec fn all(self) -> Map<u128, BuildStatus> {
        self.builds@
    }

    /// Each build is held under its own identifier.
    pub open spec fn wf(self) -> bool {
        forall|id: u128| #[trigger] self.all().dom().contains(id) ==> self.all()[id].id == id
    }

    /// A server that has not built anything yet.
    pub fn new(config: Config) -> (res: AppState)
        ensures
            res.wf(),
            res.config == config,
            res.all() == Map::<u128, BuildStatus>::empty(),
    {
        AppState { config, builds: HashMap::new() }
    }

    /// Adds a build that waits for its turn, under a random identifier of version 4, and gives
    /// that identifier.
    pub fn create_build(&mut self, project: &str, number: u64) -> (res: u128)
        requires
            old(self).wf(),
        ensures
            final(self).wf(),
            final(self).config == old(self).config,
            final(self).all() == old(self).all().insert(res, final(self).all()[res]),
            just_queued(
                final(self).all()[res],
                project@,
                res,
                number,
                final(self).all()[res].started_at,
            ),
            (res as int / 0x1000_0000_0000_0000_0000) % 16 == 4,
            (res as int / 0x4000_0000_0000_0000) % 4 == 2,
            final(self).all()[res].started_at.secs() >= 0,
            final(self).all()[res].started_at.nanos() < 1_000_000_000,
    {
        let id: u128 = random_id();
        self.queue_build(project, id, number, Timestamp::now());
        id
    }

    /// Adds a build of the given identifier that waits for its turn since `now`.
    pub fn queue_build(&mut self, project: &str, id: u128, number: u64, now: Timestamp)
        requires
            old(self).wf(),
        ensures
            final(self).wf(),
            final(self).config == old(self).config,
            final(self).all() == old(self).all().insert(id, final(self).all()[id]),
            just_queued(final(self).all()[id], project@, id, number, now),
    {
        let status = BuildStatus {
            id,
            project: project.to_owned(),
            number,
            commit: None,
            previous_commit: None,
            docs_commit: None,
            state: BuildState::Queued,
            started_at: now,
            finished_at: None,
            current_step: None,
            log: String::new(),
            artifacts: Vec::new(),
            error: None,
        };
        self.builds.insert(id, status);
    }

    /// The identifiers of all builds.
    fn ids(&self) -> (res: Vec<u128>)
        ensures
            res@.no_duplicates(),
            forall|id: u128| res@.contains(id) <==> self.all().dom().contains(id),
    {
        let mut out: Vec<u128> = Vec::new();
        for k in it: self.builds.keys()
            invariant
                out@ == it.seq().unref().take(it.index()),
                it.index() == it.seq().len() ==> out@ == it.seq().unref(),
                it.seq().unref().to_set() == self.builds@.dom(),
        {
            out.push(*k);
            proof {
                assert(it.seq().unref().take(it.index() + 1) =~= it.seq().unref().take(
                    it.index(),
                ).push(*k));
            }
        }
        out
    }

    /// The live builds of a project: those to be told to stop when a newer build takes their
    /// place.
    pub fn cancel_superseded_builds(&self, project: &str) -> (res: Vec<u128>)
        requires
            self.wf(),
        ensures
            res@.no_duplicates(),
            forall|id: u128| #[trigger]
                res@.contains(id) <==> self.all().dom().contains(id) && self.all()[id].project@
                    == project@ && self.all()[id].state.live(),
    {
        let ids = self.ids();
        let mut out: Vec<u128> = Vec::new();
        let mut i: usize = 0;
        proof {
            assert(ids@.take(0) =~= seq![]);
        }
        while i < ids.len()
            invariant
                i <= ids@.len(),
                ids@.no_duplicates(),
                forall|id: u128| ids@.contains(id) <==> self.all().dom().contains(id),
                out@.no_duplicates(),
                forall|id: u128| #[trigger]
                    out@.contains(id) <==> ids@.take(i as int).contains(id)
                        && self.all()[id].project@ == project@ && self.all()[id].state.live(),
            decreases ids@.len() - i,
        {
            let id: u128 = ids[i];
            let ghost before = out@;
            proof {
                assert(ids@.contains(id));
                assert(ids@.take(i + 1) =~= ids@.take(i as int).push(id));
                assert(!ids@.take(i as int).contains(id));
                list::lemma_contains_push(ids@.take(i as int), id);
                list::lemma_contains_push(before, id);
            }
            if let Some(b) = self.builds.get(&id) {
                if text::same(b.project.as_str(), project) && b.state.is_live() {
                    out.push(id);
                    assert(!before.contains(id));
                }
            }
            i = i + 1;
        }
        assert(ids@.take(i as int) =~= ids@);
        out
    }

    /// Records that a build is to stop. `sent` says whether the build could be told so; if not,
    /// nothing is recorded.
    pub fn request_cancel_build(&mut self, id: u128, sent: bool, reason: &str) -> (res: bool)
        requires
            old(self).wf(),
        ensures
            final(self).wf(),
            final(self).config == old(self).config,
            res == sent,
            exists|now: Timestamp|
                now.secs() >= 0 && now.nanos() < 1_000_000_000 && #[trigger] stop_recorded(
                    *old(self),
                    *final(self),
                    id,
                    sent,
                    reason@,
                    now,
                ),
    {
        self.record_cancel(id, sent, reason, Timestamp::now());
        sent
    }

    /// Records that a build was told to stop at `now`, if it was.
    pub fn record_cancel(&mut self, id: u128, sent: bool, reason: &str, now: Timestamp)
        requires
            old(self).wf(),
        ensures
            final(self).wf(),
            final(self).config == old(self).config,
            stop_recorded(*old(self), *final(self), id, sent, reason@, now),
    {
        let ghost before = self.all();
        if sent {
            if let Some(found) = self.builds.remove(&id) {
                let mut b = found;
                if b.state.is_live() {
                    b.log.append(reason);
                    if let BuildState::Queued = b.state {
                        b.state = BuildState::Canceled;
                        b.finished_at = Some(now);
                        b.current_step = None;
                    }
                }
                self.builds.insert(id, b);
                assert(self.all() =~= before.insert(id, b));
                assert(b == found ==> self.all() =~= before);
            }
        }
        assert(!before.dom().contains(id) ==> self.all() =~= before);
    }

    /// Replaces a build by what `f` makes of it. The state stays well formed exactly where `f` keeps
    /// the identifier.
    pub fn update_build<F: FnOnce(BuildStatus) -> BuildStatus>(&mut self, id: u128, f: F)
        requires
            old(self).wf(),
            old(self).all().dom().contains(id) ==> f.requires((old(self).all()[id],)),
        ensures
            final(self).wf() <==> (old(self).all().dom().contains(id) ==> final(self).all()[id].id
                == id),
            final(self).config == old(self).config,
            old(self).all().dom().contains(id) ==> {
                &&& final(self).all() == old(self).all().insert(id, final(self).all()[id])
                &&& f.ensures((old(self).all()[id],), final(self).all()[id])
            },
            !old(self).all().dom().contains(id) ==> final(self).all() == old(self).all(),
    {
        if let Some(found) = self.builds.remove(&id) {
            let b = f(found);
            self.builds.insert(id, b);
            assert(self.all().dom().contains(id));
        } else {
            assert(self.all() =~= old(self).all());
        }
    }

    /// Adds to the log of a build.
    pub fn append_log(&mut self, id: u128, s: &str)
        requires
            old(self).wf(),
        ensures
            final(self).wf(),
            final(self).config == old(self).config,
            old(self).all().dom().contains(id) ==> {
                &&& final(self).all() == old(self).all().insert(id, final(self).all()[id])
                &&& final(self).all()[id] == (BuildStatus {
                    log: final(self).all()[id].log,
                    ..old(self).all()[id]
                })
                &&& final(self).all()[id].log@ == old(self).all()[id].log@ + s@
            },
            !old(self).all().dom().contains(id) ==> final(self).all() == old(self).all(),
    {
        if let Some(found) = self.builds.remove(&id) {
            let mut b = found;
            b.log.append(s);
            self.builds.insert(id, b);
        }
    }

    /// One build.
    pub fn get_build(&self, id: u128) -> (res: Option<&BuildStatus>)
        ensures
            match res {
                Some(b) => self.all().contains_pair(id, *b),
                None => !self.all().dom().contains(id),
            },
    {
        self.builds.get(&id)
    }

    /// All builds, those that began last first.
    pub fn list_builds(&self) -> (res: Vec<&BuildStatus>)
        requires
            self.wf(),
        ensures
            lists_all(referred(res@), self.all()),
            newest_first(referred(res@)),
    {
        let ids = self.ids();
        let mut out: Vec<&BuildStatus> = Vec::new();
        let mut i: usize = 0;
        while i < ids.len()
            invariant
                i <= ids@.len(),
                self.wf(),
                ids@.no_duplicates(),
                forall|id: u128| ids@.contains(id) <==> self.all().dom().contains(id),
                forall|k: int|
                    0 <= k < out@.len() ==> self.all().contains_pair(
                        (#[trigger] out@[k]).id,
                        *out@[k],
                    ) && ids@.take(i as int).contains(out@[k].id),
                forall|j: int, k: int| 0 <= j < k < out@.len() ==> out@[j].id != out@[k].id,
                forall|m: int|
                    0 <= m < i ==> exists|k: int|
                        0 <= k < out@.len() && (#[trigger] out@[k]).id == #[trigger] ids@[m],
                newest_first(referred(out@)),
            decreases ids@.len() - i,
        {
            let id: u128 = ids[i];
            proof {
                assert(ids@.contains(id));
                assert(ids@.take(i + 1) =~= ids@.take(i as int).push(id));
                assert(!ids@.take(i as int).contains(id));
                list::lemma_contains_push(ids@.take(i as int), id);
            }
            if let Some(b) = self.builds.get(&id) {
                let ghost before = out@;
                let mut p: usize = 0;
                while p < out.len() && !b.started_at.is_later(&out[p].started_at)
                    invariant
                        p <= out@.len(),
                        forall|k: int|
                            0 <= k < p ==> !b.started_at.later((#[trigger] out@[k]).started_at),
                    decreases out@.len() - p,
                {
                    p = p + 1;
                }
                out.insert(p, b);
                proof {
                    assert(referred(out@) =~= referred(before).insert(p as int, *b));
                    lemma_newest_first_insert(referred(before), p as int, *b);
                    assert forall|m: int| 0 <= m < i + 1 implies exists|k: int|
                        0 <= k < out@.len() && (#[trigger] out@[k]).id == #[trigger] ids@[m] by {
                        if m < i {
                            let k = choose|k: int|
                                0 <= k < before.len() && (#[trigger] before[k]).id == ids@[m];
                            if k < p {
                                assert(out@[k] == before[k]);
                            } else {
                                assert(out@[k + 1] == before[k]);
                            }
                        } else {
                            assert(out@[p as int].id == ids@[m]);
                        }
                    }
                }
            }
            i = i + 1;
        }
        proof {
            let v = referred(out@);
            assert forall|id: u128| #[trigger] self.all().dom().contains(id) implies exists|k: int|
                0 <= k < v.len() && (#[trigger] v[k]).id == id by {
                assert(ids@.contains(id));
                let m = choose|m: int| 0 <= m < ids@.len() && ids@[m] == id;
                let k = choose|k: int|
                    0 <= k < out@.len() && (#[trigger] out@[k]).id == ids@[m];
                assert(v[k].id == id);
            }
        }
        out
    }

    /// Adds the builds that were kept from earlier runs, a later one in place of an earlier one
    /// with the same identifier, and says how many there were. An entry that gives no build is
    /// passed over.
    pub fn load_persisted_builds(&mut self, found: Vec<StoredBuild>) -> (res: usize)
        requires
            old(self).wf(),
        ensures
            final(self).wf(),
            final(self).config == old(self).config,
            final(self).all() == with_found(old(self).all(), found@),
            res == found_count(found@),
    {
        let ghost all = found@;
        let ghost given = |e: StoredBuild| e.counts();
        assert(found.len() == all.len());
        let mut count: usize = 0;
        assert(all.take(0) =~= seq![]);
        proof {
            reveal(Seq::filter);
        }
        for e in it: found
            invariant
                it.seq() == all,
                given == (|e: StoredBuild| e.counts()),
                count == all.take(it.index()).filter(given).len(),
                count <= it.index(),
                all.len() <= usize::MAX,
                self.wf(),
                self.config == old(self).config,
                self.all() == with_found(old(self).all(), all.take(it.index())),
        {
            proof {
                let i = it.index();
                assert(all.take(i + 1).drop_last() =~= all.take(i));
                assert(all.take(i + 1) =~= all.take(i).push(all[i]));
                list::lemma_filter_push(all.take(i), given, all[i]);
            }
            if may_hold_build(e.name.as_str()) {
                match e.build {
                    Some(b) => {
                        self.builds.insert(b.id, b);
                        count = count + 1;
                    },
                    None => {},
                }
            }
        }
        assert(all.take(all.len() as int) =~= all);
        count
    }
}

// ---------------------------------------------------------------------------------------------
// What is kept on disk
// ---------------------------------------------------------------------------------------------
/// The number of the last build, as it was stored; zero where nothing legible was.
pub open spec fn last_number(stored: Option<Seq<char>>) -> u64 {
    match stored {
        Some(s) => match numbers::parsed_u64(text::trimmed(s, CharClass::Space)) {
            Some(n) => n,
            None => 0,
        },
        None => 0,
    }
}

/// The last commit that was built, as it was stored.
pub open spec fn last_commit(stored: Option<Seq<char>>) -> Option<Seq<char>> {
    match stored {
        Some(s) => if text::trimmed(s, CharClass::Space).len() == 0 {
            None
        } else {
            Some(text::trimmed(s, CharClass::Space))
        },
        None => None,
    }
}

/// The directory of a project's artifacts.
pub open spec fn project_path(config: Config, project: Seq<char>) -> Seq<char> {
    paths::joined(config.storage.artifacts_dir@, project)
}

/// The directory of a build's artifacts.
pub open spec fn build_path(config: Config, project: Seq<char>, id: u128) -> Seq<char> {
    paths::joined(project_path(config, project), crate::outside::uuid_text(id))
}

impl AppState {
    /// The number of the last build, from the text that was stored.
    pub fn last_build_number(stored: Option<&str>) -> (res: u64)
        ensures
            res == last_number(text::opt_slice(stored)),
    {
        match stored {
            Some(s) => match numbers::parse_u64(text::trim(s, CharClass::Space)) {
                Some(n) => n,
                None => 0,
            },
            None => 0,
        }
    }

    /// The number of the next build, from the text that was stored for the last one.
    pub fn next_build_number(stored: Option<&str>) -> (res: u64)
        requires
            last_number(text::opt_slice(stored)) < u64::MAX,
        ensures
            res == last_number(text::opt_slice(stored)) + 1,
    {
        AppState::last_build_number(stored) + 1
    }

    /// The last commit that was built, from the text that was stored.
    pub fn last_built_commit(stored: Option<&str>) -> (res: Option<String>)
        ensures
            text::opt_text(res) == last_commit(text::opt_slice(stored)),
    {
        match stored {
            Some(s) => {
                let t = text::trim(s, CharClass::Space);
                if t.is_empty() {
                    None
                } else {
                    Some(t.to_owned())
                }
            },
            None => None,
        }
    }

    /// The directory of a project's artifacts.
    pub fn project_dir(&self, project: &str) -> (res: String)
        ensures
            res@ == project_path(self.config, project@),
    {
        paths::join(self.config.storage.artifacts_dir.as_str(), project)
    }

    /// The directory of a build's artifacts.
    pub fn build_dir(&self, project: &str, id: u128) -> (res: String)
        ensures
            res@ == build_path(self.config, project@, id),
    {
        paths::join(self.project_dir(project).as_str(), uuid_to_text(id).as_str())
    }

    /// Where the number of a project's last build is stored.
    pub fn build_number_file(&self, project: &str) -> (res: String)
        ensures
            res@ == paths::joined(project_path(self.config, project@), ".build_number"@),
    {
        paths::join(self.project_dir(project).as_str(), ".build_number")
    }

    /// Where the last commit that was built of a project is stored.
    pub fn last_commit_file(&self, project: &str) -> (res: String)
        ensures
            res@ == paths::joined(project_path(self.config, project@), ".last_commit"@),
    {
        paths::join(self.project_dir(project).as_str(), ".last_commit")
    }

    /// The link to the latest build of a project that succeeded, and what it leads to: the
    /// directory of that build, beside the link.
    pub fn latest_link(&self, project: &str, id: u128) -> (res: (String, String))
        ensures
            res.0@ == paths::joined(project_path(self.config, project@), "latest"@),
            res.1@ == crate::outside::uuid_text(id),
    {
        (paths::join(self.project_dir(project).as_str(), "latest"), uuid_to_text(id))
    }

    /// Where a finished build is stored.
    pub fn build_file(&self, project: &str, id: u128) -> (res: String)
        ensures
            res@ == paths::joined(build_path(self.config, project@, id), "build.json"@),
    {
        paths::join(self.build_dir(project, id).as_str(), "build.json")
    }
}

/// Whether an entry of a project's directory may hold a build: the link to the latest build and
/// hidden entries do not.
pub fn may_hold_build(name: &str) -> (res: bool)
    ensures
        res == names_build(name@),
{
    let v = text::chars_of(name);
    !text::same(name, "latest") && !(v.len() > 0 && v[0] == '.')
}

// ---------------------------------------------------------------------------------------------
// Laws
// ---------------------------------------------------------------------------------------------
/// A build number that is stored is the last number when it is read back, so the numbers of a
/// project grow by one from build to build.
pub proof fn law_build_numbers_grow(n: u64)
    ensures
        last_number(Some(numbers::decimal(n as nat))) == n,
{
    let s = numbers::decimal(n as nat);
    numbers::lemma_decimal_digits(n as nat);
    numbers::law_decimal_round_trip(n);
    assert(numbers::is_digit(s[0]));
    assert(numbers::is_digit(s.last()));
    text::lemma_trimmed_clean(s, CharClass::Space);
}

/// A commit that is stored is the last commit when it is read back; a commit is trimmed text.
pub proof fn law_last_commit_kept(s: Seq<char>)
    requires
        text::trimmed(s, CharClass::Space).len() > 0,
    ensures
        last_commit(Some(text::trimmed(s, CharClass::Space))) == Some(
            text::trimmed(s, CharClass::Space),
        ),
{
    text::law_trim_once(s, CharClass::Space);
}

/// After loading, a build is known if it was known before or an entry gives it. One that no entry
/// gives is unchanged.
pub proof fn law_loaded_builds(
    builds: Map<u128, BuildStatus>,
    found: Seq<StoredBuild>,
    id: u128,
)
    ensures
        with_found(builds, found).dom().contains(id) <==> builds.dom().contains(id) || exists|i: int|
            0 <= i < found.len() && (#[trigger] found[i]).gives(id),
        (forall|i: int| 0 <= i < found.len() ==> !(#[trigger] found[i]).gives(id))
            && builds.dom().contains(id) ==> with_found(builds, found)[id] == builds[id],
    decreases found.len(),
{
    if found.len() > 0 {
        let rest = found.drop_last();
        law_loaded_builds(builds, rest, id);
        assert(forall|i: int| 0 <= i < rest.len() ==> #[trigger] rest[i] == found[i]);
        if exists|i: int| 0 <= i < rest.len() && (#[trigger] rest[i]).gives(id) {
            let i = choose|i: int| 0 <= i < rest.len() && (#[trigger] rest[i]).gives(id);
            assert(found[i].gives(id));
        }
        if exists|i: int| 0 <= i < found.len() && (#[trigger] found[i]).gives(id) {
            let i = choose|i: int| 0 <= i < found.len() && (#[trigger] found[i]).gives(id);
            if i < rest.len() {
                assert(rest[i].gives(id));
            }
        }
        assert(found.last() == found[found.len() - 1]);
    }
}

/// The last entry that gives a build of some identifier decides what is known under it.
pub proof fn law_last_found_wins(
    builds: Map<u128, BuildStatus>,
    found: Seq<StoredBuild>,
    i: int,
)
    requires
        0 <= i < found.len(),
        found[i].counts(),
        forall|j: int|
            i < j < found.len() ==> !(#[trigger] found[j]).gives(found[i].build->0.id),
    ensures
        with_found(builds, found).contains_pair(found[i].build->0.id, found[i].build->0),
    decreases found.len(),
{
    let rest = found.drop_last();
    if i < rest.len() {
        assert forall|j: int| i < j < rest.len() implies !(#[trigger] rest[j]).gives(
            rest[i].build->0.id,
        ) by {
            assert(rest[j] == found[j]);
        }
        law_last_found_wins(builds, rest, i);
        assert(!found[found.len() - 1].gives(found[i].build->0.id));
    }
}

/// An entry without a legible build, the link to the latest build and hidden entries are passed
/// over: the other entries are loaded as if it were not there.
pub proof fn law_skipped_entry(
    builds: Map<u128, BuildStatus>,
    found: Seq<StoredBuild>,
    i: int,
)
    requires
        0 <= i < found.len(),
        !found[i].counts(),
    ensures
        with_found(builds, found) == with_found(builds, found.remove(i)),
    decreases found.len(),
{
    if i == found.len() - 1 {
        assert(found.remove(i) =~= found.drop_last());
    } else {
        law_skipped_entry(builds, found.drop_last(), i);
        assert(found.remove(i).drop_last() =~= found.drop_last().remove(i));
        assert(found.remove(i).last() == found.last());
    }
}

/// A build that is stored in its directory, which its identifier names, is known again after a
/// restart as it was stored, whatever stands in the other entries, unless a later one gives a build
/// of the same identifier.
pub proof fn law_stored_build_is_loaded(
    builds: Map<u128, BuildStatus>,
    found: Seq<StoredBuild>,
    i: int,
    build: BuildStatus,
)
    requires
        0 <= i < found.len(),
        found[i].name@ == crate::outside::uuid_text(build.id),
        found[i].build == Some(build),
        forall|j: int| i < j < found.len() ==> !(#[trigger] found[j]).gives(build.id),
    ensures
        with_found(builds, found).contains_pair(build.id, build),
{
    let name = crate::outside::uuid_text(build.id);
    reveal_strlit("latest");
    assert(name.len() == 36);
    assert(name[0] == crate::outside::uuid_digits(build.id)[0]);
    let top = (build.id as int / vstd::arithmetic::power::pow(16, 31)) % 16;
    assert(crate::outside::uuid_digits(build.id)[0] == crate::outside::hex_digit(top));
    assert(0 <= top < 16);
    law_last_found_wins(builds, found, i);
}

/// A build that waits is canceled at once when it is asked to stop; one that runs goes on until it is
/// told. Of either, the reason is added to the log, and nothing else changes.
pub proof fn law_stopping(a: BuildStatus, b: BuildStatus, reason: Seq<char>, now: Timestamp)
    requires
        asked_to_stop(a, b, reason, now),
    ensures
        b.log@ == a.log@ + reason,
        a.state == BuildState::Queued ==> b.state == BuildState::Canceled && b.finished_at == Some(
            now,
        ) && b.current_step is None,
        a.state == BuildState::Running ==> b.state == BuildState::Running && b.finished_at
            == a.finished_at && b.current_step == a.current_step,
        b.id == a.id && b.project == a.project && b.number == a.number && b.commit == a.commit
            && b.previous_commit == a.previous_commit && b.docs_commit == a.docs_commit
            && b.started_at == a.started_at && b.artifacts == a.artifacts && b.error == a.error,
{
}

/// A request to stop changes no other build, and nothing where the build could not be told, is not
/// known or has ended.
pub proof fn law_stopping_changes_one(
    a: AppState,
    b: AppState,
    id: u128,
    sent: bool,
    reason: Seq<char>,
    now: Timestamp,
    other: u128,
)
    requires
        stop_recorded(a, b, id, sent, reason, now),
    ensures
        other != id ==> (b.all().dom().contains(other) <==> a.all().dom().contains(other))
            && b.all()[other] == a.all()[other],
        !sent || !a.all().dom().contains(id) || a.all()[id].state == BuildState::Success
            || a.all()[id].state == BuildState::Failed || a.all()[id].state == BuildState::Canceled
            ==> b.all() == a.all(),
        sent && a.all().dom().contains(id) && a.all()[id].state == BuildState::Queued ==> b.all()[id].state
            == BuildState::Canceled,
{
}

/// A listing has every build exactly once, and as many entries as there are builds; those that began
/// later stand before those that began earlier.
pub proof fn law_listing_complete(v: Seq<BuildStatus>, builds: Map<u128, BuildStatus>, id: u128)
    requires
        lists_all(v, builds),
        newest_first(v),
        forall|k: u128| #[trigger] builds.dom().contains(k) ==> builds[k].id == k,
    ensures
        builds.dom().contains(id) ==> v.contains(builds[id]),
        forall|i: int|
            0 <= i < v.len() ==> builds.dom().contains((#[trigger] v[i]).id) && builds[v[i].id]
                == v[i],
        v.no_duplicates(),
        forall|i: int, j: int|
            0 <= i < v.len() && 0 <= j < v.len() && (#[trigger] v[i]).started_at.later(
                (#[trigger] v[j]).started_at,
            ) ==> i < j,
{
    if builds.dom().contains(id) {
        let i = choose|i: int| 0 <= i < v.len() && (#[trigger] v[i]).id == id;
        assert(builds.contains_pair(v[i].id, v[i]));
        assert(v[i] == builds[id]);
    }
    assert forall|i: int| 0 <= i < v.len() implies builds.dom().contains((#[trigger] v[i]).id)
        && builds[v[i].id] == v[i] by {
        assert(builds.contains_pair(v[i].id, v[i]));
    }
    assert forall|i: int, j: int|
        0 <= i < v.len() && 0 <= j < v.len() && (#[trigger] v[i]).started_at.later(
            (#[trigger] v[j]).started_at,
        ) implies i < j by {
        if j < i {
            assert(!v[i].started_at.later(v[j].started_at));
        }
    }
}

/// The artifacts of a build lie under the directory of artifacts, by the name of the project and the
/// identifier of the build.
pub proof fn law_where_builds_lie(config: Config, project: Seq<char>, id: u128)
    requires
        config.storage.artifacts_dir@.len() > 0,
        config.storage.artifacts_dir@.last() != '/',
        project.len() > 0,
        project[0] != '/',
        project.last() != '/',
    ensures
        project_path(config, project) == config.storage.artifacts_dir@ + seq!['/'] + project,
        build_path(config, project, id) == config.storage.artifacts_dir@ + seq!['/'] + project + seq![
            '/',
        ] + crate::outside::uuid_text(id),
{
    let dir = config.storage.artifacts_dir@;
    let uuid = crate::outside::uuid_text(id);
    assert(dir.push('/') + project =~= dir + seq!['/'] + project);
    let p = dir + seq!['/'] + project;
    assert(p.last() == project.last());
    let top = (id as int / vstd::arithmetic::power::pow(16, 31)) % 16;
    assert(uuid[0] == crate::outside::uuid_digits(id)[0]);
    assert(crate::outside::uuid_digits(id)[0] == crate::outside::hex_digit(top));
    assert(p.push('/') + uuid =~= p + seq!['/'] + uuid);
}

/// What was stored of the last commit is read without white space around it; what is nothing but
/// white space is no commit.
pub proof fn law_stored_commit_trimmed(a: Seq<char>, commit: Seq<char>, b: Seq<char>)
    requires
        commit.len() > 0,
        !text::is_space(commit[0]),
        !text::is_space(commit.last()),
        forall|k: int| 0 <= k < a.len() ==> text::is_space(#[trigger] a[k]),
        forall|k: int| 0 <= k < b.len() ==> text::is_space(#[trigger] b[k]),
    ensures
        last_commit(Some(a + commit + b)) == Some(commit),
        last_commit(Some(seq![])) is None,
        last_commit(None) is None,
{
    text::law_trimmed(a, commit, b, CharClass::Space);
}

/// Only the link to the latest build and hidden entries are no builds.
pub proof fn law_which_entries_are_builds(name: Seq<char>)
    ensures
        !names_build("latest"@),
        !names_build(seq!['.'] + name),
        name != "latest"@ && name.len() > 0 && name[0] != '.' ==> names_build(name),
{
}

/// A build that has just been queued waits, under its number and its project, and has nothing else.
pub proof fn law_new_build(
    b: BuildStatus,
    project: Seq<char>,
    id: u128,
    number: u64,
    now: Timestamp,
)
    requires
        just_queued(b, project, id, number, now),
    ensures
        b.id == id && b.project@ == project && b.number == number && b.started_at == now,
        b.state == BuildState::Queued,
        b@ == (crate::state::BuildView {
            id,
            project,
            number,
            commit: None,
            previous_commit: None,
            docs_commit: None,
            state: BuildState::Queued,
            started_at: now,
            finished_at: None,
            current_step: None,
            log: seq![],
            artifacts: seq![],
            error: None,
        }),
{
    assert(b.log@ =~= seq![]);
    assert(b.artifacts@ =~= seq![]);
}

/// The last build number is what was stored, with or without space around it; what is no number
/// counts as none yet.
pub proof fn law_stored_number(before: Seq<char>, n: u64, after: Seq<char>, other: Seq<char>)
    requires
        forall|i: int| 0 <= i < before.len() ==> text::is_space(#[trigger] before[i]),
        forall|i: int| 0 <= i < after.len() ==> text::is_space(#[trigger] after[i]),
        numbers::parsed_u64(text::trimmed(other, CharClass::Space)) is None,
    ensures
        last_number(Some(before + numbers::decimal(n as nat) + after)) == n,
        last_number(Some(other)) == 0,
        last_number(None) == 0,
{
    let mid = numbers::decimal(n as nat);
    numbers::lemma_decimal_digits(n as nat);
    numbers::law_decimal_round_trip(n);
    assert(numbers::is_digit(mid[0]));
    assert(numbers::is_digit(mid.last()));
    text::law_trimmed(before, mid, after, CharClass::Space);
}

/// Every entry that counts is counted once, and no other.
pub proof fn law_found_count(a: Seq<StoredBuild>, c: Seq<StoredBuild>, one: StoredBuild)
    ensures
        found_count(a + c) == found_count(a) + found_count(c),
        found_count(seq![one]) == (if names_build(one.name@) && one.build is Some {
            1nat
        } else {
            0nat
        }),
        found_count(seq![]) == 0,
    decreases c.len(),
{
    reveal(Seq::filter);
    let p = |e: StoredBuild| e.counts();
    let none = Seq::<StoredBuild>::empty();
    assert(none.filter(p) =~= none);
    list::lemma_filter_push(none, p, one);
    assert(none.push(one) =~= seq![one]);
    if c.len() == 0 {
        assert(a + c =~= a);
        assert(c =~= none);
    } else {
        let up = c.drop_last();
        law_found_count(a, up, one);
        list::lemma_filter_push(a + up, p, c.last());
        list::lemma_filter_push(up, p, c.last());
        assert((a + up).push(c.last()) =~= a + c);
        assert(up.push(c.last()) =~= c);
    }
}

} // verus!
