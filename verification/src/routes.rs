//! The answers of the programming interface.

use crate::auth::{self, Principal, Viewer};
use crate::config::{Config, ProjectConfig};
use crate::error::{ApiError, FORBIDDEN, NOT_FOUND};
use crate::request::Headers;
use crate::state::{self, AppState, ArtifactRef, BuildStatus};
use crate::text::{self, CharClass};
use vstd::prelude::*;

verus! {

// ---------------------------------------------------------------------------------------------
// Projects and builds
// ---------------------------------------------------------------------------------------------
/// Whether a viewer may see the build: there is a project of its name, and the viewer may see it.
pub open spec fn may_view_build(viewer: Viewer, config: Config, build: BuildStatus) -> bool {
    config.named(build.project@) matches Some(p) && auth::may_view(viewer, p)
}

/// The builds that a viewer may see.
pub open spec fn viewable(viewer: Viewer, state: AppState) -> Map<u128, BuildStatus> {
    Map::new(
        |id: u128|
            state.all().dom().contains(id) && may_view_build(
                viewer,
                state.config,
                state.all()[id],
            ),
        |id: u128| state.all()[id],
    )
}

/// The names of the projects that a viewer may see, in the order of the configuration.
pub open spec fn visible_names(viewer: Viewer, config: Config) -> Seq<Seq<char>> {
    auth::visible(viewer, config).map_values(|p: ProjectConfig| p.name@)
}

/// The names of the projects that a request may see, in the order of the configuration.
pub fn list_projects<'a>(config: &'a Config, headers: &Headers) -> (res: Vec<&'a str>)
    ensures
        text::slices(res@) == visible_names(auth::sender(*headers, *config), *config),
{
    let principal = auth::authenticate(headers, config);
    let projects = auth::visible_projects(principal.as_ref(), config);
    let ghost viewer = auth::sender(*headers, *config);
    let ghost seen = auth::visible(viewer, *config);
    let ghost names = visible_names(viewer, *config);
    let mut out: Vec<&'a str> = Vec::new();
    let mut i: usize = 0;
    assert(text::slices(out@) =~= names.take(0));
    while i < projects.len()
        invariant
            i <= projects@.len(),
            seen == projects@.map_values(|p: &ProjectConfig| *p),
            names == seen.map_values(|p: ProjectConfig| p.name@),
            text::slices(out@) == names.take(i as int),
        decreases projects@.len() - i,
    {
        let ghost before = text::slices(out@);
        let project: &'a ProjectConfig = projects[i];
        let name = project.name.as_str();
        out.push(name);
        proof {
            assert(seen[i as int] == *project);
            assert(text::slices(out@) =~= before.push(name@));
            assert(names.take(i + 1) =~= names.take(i as int).push(name@));
        }
        i = i + 1;
    }
    assert(names.take(i as int) =~= names);
    out
}

/// Whether a request of the given account may see the build.
fn can_view_build(principal: Option<&Principal>, config: &Config, build: &BuildStatus) -> (res: bool)
    ensures
        res == may_view_build(Viewer::of(principal), *config, *build),
{
    match config.project(build.project.as_str()) {
        Some(p) => auth::can_view_project(principal, p),
        None => false,
    }
}

/// The builds that a request of the given account may see, those that began last first.
pub fn visible_builds<'a>(principal: Option<&Principal>, state: &'a AppState) -> (res: Vec<
    &'a BuildStatus,
>)
    requires
        state.wf(),
    ensures
        state::lists_all(state::referred(res@), viewable(Viewer::of(principal), *state)),
        state::newest_first(state::referred(res@)),
{
    let builds = state.list_builds();
    let ghost seen = viewable(Viewer::of(principal), *state);
    let mut out: Vec<&'a BuildStatus> = Vec::new();
    let mut i: usize = 0;
    while i < builds.len()
        invariant
            i <= builds@.len(),
            seen == viewable(Viewer::of(principal), *state),
            state::lists_all(state::referred(builds@), state.all()),
            state::newest_first(state::referred(builds@)),
            state::newest_first(state::referred(out@)),
            forall|k: int|
                0 <= k < out@.len() ==> seen.contains_pair((#[trigger] out@[k]).id, *out@[k])
                    && exists|m: int| 0 <= m < i && #[trigger] builds@[m] == out@[k],
            forall|j: int, k: int| 0 <= j < k < out@.len() ==> out@[j].id != out@[k].id,
            forall|m: int|
                0 <= m < i && may_view_build(
                    Viewer::of(principal),
                    state.config,
                    *#[trigger] builds@[m],
                ) ==> exists|k: int| 0 <= k < out@.len() && #[trigger] out@[k] == builds@[m],
        decreases builds@.len() - i,
    {
        let b: &'a BuildStatus = builds[i];
        let ghost before = out@;
        let ghost all = state::referred(builds@);
        assert(all[i as int] == *b);
        if can_view_build(principal, &state.config, b) {
            out.push(b);
            proof {
                assert forall|k: int| 0 <= k < before.len() implies before[k].id != b.id
                    && !b.started_at.later((#[trigger] before[k]).started_at) by {
                    let m = choose|m: int| 0 <= m < i && #[trigger] builds@[m] == before[k];
                    assert(all[m] == *before[k]);
                }
                let v = state::referred(out@);
                assert forall|j: int, k: int| 0 <= j < k < v.len() implies !v[k].started_at.later(
                    v[j].started_at,
                ) by {
                    assert(v[j] == *out@[j]);
                    assert(out@[j] == before[j]);
                    if k < before.len() {
                        assert(state::referred(before)[j] == v[j]);
                        assert(state::referred(before)[k] == v[k]);
                    }
                }
                assert(out@[before.len() as int] == builds@[i as int]);
            }
        }
        proof {
            assert forall|m: int|
                0 <= m < i + 1 && may_view_build(
                    Viewer::of(principal),
                    state.config,
                    *#[trigger] builds@[m],
                ) implies exists|k: int| 0 <= k < out@.len() && #[trigger] out@[k] == builds@[m] by {
                if m < i {
                    let k = choose|k: int| 0 <= k < before.len() && #[trigger] before[k] == builds@[m];
                    assert(out@[k] == builds@[m]);
                }
            }
            assert forall|k: int| 0 <= k < out@.len() implies exists|m: int|
                0 <= m < i + 1 && #[trigger] builds@[m] == #[trigger] out@[k] by {
                if k < before.len() {
                    assert(out@[k] == before[k]);
                    let m = choose|m: int| 0 <= m < i && #[trigger] builds@[m] == before[k];
                    assert(builds@[m] == out@[k]);
                }
            }
        }
        i = i + 1;
    }
    proof {
        let v = state::referred(out@);
        let all = state::referred(builds@);
        assert forall|id: u128| #[trigger] seen.dom().contains(id) implies exists|k: int|
            0 <= k < v.len() && (#[trigger] v[k]).id == id by {
            assert(state.all().dom().contains(id));
            let m = choose|m: int| 0 <= m < all.len() && (#[trigger] all[m]).id == id;
            assert(all[m] == *builds@[m]);
            assert(state.all().contains_pair(all[m].id, all[m]));
            let k = choose|k: int| 0 <= k < out@.len() && #[trigger] out@[k] == builds@[m];
            assert(v[k].id == id);
        }
        assert forall|k: int| 0 <= k < v.len() implies seen.contains_pair(
            (#[trigger] v[k]).id,
            v[k],
        ) by {
            assert(v[k] == *out@[k]);
        }
    }
    out
}

/// The builds that a request may see, those that began last first.
pub fn list_builds<'a>(state: &'a AppState, headers: &Headers) -> (res: Vec<&'a BuildStatus>)
    requires
        state.wf(),
    ensures
        state::lists_all(
            state::referred(res@),
            viewable(auth::sender(*headers, state.config), *state),
        ),
        state::newest_first(state::referred(res@)),
{
    let principal = auth::authenticate(headers, &state.config);
    visible_builds(principal.as_ref(), state)
}

/// Whether `res` is the right answer to a request for one build.
pub open spec fn shows_build(
    res: Result<&BuildStatus, ApiError>,
    state: AppState,
    id: u128,
    viewer: Viewer,
) -> bool {
    if !state.all().dom().contains(id) {
        res matches Err(e) && e.is(NOT_FOUND, "build not found"@)
    } else {
        let build = state.all()[id];
        match state.config.named(build.project@) {
            None => res matches Err(e) && e.is(NOT_FOUND, "project not found"@),
            Some(p) => if auth::may_view(viewer, p) {
                res matches Ok(b) && *b == build
            } else {
                res matches Err(e) && e.is(NOT_FOUND, "not found"@)
            },
        }
    }
}

/// One build, for a request that may see it.
pub fn get_build<'a>(state: &'a AppState, headers: &Headers, id: u128) -> (res: Result<
    &'a BuildStatus,
    ApiError,
>)
    ensures
        shows_build(res, *state, id, auth::sender(*headers, state.config)),
{
    let build = match state.get_build(id) {
        Some(b) => b,
        None => {
            return Err(ApiError::not_found("build not found"));
        },
    };
    let project = match state.config.project(build.project.as_str()) {
        Some(p) => p,
        None => {
            return Err(ApiError::not_found("project not found"));
        },
    };
    let principal = auth::authenticate(headers, &state.config);
    match auth::require_project_access(principal.as_ref(), project) {
        Ok(_) => Ok(build),
        Err(e) => Err(e),
    }
}

/// The artifacts of builds, one build after the other.
pub open spec fn artifacts_in(builds: Seq<BuildStatus>) -> Seq<ArtifactRef>
    decreases builds.len(),
{
    if builds.len() == 0 {
        seq![]
    } else {
        artifacts_in(builds.drop_last()) + builds.last().artifacts@
    }
}

/// The artifacts of builds, one build after the other.
pub fn artifacts_of<'a>(builds: &Vec<&'a BuildStatus>) -> (res: Vec<&'a ArtifactRef>)
    ensures
        res@.map_values(|a: &ArtifactRef| *a) == artifacts_in(state::referred(builds@)),
{
    let ghost all = state::referred(builds@);
    let ghost f = |a: &ArtifactRef| *a;
    let mut out: Vec<&'a ArtifactRef> = Vec::new();
    let mut i: usize = 0;
    assert(all.take(0) =~= seq![]);
    assert(out@.map_values(f) =~= seq![]);
    while i < builds.len()
        invariant
            i <= builds@.len(),
            all == state::referred(builds@),
            f == (|a: &ArtifactRef| *a),
            out@.map_values(f) == artifacts_in(all.take(i as int)),
        decreases builds@.len() - i,
    {
        let b: &'a BuildStatus = builds[i];
        let ghost before = out@.map_values(f);
        let mut j: usize = 0;
        proof {
            assert(all.take(i + 1).drop_last() =~= all.take(i as int));
            assert(all[i as int] == *b);
            assert(before + b.artifacts@.take(0) =~= before);
        }
        while j < b.artifacts.len()
            invariant
                j <= b.artifacts@.len(),
                f == (|a: &ArtifactRef| *a),
                out@.map_values(f) == before + b.artifacts@.take(j as int),
            decreases b.artifacts@.len() - j,
        {
            let ghost now = out@.map_values(f);
            out.push(&b.artifacts[j]);
            proof {
                assert(out@.map_values(f) =~= now.push(b.artifacts@[j as int]));
                assert(b.artifacts@.take(j + 1) =~= b.artifacts@.take(j as int).push(
                    b.artifacts@[j as int],
                ));
                assert(out@.map_values(f) =~= before + b.artifacts@.take(j + 1));
            }
            j = j + 1;
        }
        assert(b.artifacts@.take(j as int) =~= b.artifacts@);
        i = i + 1;
    }
    assert(all.take(i as int) =~= all);
    out
}

/// The artifacts of the builds that a request may see, those of the builds that began last first.
pub fn list_artifacts<'a>(state: &'a AppState, headers: &Headers) -> (res: Vec<&'a ArtifactRef>)
    requires
        state.wf(),
    ensures
        exists|builds: Seq<BuildStatus>|
            {
                &&& state::lists_all(
                    builds,
                    viewable(auth::sender(*headers, state.config), *state),
                )
                &&& state::newest_first(builds)
                &&& res@.map_values(|a: &ArtifactRef| *a) == #[trigger] artifacts_in(builds)
            },
{
    let builds = list_builds(state, headers);
    artifacts_of(&builds)
}

// ---------------------------------------------------------------------------------------------
// Starting a build by hand
// ---------------------------------------------------------------------------------------------
/// The project that is to be built.
#[derive(Debug, Clone)]
pub struct TriggerBody {
    pub project: String,
}

/// An address of the Internet Protocol, as a number.
#[derive(Debug, Clone, Copy, PartialEq, Eq, Structural)]
pub enum IpAddr {
    V4(u32),
    V6(u128),
}

/// Whether an address of version 4 is of the network 127.0.0.0/8.
pub open spec fn loopback_v4(a: int) -> bool {
    a / 0x100_0000 == 127
}

/// Whether an address of version 4 is of one of the networks 10.0.0.0/8, 172.16.0.0/12 and
/// 192.168.0.0/16.
pub open spec fn private_v4(a: int) -> bool {
    a / 0x100_0000 == 10 || a / 0x10_0000 == 0xac1 || a / 0x1_0000 == 0xc0a8
}

impl IpAddr {
    /// Whether the address is of the machine itself: of 127.0.0.0/8, or ::1.
    pub open spec fn loopback(self) -> bool {
        match self {
            IpAddr::V4(a) => loopback_v4(a as int),
            IpAddr::V6(a) => a == 1,
        }
    }

    /// Whether the address is of the machine itself or of a private network: of fc00::/7 for
    /// version 6, where an address of ::ffff:0:0/96 counts as the address of version 4 in it.
    pub open spec fn near(self) -> bool {
        match self {
            IpAddr::V4(a) => loopback_v4(a as int) || private_v4(a as int),
            IpAddr::V6(a) => {
                ||| a == 1
                ||| a as int / 0x200_0000_0000_0000_0000_0000_0000_0000 == 0x7e
                ||| {
                    &&& a as int / 0x1_0000_0000 == 0xffff
                    &&& loopback_v4(a as int % 0x1_0000_0000) || private_v4(
                        a as int % 0x1_0000_0000,
                    )
                }
            },
        }
    }

    /// Whether the address is of the machine itself.
    pub fn is_loopback(&self) -> (res: bool)
        ensures
            res == self.loopback(),
    {
        match self {
            IpAddr::V4(a) => *a / 0x100_0000 == 127,
            IpAddr::V6(a) => *a == 1,
        }
    }
}

/// Whether an address of version 4 is of the machine itself or of a private network.
fn is_near_v4(a: u32) -> (res: bool)
    ensures
        res == (loopback_v4(a as int) || private_v4(a as int)),
{
    a / 0x100_0000 == 127 || a / 0x100_0000 == 10 || a / 0x10_0000 == 0xac1 || a / 0x1_0000
        == 0xc0a8
}

/// Whether an address is of the machine itself or of a private network.
pub fn is_private_or_loopback(ip: IpAddr) -> (res: bool)
    ensures
        res == ip.near(),
{
    match ip {
        IpAddr::V4(a) => is_near_v4(a),
        IpAddr::V6(a) => {
            if a == 1 {
                return true;
            }
            if a / 0x200_0000_0000_0000_0000_0000_0000_0000 == 0x7e {
                return true;
            }
            if a / 0x1_0000_0000 == 0xffff {
                return is_near_v4((a % 0x1_0000_0000) as u32);
            }
            false
        },
    }
}

/// The first address that a request says it was forwarded for, as it is written.
pub open spec fn first_forwarded(headers: Headers) -> Option<Seq<char>> {
    match headers.forwarded_for {
        Some(s) => Some(text::trimmed(text::split(s@, ',')[0], CharClass::Space)),
        None => None,
    }
}

/// The first address that a request says it was forwarded for, as it is written.
pub fn forwarded_address<'a>(headers: &'a Headers) -> (res: Option<&'a str>)
    ensures
        text::opt_slice(res) == first_forwarded(*headers),
{
    match &headers.forwarded_for {
        Some(s) => {
            let parts = text::split_on(s.as_str(), ',');
            assert(text::slices(parts@)[0] == parts@[0]@);
            Some(text::trim(parts[0], CharClass::Space))
        },
        None => None,
    }
}

/// The address that a request comes from. Only the machine itself, where a reverse proxy runs, is
/// trusted to say for whom it forwards; `forwarded` is the first address that it names, if it
/// names one that can be read.
pub fn effective_client_ip(forwarded: Option<IpAddr>, peer: IpAddr) -> (res: IpAddr)
    ensures
        res == client(forwarded, peer),
{
    if peer.is_loopback() {
        if let Some(ip) = forwarded {
            return ip;
        }
    }
    peer
}

/// Lets a request pass that asks for a build of a known project from the machine itself or from a
/// private network.
pub fn trigger<'a>(config: &'a Config, client: IpAddr, body: &TriggerBody) -> (res: Result<
    &'a ProjectConfig,
    ApiError,
>)
    ensures
        answers_trigger(res, *config, client, body.project@),
{
    if !is_private_or_loopback(client) {
        return Err(
            ApiError::new(FORBIDDEN, "trigger is restricted to private/loopback networks"),
        );
    }
    match config.project(body.project.as_str()) {
        Some(p) => Ok(p),
        None => {
            let mut message = "unknown project '".to_owned();
            message.append(body.project.as_str());
            message.append("'");
            Err(ApiError::not_found(message.as_str()))
        },
    }
}

// ---------------------------------------------------------------------------------------------
// Laws
// ---------------------------------------------------------------------------------------------
/// The machine itself counts as near, and so does an address of version 4 inside one of version 6
/// as it does by itself.
pub proof fn law_near_addresses(ip: IpAddr, a: u32)
    ensures
        ip.loopback() ==> ip.near(),
        IpAddr::V6((0xffff_0000_0000 + a) as u128).near() == IpAddr::V4(a).near(),
{
    let b = (0xffff_0000_0000 + a) as u128;
    assert(b as int / 0x1_0000_0000 == 0xffff);
    assert(b as int % 0x1_0000_0000 == a);
}

/// A build is seen by whoever sees its project: without an account, builds of public projects
/// only; as an administrator, every build whose project is configured.
pub proof fn law_builds_follow_projects(name: Seq<char>, state: AppState, id: u128)
    ensures
        viewable(Viewer::Anonymous, state).dom().contains(id) ==> {
            let project = state.config.named(state.all()[id].project@);
            project is Some && project->0.visibility == crate::config::Visibility::Public
        },
        state.all().dom().contains(id) && state.config.named(state.all()[id].project@) is Some
            ==> viewable(Viewer::Account { name, admin: true }, state).dom().contains(id),
{
}

/// The artifacts of builds are listed build by build, each build's in their order.
pub proof fn law_artifacts_in_order(a: Seq<BuildStatus>, c: Seq<BuildStatus>, one: BuildStatus)
    ensures
        artifacts_in(a + c) == artifacts_in(a) + artifacts_in(c),
        artifacts_in(seq![one]) == one.artifacts@,
    decreases c.len(),
{
    assert(seq![one].drop_last() =~= seq![]);
    assert(artifacts_in(seq![one].drop_last()) =~= seq![]);
    assert(artifacts_in(seq![one]) =~= one.artifacts@);
    if c.len() == 0 {
        assert(a + c =~= a);
        assert(artifacts_in(a + c) =~= artifacts_in(a) + artifacts_in(c));
    } else {
        law_artifacts_in_order(a, c.drop_last(), one);
        assert((a + c).drop_last() =~= a + c.drop_last());
        assert((a + c).last() == c.last());
        assert(artifacts_in(a + c) =~= artifacts_in(a) + artifacts_in(c));
    }
}

/// Of version 4, the addresses of 127.0.0.0/8, 10.0.0.0/8, 172.16.0.0/12 and 192.168.0.0/16 are near,
/// and no others.
pub proof fn law_near_v4(o1: u8, o2: u8, o3: u8, o4: u8)
    ensures
        ({
            let a = (o1 as int * 0x100_0000 + o2 as int * 0x1_0000 + o3 as int * 0x100 + o4) as u32;
            &&& IpAddr::V4(a).near() <==> o1 == 127 || o1 == 10 || (o1 == 172 && 16 <= o2 <= 31) || (o1
                == 192 && o2 == 168)
            &&& IpAddr::V4(a).loopback() <==> o1 == 127
        }),
{
}

/// Of version 6, near are the address of the machine itself, those of fc00::/7, and those that stand
/// for a near address of version 4; only ::1 is of the machine itself.
pub proof fn law_near_v6(a: u128)
    ensures
        IpAddr::V6(1).near(),
        IpAddr::V6(a).loopback() <==> a == 1,
        0xfc00_0000_0000_0000_0000_0000_0000_0000 <= a
            <= 0xfdff_ffff_ffff_ffff_ffff_ffff_ffff_ffff ==> IpAddr::V6(a).near(),
        a != 1 && !(0xfc00_0000_0000_0000_0000_0000_0000_0000 <= a
            <= 0xfdff_ffff_ffff_ffff_ffff_ffff_ffff_ffff) && !(0xffff_0000_0000 <= a
            <= 0xffff_ffff_ffff) ==> !IpAddr::V6(a).near(),
{
}

/// The first address that a request was forwarded for is what stands before the first comma, without
/// white space around it.
pub proof fn law_first_forwarded(headers: Headers, a: Seq<char>, rest: Seq<char>)
    requires
        !a.contains(','),
    ensures
        headers.forwarded_for matches Some(s) && s@ == a + seq![','] + rest ==> first_forwarded(
            headers,
        ) == Some(text::trimmed(a, CharClass::Space)),
        headers.forwarded_for matches Some(s) && s@ == a ==> first_forwarded(headers) == Some(
            text::trimmed(a, CharClass::Space),
        ),
        headers.forwarded_for is None ==> first_forwarded(headers) is None,
{
    text::law_split_pieces(a, ',', rest);
}

/// One build is shown exactly to those who see its project, and is answered 404 otherwise.
pub proof fn law_one_build_shown(
    res: Result<&BuildStatus, ApiError>,
    state: AppState,
    id: u128,
    viewer: Viewer,
)
    requires
        shows_build(res, state, id, viewer),
    ensures
        res is Ok <==> viewable(viewer, state).dom().contains(id),
        res matches Ok(b) ==> *b == state.all()[id],
        res matches Err(e) ==> e.status == 404,
{
}

/// The address of the client of a request: the forwarded one, where the machine itself forwarded it.
pub open spec fn client(forwarded: Option<IpAddr>, peer: IpAddr) -> IpAddr {
    match forwarded {
        Some(ip) => if peer.loopback() {
            ip
        } else {
            peer
        },
        None => peer,
    }
}

/// Whether `res` is what a request from the given address to build a project leads to.
pub open spec fn answers_trigger(
    res: Result<&ProjectConfig, ApiError>,
    config: Config,
    client: IpAddr,
    name: Seq<char>,
) -> bool {
    if !client.near() {
        res matches Err(e) && e.is(
            FORBIDDEN,
            "trigger is restricted to private/loopback networks"@,
        )
    } else {
        match config.named(name) {
            Some(p) => res matches Ok(q) && *q == p,
            None => res matches Err(e) && e.is(NOT_FOUND, "unknown project '"@ + name + "'"@),
        }
    }
}

/// An address that is said to be forwarded counts only where it comes from the machine itself.
pub proof fn law_whose_word_counts(forwarded: IpAddr, peer: IpAddr)
    ensures
        client(None, peer) == peer,
        !peer.loopback() ==> client(Some(forwarded), peer) == peer,
        peer.loopback() ==> client(Some(forwarded), peer) == forwarded,
{
}

/// A build is triggered only from near addresses and of the project that bears the name. From
/// elsewhere the answer does not depend on the project.
pub proof fn law_who_triggers(
    res: Result<&ProjectConfig, ApiError>,
    config: Config,
    from: IpAddr,
    name: Seq<char>,
    other: Seq<char>,
)
    requires
        answers_trigger(res, config, from, name),
    ensures
        res is Ok <==> from.near() && config.named(name) is Some,
        res matches Ok(p) ==> p.name@ == name && config.projects@.contains(*p),
        res matches Err(e) ==> e.status == (if from.near() {
            404u16
        } else {
            403u16
        }),
        !from.near() ==> answers_trigger(res, config, from, other),
{
    crate::config::law_found_project_has_name(config, name);
}

/// A viewer sees exactly the builds of the projects that they may see, unchanged; not those of a
/// project that is gone.
pub proof fn law_which_builds_are_seen(viewer: Viewer, state: AppState, id: u128)
    ensures
        viewable(viewer, state).dom().contains(id) <==> state.all().dom().contains(id) && (
        state.config.named(state.all()[id].project@) matches Some(p) && auth::may_view(viewer, p)),
        viewable(viewer, state).dom().contains(id) ==> viewable(viewer, state)[id]
            == state.all()[id],
{
}

/// The names that are listed are those of the projects that the viewer may see.
pub proof fn law_visible_names(viewer: Viewer, config: Config, name: Seq<char>)
    ensures
        visible_names(viewer, config).contains(name) <==> exists|i: int|
            0 <= i < config.projects@.len() && (#[trigger] config.projects@[i]).name@ == name
                && auth::may_view(viewer, config.projects@[i]),
        visible_names(viewer, config).len() == auth::visible(viewer, config).len(),
{
    let all = config.projects@;
    let seen = auth::visible(viewer, config);
    let names = visible_names(viewer, config);
    if names.contains(name) {
        let k = choose|k: int| 0 <= k < names.len() && names[k] == name;
        auth::law_visible_projects(viewer, config, seen[k]);
        assert(seen.contains(seen[k]));
        let i = choose|i: int| 0 <= i < all.len() && all[i] == seen[k];
        assert(all[i].name@ == name);
    }
    if exists|i: int|
        0 <= i < all.len() && (#[trigger] all[i]).name@ == name && auth::may_view(viewer, all[i]) {
        let i = choose|i: int|
            0 <= i < all.len() && (#[trigger] all[i]).name@ == name && auth::may_view(
                viewer,
                all[i],
            );
        auth::law_visible_projects(viewer, config, all[i]);
        assert(all.contains(all[i]));
        let k = choose|k: int| 0 <= k < seen.len() && seen[k] == all[i];
        assert(names[k] == name);
    }
}

} // verus!
