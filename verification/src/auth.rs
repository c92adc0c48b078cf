//! Who a request comes from, what it may see, and links that carry their own permission.

use crate::config::{AccountConfig, Config, ProjectConfig, Visibility};
use crate::error::{ApiError, NOT_FOUND};
use crate::list;
use crate::outside::{self, hex_decode, hex_encode, mac_matches, mac_of, uuid_to_text};
use crate::request::{Headers, Target};
use crate::text::{self, CharClass};
use vstd::prelude::*;
use vstd::utf8::encode_utf8;

verus! {

/// The account that a request comes from.
#[derive(Debug, Clone)]
pub struct Principal {
    pub account: String,
    pub admin: bool,
}

/// Who looks at something.
pub enum Viewer {
    /// Somebody without an account.
    Anonymous,
    /// The account of the given name.
    Account { name: Seq<char>, admin: bool },
}

impl Viewer {
    /// The viewer of a request whose account is known, if it has one.
    pub open spec fn of(principal: Option<&Principal>) -> Viewer {
        match principal {
            Some(p) => Viewer::Account { name: p.account@, admin: p.admin },
            None => Viewer::Anonymous,
        }
    }

    /// The viewer of a request whose account is known, if it has one.
    pub open spec fn of_owned(principal: Option<Principal>) -> Viewer {
        match principal {
            Some(p) => Viewer::of(Some(&p)),
            None => Viewer::Anonymous,
        }
    }

    /// The viewer that an account, if there is one, stands for.
    pub open spec fn of_account(account: Option<AccountConfig>) -> Viewer {
        match account {
            Some(a) => Viewer::Account { name: a.name@, admin: a.admin },
            None => Viewer::Anonymous,
        }
    }
}

// ---------------------------------------------------------------------------------------------
// Tokens in headers
// ---------------------------------------------------------------------------------------------
/// The value of the first `name=value` among the parts whose name is the given one.
pub open spec fn first_value(parts: Seq<Seq<char>>, name: Seq<char>) -> Option<Seq<char>>
    decreases parts.len(),
{
    if parts.len() == 0 {
        None
    } else {
        match text::split_at_first(parts[0], '=') {
            Some((key, value)) => if key == name {
                Some(value)
            } else {
                first_value(parts.drop_first(), name)
            },
            None => first_value(parts.drop_first(), name),
        }
    }
}

/// The value of a parameter in a query.
pub open spec fn param(query: Option<Seq<char>>, name: Seq<char>) -> Option<Seq<char>> {
    match query {
        Some(q) => first_value(text::split(q, '&'), name),
        None => None,
    }
}

/// An optional text, unless it is empty.
pub open spec fn non_empty(o: Option<Seq<char>>) -> Option<Seq<char>> {
    match o {
        Some(s) => if s.len() == 0 {
            None
        } else {
            Some(s)
        },
        None => None,
    }
}

/// The token that an `Authorization` header bears.
pub open spec fn bearer(authorization: Option<Seq<char>>) -> Option<Seq<char>> {
    match authorization {
        Some(s) => match text::without_prefix(s, "Bearer "@) {
            Some(t) => non_empty(Some(text::trimmed(t, CharClass::Space))),
            None => None,
        },
        None => None,
    }
}

/// The token that a `Cookie` header carries under the name `kei_token`.
pub open spec fn cookie(cookies: Option<Seq<char>>) -> Option<Seq<char>> {
    match cookies {
        Some(s) => non_empty(
            first_value(
                text::split(s, ';').map_values(|c: Seq<char>| text::trimmed(c, CharClass::Space)),
                "kei_token"@,
            ),
        ),
        None => None,
    }
}

/// The token of a request: that of the `Authorization` header, or else that of the cookie.
pub open spec fn token_of(headers: Headers) -> Option<Seq<char>> {
    match bearer(text::opt_text(headers.authorization)) {
        Some(t) => Some(t),
        None => cookie(text::opt_text(headers.cookie)),
    }
}

/// The value of the first `name=value` among the parts whose name is the given one.
fn find_value<'a>(parts: &Vec<&'a str>, name: &str) -> (res: Option<&'a str>)
    ensures
        text::opt_slice(res) == first_value(text::slices(parts@), name@),
{
    let ghost all = text::slices(parts@);
    let mut i: usize = 0;
    assert(all.skip(0) =~= all);
    while i < parts.len()
        invariant
            i <= parts@.len(),
            all == text::slices(parts@),
            first_value(all, name@) == first_value(all.skip(i as int), name@),
        decreases parts@.len() - i,
    {
        proof {
            assert(all.skip(i as int).drop_first() =~= all.skip(i + 1));
            assert(all.skip(i as int)[0] == parts@[i as int]@);
        }
        if let Some((key, value)) = text::split_once(parts[i], '=') {
            if text::same(key, name) {
                return Some(value);
            }
        }
        i = i + 1;
    }
    None
}

/// The value of a parameter in a query.
pub fn query_param<'a>(query: Option<&'a str>, name: &str) -> (res: Option<&'a str>)
    ensures
        text::opt_slice(res) == param(text::opt_slice(query), name@),
{
    match query {
        Some(q) => {
            let parts = text::split_on(q, '&');
            find_value(&parts, name)
        },
        None => None,
    }
}

/// The token that an `Authorization` header bears.
fn bearer_token<'a>(authorization: Option<&'a str>) -> (res: Option<&'a str>)
    ensures
        text::opt_slice(res) == bearer(text::opt_slice(authorization)),
{
    match authorization {
        Some(s) => match text::strip_prefix(s, "Bearer ") {
            Some(t) => {
                let u = text::trim(t, CharClass::Space);
                if u.is_empty() {
                    None
                } else {
                    Some(u)
                }
            },
            None => None,
        },
        None => None,
    }
}

/// The token that a `Cookie` header carries under the name `kei_token`.
fn cookie_token<'a>(cookies: Option<&'a str>) -> (res: Option<&'a str>)
    ensures
        text::opt_slice(res) == cookie(text::opt_slice(cookies)),
{
    match cookies {
        Some(s) => {
            let parts = text::split_on(s, ';');
            let mut clean: Vec<&'a str> = Vec::new();
            let ghost all = text::split(s@, ';');
            let ghost f = |c: Seq<char>| text::trimmed(c, CharClass::Space);
            let mut i: usize = 0;
            while i < parts.len()
                invariant
                    i <= parts@.len(),
                    all == text::slices(parts@),
                    f == (|c: Seq<char>| text::trimmed(c, CharClass::Space)),
                    text::slices(clean@) == all.map_values(f).take(i as int),
                decreases parts@.len() - i,
            {
                let ghost before = text::slices(clean@);
                let part = text::trim(parts[i], CharClass::Space);
                clean.push(part);
                proof {
                    assert(all[i as int] == parts@[i as int]@);
                    assert(text::slices(clean@) =~= before.push(part@));
                    assert(all.map_values(f).take(i + 1) =~= before.push(part@));
                }
                i = i + 1;
            }
            assert(text::slices(clean@) =~= all.map_values(f));
            match find_value(&clean, "kei_token") {
                Some(t) => if t.is_empty() {
                    None
                } else {
                    Some(t)
                },
                None => None,
            }
        },
        None => None,
    }
}

// ---------------------------------------------------------------------------------------------
// Accounts
// ---------------------------------------------------------------------------------------------
/// Whether an account has the given token.
pub open spec fn of_token(token: Seq<char>) -> spec_fn(AccountConfig) -> bool {
    |a: AccountConfig| a.token@ == token
}

/// Whether an account has the given name and token.
pub open spec fn of_login(name: Seq<char>, token: Seq<char>) -> spec_fn(AccountConfig) -> bool {
    |a: AccountConfig| a.name@ == name && a.token@ == token
}

/// The first account with the given token.
pub open spec fn account_of_token(config: Config, token: Seq<char>) -> Option<AccountConfig> {
    list::find_first(config.auth.accounts@, of_token(token))
}

/// The first account with the given name and token.
pub open spec fn account_of_login(
    config: Config,
    name: Seq<char>,
    token: Seq<char>,
) -> Option<AccountConfig> {
    list::find_first(config.auth.accounts@, of_login(name, token))
}

/// Who sends a request: the account that its token belongs to.
pub open spec fn sender(headers: Headers, config: Config) -> Viewer {
    match token_of(headers) {
        Some(t) => Viewer::of_account(account_of_token(config, t)),
        None => Viewer::Anonymous,
    }
}

/// The account that a request's token belongs to.
pub fn authenticate(headers: &Headers, config: &Config) -> (res: Option<Principal>)
    ensures
        Viewer::of_owned(res) == sender(*headers, *config),
{
    let token = match bearer_token(text::as_slice(&headers.authorization)) {
        Some(t) => t,
        None => match cookie_token(text::as_slice(&headers.cookie)) {
            Some(t) => t,
            None => {
                return None;
            },
        },
    };
    let ghost cond = of_token(token@);
    let accounts = &config.auth.accounts;
    let mut i: usize = 0;
    assert(accounts@.skip(0) =~= accounts@);
    while i < accounts.len()
        invariant
            i <= accounts@.len(),
            accounts == &config.auth.accounts,
            cond == of_token(token@),
            account_of_token(*config, token@) == list::find_first(accounts@.skip(i as int), cond),
            token_of(*headers) == Some(token@),
        decreases accounts@.len() - i,
    {
        proof {
            list::lemma_find_first_step(accounts@, cond, i as int);
        }
        let a = &accounts[i];
        if text::same(a.token.as_str(), token) {
            return Some(Principal { account: a.name.clone(), admin: a.admin });
        }
        i = i + 1;
    }
    None
}

/// The account with the given name and token.
pub fn authenticate_login(account: &str, token: &str, config: &Config) -> (res: Option<Principal>)
    ensures
        Viewer::of_owned(res) == Viewer::of_account(account_of_login(*config, account@, token@)),
{
    let ghost cond = of_login(account@, token@);
    let accounts = &config.auth.accounts;
    let mut i: usize = 0;
    assert(accounts@.skip(0) =~= accounts@);
    while i < accounts.len()
        invariant
            i <= accounts@.len(),
            accounts == &config.auth.accounts,
            cond == of_login(account@, token@),
            account_of_login(*config, account@, token@) == list::find_first(
                accounts@.skip(i as int),
                cond,
            ),
        decreases accounts@.len() - i,
    {
        proof {
            list::lemma_find_first_step(accounts@, cond, i as int);
        }
        let a = &accounts[i];
        if text::same(a.name.as_str(), account) && text::same(a.token.as_str(), token) {
            return Some(Principal { account: a.name.clone(), admin: a.admin });
        }
        i = i + 1;
    }
    None
}

// ---------------------------------------------------------------------------------------------
// What an account may see
// ---------------------------------------------------------------------------------------------
/// Whether the project lists the account among those that it allows.
pub open spec fn allows(project: ProjectConfig, account: Seq<char>) -> bool {
    text::texts(project.allowed_accounts@).contains(account)
}

/// Whether a request of the given account may see the project.
pub open spec fn may_view(viewer: Viewer, project: ProjectConfig) -> bool {
    match project.visibility {
        Visibility::Public => true,
        Visibility::Restricted => viewer matches Viewer::Account { name, admin } && (admin
            || allows(project, name)),
        Visibility::Private => viewer matches Viewer::Account { name, admin } && admin,
    }
}

/// Whether a request of the given account may fetch the project's Maven artifacts.
pub open spec fn may_view_maven(viewer: Viewer, project: ProjectConfig) -> bool {
    project.maven.public != Some(false) || may_view(viewer, project)
}

/// Whether the project lists the account among those that it allows.
fn is_allowed(project: &ProjectConfig, account: &str) -> (res: bool)
    ensures
        res == allows(*project, account@),
{
    let ghost all = text::texts(project.allowed_accounts@);
    let mut i: usize = 0;
    while i < project.allowed_accounts.len()
        invariant
            i <= project.allowed_accounts@.len(),
            all == text::texts(project.allowed_accounts@),
            forall|k: int| 0 <= k < i ==> all[k] != account@,
        decreases project.allowed_accounts@.len() - i,
    {
        assert(all[i as int] == project.allowed_accounts@[i as int]@);
        if text::same(project.allowed_accounts[i].as_str(), account) {
            return true;
        }
        i = i + 1;
    }
    false
}

/// Whether a request of the given account may see the project.
pub fn can_view_project(principal: Option<&Principal>, project: &ProjectConfig) -> (res: bool)
    ensures
        res == may_view(Viewer::of(principal), *project),
{
    match project.visibility {
        Visibility::Public => true,
        Visibility::Restricted => match principal {
            Some(p) => p.admin || is_allowed(project, p.account.as_str()),
            None => false,
        },
        Visibility::Private => match principal {
            Some(p) => p.admin,
            None => false,
        },
    }
}

/// Whether `res` lets a request pass, or refuses it with 404 and nothing more.
pub open spec fn passes_or_hides(res: Result<(), ApiError>, pass: bool) -> bool {
    match res {
        Ok(_) => pass,
        Err(e) => !pass && e.is(NOT_FOUND, "not found"@),
    }
}

/// Lets a request pass that may see the project.
pub fn require_project_access(
    principal: Option<&Principal>,
    project: &ProjectConfig,
) -> (res: Result<(), ApiError>)
    ensures
        passes_or_hides(res, may_view(Viewer::of(principal), *project)),
{
    if can_view_project(principal, project) {
        return Ok(());
    }
    Err(ApiError::not_found("not found"))
}

/// Lets a request pass that may see the project, or that bears the build's public token.
pub fn require_project_or_public_build_access(
    principal: Option<&Principal>,
    project: &ProjectConfig,
    secret: Option<&str>,
    build_id: u128,
    token: Option<&str>,
) -> (res: Result<(), ApiError>)
    ensures
        passes_or_hides(
            res,
            may_view(Viewer::of(principal), *project) || (token matches Some(t) && token_valid(
                text::opt_slice(secret),
                build_scope(build_id),
                t@,
            )),
        ),
{
    if can_view_project(principal, project) {
        return Ok(());
    }
    if let Some(t) = token {
        if verify_public_build_token(secret, build_id, t) {
            return Ok(());
        }
    }
    Err(ApiError::not_found("not found"))
}

/// Whether the request bears the public token of its own path.
pub open spec fn bears_path_token(secret: Option<Seq<char>>, target: Target) -> bool {
    param(text::opt_text(target.query), "token"@) matches Some(t) && token_valid(
        secret,
        path_scope(target.path@),
        t,
    )
}

/// Lets a request pass that may see the project, or that bears the public token of its path.
pub fn require_project_or_public_path_access(
    principal: Option<&Principal>,
    project: &ProjectConfig,
    secret: Option<&str>,
    target: &Target,
) -> (res: Result<(), ApiError>)
    ensures
        passes_or_hides(
            res,
            may_view(Viewer::of(principal), *project) || bears_path_token(text::opt_slice(secret), *target),
        ),
{
    if can_view_project(principal, project) {
        return Ok(());
    }
    if let Some(t) = query_param(text::as_slice(&target.query), "token") {
        if verify_public_path_token(secret, target.path.as_str(), t) {
            return Ok(());
        }
    }
    Err(ApiError::not_found("not found"))
}

/// Whether a request of the given account may fetch the project's Maven artifacts.
pub fn can_view_project_maven(principal: Option<&Principal>, project: &ProjectConfig) -> (res: bool)
    ensures
        res == may_view_maven(Viewer::of(principal), *project),
{
    let maven_public = project.maven.public.unwrap_or(true);
    if maven_public {
        return true;
    }
    can_view_project(principal, project)
}

/// Lets a request pass that may fetch the project's Maven artifacts.
pub fn require_project_maven_access(
    principal: Option<&Principal>,
    project: &ProjectConfig,
) -> (res: Result<(), ApiError>)
    ensures
        passes_or_hides(res, may_view_maven(Viewer::of(principal), *project)),
{
    if can_view_project_maven(principal, project) {
        return Ok(());
    }
    Err(ApiError::not_found("not found"))
}

/// The projects that a request of the given account may see, in the order of the configuration.
pub open spec fn visible(viewer: Viewer, config: Config) -> Seq<ProjectConfig> {
    config.projects@.filter(|p: ProjectConfig| may_view(viewer, p))
}

/// The projects that a request of the given account may see, in the order of the configuration.
pub fn visible_projects<'a>(
    principal: Option<&Principal>,
    config: &'a Config,
) -> (res: Vec<&'a ProjectConfig>)
    ensures
        res@.map_values(|p: &ProjectConfig| *p) == visible(Viewer::of(principal), *config),
{
    let ghost viewer = Viewer::of(principal);
    let ghost cond = |p: ProjectConfig| may_view(viewer, p);
    let ghost projects = config.projects@;
    let mut out: Vec<&'a ProjectConfig> = Vec::new();
    let mut i: usize = 0;
    proof {
        reveal(Seq::filter);
        assert(projects.take(0).filter(cond) =~= seq![]);
        assert(out@.map_values(|p: &ProjectConfig| *p) =~= seq![]);
    }
    while i < config.projects.len()
        invariant
            i <= projects.len(),
            projects == config.projects@,
            viewer == Viewer::of(principal),
            cond == (|p: ProjectConfig| may_view(viewer, p)),
            out@.map_values(|p: &ProjectConfig| *p) == projects.take(i as int).filter(cond),
        decreases projects.len() - i,
    {
        let project = &config.projects[i];
        let ghost before = out@.map_values(|p: &ProjectConfig| *p);
        proof {
            assert(projects.take(i + 1) =~= projects.take(i as int).push(*project));
            list::lemma_filter_push(projects.take(i as int), cond, *project);
        }
        if can_view_project(principal, project) {
            out.push(project);
            assert(out@.map_values(|p: &ProjectConfig| *p) =~= before.push(*project));
        }
        i = i + 1;
    }
    assert(projects.take(i as int) =~= projects);
    out
}

// ---------------------------------------------------------------------------------------------
// Public links
// ---------------------------------------------------------------------------------------------
/// What the token of a link to an artifact signs.
pub open spec fn artifact_scope(path: Seq<char>) -> Seq<char> {
    "artifact:"@ + path
}

/// What the token of a link to a build signs.
pub open spec fn build_scope(id: u128) -> Seq<char> {
    "build:"@ + outside::uuid_text(id)
}

/// What the token of a link to a page signs.
pub open spec fn path_scope(path: Seq<char>) -> Seq<char> {
    "path:"@ + path
}

/// The token that permits `scope` under `secret`.
pub open spec fn token_text(secret: Seq<char>, scope: Seq<char>) -> Seq<char> {
    outside::hex_text(outside::hmac_sha256(encode_utf8(secret), encode_utf8(scope)))
}

/// Whether `token` is made as tokens are: of 64 lower-case hexadecimal digits.
pub open spec fn is_token(token: Seq<char>) -> bool {
    token.len() == 64 && forall|i: int|
        0 <= i < token.len() ==> outside::is_lower_hex_digit(token[i])
}

/// Whether `token` permits `scope`: there is a secret, and the token is the hexadecimal form, in
/// either case, of the code of the scope under it.
pub open spec fn token_valid(
    secret: Option<Seq<char>>,
    scope: Seq<char>,
    token: Seq<char>,
) -> bool {
    &&& secret is Some
    &&& outside::is_hex_text(token)
    &&& outside::hex_bytes(token) == outside::hmac_sha256(encode_utf8(secret->0), encode_utf8(scope))
}

/// Whether `token` permits fetching the artifact: it signs the artifact's scope, or, as older
/// links do, its bare path.
pub open spec fn artifact_token_valid(
    secret: Option<Seq<char>>,
    path: Seq<char>,
    token: Seq<char>,
) -> bool {
    token_valid(secret, artifact_scope(path), token) || token_valid(secret, path, token)
}

/// The token that permits `scope` under `secret`.
fn public_token(secret: &str, scope: &str) -> (res: String)
    ensures
        res@ == token_text(secret@, scope@),
        is_token(res@),
{
    let code = mac_of(secret.as_bytes(), scope.as_bytes());
    proof {
        outside::law_hex_round_trip(code@);
    }
    hex_encode(code.as_slice())
}

fn scope_of(kind: &str, name: &str) -> (res: String)
    ensures
        res@ == kind@ + name@,
{
    let mut s = kind.to_owned();
    s.append(name);
    s
}

/// The token of a link to an artifact.
pub fn public_artifact_token(secret: &str, artifact_path: &str) -> (res: String)
    ensures
        res@ == token_text(secret@, artifact_scope(artifact_path@)),
        is_token(res@),
{
    public_token(secret, scope_of("artifact:", artifact_path).as_str())
}

/// The token of a link to a build.
pub fn public_build_token(secret: &str, build_id: u128) -> (res: String)
    ensures
        res@ == token_text(secret@, build_scope(build_id)),
        is_token(res@),
{
    public_token(secret, scope_of("build:", uuid_to_text(build_id).as_str()).as_str())
}

/// The token of a link to a page.
pub fn public_path_token(secret: &str, path: &str) -> (res: String)
    ensures
        res@ == token_text(secret@, path_scope(path@)),
        is_token(res@),
{
    public_token(secret, scope_of("path:", path).as_str())
}

/// The link by which everybody may fetch an artifact.
pub open spec fn artifact_url(base: Seq<char>, secret: Seq<char>, path: Seq<char>) -> Seq<char> {
    base + "/public/artifacts/"@ + path + "?token="@ + token_text(secret, artifact_scope(path))
}

/// The link by which everybody may see a build.
pub open spec fn build_url(base: Seq<char>, secret: Seq<char>, id: u128) -> Seq<char> {
    base + "/builds/"@ + outside::uuid_text(id) + "?token="@ + token_text(secret, build_scope(id))
}

/// The link by which everybody may see a page.
pub open spec fn path_url(base: Seq<char>, secret: Seq<char>, path: Seq<char>) -> Seq<char> {
    base + path + "?token="@ + token_text(secret, path_scope(path))
}

/// The link by which everybody may fetch an artifact.
pub fn public_artifact_url(base: &str, secret: &str, artifact_path: &str) -> (res: String)
    ensures
        res@ == artifact_url(base@, secret@, artifact_path@),
        is_token(token_text(secret@, artifact_scope(artifact_path@))),
{
    let token = public_artifact_token(secret, artifact_path);
    let mut out = base.to_owned();
    out.append("/public/artifacts/");
    out.append(artifact_path);
    out.append("?token=");
    out.append(token.as_str());
    out
}

/// The link by which everybody may see a build.
pub fn public_build_url(base: &str, secret: &str, build_id: u128) -> (res: String)
    ensures
        res@ == build_url(base@, secret@, build_id),
        is_token(token_text(secret@, build_scope(build_id))),
{
    let token = public_build_token(secret, build_id);
    let mut out = base.to_owned();
    out.append("/builds/");
    out.append(uuid_to_text(build_id).as_str());
    out.append("?token=");
    out.append(token.as_str());
    out
}

/// The link by which everybody may see a page.
pub fn public_path_url(base: &str, secret: &str, path: &str) -> (res: String)
    ensures
        res@ == path_url(base@, secret@, path@),
        is_token(token_text(secret@, path_scope(path@))),
{
    let token = public_path_token(secret, path);
    let mut out = base.to_owned();
    out.append(path);
    out.append("?token=");
    out.append(token.as_str());
    out
}

/// Whether `token` permits `scope`.
fn verify_public_token(secret: Option<&str>, scope: &str, token: &str) -> (res: bool)
    ensures
        res == token_valid(text::opt_slice(secret), scope@, token@),
{
    let key = match secret {
        Some(s) => s,
        None => {
            return false;
        },
    };
    match hex_decode(token) {
        Ok(expected) => mac_matches(key.as_bytes(), scope.as_bytes(), expected.as_slice()),
        Err(_) => false,
    }
}

/// Whether `token` signs the bare path of an artifact.
fn verify_legacy_public_artifact_token(
    secret: Option<&str>,
    artifact_path: &str,
    token: &str,
) -> (res: bool)
    ensures
        res == token_valid(text::opt_slice(secret), artifact_path@, token@),
{
    verify_public_token(secret, artifact_path, token)
}

/// Whether `token` permits fetching the artifact.
pub fn verify_public_artifact_token(
    secret: Option<&str>,
    artifact_path: &str,
    token: &str,
) -> (res: bool)
    ensures
        res == artifact_token_valid(text::opt_slice(secret), artifact_path@, token@),
{
    verify_public_token(secret, scope_of("artifact:", artifact_path).as_str(), token)
        || verify_legacy_public_artifact_token(secret, artifact_path, token)
}

/// Whether `token` permits seeing the build.
pub fn verify_public_build_token(secret: Option<&str>, build_id: u128, token: &str) -> (res: bool)
    ensures
        res == token_valid(text::opt_slice(secret), build_scope(build_id), token@),
{
    verify_public_token(secret, scope_of("build:", uuid_to_text(build_id).as_str()).as_str(), token)
}

/// Whether `token` permits seeing the page.
pub fn verify_public_path_token(secret: Option<&str>, path: &str, token: &str) -> (res: bool)
    ensures
        res == token_valid(text::opt_slice(secret), path_scope(path@), token@),
{
    verify_public_token(secret, scope_of("path:", path).as_str(), token)
}

// ---------------------------------------------------------------------------------------------
// Laws
// ---------------------------------------------------------------------------------------------
/// The token made for a scope is accepted for that scope under the same secret.
pub proof fn law_token_accepted(secret: Seq<char>, scope: Seq<char>)
    ensures
        token_valid(Some(secret), scope, token_text(secret, scope)),
{
    outside::law_hex_round_trip(
        outside::hmac_sha256(encode_utf8(secret), encode_utf8(scope)),
    );
}

/// The token made for an artifact is accepted for that artifact under the same secret.
pub proof fn law_artifact_token_accepted(secret: Seq<char>, path: Seq<char>)
    ensures
        artifact_token_valid(
            Some(secret),
            path,
            token_text(secret, artifact_scope(path)),
        ),
{
    law_token_accepted(secret, artifact_scope(path));
}

/// A token made for one scope is accepted for another only where the codes of the two collide.
pub proof fn law_token_exact(secret: Seq<char>, scope: Seq<char>, other: Seq<char>)
    ensures
        token_valid(Some(secret), other, token_text(secret, scope)) <==> outside::hmac_sha256(
            encode_utf8(secret),
            encode_utf8(scope),
        ) == outside::hmac_sha256(encode_utf8(secret), encode_utf8(other)),
{
    outside::law_hex_round_trip(
        outside::hmac_sha256(encode_utf8(secret), encode_utf8(scope)),
    );
}

/// The query that a link carries: its token.
pub open spec fn link_query(secret: Seq<char>, scope: Seq<char>) -> Seq<char> {
    "token="@ + token_text(secret, scope)
}

/// A link leads to its path and carries its query behind a question mark.
pub proof fn law_links_carry_query(base: Seq<char>, secret: Seq<char>, path: Seq<char>, id: u128)
    ensures
        path_url(base, secret, path) == base + path + "?"@ + link_query(secret, path_scope(path)),
        build_url(base, secret, id) == base + ("/builds/"@ + outside::uuid_text(id)) + "?"@
            + link_query(secret, build_scope(id)),
        artifact_url(base, secret, path) == base + ("/public/artifacts/"@ + path) + "?"@
            + link_query(secret, artifact_scope(path)),
{
    reveal_strlit("?token=");
    reveal_strlit("?");
    reveal_strlit("token=");
    assert("?token="@ =~= "?"@ + "token="@);
}

/// From the query of a link its token is read.
pub proof fn law_link_token_read(secret: Seq<char>, scope: Seq<char>)
    ensures
        param(Some(link_query(secret, scope)), "token"@) == Some(token_text(secret, scope)),
{
    reveal_strlit("token=");
    reveal_strlit("token");
    let code = outside::hmac_sha256(encode_utf8(secret), encode_utf8(scope));
    let token = token_text(secret, scope);
    let q = link_query(secret, scope);
    outside::law_hex_round_trip(code);
    assert forall|k: int| 0 <= k < q.len() implies q[k] != '&' by {
        if k >= 6 {
            assert(q[k] == token[k - 6]);
            assert(outside::is_hex_digit(token[k - 6]));
        }
    }
    text::lemma_find_char(q, '&', q.len() as int);
    text::lemma_find_char(q, '=', 5);
    assert(text::split(q, '&') =~= seq![q]);
    assert(q.take(5) =~= "token"@);
    assert(q.skip(6) =~= token);
}

/// A token whose last digit is cut off, or changed to a character of another value, is refused. A
/// digit keeps its value in upper case.
pub proof fn law_changed_token_refused(secret: Seq<char>, scope: Seq<char>, c: char)
    ensures
        ({
            let token = token_text(secret, scope);
            let other = token.update(token.len() - 1, c);
            token.len() > 0 ==> {
                &&& !token_valid(Some(secret), scope, token.drop_last())
                &&& !(outside::is_hex_digit(c) && outside::hex_value(c) == outside::hex_value(
                    token.last(),
                )) ==> !token_valid(Some(secret), scope, other)
            }
        }),
{
    let code = outside::hmac_sha256(encode_utf8(secret), encode_utf8(scope));
    let token = token_text(secret, scope);
    outside::law_hex_round_trip(code);
    if token.len() > 0 {
        let last = token.len() - 1;
        let other = token.update(last, c);
        assert(other[last] == c);
        if token_valid(Some(secret), scope, other) {
            assert(outside::is_hex_digit(c));
            let k = code.len() - 1;
            assert(2 * k + 1 == last);
            assert(other.len() / 2 == code.len() && token.len() / 2 == code.len());
            assert(outside::hex_bytes(other)[k] == outside::hex_bytes(token)[k]);
            assert(outside::is_hex_digit(token[2 * k]) && outside::is_hex_digit(token[last]));
            assert(other[2 * k] == token[2 * k]);
        }
    }
}

/// The link to a page is its address with a query behind it. From the query its token is read,
/// which is lower-case hexadecimal. The token opens that page under the secret, not without one,
/// and not when its last digit is cut off or changed to a character of another value.
pub proof fn law_page_link(base: Seq<char>, secret: Seq<char>, path: Seq<char>, c: char)
    ensures
        ({
            let scope = path_scope(path);
            let query = link_query(secret, scope);
            let token = token_text(secret, scope);
            let other = token.update(token.len() - 1, c);
            &&& path_url(base, secret, path) == base + path + "?"@ + query
            &&& param(Some(query), "token"@) == Some(token)
            &&& forall|i: int| 0 <= i < token.len() ==> outside::is_lower_hex_digit(token[i])
            &&& token_valid(Some(secret), scope, token)
            &&& !token_valid(None, scope, token)
            &&& token.len() > 0 ==> !token_valid(Some(secret), scope, token.drop_last())
            &&& token.len() > 0 && !(outside::is_hex_digit(c) && outside::hex_value(c)
                == outside::hex_value(token.last())) ==> !token_valid(Some(secret), scope, other)
        }),
{
    let scope = path_scope(path);
    law_links_carry_query(base, secret, path, 0);
    law_link_token_read(secret, scope);
    law_token_accepted(secret, scope);
    law_changed_token_refused(secret, scope, c);
    outside::law_hex_round_trip(outside::hmac_sha256(encode_utf8(secret), encode_utf8(scope)));
}

/// A link to a page opens it: a request with the link's query bears the token of its path.
pub proof fn law_link_opens_page(secret: Seq<char>, target: Target)
    requires
        text::opt_text(target.query) == Some(link_query(secret, path_scope(target.path@))),
    ensures
        bears_path_token(Some(secret), target),
{
    law_link_token_read(secret, path_scope(target.path@));
    law_token_accepted(secret, path_scope(target.path@));
}

/// Without a secret no token is accepted.
pub proof fn law_no_secret_no_link(scope: Seq<char>, token: Seq<char>)
    ensures
        !token_valid(None, scope, token),
        !artifact_token_valid(None, scope, token),
{
}

/// The scopes of artifacts, builds and pages never coincide.
pub proof fn law_scopes_apart(path: Seq<char>, id: u128, page: Seq<char>)
    ensures
        artifact_scope(path) != build_scope(id),
        artifact_scope(path) != path_scope(page),
        build_scope(id) != path_scope(page),
{
    reveal_strlit("artifact:");
    reveal_strlit("build:");
    reveal_strlit("path:");
    assert(artifact_scope(path)[0] == 'a');
    assert(build_scope(id)[0] == 'b');
    assert(path_scope(page)[0] == 'p');
}

/// The scopes of different builds are different, and so are those of different artifacts and pages:
/// a token is made for one of them only.
pub proof fn law_scopes_distinct(a: u128, b: u128, p: Seq<char>, q: Seq<char>)
    ensures
        build_scope(a) == build_scope(b) ==> a == b,
        artifact_scope(p) == artifact_scope(q) ==> p == q,
        path_scope(p) == path_scope(q) ==> p == q,
{
    let n = "build:"@.len() as int;
    assert(build_scope(a).skip(n) =~= outside::uuid_text(a));
    assert(build_scope(b).skip(n) =~= outside::uuid_text(b));
    if build_scope(a) == build_scope(b) {
        outside::law_id_text_unique(a, b);
    }
    assert(artifact_scope(p).skip("artifact:"@.len() as int) =~= p);
    assert(artifact_scope(q).skip("artifact:"@.len() as int) =~= q);
    assert(path_scope(p).skip("path:"@.len() as int) =~= p);
    assert(path_scope(q).skip("path:"@.len() as int) =~= q);
}

/// A project that is public is seen by everybody, and a request without an account sees no other.
pub proof fn law_anonymous_sees_public(project: ProjectConfig)
    ensures
        may_view(Viewer::Anonymous, project) <==> project.visibility == Visibility::Public,
        project.visibility == Visibility::Public ==> forall|viewer: Viewer|
            may_view(viewer, project),
{
}

/// An administrator sees every project, and so sees all that any other account sees.
pub proof fn law_admin_sees_all(name: Seq<char>, project: ProjectConfig)
    ensures
        may_view(Viewer::Account { name, admin: true }, project),
        may_view_maven(Viewer::Account { name, admin: true }, project),
{
}

/// A private project is seen by administrators only.
pub proof fn law_private_for_admins(viewer: Viewer, project: ProjectConfig)
    requires
        project.visibility == Visibility::Private,
    ensures
        may_view(viewer, project) <==> (viewer matches Viewer::Account { name, admin } && admin),
{
}

/// A restricted project is seen by administrators and by the accounts that it allows.
pub proof fn law_restricted_for_allowed(viewer: Viewer, project: ProjectConfig)
    requires
        project.visibility == Visibility::Restricted,
    ensures
        may_view(viewer, project) <==> (viewer matches Viewer::Account { name, admin } && (admin
            || allows(project, name))),
{
}

/// Maven artifacts may be fetched by everybody unless the project says otherwise; then by those
/// who see the project.
pub proof fn law_maven_public_by_default(viewer: Viewer, project: ProjectConfig)
    ensures
        project.maven.public is None ==> may_view_maven(viewer, project),
        project.maven.public == Some(false) ==> may_view_maven(viewer, project) == may_view(
            viewer,
            project,
        ),
{
}

/// The token of an `Authorization` header is what follows `Bearer `, without white space around it.
pub proof fn law_bearer_read(token: Seq<char>, space: Seq<char>, other: Seq<char>)
    requires
        token.len() > 0,
        !text::is_space(token[0]),
        !text::is_space(token.last()),
        forall|k: int| 0 <= k < space.len() ==> text::is_space(#[trigger] space[k]),
        !"Bearer "@.is_prefix_of(other),
    ensures
        bearer(Some("Bearer "@ + (space + token + space))) == Some(token),
        bearer(Some("Bearer "@ + token)) == Some(token),
        bearer(Some(other)) is None,
        bearer(None) is None,
{
    text::law_prefix_taken("Bearer "@, space + token + space);
    text::law_prefix_taken("Bearer "@, token);
    text::law_trimmed(space, token, space, CharClass::Space);
    text::lemma_trimmed_clean(token, CharClass::Space);
}

/// A request is sent by the first account whose token is the one that it bears; with a token of no
/// account, or without one, by nobody. The header goes before the cookie.
pub proof fn law_sender_is_account_of_token(
    headers: Headers,
    config: Config,
    token: Seq<char>,
    i: int,
)
    ensures
        ({
            let accounts = config.auth.accounts@;
            let header = bearer(text::opt_text(headers.authorization));
            let kept = cookie(text::opt_text(headers.cookie));
            let bears = header == Some(token) || (header is None && kept == Some(token));
            &&& bears && 0 <= i < accounts.len() && accounts[i].token@ == token && (forall|j: int|
                0 <= j < i ==> (#[trigger] accounts[j]).token@ != token) ==> sender(headers, config)
                == (Viewer::Account { name: accounts[i].name@, admin: accounts[i].admin })
            &&& bears && (forall|j: int|
                0 <= j < accounts.len() ==> (#[trigger] accounts[j]).token@ != token) ==> sender(
                headers,
                config,
            ) == Viewer::Anonymous
            &&& header is None && kept is None ==> sender(headers, config) == Viewer::Anonymous
        }),
{
    let accounts = config.auth.accounts@;
    let cond = of_token(token);
    if 0 <= i < accounts.len() && accounts[i].token@ == token && (forall|j: int|
        0 <= j < i ==> (#[trigger] accounts[j]).token@ != token) {
        list::law_first_found(accounts, cond, i);
    }
    list::lemma_find_first(accounts, cond);
    if forall|j: int| 0 <= j < accounts.len() ==> (#[trigger] accounts[j]).token@ != token {
        if let Some(a) = list::find_first(accounts, cond) {
            let j = choose|j: int| 0 <= j < accounts.len() && accounts[j] == a;
            assert(accounts[j].token@ != token);
        }
    }
}

/// A login succeeds exactly for the name and the token of one and the same account.
pub proof fn law_login_needs_both(config: Config, name: Seq<char>, token: Seq<char>)
    ensures
        account_of_login(config, name, token) is Some <==> exists|i: int|
            0 <= i < config.auth.accounts@.len() && (#[trigger] config.auth.accounts@[i]).name@
                == name && config.auth.accounts@[i].token@ == token,
        account_of_login(config, name, token) matches Some(a) ==> a.name@ == name && a.token@
            == token && config.auth.accounts@.contains(a),
{
    let accounts = config.auth.accounts@;
    list::lemma_find_first(accounts, of_login(name, token));
    if let Some(a) = account_of_login(config, name, token) {
        let i = choose|i: int| 0 <= i < accounts.len() && accounts[i] == a;
        assert(accounts[i].name@ == name);
    }
}

/// The value of a parameter is what follows its name and `=`, up to the next `&`; parameters of other
/// names before it do not matter.
pub proof fn law_param_read(
    name: Seq<char>,
    value: Seq<char>,
    key: Seq<char>,
    other: Seq<char>,
    rest: Seq<char>,
)
    requires
        !name.contains('=') && !name.contains('&'),
        !value.contains('&'),
        !key.contains('=') && !key.contains('&'),
        !other.contains('&'),
        key != name,
    ensures
        ({
            let here = name + seq!['='] + value;
            let before = key + seq!['='] + other;
            &&& param(Some(here), name) == Some(value)
            &&& param(Some(here + seq!['&'] + rest), name) == Some(value)
            &&& param(Some(before + seq!['&'] + here), name) == Some(value)
            &&& param(Some(before), name) is None
            &&& param(None, name) is None
        }),
{
    let here = name + seq!['='] + value;
    let before = key + seq!['='] + other;
    lemma_pair_has_no(name, value);
    lemma_pair_has_no(key, other);
    text::law_split_at_first(name, '=', value);
    text::law_split_at_first(key, '=', other);
    text::law_split_pieces(here, '&', rest);
    text::law_split_pieces(before, '&', here);
    let one = seq![here];
    let two = seq![before] + one;
    let more = seq![here] + text::split(rest, '&');
    assert(one[0] == here);
    assert(first_value(one, name) == Some(value));
    assert(more[0] == here);
    assert(first_value(more, name) == Some(value));
    assert(two[0] == before);
    assert(two.drop_first() =~= one);
    assert(first_value(two, name) == Some(value));
    assert(seq![before].drop_first() =~= seq![]);
    assert(first_value(seq![before].drop_first(), name) is None);
}

/// A name and a value without `&` have none with `=` between them.
proof fn lemma_pair_has_no(name: Seq<char>, value: Seq<char>)
    requires
        !name.contains('&'),
        !value.contains('&'),
    ensures
        !(name + seq!['='] + value).contains('&'),
{
    let s = name + seq!['='] + value;
    if s.contains('&') {
        let k = choose|k: int| 0 <= k < s.len() && s[k] == '&';
        if k < name.len() {
            assert(name[k] == '&');
        } else if k > name.len() {
            assert(value[k - name.len() - 1] == '&');
        }
    }
}

/// A restricted project allows exactly the accounts whose names it lists, letter by letter.
pub proof fn law_allowed_accounts(project: ProjectConfig, name: Seq<char>)
    ensures
        allows(project, name) <==> exists|i: int|
            0 <= i < project.allowed_accounts@.len() && (#[trigger] project.allowed_accounts@[i])@
                == name,
{
    let all = text::texts(project.allowed_accounts@);
    if allows(project, name) {
        let i = choose|i: int| 0 <= i < all.len() && all[i] == name;
        assert(project.allowed_accounts@[i]@ == name);
    }
    if exists|i: int|
        0 <= i < project.allowed_accounts@.len() && (#[trigger] project.allowed_accounts@[i])@
            == name {
        let i = choose|i: int|
            0 <= i < project.allowed_accounts@.len() && (#[trigger] project.allowed_accounts@[i])@
                == name;
        assert(all[i] == name);
    }
}

/// Who may not pass is answered 404, as for what is not there.
pub proof fn law_refusals_hide(res: Result<(), ApiError>, pass: bool)
    requires
        passes_or_hides(res, pass),
    ensures
        res is Ok <==> pass,
        res matches Err(e) ==> e.status == 404 && e.message@ == "not found"@,
{
}

/// Links of older kind stay valid: the token of the bare path of an artifact permits to fetch it.
pub proof fn law_older_token_accepted(secret: Seq<char>, path: Seq<char>)
    ensures
        artifact_token_valid(Some(secret), path, token_text(secret, path)),
{
    law_token_accepted(secret, path);
}

/// The token that a request bears is that of its own path: a token of another path does not pass,
/// unless the codes collide.
pub proof fn law_page_token_is_exact(secret: Seq<char>, path: Seq<char>, target: Target)
    requires
        text::opt_text(target.query) == Some(link_query(secret, path_scope(path))),
        outside::hmac_sha256(encode_utf8(secret), encode_utf8("path:"@ + path))
            != outside::hmac_sha256(encode_utf8(secret), encode_utf8("path:"@ + target.path@)),
    ensures
        !bears_path_token(Some(secret), target),
{
    law_link_token_read(secret, path_scope(path));
    law_token_exact(secret, path_scope(path), path_scope(target.path@));
}

/// What the tokens sign: the kind of the link, and then the path of the artifact, the identifier of
/// the build or the path of the page. The token is the lower-case hexadecimal form of the code.
pub proof fn law_what_tokens_sign(secret: Seq<char>, path: Seq<char>, id: u128)
    ensures
        artifact_scope(path) == "artifact:"@ + path,
        build_scope(id) == "build:"@ + outside::uuid_text(id),
        path_scope(path) == "path:"@ + path,
        outside::hex_bytes(token_text(secret, path)) == outside::hmac_sha256(
            encode_utf8(secret),
            encode_utf8(path),
        ),
{
    outside::law_hex_round_trip(outside::hmac_sha256(encode_utf8(secret), encode_utf8(path)));
}

/// Maven artifacts of a project that says so are fetched by everybody.
pub proof fn law_maven_public(viewer: Viewer, project: ProjectConfig)
    requires
        project.maven.public == Some(true),
    ensures
        may_view_maven(viewer, project),
{
}

/// Only the hexadecimal form of the code of a scope permits it: a token that is accepted is such
/// digits, and those of an artifact sign its scope or its bare path.
pub proof fn law_only_its_code(secret: Option<Seq<char>>, scope: Seq<char>, token: Seq<char>)
    ensures
        token_valid(secret, scope, token) ==> secret is Some && outside::is_hex_text(token)
            && outside::hex_bytes(token) == outside::hmac_sha256(
            encode_utf8(secret->0),
            encode_utf8(scope),
        ),
        artifact_token_valid(secret, scope, token) ==> secret is Some && outside::is_hex_text(token)
            && (outside::hex_bytes(token) == outside::hmac_sha256(
            encode_utf8(secret->0),
            encode_utf8("artifact:"@ + scope),
        ) || outside::hex_bytes(token) == outside::hmac_sha256(
            encode_utf8(secret->0),
            encode_utf8(scope),
        )),
{
}

/// The token of a cookie is found among other cookies, with spaces between them; and an empty one is
/// none.
pub proof fn law_cookie_among_others(token: Seq<char>, key: Seq<char>, other: Seq<char>)
    requires
        token.len() > 0,
        !token.contains(';'),
        !text::is_space(token.last()),
        key.len() > 0,
        !key.contains(';') && !key.contains('='),
        !text::is_space(key[0]),
        key != "kei_token"@,
        !other.contains(';'),
        other.len() > 0,
        !text::is_space(other.last()),
    ensures
        ({
            let mine = "kei_token="@ + token;
            let theirs = key + seq!['='] + other;
            &&& cookie(Some(theirs + seq![';'] + (seq![' '] + mine))) == Some(token)
            &&& cookie(Some(mine + seq![';'] + (seq![' '] + theirs))) == Some(token)
            &&& cookie(Some(theirs)) is None
            &&& cookie(Some("kei_token="@)) is None
            &&& cookie(None) is None
        }),
{
    reveal_strlit("kei_token=");
    reveal_strlit("kei_token");
    let name = "kei_token"@;
    let mine = "kei_token="@ + token;
    let theirs = key + seq!['='] + other;
    let f = |c: Seq<char>| text::trimmed(c, CharClass::Space);
    assert("kei_token="@ =~= name + seq!['='] + seq![]);
    assert(mine =~= name + seq!['='] + token);
    assert(!mine.contains(';')) by {
        if mine.contains(';') {
            let k = choose|k: int| 0 <= k < mine.len() && mine[k] == ';';
            assert(k >= 10);
            assert(token[k - 10] == ';');
        }
    }
    assert(!theirs.contains(';')) by {
        if theirs.contains(';') {
            let k = choose|k: int| 0 <= k < theirs.len() && theirs[k] == ';';
            if k < key.len() {
                assert(key[k] == ';');
            } else {
                assert(other[k - key.len() - 1] == ';');
            }
        }
    }
    let my_space = seq![' '] + mine;
    let their_space = seq![' '] + theirs;
    assert(!my_space.contains(';')) by {
        if my_space.contains(';') {
            let k = choose|k: int| 0 <= k < my_space.len() && my_space[k] == ';';
            assert(mine[k - 1] == ';');
        }
    }
    assert(!their_space.contains(';')) by {
        if their_space.contains(';') {
            let k = choose|k: int| 0 <= k < their_space.len() && their_space[k] == ';';
            assert(theirs[k - 1] == ';');
        }
    }
    text::law_split_pieces(theirs, ';', my_space);
    text::law_split_pieces(my_space, ';', seq![]);
    text::law_split_pieces(mine, ';', their_space);
    text::law_split_pieces(their_space, ';', seq![]);
    assert(mine[0] == 'k' && mine.last() == token.last());
    assert(theirs[0] == key[0] && theirs.last() == other.last());
    text::lemma_trimmed_clean(mine, CharClass::Space);
    text::lemma_trimmed_clean(theirs, CharClass::Space);
    text::law_trimmed(seq![' '], mine, seq![], CharClass::Space);
    text::law_trimmed(seq![' '], theirs, seq![], CharClass::Space);
    assert(seq![' '] + mine + seq![] =~= my_space);
    assert(seq![' '] + theirs + seq![] =~= their_space);
    assert(!name.contains('='));
    text::law_split_at_first(name, '=', token);
    text::law_split_at_first(name, '=', seq![]);
    text::law_split_at_first(key, '=', other);
    let both = seq![theirs, mine];
    assert(text::split(theirs + seq![';'] + my_space, ';').map_values(f) =~= both);
    assert(both.drop_first() =~= seq![mine]);
    assert(first_value(seq![mine], name) == Some(token));
    assert(first_value(both, name) == Some(token));
    let swapped = seq![mine, theirs];
    assert(text::split(mine + seq![';'] + their_space, ';').map_values(f) =~= swapped);
    assert(first_value(swapped, name) == Some(token));
    assert(text::split(theirs, ';').map_values(f) =~= seq![theirs]);
    assert(seq![theirs].drop_first() =~= seq![]);
    assert(first_value(seq![theirs].drop_first(), name) is None);
    let bare = "kei_token="@;
    assert(!bare.contains(';'));
    text::law_split_pieces(bare, ';', seq![]);
    text::lemma_trimmed_clean(bare, CharClass::Space);
    assert(text::split(bare, ';').map_values(f) =~= seq![bare]);
    assert(first_value(seq![bare], name) == Some(Seq::<char>::empty()));
}

/// The projects that are listed are exactly those of the configuration that the viewer may see.
pub proof fn law_visible_projects(viewer: Viewer, config: Config, p: ProjectConfig)
    ensures
        visible(viewer, config).contains(p) <==> config.projects@.contains(p) && may_view(viewer, p),
        visible(viewer, config).len() <= config.projects@.len(),
        (forall|i: int|
            0 <= i < config.projects@.len() ==> may_view(viewer, #[trigger] config.projects@[i]))
            ==> visible(viewer, config) == config.projects@,
{
    let cond = |q: ProjectConfig| may_view(viewer, q);
    let all = config.projects@;
    assert(visible(viewer, config) == all.filter(cond));
    lemma_filter(all, cond, p);
}

/// What a filtered list contains.
proof fn lemma_filter<T>(s: Seq<T>, p: spec_fn(T) -> bool, x: T)
    ensures
        s.filter(p).contains(x) <==> s.contains(x) && p(x),
        s.filter(p).len() <= s.len(),
        (forall|i: int| 0 <= i < s.len() ==> p(#[trigger] s[i])) ==> s.filter(p) == s,
    decreases s.len(),
{
    reveal(Seq::filter);
    if s.len() > 0 {
        let up = s.drop_last();
        lemma_filter(up, p, x);
        list::lemma_contains_push(up, s.last());
        list::lemma_contains_push(up.filter(p), s.last());
        assert(s =~= up.push(s.last()));
        if forall|i: int| 0 <= i < s.len() ==> p(#[trigger] s[i]) {
            assert forall|i: int| 0 <= i < up.len() implies p(#[trigger] up[i]) by {
                assert(up[i] == s[i]);
            }
            assert(p(s[s.len() - 1]));
        }
    } else {
        assert(s.filter(p) =~= s);
    }
}

} // verus!
