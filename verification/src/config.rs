//! The configuration of the server and of its projects.

use crate::list;
use crate::numbers;
use crate::paths;
use crate::text;
use vstd::prelude::*;

verus! {

/// The whole configuration.
#[derive(Debug, Clone)]
pub struct Config {
    pub server: ServerConfig,
    pub storage: StorageConfig,
    pub github: GithubConfig,
    pub nix: NixConfig,
    pub maven: MavenConfig,
    pub auth: AuthConfig,
    pub projects: Vec<ProjectConfig>,
}

/// The Maven repository that the server offers.
#[derive(Debug, Clone)]
pub struct MavenConfig {
    /// The directory served under `/maven/`. Without it that route answers 404.
    pub repo_dir: Option<String>,
}

/// Where the server listens and how it is reached.
#[derive(Debug, Clone)]
pub struct ServerConfig {
    pub host: String,
    pub port: u16,
    /// The base address, without a slash at its end, of links in notifications. Without it,
    /// notifications give relative addresses and refer to the page of a build by its identifier.
    pub public_url: Option<String>,
}

/// Where workspaces and artifacts are kept.
#[derive(Debug, Clone)]
pub struct StorageConfig {
    pub workspace_dir: String,
    pub artifacts_dir: String,
}

/// The connection to GitHub.
#[derive(Debug, Clone)]
pub struct GithubConfig {
    pub webhook_secret: Option<String>,
}

/// How steps are wrapped by nix: as `nix develop <flake>#<shell> <extra_args...> -c`, or by
/// `command` where it is not empty.
#[derive(Debug, Clone)]
pub struct NixConfig {
    pub enabled: bool,
    pub flake: String,
    pub shell: String,
    pub extra_args: Vec<String>,
    pub command: Vec<String>,
}

/// A project's own nix settings. Each one that is present replaces the global one.
#[derive(Debug, Clone)]
pub struct ProjectNixOverride {
    pub enabled: Option<bool>,
    pub flake: Option<String>,
    pub shell: Option<String>,
    pub extra_args: Option<Vec<String>>,
}

/// The accounts, and the secret that signs public links.
#[derive(Debug, Clone)]
pub struct AuthConfig {
    pub accounts: Vec<AccountConfig>,
    pub public_link_secret: Option<String>,
}

/// One account.
#[derive(Debug, Clone)]
pub struct AccountConfig {
    pub name: String,
    pub token: String,
    pub admin: bool,
}

/// Who may see a project.
#[derive(Debug, Clone, Copy, PartialEq, Eq, Structural)]
pub enum Visibility {
    /// Everybody.
    Public,
    /// Administrators and the accounts that the project allows.
    Restricted,
    /// Administrators only.
    Private,
}

/// The Maven artifacts that a project owns.
#[derive(Debug, Clone)]
pub struct ProjectMavenConfig {
    /// Whether they may be fetched by everybody; so they may where nothing is said.
    pub public: Option<bool>,
    /// Their artifact identifiers.
    pub artifacts: Vec<String>,
}

/// One project.
#[derive(Debug, Clone)]
pub struct ProjectConfig {
    pub name: String,
    pub repo_url: String,
    pub branch: String,
    /// The private key that git authenticates with.
    pub ssh_key: Option<String>,
    pub github_full_name: Option<String>,
    pub visibility: Visibility,
    pub allowed_accounts: Vec<String>,
    pub maven: ProjectMavenConfig,
    pub nix: ProjectNixOverride,
    pub steps: Vec<StepConfig>,
    pub artifacts: Vec<ArtifactConfig>,
    pub notify: NotifyConfig,
}

/// Whom a project notifies.
#[derive(Debug, Clone)]
pub struct NotifyConfig {
    pub discord: Vec<DiscordTarget>,
}

/// One Discord webhook.
#[derive(Debug, Clone)]
pub struct DiscordTarget {
    /// The address of the webhook.
    pub url: String,
    /// The thread in which the notification is to appear.
    pub thread_id: Option<String>,
    /// Whether to notify also of builds that did not succeed.
    pub on_failure: bool,
    /// Whether to link the changes since the last successful build. Needs `github_full_name` on
    /// the project.
    pub include_changes: bool,
    /// Whether to link the commit that a build step pushed.
    pub include_docs_commit: bool,
    /// Whether to list the artifacts.
    pub include_artifacts: bool,
    /// Whether the listed artifacts are linked so that everybody may fetch them.
    pub public_artifact_links: bool,
    /// The title, with `{project}`, `{number}` and `{status}` for what they name.
    pub title: Option<String>,
    /// Text put before the description as it is.
    pub custom_message: Option<String>,
}

/// The environment variables of a step: at most one value for each name.
#[derive(Debug)]
pub struct EnvVars {
    pairs: Vec<(String, String)>,
}

/// The views of a list of names and values.
pub open spec fn pair_texts(v: Seq<(String, String)>) -> Seq<(Seq<char>, Seq<char>)> {
    v.map_values(|p: (String, String)| (p.0@, p.1@))
}

/// Whether no name occurs twice.
pub open spec fn names_differ(entries: Seq<(Seq<char>, Seq<char>)>) -> bool {
    forall|i: int, j: int| 0 <= i < j < entries.len() ==> entries[i].0 != entries[j].0
}

impl EnvVars {
    /// The names and values, in the order in which the names were first set.
    pub closed spec fn entries(self) -> Seq<(Seq<char>, Seq<char>)> {
        pair_texts(self.pairs@)
    }

    /// No name occurs twice.
    #[verifier::type_invariant]
    spec fn wf(self) -> bool {
        names_differ(self.entries())
    }

    /// No variables.
    pub fn new() -> (res: EnvVars)
        ensures
            res.entries() == Seq::<(Seq<char>, Seq<char>)>::empty(),
    {
        let res = EnvVars { pairs: Vec::new() };
        assert(res.entries() =~= Seq::<(Seq<char>, Seq<char>)>::empty());
        res
    }

    /// Sets a variable, replacing the value that its name had.
    pub fn set(&mut self, name: String, value: String)
        ensures
            (exists|i: int|
                0 <= i < old(self).entries().len() && #[trigger] old(self).entries()[i].0 == name@
                    && final(self).entries() == old(self).entries().update(i, (name@, value@))) || (
            (forall|i: int|
                0 <= i < old(self).entries().len() ==> #[trigger] old(self).entries()[i].0 != name@)
                && final(self).entries() == old(self).entries().push((name@, value@))),
    {
        proof {
            use_type_invariant(&*self);
        }
        let ghost before = self.entries();
        let mut pairs: Vec<(String, String)> = Vec::new();
        std::mem::swap(&mut pairs, &mut self.pairs);
        let mut i: usize = 0;
        while i < pairs.len()
            invariant
                i <= pairs@.len(),
                pair_texts(pairs@) == before,
                names_differ(before),
                old(self).entries() == before,
                forall|k: int| 0 <= k < i ==> (#[trigger] before[k]).0 != name@,
            decreases pairs@.len() - i,
        {
            assert(before[i as int].0 == pairs@[i as int].0@);
            if text::same(pairs[i].0.as_str(), name.as_str()) {
                pairs.set(i, (name, value));
                assert(pair_texts(pairs@) =~= before.update(i as int, (name@, value@)));
                self.pairs = pairs;
                return;
            }
            i = i + 1;
        }
        pairs.push((name, value));
        assert(pair_texts(pairs@) =~= before.push((name@, value@)));
        self.pairs = pairs;
    }

    /// The names and values; no name occurs twice.
    pub fn pairs(&self) -> (res: &Vec<(String, String)>)
        ensures
            pair_texts(res@) == self.entries(),
            names_differ(self.entries()),
    {
        proof {
            use_type_invariant(self);
        }
        &self.pairs
    }
}

impl Clone for EnvVars {
    fn clone(&self) -> (res: EnvVars)
        ensures
            res.entries() == self.entries(),
    {
        proof {
            use_type_invariant(self);
        }
        let mut pairs: Vec<(String, String)> = Vec::new();
        let ghost all = self.entries();
        let mut i: usize = 0;
        while i < self.pairs.len()
            invariant
                i <= self.pairs@.len(),
                all == pair_texts(self.pairs@),
                pair_texts(pairs@) == all.take(i as int),
            decreases self.pairs@.len() - i,
        {
            let ghost before = pair_texts(pairs@);
            let pair = (self.pairs[i].0.clone(), self.pairs[i].1.clone());
            pairs.push(pair);
            assert(pair_texts(pairs@) =~= before.push(all[i as int]));
            assert(all.take(i + 1) =~= all.take(i as int).push(all[i as int]));
            i = i + 1;
        }
        assert(all.take(i as int) =~= all);
        EnvVars { pairs }
    }
}

/// One step of a build.
#[derive(Debug, Clone)]
pub struct StepConfig {
    pub name: String,
    pub command: String,
    pub args: Vec<String>,
    pub use_nix: Option<bool>,
    pub nix_shell: Option<String>,
    pub cwd: Option<String>,
    /// After this many seconds the step is killed.
    pub timeout: Option<u64>,
    /// Variables added to the environment for this step.
    pub env: EnvVars,
}

/// Which files of the workspace are kept.
#[derive(Debug, Clone)]
pub struct ArtifactConfig {
    pub pattern: String,
    /// Where present, matched files are put into the artifact root, and the suffix into their
    /// names before the extension. Where absent, they keep their path under the workspace.
    pub suffix: Option<String>,
}

/// How a project is built.
#[derive(Debug, Clone)]
pub struct ProjectBuildConfig {
    pub nix: ProjectNixOverride,
    pub steps: Vec<StepConfig>,
    pub artifacts: Vec<ArtifactConfig>,
}

// ---------------------------------------------------------------------------------------------
// Defaults
// ---------------------------------------------------------------------------------------------
pub fn default_host() -> (res: String)
    ensures
        res@ == "0.0.0.0"@,
{
    "0.0.0.0".to_owned()
}

pub fn default_port() -> (res: u16)
    ensures
        res == 5050,
{
    5050
}

pub fn default_workspace() -> (res: String)
    ensures
        res@ == "./data/workspaces"@,
{
    "./data/workspaces".to_owned()
}

pub fn default_artifacts() -> (res: String)
    ensures
        res@ == "./data/artifacts"@,
{
    "./data/artifacts".to_owned()
}

pub fn default_flake() -> (res: String)
    ensures
        res@ == "."@,
{
    ".".to_owned()
}

pub fn default_shell() -> (res: String)
    ensures
        res@ == "default"@,
{
    "default".to_owned()
}

pub fn default_true() -> (res: bool)
    ensures
        res,
{
    true
}

pub fn default_branch() -> (res: String)
    ensures
        res@ == "main"@,
{
    "main".to_owned()
}

impl Default for ServerConfig {
    fn default() -> (res: Self)
        ensures
            res.host@ == "0.0.0.0"@,
            res.port == 5050,
            res.public_url is None,
    {
        ServerConfig { host: default_host(), port: default_port(), public_url: None }
    }
}

impl Default for StorageConfig {
    fn default() -> (res: Self)
        ensures
            res.workspace_dir@ == "./data/workspaces"@,
            res.artifacts_dir@ == "./data/artifacts"@,
    {
        StorageConfig { workspace_dir: default_workspace(), artifacts_dir: default_artifacts() }
    }
}

impl Default for GithubConfig {
    fn default() -> (res: Self)
        ensures
            res.webhook_secret is None,
    {
        GithubConfig { webhook_secret: None }
    }
}

impl Default for NixConfig {
    fn default() -> (res: Self)
        ensures
            !res.enabled,
            res.flake@ == "."@,
            res.shell@ == "default"@,
            res.extra_args@.len() == 0,
            res.command@.len() == 0,
    {
        NixConfig {
            enabled: false,
            flake: default_flake(),
            shell: default_shell(),
            extra_args: Vec::new(),
            command: Vec::new(),
        }
    }
}

impl Default for MavenConfig {
    fn default() -> (res: Self)
        ensures
            res.repo_dir is None,
    {
        MavenConfig { repo_dir: None }
    }
}

impl Default for ProjectNixOverride {
    fn default() -> (res: Self)
        ensures
            res.enabled is None,
            res.flake is None,
            res.shell is None,
            res.extra_args is None,
    {
        ProjectNixOverride { enabled: None, flake: None, shell: None, extra_args: None }
    }
}

impl Default for NotifyConfig {
    fn default() -> (res: Self)
        ensures
            res.discord@.len() == 0,
    {
        NotifyConfig { discord: Vec::new() }
    }
}

impl Default for AuthConfig {
    fn default() -> (res: Self)
        ensures
            res.accounts@.len() == 0,
            res.public_link_secret is None,
    {
        AuthConfig { accounts: Vec::new(), public_link_secret: None }
    }
}

impl Default for ProjectMavenConfig {
    fn default() -> (res: Self)
        ensures
            res.public is None,
            res.artifacts@.len() == 0,
    {
        ProjectMavenConfig { public: None, artifacts: Vec::new() }
    }
}

impl Default for ProjectBuildConfig {
    fn default() -> (res: Self)
        ensures
            res.nix.enabled is None,
            res.nix.flake is None,
            res.nix.shell is None,
            res.nix.extra_args is None,
            res.steps@.len() == 0,
            res.artifacts@.len() == 0,
    {
        ProjectBuildConfig {
            nix: ProjectNixOverride::default(),
            steps: Vec::new(),
            artifacts: Vec::new(),
        }
    }
}

// ---------------------------------------------------------------------------------------------
// Files
// ---------------------------------------------------------------------------------------------
/// What came of reading a file. An error comes with its message.
#[derive(Debug, Clone)]
pub enum FileText {
    Text(String),
    Missing(String),
    Unreadable(String),
}

/// An error about a file.
pub open spec fn file_error(doing: Seq<char>, path: Seq<char>, error: Seq<char>) -> Seq<char> {
    doing + " "@ + path + ": "@ + error
}

/// An error about a file.
pub fn about_file(doing: &str, path: &str, error: &str) -> (res: String)
    ensures
        res@ == file_error(doing@, path@, error@),
{
    let mut out = doing.to_owned();
    out.append(" ");
    out.append(path);
    out.append(": ");
    out.append(error);
    out
}

impl ServerConfig {
    /// The address that the server listens at.
    pub fn address(&self) -> (res: String)
        ensures
            res@ == self.host@ + ":"@ + numbers::decimal(self.port as nat),
    {
        let mut out = self.host.clone();
        out.append(":");
        out.append(numbers::decimal_text(self.port as u64).as_str());
        out
    }
}

impl ProjectBuildConfig {
    /// The file in a workspace that says how the project is built.
    pub fn file_in(workspace: &str) -> (res: String)
        ensures
            res@ == paths::joined(workspace@, "kei.toml"@),
    {
        paths::join(workspace, "kei.toml")
    }

    /// The text that says how the project is built. A workspace need not have it, and one whose
    /// file cannot be read is built as if it had none.
    pub fn text_to_parse(read: FileText) -> (res: Option<String>)
        ensures
            match read {
                FileText::Text(s) => res == Some(s),
                FileText::Missing(_) | FileText::Unreadable(_) => res is None,
            },
    {
        match read {
            FileText::Text(s) => Some(s),
            FileText::Missing(_) | FileText::Unreadable(_) => None,
        }
    }

    /// How the workspace says that the project is built, from what parsing the text of the file at
    /// `path` gave, where there is a text. Only a text that cannot be parsed is an error.
    pub fn load_from_workspace(
        path: &str,
        parsed: Option<Result<ProjectBuildConfig, String>>,
    ) -> (res: Result<Option<ProjectBuildConfig>, String>)
        ensures
            match parsed {
                None => res == Ok::<Option<ProjectBuildConfig>, String>(None),
                Some(Ok(c)) => res == Ok::<Option<ProjectBuildConfig>, String>(Some(c)),
                Some(Err(e)) => res matches Err(m) && m@ == file_error("parsing"@, path@, e@),
            },
    {
        match parsed {
            None => Ok(None),
            Some(Ok(c)) => Ok(Some(c)),
            Some(Err(e)) => Err(about_file("parsing", path, e.as_str())),
        }
    }
}

impl Config {
    /// The text of the configuration, which must be there.
    pub fn load(path: &str, read: FileText) -> (res: Result<String, String>)
        ensures
            match read {
                FileText::Text(s) => res == Ok::<String, String>(s),
                FileText::Missing(e) => res matches Err(m) && m@ == file_error(
                    "reading"@,
                    path@,
                    e@,
                ),
                FileText::Unreadable(e) => res matches Err(m) && m@ == file_error(
                    "reading"@,
                    path@,
                    e@,
                ),
            },
    {
        match read {
            FileText::Text(s) => Ok(s),
            FileText::Missing(e) => Err(about_file("reading", path, e.as_str())),
            FileText::Unreadable(e) => Err(about_file("reading", path, e.as_str())),
        }
    }
}

// ---------------------------------------------------------------------------------------------
// Finding a project
// ---------------------------------------------------------------------------------------------
/// Whether a project has the given name.
pub open spec fn of_name(name: Seq<char>) -> spec_fn(ProjectConfig) -> bool {
    |p: ProjectConfig| p.name@ == name
}

impl Config {
    /// The first project of the given name.
    pub open spec fn named(self, name: Seq<char>) -> Option<ProjectConfig> {
        list::find_first(self.projects@, of_name(name))
    }

    /// The first project of the given repository.
    pub open spec fn of_repository(self, full_name: Seq<char>) -> Option<ProjectConfig> {
        list::find_first(
            self.projects@,
            |p: ProjectConfig| text::opt_text(p.github_full_name) == Some(full_name),
        )
    }

    /// The first project of the given name.
    pub fn project(&self, name: &str) -> (res: Option<&ProjectConfig>)
        ensures
            match res {
                Some(p) => self.named(name@) == Some(*p),
                None => self.named(name@) is None,
            },
            res matches Some(p) ==> p.name@ == name@ && self.projects@.contains(*p),
    {
        let ghost cond = of_name(name@);
        let mut i: usize = 0;
        assert(self.projects@.skip(0) =~= self.projects@);
        proof {
            list::lemma_find_first(self.projects@, cond);
        }
        while i < self.projects.len()
            invariant
                i <= self.projects@.len(),
                cond == of_name(name@),
                self.named(name@) == list::find_first(self.projects@.skip(i as int), cond),
            decreases self.projects@.len() - i,
        {
            proof {
                list::lemma_find_first_step(self.projects@, cond, i as int);
            }
            if text::same(self.projects[i].name.as_str(), name) {
                assert(self.projects@[i as int] == self.projects@.skip(i as int)[0]);
                return Some(&self.projects[i]);
            }
            i = i + 1;
        }
        None
    }

    /// The first project of the given repository.
    pub fn project_for_full_name(&self, full_name: &str) -> (res: Option<&ProjectConfig>)
        ensures
            match res {
                Some(p) => self.of_repository(full_name@) == Some(*p),
                None => self.of_repository(full_name@) is None,
            },
    {
        let ghost cond = |p: ProjectConfig| text::opt_text(p.github_full_name) == Some(full_name@);
        let mut i: usize = 0;
        assert(self.projects@.skip(0) =~= self.projects@);
        while i < self.projects.len()
            invariant
                i <= self.projects@.len(),
                cond == (|p: ProjectConfig|
                    text::opt_text(p.github_full_name) == Some(full_name@)),
                self.of_repository(full_name@) == list::find_first(
                    self.projects@.skip(i as int),
                    cond,
                ),
            decreases self.projects@.len() - i,
        {
            proof {
                list::lemma_find_first_step(self.projects@, cond, i as int);
            }
            if let Some(f) = &self.projects[i].github_full_name {
                if text::same(f.as_str(), full_name) {
                    return Some(&self.projects[i]);
                }
            }
            i = i + 1;
        }
        None
    }
}

/// A project is found by its name, and by the name of its repository: the first one that has it.
pub proof fn law_first_project_found(config: Config, name: Seq<char>, i: int)
    requires
        0 <= i < config.projects@.len(),
    ensures
        config.projects@[i].name@ == name && (forall|j: int|
            0 <= j < i ==> (#[trigger] config.projects@[j]).name@ != name) ==> config.named(name)
            == Some(config.projects@[i]),
        text::opt_text(config.projects@[i].github_full_name) == Some(name) && (forall|j: int|
            0 <= j < i ==> text::opt_text((#[trigger] config.projects@[j]).github_full_name) != Some(
                name,
            )) ==> config.of_repository(name) == Some(config.projects@[i]),
{
    let by_name = of_name(name);
    let by_repository = |p: ProjectConfig| text::opt_text(p.github_full_name) == Some(name);
    assert(config.of_repository(name) == list::find_first(config.projects@, by_repository));
    if config.projects@[i].name@ == name && (forall|j: int|
        0 <= j < i ==> (#[trigger] config.projects@[j]).name@ != name) {
        list::law_first_found(config.projects@, by_name, i);
    }
    if text::opt_text(config.projects@[i].github_full_name) == Some(name) && (forall|j: int|
        0 <= j < i ==> text::opt_text((#[trigger] config.projects@[j]).github_full_name) != Some(
            name,
        )) {
        list::law_first_found(config.projects@, by_repository, i);
    }
}

/// What is found has the name that was looked for; nothing is found only where no project has it.
pub proof fn law_found_project_has_name(config: Config, name: Seq<char>)
    ensures
        config.named(name) matches Some(p) ==> p.name@ == name && config.projects@.contains(p),
        config.named(name) is None ==> forall|i: int|
            0 <= i < config.projects@.len() ==> (#[trigger] config.projects@[i]).name@ != name,
        config.of_repository(name) matches Some(p) ==> text::opt_text(p.github_full_name) == Some(
            name,
        ) && config.projects@.contains(p),
{
    let by_name = of_name(name);
    let by_repository = |p: ProjectConfig| text::opt_text(p.github_full_name) == Some(name);
    assert(config.of_repository(name) == list::find_first(config.projects@, by_repository));
    list::lemma_find_first(config.projects@, by_name);
    list::lemma_find_first(config.projects@, by_repository);
}

} // verus!
