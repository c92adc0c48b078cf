//! Which git commands are run, and what their output means.

use crate::list;
use crate::numbers;
use crate::text::{self, CharClass};
use vstd::prelude::*;

verus! {

/// What a git command printed and how it ended.
#[derive(Debug, Clone)]
pub struct GitOutput {
    pub success: bool,
    /// The exit code, where there was one.
    pub code: Option<i32>,
    pub stdout: String,
    pub stderr: String,
}

/// One commit, with its changes.
#[derive(Debug, Clone)]
pub struct CommitInfo {
    pub sha: String,
    pub author: String,
    pub date: String,
    pub subject: String,
    pub body: String,
    pub stat: String,
    /// The unified diff.
    pub diff: String,
}

/// One commit in a list.
#[derive(Debug, Clone)]
pub struct CommitSummary {
    pub sha: String,
    pub author: String,
    pub date: String,
    pub subject: String,
}

/// The arguments of a git command.
#[derive(Debug, Clone)]
pub struct GitCommand {
    pub args: Vec<String>,
    /// Whether it runs in the workspace.
    pub in_dir: bool,
    /// Whether it matters that it fails.
    pub must_succeed: bool,
}

/// A list of owned texts.
fn owned(words: Vec<&str>) -> (res: Vec<String>)
    ensures
        text::texts(res@) == text::slices(words@),
{
    let mut out: Vec<String> = Vec::new();
    let ghost all = text::slices(words@);
    let mut i: usize = 0;
    assert(text::texts(out@) =~= all.take(0));
    while i < words.len()
        invariant
            i <= words@.len(),
            all == text::slices(words@),
            text::texts(out@) == all.take(i as int),
        decreases words@.len() - i,
    {
        let ghost before = text::texts(out@);
        let s = words[i].to_owned();
        out.push(s);
        proof {
            assert(text::texts(out@) =~= before.push(s@));
            assert(all.take(i + 1) =~= all.take(i as int).push(s@));
        }
        i = i + 1;
    }
    assert(all.take(i as int) =~= all);
    out
}

// ---------------------------------------------------------------------------------------------
// Authentication
// ---------------------------------------------------------------------------------------------
/// The ssh command that authenticates with a key and no other.
pub open spec fn ssh_text(key: Seq<char>) -> Seq<char> {
    "ssh -i '"@ + text::replaced(key, "'"@, "'\\''"@) + "' -o IdentitiesOnly=yes"@
}

/// The value of `GIT_SSH_COMMAND` that authenticates with a key and no other. Git parses it as a
/// shell does, so the path of the key is quoted.
pub fn ssh_command(key: &str) -> (res: String)
    ensures
        res@ == ssh_text(key@),
{
    proof {
        reveal_strlit("'");
    }
    let mut out = "ssh -i '".to_owned();
    out.append(text::replace(key, "'", "'\\''").as_str());
    out.append("' -o IdentitiesOnly=yes");
    out
}

// ---------------------------------------------------------------------------------------------
// Bringing a workspace up to date
// ---------------------------------------------------------------------------------------------
/// The arguments, whether the command runs in the workspace, and whether it must succeed.
pub open spec fn command_view(c: GitCommand) -> (Seq<Seq<char>>, bool, bool) {
    (text::texts(c.args@), c.in_dir, c.must_succeed)
}

/// The views of a list of commands.
pub open spec fn command_views(v: Seq<GitCommand>) -> Seq<(Seq<Seq<char>>, bool, bool)> {
    v.map_values(|c: GitCommand| command_view(c))
}

/// The commands that make a workspace a copy of the tip of a branch. One that is there already
/// may be in any state, and the branch may have been rewritten.
pub open spec fn sync_commands(
    repo_url: Seq<char>,
    branch: Seq<char>,
    dir: Seq<char>,
    exists: bool,
) -> Seq<(Seq<Seq<char>>, bool, bool)> {
    let tip = "origin/"@ + branch;
    let head = (seq!["rev-parse"@, "HEAD"@], true, true);
    if exists {
        seq![
            (seq!["remote"@, "set-url"@, "origin"@, repo_url], true, false),
            (seq!["fetch"@, "--prune"@, "--force"@, "origin"@], true, true),
            (seq!["checkout"@, "-B"@, branch, tip], true, true),
            (seq!["reset"@, "--hard"@, tip], true, true),
            (seq!["clean"@, "-fdx"@], true, true),
            (seq!["submodule"@, "sync"@, "--recursive"@], true, true),
            (
                seq!["submodule"@, "update"@, "--init"@, "--recursive"@, "--force"@],
                true,
                true,
            ),
            head,
        ]
    } else {
        seq![
            (
                seq!["clone"@, "--branch"@, branch, "--recurse-submodules"@, repo_url, dir],
                false,
                true,
            ),
            head,
        ]
    }
}

fn push_command(out: &mut Vec<GitCommand>, words: Vec<&str>, in_dir: bool, must_succeed: bool)
    ensures
        command_views(final(out)@) == command_views(old(out)@).push(
            (text::slices(words@), in_dir, must_succeed),
        ),
{
    let ghost before = command_views(out@);
    let ghost all = text::slices(words@);
    out.push(GitCommand { args: owned(words), in_dir, must_succeed });
    assert(command_views(out@) =~= before.push((all, in_dir, must_succeed)));
}

/// The commands that make a workspace a copy of the tip of a branch.
fn plan_sync(repo_url: &str, branch: &str, dir: &str, exists: bool) -> (res: Vec<GitCommand>)
    ensures
        command_views(res@) == sync_commands(repo_url@, branch@, dir@, exists),
        res@.len() > 0,
{
    let mut tip = "origin/".to_owned();
    tip.append(branch);
    let t = tip.as_str();
    let mut out: Vec<GitCommand> = Vec::new();
    assert(command_views(out@) =~= seq![]);
    if exists {
        push_command(&mut out, vec!["remote", "set-url", "origin", repo_url], true, false);
        push_command(&mut out, vec!["fetch", "--prune", "--force", "origin"], true, true);
        push_command(&mut out, vec!["checkout", "-B", branch, t], true, true);
        push_command(&mut out, vec!["reset", "--hard", t], true, true);
        push_command(&mut out, vec!["clean", "-fdx"], true, true);
        push_command(&mut out, vec!["submodule", "sync", "--recursive"], true, true);
        push_command(
            &mut out,
            vec!["submodule", "update", "--init", "--recursive", "--force"],
            true,
            true,
        );
    } else {
        push_command(
            &mut out,
            vec!["clone", "--branch", branch, "--recurse-submodules", repo_url, dir],
            false,
            true,
        );
    }
    push_command(&mut out, vec!["rev-parse", "HEAD"], true, true);
    assert(command_views(out@) =~~= sync_commands(repo_url@, branch@, dir@, exists));
    assert(command_views(out@).len() == out@.len());
    out
}

/// How a command came back.
#[derive(Debug, Clone)]
pub enum GitReply {
    /// It ran to its end.
    Ran(GitOutput),
    /// It could not be run, for this reason.
    NotRun(String),
}

impl GitReply {
    /// Whether the command ran and succeeded.
    pub open spec fn good(self) -> bool {
        self matches GitReply::Ran(out) && out.success
    }

    /// What the command printed.
    pub open spec fn printed(self) -> Seq<char> {
        match self {
            GitReply::Ran(out) => out.stdout@ + out.stderr@,
            GitReply::NotRun(_) => ""@,
        }
    }
}

/// An exit code, or that there was none.
pub open spec fn exit_text(code: Option<i32>) -> Seq<char> {
    match code {
        Some(c) => "Some("@ + numbers::signed_decimal(c as int) + ")"@,
        None => "None"@,
    }
}

/// An exit code, or that there was none.
pub fn exit_code_text(code: Option<i32>) -> (res: String)
    ensures
        res@ == exit_text(code),
{
    match code {
        Some(c) => {
            let mut out = "Some(".to_owned();
            out.append(numbers::signed_decimal_text(c as i64).as_str());
            out.append(")");
            out
        },
        None => "None".to_owned(),
    }
}

/// What is logged before a command is run.
pub open spec fn announced(args: Seq<Seq<char>>) -> Seq<char> {
    "$ git "@ + text::joined(args, " "@) + "\n"@
}

/// The error of a command that did not succeed.
pub open spec fn failure(args: Seq<Seq<char>>, code: Option<i32>) -> Seq<char> {
    "git "@ + text::joined(args, " "@) + " failed (exit "@ + exit_text(code) + ")"@
}

/// The error of a reply that is not good.
pub open spec fn reply_error(args: Seq<Seq<char>>, reply: GitReply) -> Seq<char> {
    match reply {
        GitReply::Ran(out) => failure(args, out.code),
        GitReply::NotRun(e) => e@,
    }
}

/// What is logged before a command is run.
fn announce(args: &Vec<String>) -> (res: String)
    ensures
        res@ == announced(text::texts(args@)),
{
    let mut out = "$ git ".to_owned();
    out.append(text::join(args, " ").as_str());
    out.append("\n");
    out
}

/// The error of a command that did not succeed.
fn failed_message(args: &Vec<String>, code: Option<i32>) -> (res: String)
    ensures
        res@ == failure(text::texts(args@), code),
{
    let mut out = "git ".to_owned();
    out.append(text::join(args, " ").as_str());
    out.append(" failed (exit ");
    out.append(exit_code_text(code).as_str());
    out.append(")");
    out
}

/// Bringing a workspace up to date: the commands, which of them runs, and what has been logged.
#[derive(Debug)]
pub struct SyncRun {
    pub commands: Vec<GitCommand>,
    pub at: usize,
    pub log: String,
}

/// What follows a command.
#[derive(Debug)]
pub enum SyncNext {
    /// Run the next command.
    Run,
    /// The workspace is at this commit.
    Done(String),
    /// The workspace could not be brought up to date.
    Failed(String),
}

/// Whether `b` and `next` are what a reply to the command that runs makes of `a`. A command that
/// must succeed and did not is the end; so is the last one, which prints the commit.
pub open spec fn replied(a: SyncRun, reply: GitReply, b: SyncRun, next: SyncNext) -> bool {
    &&& b.commands == a.commands
    &&& if !reply.good() && a.commands@[a.at as int].must_succeed {
        &&& next matches SyncNext::Failed(e)
        &&& e@ == reply_error(a.args(), reply)
        &&& b.at == a.at
        &&& b.log@ == a.log@ + reply.printed()
    } else if a.at + 1 == a.commands@.len() {
        &&& next matches SyncNext::Done(head)
        &&& head@ == text::trimmed(reply->Ran_0.stdout@, CharClass::Space)
        &&& b.at == a.at
        &&& b.log@ == a.log@ + reply.printed()
    } else {
        &&& next is Run
        &&& b.at == a.at + 1
        &&& b.log@ == a.log@ + reply.printed() + announced(b.args())
    }
}

/// What is logged of commands that were run one after the other, with the replies to them.
pub open spec fn transcript(
    commands: Seq<(Seq<Seq<char>>, bool, bool)>,
    replies: Seq<GitReply>,
) -> Seq<char>
    decreases replies.len(),
{
    if replies.len() == 0 {
        seq![]
    } else {
        transcript(commands, replies.drop_last()) + announced(commands[replies.len() - 1].0)
            + replies.last().printed()
    }
}

/// Whether all of the first commands that must succeed did.
pub open spec fn all_good(
    commands: Seq<(Seq<Seq<char>>, bool, bool)>,
    replies: Seq<GitReply>,
) -> bool {
    forall|i: int| 0 <= i < replies.len() && commands[i].2 ==> (#[trigger] replies[i]).good()
}

impl SyncRun {
    /// Whether this is what a run has come to after the given replies: it is at the next command,
    /// all that had to succeed did, and everything is logged.
    pub open spec fn tracks(self, replies: Seq<GitReply>) -> bool {
        let commands = command_views(self.commands@);
        &&& self.at == replies.len()
        &&& all_good(commands, replies)
        &&& self.log@ == transcript(commands, replies) + announced(self.args())
    }

    /// A command is running, and the last one must succeed.
    pub open spec fn wf(self) -> bool {
        &&& self.at < self.commands@.len()
        &&& self.commands@.last().must_succeed
    }

    /// The arguments of the command that runs.
    pub open spec fn args(self) -> Seq<Seq<char>> {
        text::texts(self.commands@[self.at as int].args@)
    }

    /// Starts bringing a workspace up to date. `exists` says whether the directory holds a
    /// repository already.
    pub fn new(repo_url: &str, branch: &str, dir: &str, exists: bool) -> (res: SyncRun)
        ensures
            res.wf(),
            command_views(res.commands@) == sync_commands(repo_url@, branch@, dir@, exists),
            res.at == 0,
            res.log@ == announced(res.args()),
    {
        let commands = plan_sync(repo_url, branch, dir, exists);
        proof {
            let views = command_views(commands@);
            assert(views.last() == command_view(commands@.last()));
            assert(views.last() == (seq!["rev-parse"@, "HEAD"@], true, true));
        }
        let log = announce(&commands[0].args);
        SyncRun { commands, at: 0, log }
    }

    /// The command that runs.
    pub fn command(&self) -> (res: &GitCommand)
        requires
            self.wf(),
        ensures
            *res == self.commands@[self.at as int],
    {
        &self.commands[self.at]
    }

    /// What follows the command that has run.
    pub fn on_reply(&mut self, reply: GitReply) -> (res: SyncNext)
        requires
            old(self).wf(),
        ensures
            final(self).wf(),
            replied(*old(self), reply, *final(self), res),
    {
        let ghost before = self.log@;
        let last = self.at == self.commands.len() - 1;
        match reply {
            GitReply::Ran(out) => {
                self.log.append(out.stdout.as_str());
                self.log.append(out.stderr.as_str());
                assert(self.log@ =~= before + reply.printed());
                let command = &self.commands[self.at];
                if !out.success && command.must_succeed {
                    return SyncNext::Failed(failed_message(&command.args, out.code));
                }
                if last {
                    return SyncNext::Done(
                        text::trim(out.stdout.as_str(), CharClass::Space).to_owned(),
                    );
                }
            },
            GitReply::NotRun(e) => {
                self.log.append("");
                assert(self.log@ =~= before + reply.printed());
                if self.commands[self.at].must_succeed {
                    return SyncNext::Failed(e);
                }
            },
        }
        self.at = self.at + 1;
        let line = announce(&self.commands[self.at].args);
        self.log.append(line.as_str());
        SyncNext::Run
    }
}

// ---------------------------------------------------------------------------------------------
// Single commands
// ---------------------------------------------------------------------------------------------
/// The error of a command that did not succeed, with what it complained of.
pub open spec fn complaint(what: Seq<char>, out: GitOutput) -> Seq<char> {
    "git "@ + what + " failed (exit "@ + exit_text(out.code) + "): "@ + text::trimmed(
        out.stderr@,
        CharClass::Space,
    )
}

/// The error of a command that did not succeed, with what it complained of.
fn complain(what: &str, out: &GitOutput) -> (res: String)
    ensures
        res@ == complaint(what@, *out),
{
    let mut s = "git ".to_owned();
    s.append(what);
    s.append(" failed (exit ");
    s.append(exit_code_text(out.code).as_str());
    s.append("): ");
    s.append(text::trim(out.stderr.as_str(), CharClass::Space));
    s
}

/// What separates the fields of a commit: a character that no message holds.
pub const FIELD_END: char = '\u{1e}';

/// The form in which git prints a commit: identifier, author, date, subject and message.
pub open spec fn commit_format() -> Seq<char> {
    "--format=%H\x1e%an <%ae>\x1e%aI\x1e%s\x1e%B"@
}

/// The arguments that print a commit without its changes.
pub fn show_args(dir: &str, sha: &str) -> (res: Vec<String>)
    ensures
        text::texts(res@) == seq!["-C"@, dir@, "show"@, "-s"@, commit_format(), sha@],
{
    let words = vec!["-C", dir, "show", "-s", "--format=%H\x1e%an <%ae>\x1e%aI\x1e%s\x1e%B", sha];
    let res = owned(words);
    assert(text::texts(res@) =~= seq!["-C"@, dir@, "show"@, "-s"@, commit_format(), sha@]);
    res
}

/// The arguments that print which files a commit changes.
pub fn stat_args(dir: &str, sha: &str) -> (res: Vec<String>)
    ensures
        text::texts(res@) == seq!["-C"@, dir@, "show"@, "--stat"@, "--format="@, sha@],
{
    let res = owned(vec!["-C", dir, "show", "--stat", "--format=", sha]);
    assert(text::texts(res@) =~= seq!["-C"@, dir@, "show"@, "--stat"@, "--format="@, sha@]);
    res
}

/// The arguments that print the changes of a commit.
pub fn diff_args(dir: &str, sha: &str) -> (res: Vec<String>)
    ensures
        text::texts(res@) == seq!["-C"@, dir@, "show"@, "--format="@, sha@],
{
    let res = owned(vec!["-C", dir, "show", "--format=", sha]);
    assert(text::texts(res@) =~= seq!["-C"@, dir@, "show"@, "--format="@, sha@]);
    res
}

/// Whether `c` is the commit of the given fields.
pub open spec fn is_commit(
    c: CommitInfo,
    fields: Seq<Seq<char>>,
    stat: GitOutput,
    diff: GitOutput,
) -> bool {
    &&& c.sha@ == text::trimmed(fields[0], CharClass::Space)
    &&& c.author@ == text::trimmed(fields[1], CharClass::Space)
    &&& c.date@ == text::trimmed(fields[2], CharClass::Space)
    &&& c.subject@ == text::trimmed(fields[3], CharClass::Space)
    &&& c.body@ == text::trim_back(fields[4], CharClass::Space)
    &&& c.stat@ == if stat.success {
        text::trimmed(stat.stdout@, CharClass::Space)
    } else {
        ""@
    }
    &&& c.diff@ == if diff.success {
        diff.stdout@
    } else {
        ""@
    }
}

/// The commit that the three commands printed. Without a file list or a diff it is shown without.
pub fn show_commit(sha: &str, show: &GitOutput, stat: &GitOutput, diff: &GitOutput) -> (res: Result<
    CommitInfo,
    String,
>)
    ensures
        ({
            let fields = text::split_up_to(show.stdout@, 5, FIELD_END);
            match res {
                Ok(c) => show.success && fields.len() == 5 && is_commit(c, fields, *stat, *diff),
                Err(e) => if !show.success {
                    e@ == complaint("show -s "@ + sha@, *show)
                } else {
                    &&& fields.len() < 5
                    &&& e@ == "git show output malformed for "@ + sha@
                },
            }
        }),
{
    if !show.success {
        let mut what = "show -s ".to_owned();
        what.append(sha);
        return Err(complain(what.as_str(), show));
    }
    let parts = text::splitn(show.stdout.as_str(), 5, FIELD_END);
    let ghost fields = text::split_up_to(show.stdout@, 5, FIELD_END);
    proof {
        assert(fields.len() == parts@.len());
        text::lemma_split_up_to_len(show.stdout@, 5, FIELD_END);
    }
    if parts.len() < 5 {
        let mut e = "git show output malformed for ".to_owned();
        e.append(sha);
        return Err(e);
    }
    assert(forall|k: int| 0 <= k < 5 ==> fields[k] == #[trigger] parts@[k]@);
    let stat_text = if stat.success {
        text::trim(stat.stdout.as_str(), CharClass::Space).to_owned()
    } else {
        "".to_owned()
    };
    let diff_text = if diff.success {
        diff.stdout.clone()
    } else {
        "".to_owned()
    };
    Ok(
        CommitInfo {
            sha: text::trim(parts[0], CharClass::Space).to_owned(),
            author: text::trim(parts[1], CharClass::Space).to_owned(),
            date: text::trim(parts[2], CharClass::Space).to_owned(),
            subject: text::trim(parts[3], CharClass::Space).to_owned(),
            body: text::trim_end(parts[4], CharClass::Space).to_owned(),
            stat: stat_text,
            diff: diff_text,
        },
    )
}

/// The commits after one up to another.
pub open spec fn range_text(from: Seq<char>, to: Seq<char>) -> Seq<char> {
    from + ".."@ + to
}

/// The commits after one up to another.
fn range_of(from: &str, to: &str) -> (res: String)
    ensures
        res@ == range_text(from@, to@),
{
    let mut out = from.to_owned();
    out.append("..");
    out.append(to);
    out
}

/// The arguments that list the commits after one up to another.
pub fn log_args(dir: &str, from: &str, to: &str) -> (res: Vec<String>)
    ensures
        text::texts(res@) == seq![
            "-C"@,
            dir@,
            "log"@,
            "--format=%H%x09%an <%ae>%x09%aI%x09%s"@,
            range_text(from@, to@),
        ],
{
    let range = range_of(from, to);
    let res = owned(
        vec!["-C", dir, "log", "--format=%H%x09%an <%ae>%x09%aI%x09%s", range.as_str()],
    );
    assert(text::texts(res@) =~= seq![
        "-C"@,
        dir@,
        "log"@,
        "--format=%H%x09%an <%ae>%x09%aI%x09%s"@,
        range_text(from@, to@),
    ]);
    res
}

/// The fields of the lines that have four of them.
pub open spec fn log_entries(printed: Seq<char>) -> Seq<Seq<Seq<char>>> {
    text::lines(printed).map_values(|l: Seq<char>| text::split_up_to(l, 4, '\t')).filter(
        |f: Seq<Seq<char>>| f.len() == 4,
    )
}

/// Whether `c` is the commit of the given fields.
pub open spec fn is_summary(c: CommitSummary, fields: Seq<Seq<char>>) -> bool {
    &&& c.sha@ == fields[0]
    &&& c.author@ == fields[1]
    &&& c.date@ == fields[2]
    &&& c.subject@ == fields[3]
}

/// The commits that git listed after one up to another.
pub fn log_range(from: &str, to: &str, out: &GitOutput) -> (res: Result<Vec<CommitSummary>, String>)
    ensures
        match res {
            Ok(commits) => {
                let entries = log_entries(out.stdout@);
                &&& out.success
                &&& commits@.len() == entries.len()
                &&& forall|i: int|
                    0 <= i < entries.len() ==> is_summary(#[trigger] commits@[i], entries[i])
            },
            Err(e) => !out.success && e@ == complaint(
                "log "@ + range_text(from@, to@),
                *out,
            ),
        },
{
    if !out.success {
        let mut what = "log ".to_owned();
        what.append(range_of(from, to).as_str());
        return Err(complain(what.as_str(), out));
    }
    let lines = text::lines_of(out.stdout.as_str());
    let ghost split = |l: Seq<char>| text::split_up_to(l, 4, '\t');
    let ghost whole = |f: Seq<Seq<char>>| f.len() == 4;
    let ghost all = text::lines(out.stdout@).map_values(split);
    let mut commits: Vec<CommitSummary> = Vec::new();
    let mut i: usize = 0;
    proof {
        reveal(Seq::filter);
        assert(all.take(0).filter(whole) =~= seq![]);
    }
    while i < lines.len()
        invariant
            i <= lines@.len(),
            split == (|l: Seq<char>| text::split_up_to(l, 4, '\t')),
            whole == (|f: Seq<Seq<char>>| f.len() == 4),
            text::slices(lines@) == text::lines(out.stdout@),
            all == text::lines(out.stdout@).map_values(split),
            commits@.len() == all.take(i as int).filter(whole).len(),
            forall|k: int|
                0 <= k < commits@.len() ==> is_summary(
                    #[trigger] commits@[k],
                    all.take(i as int).filter(whole)[k],
                ),
        decreases lines@.len() - i,
    {
        let parts = text::splitn(lines[i], 4, '\t');
        let ghost fields = text::slices(parts@);
        proof {
            assert(text::slices(lines@)[i as int] == lines@[i as int]@);
            assert(all[i as int] == fields);
            assert(all.take(i + 1) =~= all.take(i as int).push(fields));
            list::lemma_filter_push(all.take(i as int), whole, fields);
        }
        if parts.len() == 4 {
            assert(forall|k: int| 0 <= k < 4 ==> fields[k] == #[trigger] parts@[k]@);
            commits.push(
                CommitSummary {
                    sha: parts[0].to_owned(),
                    author: parts[1].to_owned(),
                    date: parts[2].to_owned(),
                    subject: parts[3].to_owned(),
                },
            );
        }
        i = i + 1;
    }
    assert(all.take(i as int) =~= all);
    Ok(commits)
}

/// The arguments that print the commit of a workspace.
pub fn head_args(dir: &str) -> (res: Vec<String>)
    ensures
        text::texts(res@) == seq!["-C"@, dir@, "rev-parse"@, "HEAD"@],
{
    let res = owned(vec!["-C", dir, "rev-parse", "HEAD"]);
    assert(text::texts(res@) =~= seq!["-C"@, dir@, "rev-parse"@, "HEAD"@]);
    res
}

/// The commit of a workspace, as git printed it.
pub fn current_head(out: &GitOutput) -> (res: Result<String, String>)
    ensures
        match res {
            Ok(head) => out.success && head@ == text::trimmed(out.stdout@, CharClass::Space),
            Err(e) => !out.success && e@ == complaint("rev-parse HEAD"@, *out),
        },
{
    if !out.success {
        return Err(complain("rev-parse HEAD", out));
    }
    Ok(text::trim(out.stdout.as_str(), CharClass::Space).to_owned())
}

/// The arguments that print the tip of a branch at its origin.
pub fn remote_args(repo_url: &str, branch: &str) -> (res: Vec<String>)
    ensures
        text::texts(res@) == seq!["ls-remote"@, repo_url@, "refs/heads/"@ + branch@],
{
    let mut refspec = "refs/heads/".to_owned();
    refspec.append(branch);
    let res = owned(vec!["ls-remote", repo_url, refspec.as_str()]);
    assert(text::texts(res@) =~= seq!["ls-remote"@, repo_url@, "refs/heads/"@ + branch@]);
    res
}

/// The tip of a branch at its origin, as git printed it.
pub fn remote_head(repo_url: &str, branch: &str, out: &GitOutput) -> (res: Result<String, String>)
    ensures
        tells_remote_head(res, repo_url@, branch@, *out),
{
    if !out.success {
        let mut what = "ls-remote ".to_owned();
        what.append(repo_url);
        return Err(complain(what.as_str(), out));
    }
    match text::word(out.stdout.as_str()) {
        Some(w) => Ok(w.to_owned()),
        None => {
            let mut e = "ls-remote returned no refs for ".to_owned();
            e.append(branch);
            e.append(" on ");
            e.append(repo_url);
            Err(e)
        },
    }
}

// ---------------------------------------------------------------------------------------------
// Laws
// ---------------------------------------------------------------------------------------------
/// What a shell reads of a word, from inside or outside of single quotes on. A backslash outside
/// of quotes takes the next character as it is.
pub open spec fn shell_word(s: Seq<char>, quoted: bool) -> Seq<char>
    decreases s.len(),
{
    if s.len() == 0 {
        seq![]
    } else if s[0] == '\'' {
        shell_word(s.skip(1), !quoted)
    } else if s[0] == '\\' && !quoted && s.len() > 1 {
        seq![s[1]] + shell_word(s.skip(2), quoted)
    } else {
        seq![s[0]] + shell_word(s.skip(1), quoted)
    }
}

/// Inside quotes, the escaped form of a text and a closing quote are read as the text.
proof fn lemma_escaped(key: Seq<char>)
    ensures
        shell_word(text::replaced(key, "'"@, "'\\''"@) + "'"@, true) == key,
    decreases key.len(),
{
    let q = "'"@;
    let r = "'\\''"@;
    reveal_strlit("'");
    reveal_strlit("'\\''");
    let e = text::replaced(key, q, r);
    if key.len() == 0 {
        text::lemma_replaced_char(key, '\'', r);
        assert(q =~= seq!['\'']);
        assert(e + q =~= seq!['\'']);
        reveal_with_fuel(shell_word, 2);
        assert(seq!['\''].skip(1) =~= seq![]);
    } else {
        let rest = key.skip(1);
        let t = text::replaced(rest, q, r) + q;
        lemma_escaped(rest);
        assert(q =~= seq!['\'']);
        text::lemma_replaced_char(key, '\'', r);
        if key[0] == '\'' {
            let w = e + q;
            assert(w =~= r + t);
            assert(w.skip(1)[0] == '\\');
            assert(w.skip(1)[1] == '\'');
            assert(w.skip(1).skip(2)[0] == '\'');
            assert(w.skip(1).skip(2).skip(1) =~= t);
            assert(shell_word(w.skip(1).skip(2), false) == shell_word(t, true));
            assert(shell_word(w, true) == shell_word(w.skip(1), false));
            assert(shell_word(w, true) =~= key);
        } else {
            let w = e + q;
            assert(w =~= seq![key[0]] + t);
            assert(w.skip(1) =~= t);
            assert(shell_word(w, true) =~= key);
        }
    }
}

/// A shell reads the quoted path of a key as the path itself, whatever characters it holds.
pub proof fn law_key_quoted(key: Seq<char>)
    ensures
        shell_word("'"@ + text::replaced(key, "'"@, "'\\''"@) + "'"@, false) == key,
{
    reveal_strlit("'");
    let e = text::replaced(key, "'"@, "'\\''"@);
    let s = "'"@ + e + "'"@;
    lemma_escaped(key);
    assert(s.skip(1) =~= e + "'"@);
}

/// A run that starts has had no replies.
pub proof fn law_sync_starts(run: SyncRun)
    requires
        run.at == 0,
        run.log@ == announced(run.args()),
    ensures
        run.tracks(seq![]),
{
    let t = transcript(command_views(run.commands@), seq![]);
    assert(t + announced(run.args()) =~= run.log@);
}

/// However a run goes, its log holds each command that was run and what it printed, in order. It
/// ends with a commit exactly when all commands were run and those that must succeed did; and with
/// an error when one of those did not.
pub proof fn law_sync_logs_everything(
    a: SyncRun,
    replies: Seq<GitReply>,
    reply: GitReply,
    b: SyncRun,
    next: SyncNext,
)
    requires
        a.wf(),
        a.tracks(replies),
        replied(a, reply, b, next),
    ensures
        ({
            let commands = command_views(a.commands@);
            let all = replies.push(reply);
            &&& next is Run ==> b.tracks(all)
            &&& !(next is Run) ==> b.log@ == transcript(commands, all)
            &&& next is Done <==> all.len() == commands.len() && all_good(commands, all)
            &&& next is Failed <==> !all_good(commands, all)
        }),
{
    let commands = command_views(a.commands@);
    let all = replies.push(reply);
    let k = replies.len() as int;
    assert(all.drop_last() =~= replies);
    assert(all.last() == reply);
    assert(commands[k] == command_view(a.commands@[k]));
    assert(a.args() == commands[k].0);
    assert(transcript(commands, all) =~= a.log@ + reply.printed());
    assert(all[k] == reply);
    assert(forall|i: int| 0 <= i < k ==> all[i] == replies[i]);
    if commands[k].2 && !reply.good() {
        assert(!all_good(commands, all));
    } else {
        assert(all_good(commands, all)) by {
            assert forall|i: int| 0 <= i < all.len() && commands[i].2 implies (
            #[trigger] all[i]).good() by {
                if i < k {
                    assert(replies[i].good());
                }
            }
        }
    }
}

/// A workspace that is there already is fetched, checked out, reset and cleaned, in this order,
/// and each of these must succeed; only setting the address of the origin may fail.
pub proof fn law_sync_overwrites(repo_url: Seq<char>, branch: Seq<char>, dir: Seq<char>)
    ensures
        ({
            let c = sync_commands(repo_url, branch, dir, true);
            &&& c[1].0 == seq!["fetch"@, "--prune"@, "--force"@, "origin"@]
            &&& c[2].0 == seq!["checkout"@, "-B"@, branch, "origin/"@ + branch]
            &&& c[3].0 == seq!["reset"@, "--hard"@, "origin/"@ + branch]
            &&& c[4].0 == seq!["clean"@, "-fdx"@]
            &&& forall|i: int| 0 < i < c.len() ==> (#[trigger] c[i]).2
        }),
{
}

/// A workspace that is not there is cloned from the repository, at the branch; one that is there is
/// first pointed at the repository. Either way the submodules come along, and the last command asks
/// for the commit.
pub proof fn law_where_workspaces_come_from(repo_url: Seq<char>, branch: Seq<char>, dir: Seq<char>)
    ensures
        ({
            let fresh = sync_commands(repo_url, branch, dir, false);
            let there = sync_commands(repo_url, branch, dir, true);
            &&& fresh.len() == 2
            &&& fresh[0].0 == seq![
                "clone"@,
                "--branch"@,
                branch,
                "--recurse-submodules"@,
                repo_url,
                dir,
            ]
            &&& !fresh[0].1 && fresh[0].2
            &&& there[0].0 == seq!["remote"@, "set-url"@, "origin"@, repo_url]
            &&& !there[0].2
            &&& there[5].0 == seq!["submodule"@, "sync"@, "--recursive"@]
            &&& there[6].0 == seq![
                "submodule"@,
                "update"@,
                "--init"@,
                "--recursive"@,
                "--force"@,
            ]
            &&& there.len() == 8
            &&& forall|i: int| 0 <= i < there.len() ==> (#[trigger] there[i]).1
            &&& fresh.last().0 == seq!["rev-parse"@, "HEAD"@] && fresh.last().1 && fresh.last().2
            &&& there.last().0 == seq!["rev-parse"@, "HEAD"@] && there.last().2
        }),
{
}

/// What git prints goes to the log, both of its streams; and before a command is run, its words do.
pub proof fn law_what_is_logged_of_git(out: GitOutput, args: Seq<Seq<char>>, more: Seq<Seq<char>>)
    requires
        args.len() > 0,
        more.len() > 0,
    ensures
        GitReply::Ran(out).printed() == out.stdout@ + out.stderr@,
        announced(args) == "$ git "@ + text::joined(args, " "@) + "\n"@,
        text::joined(args + more, " "@) == text::joined(args, " "@) + " "@ + text::joined(
            more,
            " "@,
        ),
        GitReply::Ran(out).good() <==> out.success,
{
    text::lemma_joined_both(args, more, " "@);
}

/// The run of a command that must succeed and does not is the end, with an error that names the
/// command and its exit code, or says why it could not be run. After the last command the commit is
/// what it printed, without white space around it.
pub proof fn law_how_runs_end(a: SyncRun, reply: GitReply, b: SyncRun, next: SyncNext)
    requires
        a.wf(),
        replied(a, reply, b, next),
    ensures
        next matches SyncNext::Failed(e) ==> match reply {
            GitReply::Ran(out) => match out.code {
                Some(c) => e@ == "git "@ + text::joined(a.args(), " "@) + " failed (exit "@ + (
                "Some("@ + numbers::signed_decimal(c as int) + ")"@) + ")"@,
                None => e@ == "git "@ + text::joined(a.args(), " "@) + " failed (exit "@ + "None"@
                    + ")"@,
            },
            GitReply::NotRun(m) => e@ == m@,
        },
        next matches SyncNext::Done(head) ==> (reply matches GitReply::Ran(out) && head@
            == text::trimmed(out.stdout@, CharClass::Space)),
        next is Run ==> b.at == a.at + 1,
{
}

/// The complaint about a command names it and its exit code, and gives what it printed as errors.
pub proof fn law_complaints(what: Seq<char>, out: GitOutput)
    ensures
        text::holds_text(complaint(what, out), what),
        text::holds_text(complaint(what, out), text::trimmed(out.stderr@, CharClass::Space)),
        out.code matches Some(c) ==> text::holds_text(
            complaint(what, out),
            numbers::signed_decimal(c as int),
        ),
{
    broadcast use {text::lemma_holds_self, text::lemma_holds_sum};

    if let Some(c) = out.code {
        assert(text::holds_text(exit_text(out.code), numbers::signed_decimal(c as int)));
    }
}

/// Git is given one key and no other, by a path that the shell reads as it is.
pub proof fn law_only_the_key(key: Seq<char>)
    ensures
        ({
            let quoted = "'"@ + text::replaced(key, "'"@, "'\\''"@) + "'"@;
            &&& ssh_text(key) == "ssh -i "@ + quoted + " -o IdentitiesOnly=yes"@
            &&& shell_word(quoted, false) == key
        }),
{
    law_key_quoted(key);
    reveal_strlit("'");
    reveal_strlit("ssh -i ");
    reveal_strlit("ssh -i '");
    reveal_strlit(" -o IdentitiesOnly=yes");
    reveal_strlit("' -o IdentitiesOnly=yes");
    let quoted = "'"@ + text::replaced(key, "'"@, "'\\''"@) + "'"@;
    assert("ssh -i '"@ =~= "ssh -i "@ + "'"@);
    assert("' -o IdentitiesOnly=yes"@ =~= "'"@ + " -o IdentitiesOnly=yes"@);
    assert(ssh_text(key) =~= "ssh -i "@ + quoted + " -o IdentitiesOnly=yes"@);
}

/// A commit is read as it is printed: identifier, author, date, subject and message, in this order.
/// The message may hold anything, and keeps the white space at its start.
pub proof fn law_commit_read(
    c: CommitInfo,
    sha: Seq<char>,
    author: Seq<char>,
    date: Seq<char>,
    subject: Seq<char>,
    body: Seq<char>,
    stat: GitOutput,
    diff: GitOutput,
)
    requires
        !sha.contains(FIELD_END),
        !author.contains(FIELD_END),
        !date.contains(FIELD_END),
        !subject.contains(FIELD_END),
        is_commit(
            c,
            text::split_up_to(
                sha + seq![FIELD_END] + (author + seq![FIELD_END] + (date + seq![FIELD_END] + (
                subject + seq![FIELD_END] + body))),
                5,
                FIELD_END,
            ),
            stat,
            diff,
        ),
    ensures
        c.sha@ == text::trimmed(sha, CharClass::Space),
        c.author@ == text::trimmed(author, CharClass::Space),
        c.date@ == text::trimmed(date, CharClass::Space),
        c.subject@ == text::trimmed(subject, CharClass::Space),
        c.body@ == text::trim_back(body, CharClass::Space),
        stat.success ==> c.stat@ == text::trimmed(stat.stdout@, CharClass::Space),
        diff.success ==> c.diff@ == diff.stdout@,
        !stat.success ==> c.stat@ == ""@,
        !diff.success ==> c.diff@ == ""@,
{
    let e = seq![FIELD_END];
    text::law_split_up_to(subject, FIELD_END, body, 2);
    let r4 = subject + e + body;
    text::law_split_up_to(date, FIELD_END, r4, 3);
    let r3 = date + e + r4;
    text::law_split_up_to(author, FIELD_END, r3, 4);
    let r2 = author + e + r3;
    text::law_split_up_to(sha, FIELD_END, r2, 5);
    let fields = text::split_up_to(sha + e + r2, 5, FIELD_END);
    assert(fields =~= seq![sha, author, date, subject, body]);
}

/// The commits of a range are read line by line, in their order: identifier, author, date and
/// subject, with tabs between them; a subject may hold tabs. A line with fewer fields is passed over.
pub proof fn law_range_read(
    sha: Seq<char>,
    author: Seq<char>,
    date: Seq<char>,
    subject: Seq<char>,
    rest: Seq<char>,
    odd: Seq<char>,
)
    requires
        !sha.contains('\t') && !sha.contains('\n'),
        !author.contains('\t') && !author.contains('\n'),
        !date.contains('\t') && !date.contains('\n'),
        !subject.contains('\n'),
        subject.len() > 0,
        subject.last() != '\r',
        !odd.contains('\t') && !odd.contains('\n') && !odd.contains('\r'),
    ensures
        ({
            let line = sha + seq!['\t'] + (author + seq!['\t'] + (date + seq!['\t'] + subject));
            &&& log_entries(line + seq!['\n'] + rest) == seq![seq![sha, author, date, subject]]
                + log_entries(rest)
            &&& log_entries(odd + seq!['\n'] + rest) == log_entries(rest)
            &&& log_entries(seq![]) == Seq::<Seq<Seq<char>>>::empty()
        }),
{
    let t = seq!['\t'];
    let r2 = date + t + subject;
    let r1 = author + t + r2;
    let line = sha + t + r1;
    text::law_split_up_to(date, '\t', subject, 2);
    text::law_split_up_to(author, '\t', r2, 3);
    text::law_split_up_to(sha, '\t', r1, 4);
    text::law_split_up_to(odd, '\t', seq![], 4);
    let fields = seq![sha, author, date, subject];
    assert(text::split_up_to(line, 4, '\t') =~= fields);
    assert(!line.contains('\n')) by {
        if line.contains('\n') {
            let k = choose|k: int| 0 <= k < line.len() && line[k] == '\n';
            if k < sha.len() {
                assert(sha[k] == '\n');
            } else if k > sha.len() {
                let j = k - sha.len() - 1;
                assert(r1[j] == '\n');
                if j < author.len() {
                    assert(author[j] == '\n');
                } else if j > author.len() {
                    let i = j - author.len() - 1;
                    assert(r2[i] == '\n');
                    if i < date.len() {
                        assert(date[i] == '\n');
                    } else if i > date.len() {
                        assert(subject[i - date.len() - 1] == '\n');
                    }
                }
            }
        }
    }
    assert(line.last() == subject.last());
    assert(odd.len() > 0 ==> odd.contains(odd.last()));
    text::law_lines(line, rest);
    text::law_lines(odd, rest);
    text::law_lines(seq![], seq![]);
    lemma_entries_of_line(line, line + seq!['\n'] + rest, rest);
    lemma_entries_of_line(odd, odd + seq!['\n'] + rest, rest);
    reveal(Seq::filter);
    assert(log_entries(seq![]) =~= seq![]);
    assert(log_entries(odd + seq!['\n'] + rest) =~= log_entries(rest));
}

/// The entries of a text whose first line is `line` are that of the line, if it has one, and those of
/// the rest.
proof fn lemma_entries_of_line(line: Seq<char>, all: Seq<char>, rest: Seq<char>)
    requires
        text::lines(all) == seq![line] + text::lines(rest),
    ensures
        log_entries(all) == (if text::split_up_to(line, 4, '\t').len() == 4 {
            seq![text::split_up_to(line, 4, '\t')]
        } else {
            seq![]
        }) + log_entries(rest),
{
    let split = |l: Seq<char>| text::split_up_to(l, 4, '\t');
    let whole = |f: Seq<Seq<char>>| f.len() == 4;
    let first = seq![text::split_up_to(line, 4, '\t')];
    let others = text::lines(rest).map_values(split);
    assert(text::lines(all).map_values(split) =~= first + others);
    assert(log_entries(all) == text::lines(all).map_values(split).filter(whole));
    assert(log_entries(rest) == others.filter(whole));
    Seq::filter_distributes_over_add(first, others, whole);
    reveal(Seq::filter);
    assert(first.drop_last() =~= seq![]);
    assert(seq![].filter(whole) =~= seq![]);
    assert(first.filter(whole) =~= if whole(first[0]) {
        first
    } else {
        seq![]
    });
}

/// A range of commits is asked for by its two ends, with two dots between them.
pub proof fn law_range_asked_for(from: Seq<char>, to: Seq<char>)
    ensures
        range_text(from, to) == from + seq!['.', '.'] + to,
{
    reveal_strlit("..");
    assert(".."@ =~= seq!['.', '.']);
}

/// The fields of a listed commit are, in this order, its identifier, its author, its date and its
/// subject.
pub proof fn law_fields_of_summary(
    c: CommitSummary,
    sha: Seq<char>,
    author: Seq<char>,
    date: Seq<char>,
    subject: Seq<char>,
)
    ensures
        is_summary(c, seq![sha, author, date, subject]) <==> c.sha@ == sha && c.author@ == author
            && c.date@ == date && c.subject@ == subject,
{
}

/// Whether `res` is the tip of a branch of a repository, as git told it.
pub open spec fn tells_remote_head(
    res: Result<String, String>,
    repo_url: Seq<char>,
    branch: Seq<char>,
    out: GitOutput,
) -> bool {
    match res {
        Ok(head) => out.success && text::first_word(out.stdout@) == Some(head@),
        Err(e) => if !out.success {
            e@ == complaint("ls-remote "@ + repo_url, out)
        } else {
            &&& text::first_word(out.stdout@) is None
            &&& e@ == "ls-remote returned no refs for "@ + branch + " on "@ + repo_url
        },
    }
}

/// The tip of a branch is the first word that git printed, where git succeeded and printed one. What
/// went wrong names the repository.
pub proof fn law_remote_head(
    res: Result<String, String>,
    repo_url: Seq<char>,
    branch: Seq<char>,
    out: GitOutput,
)
    requires
        tells_remote_head(res, repo_url, branch, out),
    ensures
        res is Ok <==> out.success && text::first_word(out.stdout@) is Some,
        res matches Ok(head) ==> text::first_word(out.stdout@) == Some(head@),
        res matches Err(e) ==> text::holds_text(e@, repo_url),
        res matches Err(e) ==> out.success ==> text::holds_text(e@, branch),
{
    broadcast use {text::lemma_holds_self, text::lemma_holds_sum};

    let what = "ls-remote "@ + repo_url;
    assert(text::holds_text(what, repo_url));
    assert(text::holds_text(complaint(what, out), what));
    text::lemma_holds_through(complaint(what, out), what, repo_url);
}

} // verus!
