//! What git is asked, and what its answers mean.
//!
//! Running the binary is the caller's part. Here are the argument lists and
//! the decisions that are made from what a run gave back.

use vstd::prelude::*;
use vstd::string::*;

use crate::path::{file_name, file_name_spec, parent, parent_spec};
use crate::text::{
    after_prefix, all_hex, begins, hex, hex_text, join_words, lemma_hex, lines, list_of, same_text,
    spaced, split_lines, split_words, trim, trimmed, views, words,
};

verus! {

/// A git repository: its main directory, and its working tree if that is
/// another.
#[derive(Clone, Debug, PartialEq, Eq)]
pub struct GitRepo {
    pub common_dir: String,
    pub worktree: Option<String>,
}

/// What kind of failure a git command met.
#[derive(Clone, Copy, Debug, PartialEq, Eq, Structural)]
pub enum GitErrorKind {
    /// The binary was not found.
    NotFound,
    /// The default branch cannot be told.
    DefaultBranchUnresolvable,
    /// The remote could not be reached.
    OriginUnreachable,
    /// The ref to be merged into cannot be told, or is stale.
    MergeRefUnresolvable,
    /// The merge check ended in an unexpected way.
    StatusFailed,
    /// Any other failure.
    Other,
}

/// A failed git command.
#[derive(Clone, Debug, PartialEq, Eq)]
pub struct GitError {
    pub command: String,
    pub message: String,
    pub kind: GitErrorKind,
}

/// What a [`GitError`] says.
#[verifier::ext_equal]
pub struct GitErrorView {
    pub command: Seq<char>,
    pub message: Seq<char>,
    pub kind: GitErrorKind,
}

impl View for GitError {
    type V = GitErrorView;

    open spec fn view(&self) -> GitErrorView {
        GitErrorView { command: self.command@, message: self.message@, kind: self.kind }
    }
}

/// A result whose error is a git error, by its view.
pub open spec fn is_git_err<T>(r: Result<T, GitError>, e: GitErrorView) -> bool {
    r matches Err(g) && g@ == e
}

impl GitError {
    /// A failure of `command`.
    pub fn new(command: &str, message: &str, kind: GitErrorKind) -> (r: GitError)
        ensures
            r@ == (GitErrorView { command: command@, message: message@, kind }),
    {
        GitError { command: command.to_owned(), message: message.to_owned(), kind }
    }

    /// The message of the error.
    pub open spec fn message_spec(self) -> Seq<char> {
        "git "@ + self.command@ + ": "@ + self.message@
    }

    /// The message of the error.
    pub fn text(&self) -> (r: String)
        ensures
            r@ == self.message_spec(),
    {
        let mut s = "git ".to_owned();
        s.append(&self.command);
        s.append(": ");
        s.append(&self.message);
        s
    }
}

/// What running git gave.
#[derive(Clone, Debug, PartialEq, Eq)]
pub struct GitOutput {
    /// The exit code; none where the process was killed or did not start.
    pub code: Option<i32>,
    pub stdout: String,
    pub stderr: String,
}

impl GitOutput {
    /// The command ended well.
    pub open spec fn ok(self) -> bool {
        self.code == Some(0i32)
    }

    /// Whether the command ended well.
    pub fn success(&self) -> (r: bool)
        ensures
            r == self.ok(),
    {
        match self.code {
            Some(code) => code == 0,
            None => false,
        }
    }

    /// The output of a binary that could not be started: a failure.
    pub fn not_started(error: &str) -> (r: GitOutput)
        ensures
            !r.ok(),
            r.code is None,
            r.stdout@.len() == 0,
            r.stderr@ == "git binary failed to spawn: "@ + error@,
    {
        let mut stderr = "git binary failed to spawn: ".to_owned();
        stderr.append(error);
        GitOutput { code: None, stdout: String::new(), stderr }
    }
}

/// The error of a failed run.
pub open spec fn failure(out: GitOutput, args: Seq<Seq<char>>, kind: GitErrorKind) -> GitErrorView {
    GitErrorView { command: "git "@ + spaced(args), message: trimmed(out.stderr@), kind }
}

fn failed(out: &GitOutput, args: &Vec<String>, kind: GitErrorKind) -> (r: GitError)
    ensures
        r@ == failure(*out, views(args@), kind),
{
    let mut command = "git ".to_owned();
    command.append(&join_words(args));
    GitError { command, message: trim(&out.stderr), kind }
}

/// The binary of the backend, which runs it without a shell.
#[derive(Clone, Debug, PartialEq, Eq)]
pub struct ShellGitBackend {
    git_bin: String,
}

impl ShellGitBackend {
    /// The path of the binary.
    pub closed spec fn bin(self) -> Seq<char> {
        self.git_bin@
    }

    /// A backend with the binary that was found.
    pub fn discover(found: Option<String>) -> (r: Result<ShellGitBackend, GitError>)
        ensures
            match found {
                Some(bin) => r matches Ok(b) && b.bin() == bin@,
                None => is_git_err(
                    r,
                    GitErrorView {
                        command: "git"@,
                        message: "git binary not found on PATH (set GIT_BIN)"@,
                        kind: GitErrorKind::NotFound,
                    },
                ),
            },
    {
        match found {
            Some(bin) => Ok(ShellGitBackend { git_bin: bin }),
            None => Err(
                GitError::new(
                    "git",
                    "git binary not found on PATH (set GIT_BIN)",
                    GitErrorKind::NotFound,
                ),
            ),
        }
    }

    /// A backend with a known binary.
    pub fn with_bin(bin: String) -> (r: ShellGitBackend)
        ensures
            r.bin() == bin@,
    {
        ShellGitBackend { git_bin: bin }
    }

    /// The path of the binary.
    pub fn git_bin(&self) -> (r: &str)
        ensures
            r@ == self.bin(),
    {
        self.git_bin.as_str()
    }

    /// Whether a run ended well, or its error.
    pub fn run_checked(out: &GitOutput, args: &Vec<String>, kind: GitErrorKind) -> (r: Result<
        (),
        GitError,
    >)
        ensures
            if out.ok() {
                r is Ok
            } else {
                is_git_err(r, failure(*out, views(args@), kind))
            },
    {
        if out.success() {
            Ok(())
        } else {
            Err(failed(out, args, kind))
        }
    }

    /// What a run wrote, without the whitespace around it, or its error.
    pub fn run_stdout(out: &GitOutput, args: &Vec<String>, kind: GitErrorKind) -> (r: Result<
        String,
        GitError,
    >)
        ensures
            if out.ok() {
                r matches Ok(s) && s@ == trimmed(out.stdout@)
            } else {
                is_git_err(r, failure(*out, views(args@), kind))
            },
    {
        if out.success() {
            Ok(trim(&out.stdout))
        } else {
            Err(failed(out, args, kind))
        }
    }

    /// What a run wrote, as it is, or its error.
    pub fn run_lines(out: &GitOutput, args: &Vec<String>, kind: GitErrorKind) -> (r: Result<
        String,
        GitError,
    >)
        ensures
            if out.ok() {
                r matches Ok(s) && s@ == out.stdout@
            } else {
                is_git_err(r, failure(*out, views(args@), kind))
            },
    {
        if out.success() {
            Ok(out.stdout.clone())
        } else {
            Err(failed(out, args, kind))
        }
    }
}

// ---------- repositories ----------

/// The root that a run of [`repo_root_args`] printed.
pub fn repo_root_from(out: &GitOutput) -> (r: Result<String, GitError>)
    ensures
        if out.ok() {
            r matches Ok(s) && s@ == trimmed(out.stdout@)
        } else {
            is_git_err(
                r,
                failure(*out, seq!["rev-parse"@, "--show-toplevel"@], GitErrorKind::Other),
            )
        },
{
    let args = repo_root_args();
    ShellGitBackend::run_stdout(out, &args, GitErrorKind::Other)
}

/// Arguments that ask for the root of a repository.
pub fn repo_root_args() -> (r: Vec<String>)
    ensures
        views(r@) == seq!["rev-parse"@, "--show-toplevel"@],
{
    let r = list_of(&["rev-parse", "--show-toplevel"]);
    assert(views(r@) =~= seq!["rev-parse"@, "--show-toplevel"@]);
    r
}

/// Arguments that ask for the directory that all worktrees share.
pub fn common_dir_args() -> (r: Vec<String>)
    ensures
        views(r@) == seq!["rev-parse"@, "--path-format=absolute"@, "--git-common-dir"@],
{
    let r = list_of(&["rev-parse", "--path-format=absolute", "--git-common-dir"]);
    assert(views(r@) =~= seq!["rev-parse"@, "--path-format=absolute"@, "--git-common-dir"@]);
    r
}

/// The root of the main repository of a worktree: the directory that holds the
/// shared `.git`, where the shared directory has that name; else the root of
/// the worktree itself.
pub open spec fn main_root(repo_root: Seq<char>, common: GitOutput) -> Seq<char> {
    let dir = trimmed(common.stdout@);
    if common.ok() && file_name_spec(dir) == Some(".git"@) {
        match parent_spec(dir) {
            Some(p) => p,
            None => repo_root,
        }
    } else {
        repo_root
    }
}

/// The root of the main repository of a worktree.
pub fn main_repo_root_from(repo_root: &str, common: &GitOutput) -> (r: String)
    ensures
        r@ == main_root(repo_root@, *common),
{
    if common.success() {
        let dir = trim(&common.stdout);
        if let Some(name) = file_name(&dir) {
            if same_text(&name, ".git") {
                if let Some(p) = parent(&dir) {
                    return p;
                }
            }
        }
    }
    repo_root.to_owned()
}

/// A line of `text` says `name`, whitespace around it aside.
pub open spec fn names_remote(text: Seq<char>, name: Seq<char>) -> bool {
    exists|i: int| 0 <= i < lines(text).len() && trimmed(#[trigger] lines(text)[i]) == name
}

/// Whether `git remote` lists a remote of this name.
pub fn has_remote(out: &GitOutput, name: &str) -> (r: bool)
    ensures
        r == (out.ok() && names_remote(out.stdout@, name@)),
{
    if !out.success() {
        return false;
    }
    let ls = split_lines(&out.stdout);
    let mut i: usize = 0;
    while i < ls.len()
        invariant
            i <= ls.len(),
            out.ok(),
            views(ls@) == lines(out.stdout@),
            forall|j: int| 0 <= j < i ==> trimmed(#[trigger] lines(out.stdout@)[j]) != name@,
        decreases ls.len() - i,
    {
        assert(lines(out.stdout@)[i as int] == ls@[i as int]@);
        if same_text(&trim(&ls[i]), name) {
            return true;
        }
        i += 1;
    }
    assert(lines(out.stdout@).len() == ls.len());
    false
}

/// The URL that `git remote get-url` printed; none where it failed or printed
/// nothing.
pub fn remote_url(out: &GitOutput) -> (r: Option<String>)
    ensures
        match r {
            Some(url) => out.ok() && url@ == trimmed(out.stdout@) && url@.len() > 0,
            None => !out.ok() || trimmed(out.stdout@).len() == 0,
        },
{
    if !out.success() {
        return None;
    }
    let url = trim(&out.stdout);
    if url.as_str().is_empty() {
        None
    } else {
        Some(url)
    }
}

/// The outcome of fetching from origin. Without origin there is nothing to do;
/// a failure means that origin cannot be reached.
pub fn fetch_outcome(out: Option<&GitOutput>) -> (r: Result<(), GitError>)
    ensures
        match out {
            None => r is Ok,
            Some(o) => if o.ok() {
                r is Ok
            } else {
                is_git_err(
                    r,
                    GitErrorView {
                        command: "git fetch origin"@,
                        message: trimmed(o.stderr@),
                        kind: GitErrorKind::OriginUnreachable,
                    },
                )
            },
        },
{
    match out {
        None => Ok(()),
        Some(o) => if o.success() {
            Ok(())
        } else {
            Err(
                GitError::new(
                    "git fetch origin",
                    &trim(&o.stderr),
                    GitErrorKind::OriginUnreachable,
                ),
            )
        },
    }
}

// ---------- branches ----------

/// The questions that lead to the default branch, in order.
#[derive(Clone, Debug, PartialEq, Eq)]
pub enum BranchStep {
    /// `git symbolic-ref refs/remotes/origin/HEAD`.
    AskOriginHead,
    /// `git symbolic-ref HEAD`.
    AskLocalHead,
    /// `git config init.defaultBranch`.
    AskConfigured,
    Found(String),
    Unknown(GitError),
}

/// The branch that a symbolic ref names below `prefix`.
pub open spec fn branch_below(out: GitOutput, prefix: Seq<char>) -> Option<Seq<char>> {
    let s = trimmed(out.stdout@);
    if out.ok() && begins(s, prefix) && s.len() > prefix.len() {
        Some(s.skip(prefix.len() as int))
    } else {
        None
    }
}

fn branch_below_text(out: &GitOutput, prefix: &str) -> (r: Option<String>)
    ensures
        crate::text::opt_view(r) == branch_below(*out, prefix@),
{
    if !out.success() {
        return None;
    }
    let s = trim(&out.stdout);
    match after_prefix(&s, prefix) {
        Some(branch) => if branch.as_str().is_empty() {
            None
        } else {
            Some(branch)
        },
        None => None,
    }
}

/// The error of a default branch that cannot be told.
pub open spec fn no_default_branch() -> GitErrorView {
    GitErrorView {
        command: "git symbolic-ref HEAD"@,
        message: "cannot determine default branch: try running 'git fetch' or ensure you are on a branch"@,
        kind: GitErrorKind::DefaultBranchUnresolvable,
    }
}

/// The next step towards the default branch: the HEAD of origin, where there
/// is an origin; the HEAD of the repository; the configured default. Answers
/// that are not there yet are `None`.
pub open spec fn default_branch_spec(
    has_origin: bool,
    origin_head: Option<GitOutput>,
    local_head: Option<GitOutput>,
    configured: Option<GitOutput>,
    r: BranchStep,
) -> bool {
    if has_origin && origin_head is None {
        r is AskOriginHead
    } else if has_origin && branch_below(origin_head->0, "refs/remotes/origin/"@) is Some {
        r matches BranchStep::Found(b) && Some(b@) == branch_below(
            origin_head->0,
            "refs/remotes/origin/"@,
        )
    } else if local_head is None {
        r is AskLocalHead
    } else if branch_below(local_head->0, "refs/heads/"@) is Some {
        r matches BranchStep::Found(b) && Some(b@) == branch_below(local_head->0, "refs/heads/"@)
    } else if configured is None {
        r is AskConfigured
    } else if configured->0.ok() && trimmed(configured->0.stdout@).len() > 0 {
        r matches BranchStep::Found(b) && b@ == trimmed(configured->0.stdout@)
    } else {
        r matches BranchStep::Unknown(e) && e@ == no_default_branch()
    }
}

/// The next step towards the default branch.
pub fn default_branch(
    has_origin: bool,
    origin_head: &Option<GitOutput>,
    local_head: &Option<GitOutput>,
    configured: &Option<GitOutput>,
) -> (r: BranchStep)
    ensures
        default_branch_spec(has_origin, *origin_head, *local_head, *configured, r),
{
    if has_origin {
        match origin_head {
            None => return BranchStep::AskOriginHead,
            Some(out) => {
                if let Some(branch) = branch_below_text(out, "refs/remotes/origin/") {
                    return BranchStep::Found(branch);
                }
            },
        }
    }
    match local_head {
        None => return BranchStep::AskLocalHead,
        Some(out) => {
            if let Some(branch) = branch_below_text(out, "refs/heads/") {
                return BranchStep::Found(branch);
            }
        },
    }
    match configured {
        None => return BranchStep::AskConfigured,
        Some(out) => {
            if out.success() {
                let branch = trim(&out.stdout);
                if !branch.as_str().is_empty() {
                    return BranchStep::Found(branch);
                }
            }
        },
    }
    BranchStep::Unknown(
        GitError::new(
            "git symbolic-ref HEAD",
            "cannot determine default branch: try running 'git fetch' or ensure you are on a branch",
            GitErrorKind::DefaultBranchUnresolvable,
        ),
    )
}

/// Which ref to check out for a branch: the one that is ahead of the other;
/// origin where both went their own way; the one that exists otherwise, and
/// origin where neither does.
pub open spec fn branch_ref_spec(
    branch: Seq<char>,
    has_local: bool,
    has_remote: bool,
    local_in_remote: bool,
    remote_in_local: bool,
) -> Seq<char> {
    if has_local && (!has_remote || (!local_in_remote && remote_in_local)) {
        "refs/heads/"@ + branch
    } else {
        "refs/remotes/origin/"@ + branch
    }
}

/// The ref to check out for a branch. `local_in_remote` tells whether the
/// local branch is an ancestor of that of origin, `remote_in_local` the
/// converse; both count only where both refs exist.
pub fn branch_ref(
    branch: &str,
    has_local: bool,
    has_remote: bool,
    local_in_remote: bool,
    remote_in_local: bool,
) -> (r: String)
    ensures
        r@ == branch_ref_spec(branch@, has_local, has_remote, local_in_remote, remote_in_local),
{
    let mut local = "refs/heads/".to_owned();
    local.append(branch);
    let mut remote = "refs/remotes/origin/".to_owned();
    remote.append(branch);
    match (has_local, has_remote) {
        (true, true) => {
            if local_in_remote {
                remote
            } else if remote_in_local {
                local
            } else {
                remote
            }
        },
        (true, false) => local,
        _ => remote,
    }
}

/// What `git ls-remote --symref origin HEAD` told of origin.
#[derive(Clone, Debug, PartialEq, Eq)]
pub struct RemoteHead {
    pub branch: Option<String>,
    pub sha: Option<String>,
}

/// The branch and the commit that the lines of `git ls-remote --symref` tell:
/// of each the last line that speaks of `HEAD`.
pub open spec fn remote_head(ls: Seq<Seq<char>>) -> (Option<Seq<char>>, Option<Seq<char>>)
    decreases ls.len(),
{
    if ls.len() == 0 {
        (None, None)
    } else {
        let before = remote_head(ls.drop_last());
        let ws = words(ls.last());
        if ws.len() == 3 && ws[0] == "ref:"@ && ws[2] == "HEAD"@ {
            (
                if begins(ws[1], "refs/heads/"@) {
                    Some(ws[1].skip("refs/heads/"@.len() as int))
                } else {
                    None
                },
                before.1,
            )
        } else if ws.len() == 2 && ws[1] == "HEAD"@ {
            (before.0, Some(ws[0]))
        } else {
            before
        }
    }
}

/// Reads the output of `git ls-remote --symref origin HEAD`.
pub fn parse_ls_remote(text: &str) -> (r: RemoteHead)
    ensures
        (crate::text::opt_view(r.branch), crate::text::opt_view(r.sha)) == remote_head(
            lines(text@),
        ),
{
    let ls = split_lines(text);
    let ghost lv = lines(text@);
    let mut branch: Option<String> = None;
    let mut sha: Option<String> = None;
    let mut i: usize = 0;
    assert(lv.take(0) =~= seq![]);
    while i < ls.len()
        invariant
            i <= ls.len(),
            lv == views(ls@),
            (crate::text::opt_view(branch), crate::text::opt_view(sha)) == remote_head(
                lv.take(i as int),
            ),
        decreases ls.len() - i,
    {
        proof {
            assert(lv.take(i + 1).drop_last() =~= lv.take(i as int));
            assert(lv.take(i + 1).last() == ls@[i as int]@);
        }
        let ws = split_words(&ls[i]);
        let ghost wv = words(ls@[i as int]@);
        assert(wv.len() == ws.len());
        assert(forall|k: int| 0 <= k < ws.len() ==> wv[k] == #[trigger] ws@[k]@);
        if ws.len() == 3 && same_text(&ws[0], "ref:") && same_text(&ws[2], "HEAD") {
            branch = after_prefix(&ws[1], "refs/heads/");
        } else if ws.len() == 2 && same_text(&ws[1], "HEAD") {
            sha = Some(ws[0].clone());
        }
        i += 1;
    }
    assert(lv.take(ls.len() as int) =~= lv);
    RemoteHead { branch, sha }
}

/// The ref of origin to be merged into, before it was compared with what
/// origin has: none where origin cannot be reached or does not say.
pub open spec fn origin_ref_spec(out: GitOutput) -> Result<(Seq<char>, Seq<char>), GitErrorView> {
    if !out.ok() {
        Err(
            GitErrorView {
                command: "git ls-remote --symref origin HEAD"@,
                message: trimmed(out.stderr@),
                kind: GitErrorKind::OriginUnreachable,
            },
        )
    } else {
        match remote_head(lines(out.stdout@)) {
            (None, _) => Err(
                GitErrorView {
                    command: "git ls-remote --symref"@,
                    message: "cannot determine origin default branch"@,
                    kind: GitErrorKind::MergeRefUnresolvable,
                },
            ),
            (Some(_), None) => Err(
                GitErrorView {
                    command: "git ls-remote --symref"@,
                    message: "cannot determine origin default branch commit"@,
                    kind: GitErrorKind::MergeRefUnresolvable,
                },
            ),
            (Some(branch), Some(sha)) => Ok(("refs/remotes/origin/"@ + branch, sha)),
        }
    }
}

/// The ref of origin to be merged into, and the commit that it must have.
pub fn origin_merge_ref(out: &GitOutput) -> (r: Result<(String, String), GitError>)
    ensures
        match origin_ref_spec(*out) {
            Ok((name, sha)) => r matches Ok((n, s)) && n@ == name && s@ == sha,
            Err(e) => is_git_err(r, e),
        },
{
    if !out.success() {
        return Err(
            GitError::new(
                "git ls-remote --symref origin HEAD",
                &trim(&out.stderr),
                GitErrorKind::OriginUnreachable,
            ),
        );
    }
    let head = parse_ls_remote(&out.stdout);
    let branch = match head.branch {
        Some(b) => b,
        None => return Err(
            GitError::new(
                "git ls-remote --symref",
                "cannot determine origin default branch",
                GitErrorKind::MergeRefUnresolvable,
            ),
        ),
    };
    let sha = match head.sha {
        Some(s) => s,
        None => return Err(
            GitError::new(
                "git ls-remote --symref",
                "cannot determine origin default branch commit",
                GitErrorKind::MergeRefUnresolvable,
            ),
        ),
    };
    let mut name = "refs/remotes/origin/".to_owned();
    name.append(&branch);
    Ok((name, sha))
}

/// The ref, provided that it has the commit that origin has. `local` is the
/// commit that the ref has here.
pub fn fresh_merge_ref(name: &str, sha: &str, local: Result<String, GitError>) -> (r: Result<
    String,
    GitError,
>)
    ensures
        match local {
            Err(e) => r == Err::<String, GitError>(e),
            Ok(have) => if have@ == sha@ {
                r matches Ok(n) && n@ == name@
            } else {
                is_git_err(
                    r,
                    GitErrorView {
                        command: "git rev-parse"@,
                        message: name@ + " is stale: expected "@ + sha@ + ", got "@ + have@,
                        kind: GitErrorKind::MergeRefUnresolvable,
                    },
                )
            },
        },
{
    let have = match local {
        Ok(have) => have,
        Err(e) => return Err(e),
    };
    if same_text(&have, sha) {
        return Ok(name.to_owned());
    }
    let mut message = name.to_owned();
    message.append(" is stale: expected ");
    message.append(sha);
    message.append(", got ");
    message.append(&have);
    Err(GitError::new("git rev-parse", &message, GitErrorKind::MergeRefUnresolvable))
}

/// The ref of a local branch to be merged into, provided that it has a commit.
pub fn local_merge_ref(branch: &str, commit: Result<String, GitError>) -> (r: Result<
    String,
    GitError,
>)
    ensures
        match commit {
            Err(e) => r == Err::<String, GitError>(e),
            Ok(_) => r matches Ok(n) && n@ == "refs/heads/"@ + branch@,
        },
{
    match commit {
        Err(e) => Err(e),
        Ok(_) => {
            let mut name = "refs/heads/".to_owned();
            name.append(branch);
            Ok(name)
        },
    }
}

/// Whether HEAD is merged, by the exit of `git merge-base --is-ancestor`: 0 for
/// yes, 1 for no, anything else is an error.
pub fn merged_from(out: &GitOutput, reference: &str) -> (r: Result<bool, GitError>)
    ensures
        match out.code {
            Some(0i32) => r == Ok::<bool, GitError>(true),
            Some(1i32) => r == Ok::<bool, GitError>(false),
            _ => is_git_err(
                r,
                GitErrorView {
                    command: "git merge-base --is-ancestor HEAD "@ + reference@,
                    message: trimmed(out.stderr@),
                    kind: GitErrorKind::StatusFailed,
                },
            ),
        },
{
    if out.success() {
        return Ok(true);
    }
    if let Some(code) = out.code {
        if code == 1 {
            return Ok(false);
        }
    }
    let mut command = "git merge-base --is-ancestor HEAD ".to_owned();
    command.append(reference);
    Err(GitError::new(&command, &trim(&out.stderr), GitErrorKind::StatusFailed))
}

// ---------- worktrees ----------

/// Arguments that list all changes, untracked files included whatever the
/// configuration says.
pub fn status_args() -> (r: Vec<String>)
    ensures
        views(r@) == seq!["status"@, "--porcelain"@, "--untracked-files=all"@],
{
    let r = list_of(&["status", "--porcelain", "--untracked-files=all"]);
    assert(views(r@) =~= seq!["status"@, "--porcelain"@, "--untracked-files=all"@]);
    r
}

/// Whether a worktree has changes: any output of [`status_args`] is one.
pub fn dirty_from(out: &GitOutput) -> (r: Result<bool, GitError>)
    ensures
        if out.ok() {
            r == Ok::<bool, GitError>(trimmed(out.stdout@).len() > 0)
        } else {
            is_git_err(
                r,
                failure(
                    *out,
                    seq!["status"@, "--porcelain"@, "--untracked-files=all"@],
                    GitErrorKind::Other,
                ),
            )
        },
{
    let args = status_args();
    match ShellGitBackend::run_stdout(out, &args, GitErrorKind::Other) {
        Ok(s) => Ok(!s.as_str().is_empty()),
        Err(e) => Err(e),
    }
}

/// Arguments that add a worktree at `path` with a detached HEAD.
pub fn add_args(path: &str, reference: &str) -> (r: Vec<String>)
    ensures
        views(r@) == seq!["worktree"@, "add"@, "--detach"@, path@, reference@],
{
    let r = list_of(&["worktree", "add", "--detach", path, reference]);
    assert(views(r@) =~= seq!["worktree"@, "add"@, "--detach"@, path@, reference@]);
    r
}

/// Arguments that remove a worktree, changes or not.
pub fn remove_args(path: &str) -> (r: Vec<String>)
    ensures
        views(r@) == seq!["worktree"@, "remove"@, "--force"@, path@],
{
    let r = list_of(&["worktree", "remove", "--force", path]);
    assert(views(r@) =~= seq!["worktree"@, "remove"@, "--force"@, path@]);
    r
}

/// Arguments that remove a worktree that has no changes.
pub fn remove_clean_args(path: &str) -> (r: Vec<String>)
    ensures
        views(r@) == seq!["worktree"@, "remove"@, path@],
{
    let r = list_of(&["worktree", "remove", path]);
    assert(views(r@) =~= seq!["worktree"@, "remove"@, path@]);
    r
}

/// Arguments that detach HEAD.
pub fn detach_args() -> (r: Vec<String>)
    ensures
        views(r@) == seq!["checkout"@, "--detach"@],
{
    let r = list_of(&["checkout", "--detach"]);
    assert(views(r@) =~= seq!["checkout"@, "--detach"@]);
    r
}

/// The commands that reset a worktree to a ref, to be run one after the other
/// while they end well.
pub open spec fn reset_plan_spec(reference: Seq<char>) -> Seq<Seq<Seq<char>>> {
    seq![
        seq!["checkout"@, "--detach"@, "--force"@, reference],
        seq!["reset"@, "--hard"@, reference],
        seq!["clean"@, "-fd"@],
    ]
}

/// The commands that reset a worktree to a ref.
pub fn reset_plan(reference: &str) -> (r: Vec<Vec<String>>)
    ensures
        r@.map_values(|v: Vec<String>| views(v@)) == reset_plan_spec(reference@),
{
    let checkout = list_of(&["checkout", "--detach", "--force", reference]);
    assert(views(checkout@) =~= seq!["checkout"@, "--detach"@, "--force"@, reference@]);
    let reset = list_of(&["reset", "--hard", reference]);
    assert(views(reset@) =~= seq!["reset"@, "--hard"@, reference@]);
    let clean = list_of(&["clean", "-fd"]);
    assert(views(clean@) =~= seq!["clean"@, "-fd"@]);
    let mut plan: Vec<Vec<String>> = Vec::new();
    plan.push(checkout);
    plan.push(reset);
    plan.push(clean);
    assert(plan@.map_values(|v: Vec<String>| views(v@)) =~= reset_plan_spec(reference@));
    plan
}

// ---------- hashes ----------

/// The SHA-256 digest of a row of bytes.
pub uninterp spec fn sha256(bytes: Seq<u8>) -> Seq<u8>;

/// `sha2::Sha256::digest`: the 32 bytes of the digest.
#[verifier::external_body]
fn sha256_digest(bytes: &[u8]) -> (r: Vec<u8>)
    ensures
        r@ == sha256(bytes@),
        r@.len() == 32,
{
    <sha2::Sha256 as sha2::Digest>::digest(bytes).to_vec()
}

/// The first six hexadecimal digits of a digest.
pub fn short_digest(digest: &[u8]) -> (r: String)
    requires
        digest@.len() >= 3,
    ensures
        r@ == hex(digest@).take(6),
        r@.len() == 6,
        all_hex(r@),
{
    proof {
        lemma_hex(digest@);
    }
    let all = hex_text(digest);
    let r = all.as_str().substring_char(0, 6).to_owned();
    assert(r@ =~= hex(digest@).take(6));
    assert forall|i: int| 0 <= i < r@.len() implies ('0' <= #[trigger] r@[i] <= '9' || 'a' <= r@[i]
        <= 'f') by {
        assert(r@[i] == hex(digest@)[i]);
    }
    r
}

/// The first six hexadecimal digits of the SHA-256 digest of a text.
pub fn short_hash(s: &str) -> (r: String)
    ensures
        r@ == hex(sha256(s.spec_bytes())).take(6),
        r@.len() == 6,
        all_hex(r@),
{
    let digest = sha256_digest(s.as_bytes());
    short_digest(digest.as_slice())
}

// ---------- laws ----------

/// The main repository of a worktree is the directory that holds the shared
/// `.git`; where git does not name such a directory it is the worktree itself.
pub proof fn law_main_root_holds_the_shared_git(repo_root: Seq<char>, common: GitOutput)
    ensures
        !common.ok() ==> main_root(repo_root, common) == repo_root,
        file_name_spec(trimmed(common.stdout@)) != Some(".git"@) ==> main_root(repo_root, common)
            == repo_root,
        common.ok() && file_name_spec(trimmed(common.stdout@)) == Some(".git"@) ==> crate::path::comps(
            main_root(repo_root, common),
        ) == crate::path::comps(trimmed(common.stdout@)).drop_last(),
{
    crate::path::law_parent_drops_last(trimmed(common.stdout@));
}

/// A symbolic ref names a branch below a prefix exactly if git answered with
/// the prefix and the branch behind it.
pub proof fn law_branch_follows_its_prefix(out: GitOutput, prefix: Seq<char>, branch: Seq<char>)
    ensures
        branch_below(out, prefix) == Some(branch) <==> out.ok() && branch.len() > 0 && trimmed(
            out.stdout@,
        ) == prefix + branch,
{
    let s = trimmed(out.stdout@);
    if s == prefix + branch {
        assert(s.take(prefix.len() as int) =~= prefix);
        assert(s.skip(prefix.len() as int) =~= branch);
    }
    if branch_below(out, prefix) == Some(branch) {
        assert(s =~= s.take(prefix.len() as int) + s.skip(prefix.len() as int));
    }
}

/// The default branch is what the HEAD of origin names, where there is an
/// origin; else what the HEAD of the repository names; else what is configured.
/// Each is asked for only where those before it named none, and where none
/// names one the branch is not known.
pub proof fn law_default_branch_by_precedence(
    has_origin: bool,
    origin_head: Option<GitOutput>,
    local_head: Option<GitOutput>,
    configured: Option<GitOutput>,
    r: BranchStep,
)
    requires
        default_branch_spec(has_origin, origin_head, local_head, configured, r),
    ensures
        ({
            let waits = has_origin && origin_head is None;
            let remote = has_origin && origin_head is Some && branch_below(
                origin_head->0,
                "refs/remotes/origin/"@,
            ) is Some;
            let next = !waits && !remote;
            let local = local_head is Some && branch_below(local_head->0, "refs/heads/"@) is Some;
            let last = next && local_head is Some && !local;
            let set = configured is Some && configured->0.ok() && trimmed(
                configured->0.stdout@,
            ).len() > 0;
            &&& r is AskOriginHead <==> waits
            &&& remote ==> (r matches BranchStep::Found(b) && Some(b@) == branch_below(
                origin_head->0,
                "refs/remotes/origin/"@,
            ))
            &&& r is AskLocalHead <==> next && local_head is None
            &&& next && local ==> (r matches BranchStep::Found(b) && Some(b@) == branch_below(
                local_head->0,
                "refs/heads/"@,
            ))
            &&& r is AskConfigured <==> last && configured is None
            &&& last && set ==> (r matches BranchStep::Found(b) && b@ == trimmed(
                configured->0.stdout@,
            ))
            &&& r is Unknown <==> last && configured is Some && !set
        }),
{
}

/// A branch is checked out from the repository only where it exists there and
/// origin lacks it or is strictly behind; in all other cases from origin.
pub proof fn law_local_branch_only_if_ahead(
    branch: Seq<char>,
    has_local: bool,
    has_remote: bool,
    local_in_remote: bool,
    remote_in_local: bool,
)
    ensures
        ({
            let r = branch_ref_spec(
                branch,
                has_local,
                has_remote,
                local_in_remote,
                remote_in_local,
            );
            &&& has_local && !has_remote ==> r == "refs/heads/"@ + branch
            &&& !has_local ==> r == "refs/remotes/origin/"@ + branch
            &&& has_local && has_remote && remote_in_local && !local_in_remote ==> r
                == "refs/heads/"@ + branch
            &&& has_remote && (local_in_remote || !remote_in_local) ==> r == "refs/remotes/origin/"@
                + branch
        }),
{
}

/// The line names the branch that the HEAD of origin points to.
pub open spec fn names_head_branch(line: Seq<char>) -> bool {
    let ws = words(line);
    ws.len() == 3 && ws[0] == "ref:"@ && ws[2] == "HEAD"@
}

/// The line names the commit that the HEAD of origin points to.
pub open spec fn names_head_commit(line: Seq<char>) -> bool {
    let ws = words(line);
    ws.len() == 2 && ws[1] == "HEAD"@
}

/// Of the lines that name the commit of origin's HEAD the last one counts.
pub proof fn law_last_commit_line_counts(ls: Seq<Seq<char>>, i: int)
    requires
        0 <= i < ls.len(),
        names_head_commit(ls[i]),
        forall|j: int| i < j < ls.len() ==> !names_head_commit(#[trigger] ls[j]),
    ensures
        remote_head(ls).1 == Some(words(ls[i])[0]),
    decreases ls.len(),
{
    if i < ls.len() - 1 {
        let front = ls.drop_last();
        assert(!names_head_commit(ls[ls.len() - 1]));
        assert(front[i] == ls[i]);
        assert forall|j: int| i < j < front.len() implies !names_head_commit(
            #[trigger] front[j],
        ) by {
            assert(front[j] == ls[j]);
        }
        law_last_commit_line_counts(front, i);
    }
}

/// Of the lines that name the branch of origin's HEAD the last one counts. A
/// ref that is not a branch leaves the branch unknown.
pub proof fn law_last_branch_line_counts(ls: Seq<Seq<char>>, i: int, branch: Seq<char>)
    requires
        0 <= i < ls.len(),
        names_head_branch(ls[i]),
        forall|j: int| i < j < ls.len() ==> !names_head_branch(#[trigger] ls[j]),
    ensures
        remote_head(ls).0 == Some(branch) <==> words(ls[i])[1] == "refs/heads/"@ + branch,
    decreases ls.len(),
{
    if i < ls.len() - 1 {
        let front = ls.drop_last();
        assert(!names_head_branch(ls[ls.len() - 1]));
        assert(front[i] == ls[i]);
        assert forall|j: int| i < j < front.len() implies !names_head_branch(
            #[trigger] front[j],
        ) by {
            assert(front[j] == ls[j]);
        }
        law_last_branch_line_counts(front, i, branch);
    } else {
        let w = words(ls[i])[1];
        let n = "refs/heads/"@.len() as int;
        if w == "refs/heads/"@ + branch {
            assert(w.take(n) =~= "refs/heads/"@);
            assert(w.skip(n) =~= branch);
        }
        if begins(w, "refs/heads/"@) {
            assert(w =~= w.take(n) + w.skip(n));
        }
    }
}

/// Without a line that names it, neither the branch nor the commit of origin's
/// HEAD is known.
pub proof fn law_head_is_unknown_without_a_line(ls: Seq<Seq<char>>)
    ensures
        (forall|i: int| 0 <= i < ls.len() ==> !names_head_commit(#[trigger] ls[i])) ==> remote_head(
            ls,
        ).1 is None,
        (forall|i: int| 0 <= i < ls.len() ==> !names_head_branch(#[trigger] ls[i])) ==> remote_head(
            ls,
        ).0 is None,
    decreases ls.len(),
{
    if ls.len() > 0 {
        let front = ls.drop_last();
        law_head_is_unknown_without_a_line(front);
        assert(forall|i: int| 0 <= i < front.len() ==> #[trigger] front[i] == ls[i]);
        assert(ls[ls.len() - 1] == ls.last());
    }
}

/// The merge ref of origin is known exactly if origin answered and told both the
/// branch and the commit of its HEAD; an answer that says less is an error.
pub proof fn law_origin_ref_needs_branch_and_commit(out: GitOutput)
    ensures
        ({
            let head = remote_head(lines(out.stdout@));
            &&& origin_ref_spec(out) is Ok <==> out.ok() && head.0 is Some && head.1 is Some
            &&& origin_ref_spec(out) matches Ok(x) ==> x.0 == "refs/remotes/origin/"@ + head.0->0
                && x.1 == head.1->0
            &&& !out.ok() ==> (origin_ref_spec(out) matches Err(e) && e.kind
                == GitErrorKind::OriginUnreachable)
            &&& out.ok() && origin_ref_spec(out) is Err ==> (origin_ref_spec(out) matches Err(e)
                && e.kind == GitErrorKind::MergeRefUnresolvable)
        }),
{
}

/// A remote is there exactly if a line of git's list says its name, whichever
/// line that is.
pub proof fn law_remote_is_listed(line: Seq<char>, rest: Seq<char>, name: Seq<char>)
    requires
        forall|i: int| 0 <= i < line.len() ==> line[i] != '\n',
        line.len() > 0 ==> line.last() != '\r',
    ensures
        names_remote(line.push('\n') + rest, name) <==> trimmed(line) == name || names_remote(
            rest,
            name,
        ),
        !names_remote(seq![], name),
{
    crate::text::law_line_feeds_end_lines(line, rest);
    let all = lines(line.push('\n') + rest);
    let more = lines(rest);
    assert(all =~= seq![line] + more);
    assert(all[0] == line);
    if names_remote(rest, name) {
        let i = choose|i: int| 0 <= i < more.len() && trimmed(#[trigger] more[i]) == name;
        assert(all[i + 1] == more[i]);
    }
    if names_remote(line.push('\n') + rest, name) {
        let i = choose|i: int| 0 <= i < all.len() && trimmed(#[trigger] all[i]) == name;
        if i > 0 {
            assert(more[i - 1] == all[i]);
        }
    }
}

/// Resetting a worktree throws its changes away, moves it to the ref, and
/// deletes what git does not track: every command that takes a ref is given
/// this one, and nothing is kept.
pub proof fn law_reset_leaves_nothing_behind(reference: Seq<char>)
    ensures
        ({
            let plan = reset_plan_spec(reference);
            &&& plan.len() == 3
            &&& plan[0] == seq!["checkout"@, "--detach"@, "--force"@, reference]
            &&& plan[1] == seq!["reset"@, "--hard"@, reference]
            &&& plan[2] == seq!["clean"@, "-fd"@]
        }),
{
}

/// A run of git ended well exactly if its code is zero; where it did not, the
/// error names the command and carries what git wrote to its error output.
pub proof fn law_failures_carry_the_words_of_git(
    out: GitOutput,
    args: Seq<Seq<char>>,
    kind: GitErrorKind,
)
    ensures
        out.ok() <==> out.code == Some(0i32),
        failure(out, args, kind).kind == kind,
        failure(out, args, kind).message == trimmed(out.stderr@),
        failure(out, args, kind).command == "git "@ + spaced(args),
{
}

} // verus!
