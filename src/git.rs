//! The questions put to git, and what a failed one reports.

use vstd::prelude::*;
use vstd::string::StringExecFns;

verus! {

/// A git command whose standard output answers one question.
#[derive(Debug, Clone, PartialEq, Eq)]
pub enum GitQuery {
    /// Does `rev` name a revision?
    RevParse { rev: String },
    /// The nearest common ancestor of two commits.
    MergeBase { commit1: String, commit2: String },
    /// The names of the files that differ between two commits, one per line.
    FilesChangedBetween { commit1: String, commit2: String },
}

/// A git command that exited unsuccessfully.
#[derive(Debug, Clone, PartialEq, Eq)]
pub struct CommandFailure {
    /// The command line, quoted for a shell.
    pub command: String,
    /// The exit status, as the platform describes it.
    pub status: String,
    /// Standard output, trimmed.
    pub stdout: String,
    /// Standard error, trimmed.
    pub stderr: String,
}

/// What `shell_words::join` makes of a list of words.
pub uninterp spec fn shell_join(words: Seq<Seq<char>>) -> Seq<char>;

/// The views of a list of strings.
pub open spec fn views(s: Seq<String>) -> Seq<Seq<char>> {
    s.map_values(|w: String| w@)
}

/// The lines of `s`, as `str::lines` splits them.
pub uninterp spec fn lines_of(s: Seq<char>) -> Seq<Seq<char>>;

/// Relies on `str::lines`: the lines of the text, without their line endings;
/// the result depends on the text alone, and an empty text has no lines.
#[verifier::external_body]
pub(crate) fn split_lines(s: &str) -> (r: Vec<String>)
    ensures
        views(r@) == lines_of(s@),
        s@.len() == 0 ==> r@.len() == 0,
{
    s.lines().map(|line| line.to_owned()).collect()
}

/// The arguments given to git for `q`.
pub open spec fn query_words(q: GitQuery) -> Seq<Seq<char>> {
    match q {
        GitQuery::RevParse { rev } => seq!["rev-parse"@, rev@],
        GitQuery::MergeBase { commit1, commit2 } => seq!["merge-base"@, commit1@, commit2@],
        GitQuery::FilesChangedBetween { commit1, commit2 } => seq![
            "diff"@,
            "--name-only"@,
            commit1@ + ".."@ + commit2@,
        ],
    }
}

/// Relies on `shell_words::join`: each word quoted for a POSIX shell, joined
/// by single spaces; the result depends on the words alone.
#[verifier::external_body]
fn join_words(words: &Vec<String>) -> (r: String)
    ensures
        r@ == shell_join(views(words@)),
{
    shell_words::join(words)
}

/// The query that checks whether `rev` names a revision.
pub fn rev_parse(rev: &String) -> (q: GitQuery)
    ensures
        q == (GitQuery::RevParse { rev: *rev }),
{
    GitQuery::RevParse { rev: rev.clone() }
}

/// The query for the nearest common ancestor of two commits.
pub fn merge_base(commit1: &String, commit2: &String) -> (q: GitQuery)
    ensures
        q == (GitQuery::MergeBase { commit1: *commit1, commit2: *commit2 }),
{
    GitQuery::MergeBase { commit1: commit1.clone(), commit2: commit2.clone() }
}

/// The query for the files that differ between two commits.
pub fn files_changed_between(commit1: &String, commit2: &String) -> (q: GitQuery)
    ensures
        q == (GitQuery::FilesChangedBetween { commit1: *commit1, commit2: *commit2 }),
{
    GitQuery::FilesChangedBetween { commit1: commit1.clone(), commit2: commit2.clone() }
}

impl GitQuery {
    /// The arguments that follow `git` on the command line.
    pub fn args(&self) -> (r: Vec<String>)
        ensures
            views(r@) == query_words(*self),
    {
        let mut v: Vec<String> = Vec::new();
        match self {
            GitQuery::RevParse { rev } => {
                v.push(String::from_str("rev-parse"));
                v.push(rev.clone());
            },
            GitQuery::MergeBase { commit1, commit2 } => {
                v.push(String::from_str("merge-base"));
                v.push(commit1.clone());
                v.push(commit2.clone());
            },
            GitQuery::FilesChangedBetween { commit1, commit2 } => {
                v.push(String::from_str("diff"));
                v.push(String::from_str("--name-only"));
                let mut range = commit1.clone();
                range.append("..");
                range.append(commit2.as_str());
                v.push(range);
            },
        }
        proof {
            assert(views(v@) =~= query_words(*self));
        }
        v
    }

    /// The whole command line, quoted for a shell.
    pub fn command_line(&self) -> (r: String)
        ensures
            r@ == shell_join(seq!["git"@] + query_words(*self)),
    {
        let args = self.args();
        let mut words: Vec<String> = Vec::new();
        words.push(String::from_str("git"));
        let mut i: usize = 0;
        while i < args.len()
            invariant
                i <= args.len(),
                views(args@) == query_words(*self),
                views(words@) == seq!["git"@] + views(args@).subrange(0, i as int),
            decreases args.len() - i,
        {
            let ghost prev = words@;
            let w = args[i].clone();
            assert(w == args@[i as int]);
            words.push(w);
            proof {
                assert(views(words@) =~= views(prev).push(args@[i as int]@));
                assert(views(args@).subrange(0, i + 1) =~= views(args@).subrange(0, i as int).push(
                    args@[i as int]@,
                ));
                assert(views(words@) =~= seq!["git"@] + views(args@).subrange(0, i + 1));
            }
            i = i + 1;
        }
        proof {
            assert(views(args@).subrange(0, i as int) =~= views(args@));
        }
        join_words(&words)
    }

    /// What is reported when this query exits with `status`, having printed
    /// `stdout` and `stderr`.
    pub fn failure(&self, status: String, stdout: String, stderr: String) -> (r: CommandFailure)
        ensures
            r.command@ == shell_join(seq!["git"@] + query_words(*self)),
            r.status == status,
            r.stdout == stdout,
            r.stderr == stderr,
    {
        CommandFailure { command: self.command_line(), status, stdout, stderr }
    }
}

/// The report of a failed command: the command and its status, then each
/// output stream that is not empty.
pub open spec fn failure_message(f: CommandFailure) -> Seq<char> {
    "git failed with exit code "@ + f.status@ + ": "@ + f.command@ + (if f.stdout@.len() > 0 {
        "\nStdout: "@ + f.stdout@
    } else {
        Seq::<char>::empty()
    }) + (if f.stderr@.len() > 0 {
        "\nStderr: "@ + f.stderr@
    } else {
        Seq::<char>::empty()
    })
}

impl CommandFailure {
    /// A message that says which command failed, how, and what it printed.
    pub fn message(&self) -> (r: String)
        ensures
            r@ == failure_message(*self),
    {
        let mut m = String::from_str("git failed with exit code ");
        m.append(self.status.as_str());
        m.append(": ");
        m.append(self.command.as_str());
        if self.stdout.as_str().unicode_len() > 0 {
            m.append("\nStdout: ");
            m.append(self.stdout.as_str());
        }
        if self.stderr.as_str().unicode_len() > 0 {
            m.append("\nStderr: ");
            m.append(self.stderr.as_str());
        }
        proof {
            assert(m@ =~= failure_message(*self));
        }
        m
    }
}

} // verus!
