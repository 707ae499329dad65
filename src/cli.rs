//! The program's options, and the resolution of the files that a change
//! touches, decided one git answer at a time.

use vstd::prelude::*;
use vstd::string::StringExecFns;

use crate::git::{
    files_changed_between,
    lines_of,
    merge_base,
    rev_parse,
    split_lines,
    views,
    CommandFailure,
    GitQuery,
};

verus! {

/// What the program is asked to do.
#[derive(Debug, Clone)]
pub struct Opts {
    /// Files to report on; where empty, they are the files that differ between
    /// `git_head` and its merge base with the base branch.
    pub changed_files: Vec<String>,
    /// The revision to compare from.
    pub git_head: String,
    /// The base branch; where absent, the first of the candidates that names
    /// a revision.
    pub git_base: Option<String>,
    /// Where to write the report; standard output where absent.
    pub output: Option<String>,
    /// The coverage trace to read.
    pub coverage_file: String,
}

/// Where the resolution of the changed files stands.
#[derive(Debug, Clone, Copy, PartialEq, Eq, Structural)]
pub enum ResolveState {
    /// Waiting to hear whether candidate `index` names a revision.
    ProbingBase { index: usize },
    /// Waiting for the merge base of the head and the base branch.
    FindingMergeBase,
    /// Waiting for the names of the files changed since the merge base.
    ListingFiles,
    /// Nothing more to ask.
    Finished,
}

/// How a git query ended.
#[derive(Debug, Clone)]
pub enum Outcome {
    /// It succeeded and printed this, trimmed.
    Output(String),
    /// It failed.
    Failure(CommandFailure),
}

/// Why the changed files could not be found.
#[derive(Debug, Clone)]
pub enum ResolveError {
    /// A git command that had to succeed failed.
    Subprocess(CommandFailure),
    /// No base branch was given and none of the candidates names a revision.
    UnresolvedBase,
}

/// What to do next.
#[derive(Debug, Clone)]
pub enum Resolution {
    /// Run this query and hand its outcome back.
    Run(GitQuery),
    /// These are the changed files.
    Done(Vec<String>),
    /// Resolution failed.
    Failed(ResolveError),
}

/// A [`Resolution`] with the files as their paths.
pub enum ResolutionView {
    Run(GitQuery),
    Done(Seq<Seq<char>>),
    Failed(ResolveError),
}

impl View for Resolution {
    type V = ResolutionView;

    open spec fn view(&self) -> ResolutionView {
        match self {
            Resolution::Run(q) => ResolutionView::Run(*q),
            Resolution::Done(v) => ResolutionView::Done(views(v@)),
            Resolution::Failed(e) => ResolutionView::Failed(*e),
        }
    }
}

/// The query asking whether candidate `i` names a revision.
pub open spec fn probe(candidates: Seq<String>, i: int) -> GitQuery {
    GitQuery::RevParse { rev: candidates[i] }
}

/// The first step: the explicit files where there are any, without asking
/// git anything; else the merge base with the given base branch; else the
/// probe of the first candidate.
pub open spec fn first_step(opts: Opts, candidates: Seq<String>) -> (ResolveState, ResolutionView) {
    if opts.changed_files@.len() > 0 {
        (ResolveState::Finished, ResolutionView::Done(views(opts.changed_files@)))
    } else {
        match opts.git_base {
            Some(base) => (
                ResolveState::FindingMergeBase,
                ResolutionView::Run(GitQuery::MergeBase { commit1: opts.git_head, commit2: base }),
            ),
            None => if candidates.len() > 0 {
                (ResolveState::ProbingBase { index: 0 }, ResolutionView::Run(probe(candidates, 0)))
            } else {
                (ResolveState::Finished, ResolutionView::Failed(ResolveError::UnresolvedBase))
            },
        }
    }
}

/// The state can be reached with these candidates.
pub open spec fn state_fits(state: ResolveState, candidates: Seq<String>) -> bool {
    match state {
        ResolveState::ProbingBase { index } => index < candidates.len(),
        ResolveState::Finished => false,
        _ => true,
    }
}

/// The step after `outcome`: a candidate that names a revision becomes the
/// base, and no later candidate is tried; one that does not passes to the
/// next; any other failure ends resolution.
pub open spec fn next_step(
    opts: Opts,
    candidates: Seq<String>,
    state: ResolveState,
    outcome: Outcome,
) -> (ResolveState, ResolutionView) {
    match state {
        ResolveState::ProbingBase { index } => match outcome {
            Outcome::Output(_) => (
                ResolveState::FindingMergeBase,
                ResolutionView::Run(
                    GitQuery::MergeBase { commit1: opts.git_head, commit2: candidates[index as int] },
                ),
            ),
            Outcome::Failure(_) => if index + 1 < candidates.len() {
                (
                    ResolveState::ProbingBase { index: (index + 1) as usize },
                    ResolutionView::Run(probe(candidates, index + 1)),
                )
            } else {
                (ResolveState::Finished, ResolutionView::Failed(ResolveError::UnresolvedBase))
            },
        },
        ResolveState::FindingMergeBase => match outcome {
            Outcome::Output(base) => (
                ResolveState::ListingFiles,
                ResolutionView::Run(
                    GitQuery::FilesChangedBetween { commit1: opts.git_head, commit2: base },
                ),
            ),
            Outcome::Failure(f) => (
                ResolveState::Finished,
                ResolutionView::Failed(ResolveError::Subprocess(f)),
            ),
        },
        _ => match outcome {
            Outcome::Output(names) => (ResolveState::Finished, ResolutionView::Done(lines_of(names@))),
            Outcome::Failure(f) => (
                ResolveState::Finished,
                ResolutionView::Failed(ResolveError::Subprocess(f)),
            ),
        },
    }
}

/// The base branches tried, in order, where none is given.
pub fn default_base_candidates() -> (r: Vec<String>)
    ensures
        r@.len() == 3,
        views(r@) == seq!["main"@, "master"@, "trunk"@],
{
    let mut v: Vec<String> = Vec::new();
    v.push(String::from_str("main"));
    v.push(String::from_str("master"));
    v.push(String::from_str("trunk"));
    proof {
        assert(views(v@) =~= seq!["main"@, "master"@, "trunk"@]);
    }
    v
}

impl Opts {
    /// Starts resolving the changed files, with `candidates` as the base
    /// branches to try where none is given.
    pub fn changed_files(&self, candidates: &Vec<String>) -> (r: (ResolveState, Resolution))
        ensures
            (r.0, r.1@) == first_step(*self, candidates@),
    {
        if self.changed_files.len() > 0 {
            let files = self.changed_files.clone();
            proof {
                assert(files@ =~= self.changed_files@);
            }
            return (ResolveState::Finished, Resolution::Done(files));
        }
        match &self.git_base {
            Some(base) => (
                ResolveState::FindingMergeBase,
                Resolution::Run(merge_base(&self.git_head, base)),
            ),
            None => if candidates.len() > 0 {
                (
                    ResolveState::ProbingBase { index: 0 },
                    Resolution::Run(rev_parse(&candidates[0])),
                )
            } else {
                (ResolveState::Finished, Resolution::Failed(ResolveError::UnresolvedBase))
            },
        }
    }

    /// The next step, given how the last query ended.
    pub fn advance(&self, candidates: &Vec<String>, state: ResolveState, outcome: Outcome) -> (r: (
        ResolveState,
        Resolution,
    ))
        requires
            state_fits(state, candidates@),
        ensures
            (r.0, r.1@) == next_step(*self, candidates@, state, outcome),
    {
        match state {
            ResolveState::ProbingBase { index } => match outcome {
                Outcome::Output(_) => (
                    ResolveState::FindingMergeBase,
                    Resolution::Run(merge_base(&self.git_head, &candidates[index])),
                ),
                Outcome::Failure(_) => if candidates.len() - index > 1 {
                    (
                        ResolveState::ProbingBase { index: index + 1 },
                        Resolution::Run(rev_parse(&candidates[index + 1])),
                    )
                } else {
                    (ResolveState::Finished, Resolution::Failed(ResolveError::UnresolvedBase))
                },
            },
            ResolveState::FindingMergeBase => match outcome {
                Outcome::Output(base) => (
                    ResolveState::ListingFiles,
                    Resolution::Run(files_changed_between(&self.git_head, &base)),
                ),
                Outcome::Failure(f) => (ResolveState::Finished, Resolution::Failed(ResolveError::Subprocess(f))),
            },
            _ => match outcome {
                Outcome::Output(names) => (ResolveState::Finished, Resolution::Done(split_lines(names.as_str()))),
                Outcome::Failure(f) => (ResolveState::Finished, Resolution::Failed(ResolveError::Subprocess(f))),
            },
        }
    }
}

/// With explicit files, resolution asks git nothing: it is finished at once
/// and gives those files unchanged.
pub proof fn lemma_explicit_files_skip_git(opts: Opts, candidates: Seq<String>)
    requires
        opts.changed_files@.len() > 0,
    ensures
        first_step(opts, candidates) == (
            ResolveState::Finished,
            ResolutionView::Done(views(opts.changed_files@)),
        ),
        !state_fits(first_step(opts, candidates).0, candidates),
{
}

/// Where no base is given, the first candidate that names a revision is the
/// base: when the first does not and the second does, the merge base is
/// sought with the second, and no candidate is probed after that.
pub proof fn lemma_first_resolving_candidate_wins(
    opts: Opts,
    candidates: Seq<String>,
    missing: CommandFailure,
    found: String,
)
    requires
        opts.changed_files@.len() == 0,
        opts.git_base is None,
        candidates.len() >= 2,
    ensures
        first_step(opts, candidates) == (
            ResolveState::ProbingBase { index: 0 },
            ResolutionView::Run(probe(candidates, 0)),
        ),
        next_step(opts, candidates, ResolveState::ProbingBase { index: 0 }, Outcome::Failure(missing))
            == (ResolveState::ProbingBase { index: 1 }, ResolutionView::Run(probe(candidates, 1))),
        next_step(opts, candidates, ResolveState::ProbingBase { index: 1 }, Outcome::Output(found))
            == (
            ResolveState::FindingMergeBase,
            ResolutionView::Run(
                GitQuery::MergeBase { commit1: opts.git_head, commit2: candidates[1] },
            ),
        ),
        forall|state: ResolveState, outcome: Outcome|
            !(state is ProbingBase) ==> {
                let next = #[trigger] next_step(opts, candidates, state, outcome);
                &&& !(next.0 is ProbingBase)
                &&& !(next.1 matches ResolutionView::Run(q) && q is RevParse)
            },
{
}

} // verus!
