//! The topbase decision algorithm.
//!
//! The current branch's commits are walked newest to oldest against the
//! upstream branch's aggregate content set. A commit whose whole content set
//! is already contained in upstream is redundant and marks the rebase
//! boundary; the commits above it are the ones to replay.

use vstd::prelude::*;
use vstd::string::*;

use crate::content::ContentSet;

verus! {

/// A read-only projection of a repository commit: its identifier and the
/// first line of its message.
pub struct CommitRecord {
    pub id: String,
    pub summary: String,
}

/// The mathematical image of a [`CommitRecord`].
pub struct CommitRecordView {
    pub id: Seq<char>,
    pub summary: Seq<char>,
}

impl View for CommitRecord {
    type V = CommitRecordView;

    open spec fn view(&self) -> CommitRecordView {
        CommitRecordView { id: self.id@, summary: self.summary@ }
    }
}

impl DeepView for CommitRecord {
    type V = CommitRecordView;

    open spec fn deep_view(&self) -> CommitRecordView {
        self.view()
    }
}

/// The boundary decision: how many of the newest commits to replay, out of
/// how many in total.
#[derive(Clone, Copy, Debug, PartialEq, Eq, Structural)]
pub struct TopbaseOutcome {
    pub commits_to_take: usize,
    pub total_commits: usize,
}

/// The number of newest commits, contiguous from the tip, whose content sets
/// each hold something absent from `upstream`: the walk stops at the first
/// commit whose content set is contained in `upstream`.
pub open spec fn spec_commits_to_take(sets: Seq<Set<Seq<char>>>, upstream: Set<Seq<char>>) -> int
    decreases sets.len(),
{
    if sets.len() == 0 {
        0
    } else if sets[0].subset_of(upstream) {
        0
    } else {
        1 + spec_commits_to_take(sets.drop_first(), upstream)
    }
}

/// Whether an outcome is the one the decision algorithm computes for these
/// inputs.
pub open spec fn outcome_matches(
    sets: Seq<Set<Seq<char>>>,
    upstream: Set<Seq<char>>,
    o: TopbaseOutcome,
) -> bool {
    o.commits_to_take as int == spec_commits_to_take(sets, upstream) && o.total_commits as int
        == sets.len()
}

/// Walks the per-commit content sets, newest first, against the upstream
/// content set, and returns the number of commits to take.
pub fn topbase_check_alg(commit_sets: &Vec<ContentSet>, upstream_blobs: &ContentSet) -> (n: usize)
    ensures
        n as int == spec_commits_to_take(commit_sets.deep_view(), upstream_blobs@),
        n <= commit_sets.len(),
{
    let ghost dv = commit_sets.deep_view();
    let mut i: usize = 0;
    proof {
        assert(dv.skip(0) =~= dv);
    }
    while i < commit_sets.len()
        invariant
            dv == commit_sets.deep_view(),
            0 <= i <= commit_sets.len(),
            spec_commits_to_take(dv, upstream_blobs@) == i + spec_commits_to_take(
                dv.skip(i as int),
                upstream_blobs@,
            ),
        decreases commit_sets.len() - i,
    {
        let ghost rem = dv.skip(i as int);
        proof {
            assert(rem[0] == dv[i as int]);
            assert(dv[i as int] == commit_sets@[i as int]@);
            assert(rem.drop_first() =~= dv.skip(i as int + 1));
        }
        if commit_sets[i].is_subset_of(upstream_blobs) {
            return i;
        }
        i = i + 1;
    }
    proof {
        assert(dv.skip(commit_sets.len() as int) =~= Seq::<Set<Seq<char>>>::empty());
    }
    i
}

/// The computed count is the length of the longest prefix of the sequence in
/// which no content set is contained in upstream: every counted commit
/// introduces new content, and the commit at the boundary (if any) does not.
pub proof fn lemma_commits_to_take_longest_prefix(
    sets: Seq<Set<Seq<char>>>,
    upstream: Set<Seq<char>>,
)
    ensures
        0 <= spec_commits_to_take(sets, upstream) <= sets.len(),
        forall|i: int|
            0 <= i < spec_commits_to_take(sets, upstream) ==> !(#[trigger] sets[i]).subset_of(
                upstream,
            ),
        spec_commits_to_take(sets, upstream) < sets.len() ==> sets[spec_commits_to_take(
            sets,
            upstream,
        )].subset_of(upstream),
    decreases sets.len(),
{
    if sets.len() == 0 {
    } else if sets[0].subset_of(upstream) {
    } else {
        lemma_commits_to_take_longest_prefix(sets.drop_first(), upstream);
        let k = spec_commits_to_take(sets, upstream);
        assert(k == 1 + spec_commits_to_take(sets.drop_first(), upstream));
        assert forall|i: int| 0 <= i < k implies !(#[trigger] sets[i]).subset_of(upstream) by {
            if i > 0 {
                assert(sets.drop_first()[i - 1] == sets[i]);
            }
        }
        if k < sets.len() {
            assert(sets.drop_first()[k - 1] == sets[k]);
        }
    }
}

/// A tip commit already contained in upstream means nothing is taken.
pub proof fn lemma_tip_redundant(sets: Seq<Set<Seq<char>>>, upstream: Set<Seq<char>>)
    requires
        sets.len() > 0,
        sets[0].subset_of(upstream),
    ensures
        spec_commits_to_take(sets, upstream) == 0,
{
}

/// When no commit's content set is contained in upstream, every commit is
/// taken.
pub proof fn lemma_no_commit_redundant(sets: Seq<Set<Seq<char>>>, upstream: Set<Seq<char>>)
    requires
        forall|i: int| 0 <= i < sets.len() ==> !(#[trigger] sets[i]).subset_of(upstream),
    ensures
        spec_commits_to_take(sets, upstream) == sets.len(),
    decreases sets.len(),
{
    if sets.len() == 0 {
    } else {
        assert(!sets[0].subset_of(upstream));
        assert forall|i: int| 0 <= i < sets.drop_first().len() implies !(
        #[trigger] sets.drop_first()[i]).subset_of(upstream) by {
            assert(sets.drop_first()[i] == sets[i + 1]);
        }
        lemma_no_commit_redundant(sets.drop_first(), upstream);
    }
}

/// Idempotence: the outcome is a function of the inputs alone, so two runs of
/// the decision algorithm on unchanged inputs agree.
pub proof fn lemma_topbase_outcome_idempotent(
    sets: Seq<Set<Seq<char>>>,
    upstream: Set<Seq<char>>,
    o1: TopbaseOutcome,
    o2: TopbaseOutcome,
)
    requires
        outcome_matches(sets, upstream, o1),
        outcome_matches(sets, upstream, o2),
    ensures
        o1 == o2,
{
}

/// The rebase "pick" directive for one kept commit.
pub open spec fn spec_pick_line(c: CommitRecordView) -> Seq<char> {
    "pick "@ + c.id + " "@ + c.summary + "\n"@
}

/// The pick lines of the `n` newest commits, in the newest-first order the
/// walk produced them.
pub open spec fn spec_pick_lines(commits: Seq<CommitRecordView>, n: int) -> Seq<Seq<char>> {
    commits.take(n).map_values(|c: CommitRecordView| spec_pick_line(c))
}

/// Builds one pick line per kept commit, newest first.
pub fn build_rebase_data(commits: &Vec<CommitRecord>, n: usize) -> (picks: Vec<String>)
    requires
        n <= commits.len(),
    ensures
        picks.deep_view() == spec_pick_lines(commits.deep_view(), n as int),
{
    let ghost dv = commits.deep_view();
    let mut picks: Vec<String> = Vec::new();
    let mut i: usize = 0;
    proof {
        assert(picks.deep_view() =~= spec_pick_lines(dv, 0));
    }
    while i < n
        invariant
            n <= commits.len(),
            dv == commits.deep_view(),
            0 <= i <= n,
            picks.deep_view() == spec_pick_lines(dv, i as int),
        decreases n - i,
    {
        let line = String::from_str("pick ").concat(commits[i].id.as_str()).concat(" ").concat(
            commits[i].summary.as_str(),
        ).concat("\n");
        let ghost old_picks = picks.deep_view();
        picks.push(line);
        proof {
            assert(dv[i as int] == commits@[i as int]@);
            assert(line@ =~= spec_pick_line(dv[i as int]));
            assert(picks.deep_view() =~= old_picks.push(line@));
            assert(spec_pick_lines(dv, i as int + 1) =~= old_picks.push(spec_pick_line(
                dv[i as int],
            )));
        }
        i = i + 1;
    }
    picks
}

/// Reverses the pick order: the walk records newest first, an interactive
/// rewrite script applies oldest first.
pub fn reverse_picks(picks: &Vec<String>) -> (r: Vec<String>)
    ensures
        r.deep_view() == picks.deep_view().reverse(),
{
    let ghost dv = picks.deep_view();
    let n = picks.len();
    let mut r: Vec<String> = Vec::new();
    let mut k: usize = 0;
    proof {
        assert(r.deep_view() =~= dv.reverse().take(0));
    }
    while k < n
        invariant
            n == picks.len(),
            dv == picks.deep_view(),
            0 <= k <= n,
            r.deep_view() == dv.reverse().take(k as int),
        decreases n - k,
    {
        let ghost old_r = r.deep_view();
        r.push(picks[n - 1 - k].clone());
        proof {
            assert(dv[n - 1 - k as int] == picks@[n - 1 - k as int]@);
            assert(dv.reverse()[k as int] == dv[n - 1 - k as int]);
            assert(r.deep_view() =~= old_r.push(dv[n - 1 - k as int]));
            assert(dv.reverse().take(k as int + 1) =~= old_r.push(dv.reverse()[k as int]));
        }
        k = k + 1;
    }
    proof {
        assert(dv.reverse().take(n as int) =~= dv.reverse());
    }
    r
}

/// Round trip: reversing a reversed list restores the starting order.
pub proof fn lemma_reverse_reverse<A>(s: Seq<A>)
    ensures
        s.reverse().reverse() == s,
{
    assert(s.reverse().reverse() =~= s);
}

} // verus!
