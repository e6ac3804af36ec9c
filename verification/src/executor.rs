//! Rewrite planning and outcome interpretation.
//!
//! The boundary decision is turned into one of three rewrite shapes: a
//! re-parent of only the newest commit (the tip is already redundant), a
//! plain re-parent of the whole branch (nothing overlaps), or an interactive
//! rewrite replaying exactly the taken commits with a fixed script. Running
//! the command is the caller's business; this module builds the command and
//! interprets its exit.

use vstd::prelude::*;
use vstd::string::*;

use crate::content::ContentSet;
use crate::rebase::build_rebase_data;
use crate::rebase::reverse_picks;
use crate::rebase::spec_commits_to_take;
use crate::rebase::spec_pick_lines;
use crate::rebase::topbase_check_alg;
use crate::rebase::CommitRecord;
use crate::rebase::CommitRecordView;
use crate::rebase::TopbaseOutcome;

verus! {

/// Which of the three rewrite shapes the outcome calls for.
#[derive(Clone, Copy, Debug, PartialEq, Eq, Structural)]
pub enum RewriteDirective {
    /// The tip commit is already redundant: re-parent only the newest commit.
    FastForwardLast,
    /// Nothing overlaps upstream: re-parent the whole branch.
    FullRebase,
    /// Replay exactly this many newest commits on top of upstream.
    InteractiveBoundary(usize),
}

/// The shape an outcome maps to: taking nothing is the fast-forward shape,
/// taking everything is the full rebase, anything between is interactive.
pub open spec fn spec_directive(o: TopbaseOutcome) -> RewriteDirective {
    if o.commits_to_take == 0 {
        RewriteDirective::FastForwardLast
    } else if o.commits_to_take == o.total_commits {
        RewriteDirective::FullRebase
    } else {
        RewriteDirective::InteractiveBoundary(o.commits_to_take)
    }
}

/// Maps an outcome to its rewrite directive.
pub fn decide_directive(o: &TopbaseOutcome) -> (d: RewriteDirective)
    ensures
        d == spec_directive(*o),
{
    if o.commits_to_take == 0 {
        RewriteDirective::FastForwardLast
    } else if o.commits_to_take == o.total_commits {
        RewriteDirective::FullRebase
    } else {
        RewriteDirective::InteractiveBoundary(o.commits_to_take)
    }
}

/// A tip commit whose content is contained in upstream means nothing is
/// taken and the emitted directive is the fast-forward shape.
pub proof fn lemma_tip_redundant_directive(
    sets: Seq<Set<Seq<char>>>,
    upstream: Set<Seq<char>>,
    o: TopbaseOutcome,
)
    requires
        sets.len() > 0,
        sets[0].subset_of(upstream),
        crate::rebase::outcome_matches(sets, upstream, o),
    ensures
        o.commits_to_take == 0,
        spec_directive(o) == RewriteDirective::FastForwardLast,
{
    crate::rebase::lemma_tip_redundant(sets, upstream);
}

/// When no commit's content is contained in upstream, every commit is taken
/// and the emitted directive is the full-rebase shape.
pub proof fn lemma_no_commit_redundant_directive(
    sets: Seq<Set<Seq<char>>>,
    upstream: Set<Seq<char>>,
    o: TopbaseOutcome,
)
    requires
        sets.len() > 0,
        forall|i: int| 0 <= i < sets.len() ==> !(#[trigger] sets[i]).subset_of(upstream),
        crate::rebase::outcome_matches(sets, upstream, o),
    ensures
        o.commits_to_take == o.total_commits,
        o.total_commits as int == sets.len(),
        spec_directive(o) == RewriteDirective::FullRebase,
{
    crate::rebase::lemma_no_commit_redundant(sets, upstream);
}

/// The decimal digit characters.
pub open spec fn dec_digit(d: int) -> char {
    if d == 0 {
        '0'
    } else if d == 1 {
        '1'
    } else if d == 2 {
        '2'
    } else if d == 3 {
        '3'
    } else if d == 4 {
        '4'
    } else if d == 5 {
        '5'
    } else if d == 6 {
        '6'
    } else if d == 7 {
        '7'
    } else if d == 8 {
        '8'
    } else {
        '9'
    }
}

/// The decimal digits of `n`, most significant first.
pub open spec fn dec_str(n: int) -> Seq<char>
    decreases n,
{
    if n < 10 {
        seq![dec_digit(n)]
    } else {
        dec_str(n / 10).push(dec_digit(n % 10))
    }
}

fn digit_str(d: usize) -> (s: &'static str)
    requires
        d < 10,
    ensures
        s@ == seq![dec_digit(d as int)],
{
    if d == 0 {
        proof {
            reveal_strlit("0");
            assert("0"@ =~= seq!['0']);
        }
        "0"
    } else if d == 1 {
        proof {
            reveal_strlit("1");
            assert("1"@ =~= seq!['1']);
        }
        "1"
    } else if d == 2 {
        proof {
            reveal_strlit("2");
            assert("2"@ =~= seq!['2']);
        }
        "2"
    } else if d == 3 {
        proof {
            reveal_strlit("3");
            assert("3"@ =~= seq!['3']);
        }
        "3"
    } else if d == 4 {
        proof {
            reveal_strlit("4");
            assert("4"@ =~= seq!['4']);
        }
        "4"
    } else if d == 5 {
        proof {
            reveal_strlit("5");
            assert("5"@ =~= seq!['5']);
        }
        "5"
    } else if d == 6 {
        proof {
            reveal_strlit("6");
            assert("6"@ =~= seq!['6']);
        }
        "6"
    } else if d == 7 {
        proof {
            reveal_strlit("7");
            assert("7"@ =~= seq!['7']);
        }
        "7"
    } else if d == 8 {
        proof {
            reveal_strlit("8");
            assert("8"@ =~= seq!['8']);
        }
        "8"
    } else {
        proof {
            reveal_strlit("9");
            assert("9"@ =~= seq!['9']);
        }
        "9"
    }
}

/// Renders a count in decimal.
pub fn usize_to_dec(n: usize) -> (s: String)
    ensures
        s@ == dec_str(n as int),
    decreases n,
{
    if n < 10 {
        digit_str(n).to_owned()
    } else {
        let q = n / 10;
        let r = n % 10;
        let s = usize_to_dec(q).concat(digit_str(r));
        proof {
            assert(s@ =~= dec_str(q as int).push(dec_digit(r as int)));
        }
        s
    }
}

/// A branch name with one leading ref-qualifying `refs/heads/` prefix
/// removed.
pub open spec fn spec_strip_ref_prefix(s: Seq<char>) -> Seq<char> {
    if s.len() >= 11 && s.take(11) == "refs/heads/"@ {
        s.skip(11)
    } else {
        s
    }
}

/// Strips the `refs/heads/` prefix from a fully qualified branch ref, so the
/// plain branch name goes into the rewrite command.
pub fn strip_ref_prefix(s: &str) -> (r: String)
    ensures
        r@ == spec_strip_ref_prefix(s@),
{
    let pre = "refs/heads/";
    let n = s.unicode_len();
    proof {
        reveal_strlit("refs/heads/");
    }
    if n < 11 {
        return s.to_owned();
    }
    let mut i: usize = 0;
    while i < 11
        invariant
            n == s@.len(),
            n >= 11,
            0 <= i <= 11,
            pre@ == "refs/heads/"@,
            forall|j: int| 0 <= j < i ==> s@[j] == "refs/heads/"@[j],
        decreases 11 - i,
    {
        proof {
            reveal_strlit("refs/heads/");
        }
        if s.get_char(i) != pre.get_char(i) {
            proof {
                if s@.take(11) == "refs/heads/"@ {
                    assert(s@.take(11)[i as int] == s@[i as int]);
                }
            }
            return s.to_owned();
        }
        i = i + 1;
    }
    proof {
        reveal_strlit("refs/heads/");
        assert(s@.take(11) =~= "refs/heads/"@);
    }
    s.substring_char(11, n).to_owned()
}

/// The first line of a text: everything before the first newline, or the
/// whole text if it has none.
pub open spec fn spec_first_line(s: Seq<char>) -> Seq<char>
    decreases s.len(),
{
    if s.len() == 0 {
        s
    } else if s[0] == '\n' {
        Seq::empty()
    } else {
        seq![s[0]] + spec_first_line(s.drop_first())
    }
}

proof fn lemma_first_line_take(s: Seq<char>, i: int)
    requires
        0 <= i <= s.len(),
        forall|j: int| 0 <= j < i ==> s[j] != '\n',
        i < s.len() ==> s[i] == '\n',
    ensures
        spec_first_line(s) == s.take(i),
    decreases i,
{
    if s.len() == 0 {
        assert(s.take(i) =~= s);
    } else if i == 0 {
        assert(s.take(0) =~= Seq::<char>::empty());
    } else {
        assert(s[0] != '\n');
        assert forall|j: int| 0 <= j < i - 1 implies s.drop_first()[j] != '\n' by {
            assert(s.drop_first()[j] == s[j + 1]);
        }
        assert(i - 1 < s.drop_first().len() ==> s.drop_first()[i - 1] == '\n');
        lemma_first_line_take(s.drop_first(), i - 1);
        assert(s.take(i) =~= seq![s[0]] + s.drop_first().take(i - 1));
    }
}

/// Extracts the first line of a text.
pub fn first_line(s: &str) -> (r: String)
    ensures
        r@ == spec_first_line(s@),
{
    let n = s.unicode_len();
    let mut i: usize = 0;
    while i < n
        invariant
            n == s@.len(),
            0 <= i <= n,
            forall|j: int| 0 <= j < i ==> s@[j] != '\n',
        decreases n - i,
    {
        if s.get_char(i) == '\n' {
            proof {
                lemma_first_line_take(s@, i as int);
            }
            return s.substring_char(0, i).to_owned();
        }
        i = i + 1;
    }
    proof {
        lemma_first_line_take(s@, n as int);
        assert(s@.take(n as int) =~= s@);
    }
    s.to_owned()
}

/// Concatenation of a list of strings, in order.
pub open spec fn spec_concat_all(ss: Seq<Seq<char>>) -> Seq<char>
    decreases ss.len(),
{
    if ss.len() == 0 {
        Seq::empty()
    } else {
        ss[0] + spec_concat_all(ss.drop_first())
    }
}

fn concat_from(picks: &Vec<String>, from: usize) -> (r: String)
    requires
        from <= picks.len(),
    ensures
        r@ == spec_concat_all(picks.deep_view().skip(from as int)),
    decreases picks.len() - from,
{
    if from == picks.len() {
        proof {
            assert(picks.deep_view().skip(from as int) =~= Seq::<Seq<char>>::empty());
        }
        String::new()
    } else {
        let rest = concat_from(picks, from + 1);
        let r = picks[from].clone().concat(rest.as_str());
        proof {
            let sk = picks.deep_view().skip(from as int);
            assert(sk[0] == picks.deep_view()[from as int]);
            assert(sk.drop_first() =~= picks.deep_view().skip(from as int + 1));
        }
        r
    }
}

/// Joins the pick lines into the single rewrite-script string.
pub fn join_all(picks: &Vec<String>) -> (r: String)
    ensures
        r@ == spec_concat_all(picks.deep_view()),
{
    let r = concat_from(picks, 0);
    proof {
        assert(picks.deep_view().skip(0) =~= picks.deep_view());
    }
    r
}

/// The value handed to the rewrite's sequence editor: a command that writes
/// the fixed script, so no interactive editor ever opens.
pub open spec fn spec_editor_cmd(script: Seq<char>) -> Seq<char> {
    "echo \""@ + script + "\" >"@
}

/// Builds the sequence-editor command for a script.
pub fn build_editor_cmd(script: &String) -> (r: String)
    ensures
        r@ == spec_editor_cmd(script@),
{
    let r = String::from_str("echo \"").concat(script.as_str()).concat("\" >");
    proof {
        assert(r@ =~= spec_editor_cmd(script@));
    }
    r
}

/// The command for the fast-forward shape: re-parent only the newest commit
/// (or, for a single-commit branch, the branch itself) onto upstream's tip.
pub open spec fn spec_ff_args(cur: Seq<char>, up: Seq<char>, total: int) -> Seq<Seq<char>> {
    seq![
        "git"@,
        "rebase"@,
        "--onto"@,
        up,
        if total > 1 {
            cur + "~1"@
        } else {
            cur
        },
        cur,
    ]
}

/// The command for the full-rebase shape: a plain re-parent of the whole
/// branch.
pub open spec fn spec_full_args(up: Seq<char>) -> Seq<Seq<char>> {
    seq!["git"@, "rebase"@, up]
}

/// The command for the interactive shape, re-parenting the boundary onto
/// upstream's tip and replaying the `n` taken commits.
pub open spec fn spec_interactive_args(cur: Seq<char>, up: Seq<char>, n: int) -> Seq<Seq<char>> {
    seq!["git"@, "rebase"@, "-i"@, "--onto"@, up, cur + "~"@ + dec_str(n), cur]
}

fn build_ff_args(cur: &String, up: &String, total: usize) -> (args: Vec<String>)
    ensures
        args.deep_view() == spec_ff_args(cur@, up@, total as int),
{
    let mut args: Vec<String> = Vec::new();
    args.push(String::from_str("git"));
    args.push(String::from_str("rebase"));
    args.push(String::from_str("--onto"));
    args.push(up.clone());
    if total > 1 {
        args.push(cur.clone().concat("~1"));
    } else {
        args.push(cur.clone());
    }
    args.push(cur.clone());
    proof {
        assert(args.deep_view() =~= spec_ff_args(cur@, up@, total as int));
    }
    args
}

fn build_full_args(up: &String) -> (args: Vec<String>)
    ensures
        args.deep_view() == spec_full_args(up@),
{
    let mut args: Vec<String> = Vec::new();
    args.push(String::from_str("git"));
    args.push(String::from_str("rebase"));
    args.push(up.clone());
    proof {
        assert(args.deep_view() =~= spec_full_args(up@));
    }
    args
}

fn build_interactive_args(cur: &String, up: &String, n: usize) -> (args: Vec<String>)
    ensures
        args.deep_view() == spec_interactive_args(cur@, up@, n as int),
{
    let mut args: Vec<String> = Vec::new();
    args.push(String::from_str("git"));
    args.push(String::from_str("rebase"));
    args.push(String::from_str("-i"));
    args.push(String::from_str("--onto"));
    args.push(up.clone());
    args.push(cur.clone().concat("~").concat(usize_to_dec(n).as_str()));
    args.push(cur.clone());
    proof {
        assert(args.deep_view() =~= spec_interactive_args(cur@, up@, n as int));
    }
    args
}

/// A planned rewrite invocation: the command's arguments and, for the
/// interactive shape, the fixed script with its editor command.
pub struct RewritePlan {
    pub args: Vec<String>,
    pub script: Option<String>,
    pub editor_cmd: Option<String>,
}

/// Whether `p` is the plan that belongs to these inputs: branch names with
/// ref prefixes stripped, `n` commits taken of `total`, and the pick lines
/// replayed oldest first.
pub open spec fn plan_matches(
    p: RewritePlan,
    cur: Seq<char>,
    up: Seq<char>,
    commits: Seq<CommitRecordView>,
    n: int,
    total: int,
) -> bool {
    let script = spec_concat_all(spec_pick_lines(commits, n).reverse());
    if n == 0 {
        &&& p.args.deep_view() == spec_ff_args(cur, up, total)
        &&& p.script is None
        &&& p.editor_cmd is None
    } else if n == total {
        &&& p.args.deep_view() == spec_full_args(up)
        &&& p.script is None
        &&& p.editor_cmd is None
    } else {
        &&& p.args.deep_view() == spec_interactive_args(cur, up, n)
        &&& p.script matches Some(s) && s@ == script
        &&& p.editor_cmd matches Some(e) && e@ == spec_editor_cmd(script)
    }
}

/// The session state threaded through one topbase run: the resolved refs,
/// the gathered commits and content sets, the flags, the accumulated exit
/// status, and — once computed — the outcome and the plan.
pub struct TopbaseSession {
    pub current_branch: Option<String>,
    pub upstream_branch: Option<String>,
    pub current_commits: Vec<CommitRecord>,
    pub commit_sets: Vec<ContentSet>,
    pub upstream_blobs: ContentSet,
    pub dry_run: bool,
    pub verbose: bool,
    pub status: i32,
    pub outcome: Option<TopbaseOutcome>,
    pub plan: Option<RewritePlan>,
}

/// Whether the fields that `topbase` only reads came through unchanged.
pub open spec fn session_inputs_unchanged(pre: TopbaseSession, post: TopbaseSession) -> bool {
    &&& post.current_branch == pre.current_branch
    &&& post.upstream_branch == pre.upstream_branch
    &&& post.current_commits == pre.current_commits
    &&& post.commit_sets == pre.commit_sets
    &&& post.upstream_blobs == pre.upstream_blobs
    &&& post.dry_run == pre.dry_run
    &&& post.verbose == pre.verbose
    &&& post.status == pre.status
}

/// Turning a gathered session into a decided one.
pub trait Topbase: Sized {
    /// What the pipeline must have established before deciding.
    spec fn topbase_ready(self) -> bool;

    /// How the decided session relates to the gathered one.
    spec fn topbase_post(pre: Self, post: Self) -> bool;

    /// Computes the rebase boundary and the rewrite plan.
    fn topbase(self) -> (r: Self)
        requires
            self.topbase_ready(),
        ensures
            Self::topbase_post(self, r),
    ;
}

impl Topbase for TopbaseSession {
    /// One content set was gathered per commit.
    open spec fn topbase_ready(self) -> bool {
        self.commit_sets.len() == self.current_commits.len()
    }

    /// The inputs and the status are untouched. With both refs resolved, the
    /// outcome is the decision algorithm's count and the plan is the matching
    /// rewrite shape; with either ref missing, no outcome and no plan are
    /// produced.
    open spec fn topbase_post(pre: TopbaseSession, post: TopbaseSession) -> bool {
        &&& session_inputs_unchanged(pre, post)
        &&& match (pre.current_branch, pre.upstream_branch) {
            (Some(cur), Some(up)) => {
                let n = spec_commits_to_take(pre.commit_sets.deep_view(), pre.upstream_blobs@);
                &&& post.outcome matches Some(o) && o.commits_to_take as int == n
                    && o.total_commits == pre.current_commits.len()
                &&& post.plan matches Some(p) && plan_matches(
                    p,
                    spec_strip_ref_prefix(cur@),
                    spec_strip_ref_prefix(up@),
                    pre.current_commits.deep_view(),
                    n,
                    pre.current_commits.len() as int,
                )
            },
            _ => post.outcome is None && post.plan is None,
        }
    }

    fn topbase(self) -> (r: TopbaseSession) {
        if self.current_branch.is_none() || self.upstream_branch.is_none() {
            let mut s = self;
            s.outcome = None;
            s.plan = None;
            return s;
        }
        let cur = match &self.current_branch {
            Some(c) => strip_ref_prefix(c.as_str()),
            None => String::new(),
        };
        let up = match &self.upstream_branch {
            Some(u) => strip_ref_prefix(u.as_str()),
            None => String::new(),
        };
        let n = topbase_check_alg(&self.commit_sets, &self.upstream_blobs);
        let total = self.current_commits.len();
        let picks_newest = build_rebase_data(&self.current_commits, n);
        let picks = reverse_picks(&picks_newest);
        let plan = if n == 0 {
            RewritePlan { args: build_ff_args(&cur, &up, total), script: None, editor_cmd: None }
        } else if n == total {
            RewritePlan { args: build_full_args(&up), script: None, editor_cmd: None }
        } else {
            let script = join_all(&picks);
            let editor = build_editor_cmd(&script);
            RewritePlan {
                args: build_interactive_args(&cur, &up, n),
                script: Some(script),
                editor_cmd: Some(editor),
            }
        };
        let outcome = TopbaseOutcome { commits_to_take: n, total_commits: total };
        let mut s = self;
        s.outcome = Some(outcome);
        s.plan = Some(plan);
        s
    }
}

/// What came back from issuing the rewrite: the child's exit status and
/// captured error output, or the launch failure's description.
pub enum RewriteResult {
    Launched { status: i32, stderr: String },
    NotLaunched { error: String },
}

/// A rewrite succeeded exactly when it launched and exited with status zero.
pub open spec fn spec_rewrite_ok(r: RewriteResult) -> bool {
    r matches RewriteResult::Launched { status, .. } && status == 0
}

/// The error text a failed rewrite carries.
pub open spec fn spec_error_text(r: RewriteResult) -> Seq<char> {
    match r {
        RewriteResult::Launched { status: _, stderr } => stderr@,
        RewriteResult::NotLaunched { error } => error@,
    }
}

/// The diagnostic for a failed rewrite: the first line of the error always,
/// the full error under verbose.
pub open spec fn spec_failure_message(r: RewriteResult, verbose: bool) -> Seq<char> {
    "Failed to rebase\n"@ + if verbose {
        spec_error_text(r)
    } else {
        spec_first_line(spec_error_text(r))
    }
}

/// Folds a rewrite's result into the session status: success leaves it
/// untouched, any failure records status 1. Nothing else of the session
/// changes, and a failure is recorded once, never retried.
pub fn record_rewrite_result(session: TopbaseSession, result: &RewriteResult) -> (r: TopbaseSession)
    ensures
        r.status == if spec_rewrite_ok(*result) {
            session.status as int
        } else {
            1
        },
        r.current_branch == session.current_branch,
        r.upstream_branch == session.upstream_branch,
        r.current_commits == session.current_commits,
        r.commit_sets == session.commit_sets,
        r.upstream_blobs == session.upstream_blobs,
        r.dry_run == session.dry_run,
        r.verbose == session.verbose,
        r.outcome == session.outcome,
        r.plan == session.plan,
{
    let ok = match result {
        RewriteResult::Launched { status, stderr: _ } => *status == 0,
        RewriteResult::NotLaunched { error: _ } => false,
    };
    if ok {
        session
    } else {
        let mut s = session;
        s.status = 1;
        s
    }
}

/// The diagnostic to print for a rewrite result: nothing on success, else
/// the failure message with first-line or full detail per the verbose flag.
pub fn failure_message(result: &RewriteResult, verbose: bool) -> (m: Option<String>)
    ensures
        match m {
            None => spec_rewrite_ok(*result),
            Some(s) => !spec_rewrite_ok(*result) && s@ == spec_failure_message(*result, verbose),
        },
{
    match result {
        RewriteResult::Launched { status, stderr } => {
            if *status == 0 {
                None
            } else {
                let detail = if verbose {
                    stderr.clone()
                } else {
                    first_line(stderr.as_str())
                };
                Some(String::from_str("Failed to rebase\n").concat(detail.as_str()))
            }
        },
        RewriteResult::NotLaunched { error } => {
            let detail = if verbose {
                error.clone()
            } else {
                first_line(error.as_str())
            };
            Some(String::from_str("Failed to rebase\n").concat(detail.as_str()))
        },
    }
}

} // verus!
