use mgt::content::ContentSet;
use mgt::executor::{
    decide_directive, failure_message, first_line, record_rewrite_result, strip_ref_prefix,
    usize_to_dec, RewriteDirective, RewriteResult, Topbase, TopbaseSession,
};
use mgt::rebase::{
    build_rebase_data, reverse_picks, topbase_check_alg, CommitRecord, TopbaseOutcome,
};

fn set_of(hashes: &[&str]) -> ContentSet {
    let mut s = ContentSet::new();
    for h in hashes {
        s.insert(String::from(*h));
    }
    s
}

fn commit(id: &str, summary: &str) -> CommitRecord {
    CommitRecord { id: String::from(id), summary: String::from(summary) }
}

fn session(
    current: &str,
    upstream: &str,
    commits: Vec<CommitRecord>,
    sets: Vec<ContentSet>,
    upstream_blobs: ContentSet,
    dry_run: bool,
) -> TopbaseSession {
    TopbaseSession {
        current_branch: Some(String::from(current)),
        upstream_branch: Some(String::from(upstream)),
        current_commits: commits,
        commit_sets: sets,
        upstream_blobs,
        dry_run,
        verbose: false,
        status: 0,
        outcome: None,
        plan: None,
    }
}

#[test]
fn longest_clean_prefix_is_counted() {
    // newest first: c4 new, c3 new, c2 redundant, c1 new (never reached)
    let sets = vec![
        set_of(&["n1"]),
        set_of(&["n2", "y"]),
        set_of(&["y"]),
        set_of(&["n3"]),
    ];
    let upstream = set_of(&["y", "z"]);
    assert_eq!(topbase_check_alg(&sets, &upstream), 2);
}

#[test]
fn empty_commit_is_redundant() {
    // an empty content set is contained in anything and stops the scan
    let sets = vec![set_of(&["n1"]), ContentSet::new(), set_of(&["n2"])];
    let upstream = set_of(&["y"]);
    assert_eq!(topbase_check_alg(&sets, &upstream), 1);
}

#[test]
fn no_commits_at_all() {
    let sets: Vec<ContentSet> = vec![];
    let upstream = set_of(&["y"]);
    assert_eq!(topbase_check_alg(&sets, &upstream), 0);
}

#[test]
fn tip_redundant_gives_zero_and_fast_forward_shape() {
    let sets = vec![set_of(&["y"]), set_of(&["n1"])];
    let upstream = set_of(&["y", "z"]);
    let n = topbase_check_alg(&sets, &upstream);
    assert_eq!(n, 0);
    let outcome = TopbaseOutcome { commits_to_take: n, total_commits: sets.len() };
    assert_eq!(decide_directive(&outcome), RewriteDirective::FastForwardLast);
}

#[test]
fn nothing_redundant_gives_all_and_full_rebase_shape() {
    let sets = vec![set_of(&["a"]), set_of(&["b"]), set_of(&["c"])];
    let upstream = set_of(&["y", "z"]);
    let n = topbase_check_alg(&sets, &upstream);
    assert_eq!(n, 3);
    let outcome = TopbaseOutcome { commits_to_take: n, total_commits: sets.len() };
    assert_eq!(decide_directive(&outcome), RewriteDirective::FullRebase);
}

#[test]
fn pick_order_round_trip() {
    let commits = vec![commit("c3", "newest"), commit("c2", "middle"), commit("c1", "oldest")];
    let picks = build_rebase_data(&commits, 3);
    let expect: Vec<String> = vec![
        String::from("pick c3 newest\n"),
        String::from("pick c2 middle\n"),
        String::from("pick c1 oldest\n"),
    ];
    assert_eq!(picks, expect);
    let oldest_first = reverse_picks(&picks);
    assert_eq!(oldest_first[0], "pick c1 oldest\n");
    let back = reverse_picks(&oldest_first);
    assert_eq!(back, picks);
}

#[test]
fn algorithm_is_idempotent_on_unchanged_inputs() {
    let sets = vec![set_of(&["n1"]), set_of(&["y"])];
    let upstream = set_of(&["y"]);
    let first = TopbaseOutcome {
        commits_to_take: topbase_check_alg(&sets, &upstream),
        total_commits: sets.len(),
    };
    let second = TopbaseOutcome {
        commits_to_take: topbase_check_alg(&sets, &upstream),
        total_commits: sets.len(),
    };
    assert_eq!(first, second);
}

#[test]
fn scenario_one_kept_commit_interactive() {
    // current: c3 touches new hash x, c2 touches y, c1 touches z; upstream {y, z}
    let commits = vec![commit("c3", "c3 summary"), commit("c2", "c2 summary"), commit("c1", "c1 summary")];
    let sets = vec![set_of(&["x"]), set_of(&["y"]), set_of(&["z"])];
    let upstream = set_of(&["y", "z"]);
    let s = session("refs/heads/top", "refs/heads/bottom", commits, sets, upstream, false);
    let s = s.topbase();
    let outcome = s.outcome.expect("outcome expected");
    assert_eq!(outcome, TopbaseOutcome { commits_to_take: 1, total_commits: 3 });
    assert_eq!(decide_directive(&outcome), RewriteDirective::InteractiveBoundary(1));
    let plan = s.plan.expect("plan expected");
    let args: Vec<&str> = plan.args.iter().map(|a| a.as_str()).collect();
    assert_eq!(args, vec!["git", "rebase", "-i", "--onto", "bottom", "top~1", "top"]);
    assert_eq!(plan.script.as_deref(), Some("pick c3 c3 summary\n"));
    assert_eq!(plan.editor_cmd.as_deref(), Some("echo \"pick c3 c3 summary\n\" >"));
    assert_eq!(s.status, 0);
}

#[test]
fn scenario_single_commit_fully_contained() {
    // one commit whose content is entirely upstream: fast-forward shape, no ~1
    let commits = vec![commit("c1", "only commit")];
    let sets = vec![set_of(&["y"])];
    let upstream = set_of(&["y", "z"]);
    let s = session("refs/heads/top", "refs/heads/bottom", commits, sets, upstream, false);
    let s = s.topbase();
    let outcome = s.outcome.expect("outcome expected");
    assert_eq!(outcome, TopbaseOutcome { commits_to_take: 0, total_commits: 1 });
    assert_eq!(decide_directive(&outcome), RewriteDirective::FastForwardLast);
    let plan = s.plan.expect("plan expected");
    let args: Vec<&str> = plan.args.iter().map(|a| a.as_str()).collect();
    assert_eq!(args, vec!["git", "rebase", "--onto", "bottom", "top", "top"]);
    assert!(plan.script.is_none());
    assert!(plan.editor_cmd.is_none());
}

#[test]
fn fast_forward_shape_with_larger_branch_uses_tilde_one() {
    let commits = vec![commit("c2", "new tip"), commit("c1", "older")];
    let sets = vec![set_of(&["y"]), set_of(&["q"])];
    let upstream = set_of(&["y"]);
    let s = session("refs/heads/top", "refs/heads/bottom", commits, sets, upstream, false);
    let s = s.topbase();
    let plan = s.plan.expect("plan expected");
    let args: Vec<&str> = plan.args.iter().map(|a| a.as_str()).collect();
    assert_eq!(args, vec!["git", "rebase", "--onto", "bottom", "top~1", "top"]);
}

#[test]
fn full_rebase_shape_args() {
    let commits = vec![commit("c2", "two"), commit("c1", "one")];
    let sets = vec![set_of(&["a"]), set_of(&["b"])];
    let upstream = set_of(&["y"]);
    let s = session("refs/heads/top", "refs/heads/bottom", commits, sets, upstream, false);
    let s = s.topbase();
    let outcome = s.outcome.expect("outcome expected");
    assert_eq!(outcome.commits_to_take, 2);
    let plan = s.plan.expect("plan expected");
    let args: Vec<&str> = plan.args.iter().map(|a| a.as_str()).collect();
    assert_eq!(args, vec!["git", "rebase", "bottom"]);
}

#[test]
fn dry_run_plan_leaves_status_unchanged() {
    // the planner never touches the session status; with dry-run set the
    // caller prints the plan and never runs it
    let commits = vec![commit("c1", "only")];
    let sets = vec![set_of(&["a"])];
    let upstream = set_of(&["y"]);
    let s = session("refs/heads/top", "refs/heads/bottom", commits, sets, upstream, true);
    let s = s.topbase();
    assert_eq!(s.status, 0);
    assert!(s.dry_run);
    assert!(s.plan.is_some());
}

#[test]
fn missing_ref_produces_no_plan() {
    let upstream = set_of(&["y"]);
    let mut s = session("refs/heads/top", "refs/heads/bottom", vec![], vec![], upstream, false);
    s.current_branch = None;
    let s = s.topbase();
    assert!(s.outcome.is_none());
    assert!(s.plan.is_none());
    assert_eq!(s.status, 0);
}

#[test]
fn strip_ref_prefix_cases() {
    assert_eq!(strip_ref_prefix("refs/heads/feature"), "feature");
    assert_eq!(strip_ref_prefix("feature"), "feature");
    assert_eq!(strip_ref_prefix("refs/tags/v1"), "refs/tags/v1");
    assert_eq!(strip_ref_prefix("refs/heads/"), "");
}

#[test]
fn decimal_rendering() {
    assert_eq!(usize_to_dec(0), "0");
    assert_eq!(usize_to_dec(7), "7");
    assert_eq!(usize_to_dec(10), "10");
    assert_eq!(usize_to_dec(907), "907");
}

#[test]
fn first_line_cases() {
    assert_eq!(first_line("one\ntwo\nthree"), "one");
    assert_eq!(first_line("no newline"), "no newline");
    assert_eq!(first_line(""), "");
    assert_eq!(first_line("\nrest"), "");
}

#[test]
fn rewrite_success_keeps_status() {
    let commits = vec![commit("c1", "only")];
    let sets = vec![set_of(&["a"])];
    let s = session("top", "bottom", commits, sets, set_of(&["y"]), false);
    let r = RewriteResult::Launched { status: 0, stderr: String::new() };
    let s = record_rewrite_result(s, &r);
    assert_eq!(s.status, 0);
    assert!(failure_message(&r, false).is_none());
}

#[test]
fn rewrite_failure_sets_status_and_message() {
    let commits = vec![commit("c1", "only")];
    let sets = vec![set_of(&["a"])];
    let s = session("top", "bottom", commits, sets, set_of(&["y"]), false);
    let r = RewriteResult::Launched {
        status: 128,
        stderr: String::from("fatal: bad object\nmore detail"),
    };
    let s = record_rewrite_result(s, &r);
    assert_eq!(s.status, 1);
    let msg = failure_message(&r, false).expect("failure expected");
    assert_eq!(msg, "Failed to rebase\nfatal: bad object");
    let verbose_msg = failure_message(&r, true).expect("failure expected");
    assert_eq!(verbose_msg, "Failed to rebase\nfatal: bad object\nmore detail");
}

#[test]
fn launch_failure_sets_status() {
    let commits = vec![commit("c1", "only")];
    let sets = vec![set_of(&["a"])];
    let s = session("top", "bottom", commits, sets, set_of(&["y"]), false);
    let r = RewriteResult::NotLaunched { error: String::from("no such binary") };
    let s = record_rewrite_result(s, &r);
    assert_eq!(s.status, 1);
    let msg = failure_message(&r, false).expect("failure expected");
    assert_eq!(msg, "Failed to rebase\nno such binary");
}
