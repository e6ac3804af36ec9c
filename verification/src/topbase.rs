//! Change classification and content-set building.
//!
//! A tree-diff report line of the form
//! `:<mode_prev> <mode_next> <blob_prev> <blob_next> <kind> <path...>`
//! describes one file-level change between two commit tree states. Each line
//! contributes at most one content hash to a commit's content set: for a
//! deletion the hash the file used to have, otherwise the new hash.

use vstd::prelude::*;
use vstd::string::*;

use crate::content::all_zeroes;
use crate::content::string_all_zeroes;
use crate::content::ContentSet;

verus! {

/// Which side of a change record carries the meaningful content hash.
#[derive(Clone, Copy, Debug, PartialEq, Eq, Structural)]
pub enum BlobCheckValue {
    TakeNext,
    TakePrev,
}

/// One parsed tree-diff change record.
pub struct BlobCheck {
    pub mode_prev: String,
    pub mode_next: String,
    pub blob_prev: String,
    pub blob_next: String,
    pub path: String,
}

/// The mathematical image of a [`BlobCheck`]: each field as a character
/// sequence.
pub struct BlobCheckView {
    pub mode_prev: Seq<char>,
    pub mode_next: Seq<char>,
    pub blob_prev: Seq<char>,
    pub blob_next: Seq<char>,
    pub path: Seq<char>,
}

impl View for BlobCheck {
    type V = BlobCheckView;

    open spec fn view(&self) -> BlobCheckView {
        BlobCheckView {
            mode_prev: self.mode_prev@,
            mode_next: self.mode_next@,
            blob_prev: self.blob_prev@,
            blob_next: self.blob_next@,
            path: self.path@,
        }
    }
}

impl DeepView for BlobCheck {
    type V = BlobCheckView;

    open spec fn deep_view(&self) -> BlobCheckView {
        self.view()
    }
}

/// A record is a deletion when the next-side hash is the all-zero sentinel
/// while the previous side still names content.
pub open spec fn spec_is_delete_blob(b: BlobCheckView) -> bool {
    all_zeroes(b.blob_next) && !all_zeroes(b.blob_prev)
}

impl BlobCheck {
    /// Decides whether this record describes a deletion.
    pub fn is_delete_blob(&self) -> (r: bool)
        ensures
            r == spec_is_delete_blob(self@),
    {
        let blob_prev_not_all_zeroes = !string_all_zeroes(self.blob_prev.as_str());
        let blob_next_all_zeroes = string_all_zeroes(self.blob_next.as_str());
        blob_next_all_zeroes && blob_prev_not_all_zeroes
    }
}

/// The default classification: keep the previous hash for a deletion (content
/// that used to exist must still count as known content), otherwise keep the
/// next hash.
pub open spec fn spec_default_choice(b: BlobCheckView) -> BlobCheckValue {
    if spec_is_delete_blob(b) {
        BlobCheckValue::TakePrev
    } else {
        BlobCheckValue::TakeNext
    }
}

/// The default classification policy, as an executable callback.
pub fn blob_check_callback_default(blob_check: &BlobCheck) -> (r: Option<BlobCheckValue>)
    ensures
        r == Some(spec_default_choice(blob_check@)),
{
    match blob_check.is_delete_blob() {
        true => Some(BlobCheckValue::TakePrev),
        false => Some(BlobCheckValue::TakeNext),
    }
}

/// The whitespace characters that separate fields of a tree-diff line.
pub open spec fn is_ws(c: char) -> bool {
    c == ' ' || c == '\t' || c == '\r' || c == '\n'
}

/// One step of whitespace splitting: `cur` is the token being read, `acc` the
/// tokens already read.
pub open spec fn spec_tokens_rec(s: Seq<char>, cur: Seq<char>, acc: Seq<Seq<char>>) -> Seq<
    Seq<char>,
>
    decreases s.len(),
{
    if s.len() == 0 {
        if cur.len() == 0 {
            acc
        } else {
            acc.push(cur)
        }
    } else if is_ws(s[0]) {
        if cur.len() == 0 {
            spec_tokens_rec(s.drop_first(), cur, acc)
        } else {
            spec_tokens_rec(s.drop_first(), Seq::empty(), acc.push(cur))
        }
    } else {
        spec_tokens_rec(s.drop_first(), cur.push(s[0]), acc)
    }
}

/// The whitespace-separated tokens of `s`, in order, with empty tokens
/// dropped.
pub open spec fn spec_tokens(s: Seq<char>) -> Seq<Seq<char>> {
    spec_tokens_rec(s, Seq::empty(), Seq::empty())
}

/// Splits a line into its whitespace-separated tokens.
pub fn tokenize(s: &str) -> (ts: Vec<String>)
    ensures
        ts.deep_view() == spec_tokens(s@),
{
    let n = s.unicode_len();
    let mut start: usize = 0;
    let mut i: usize = 0;
    let mut acc: Vec<String> = Vec::new();
    proof {
        assert(s@.skip(0) =~= s@);
        assert(s@.subrange(0, 0) =~= Seq::<char>::empty());
        assert(acc.deep_view() =~= Seq::<Seq<char>>::empty());
    }
    while i < n
        invariant
            n == s@.len(),
            0 <= start <= i <= n,
            spec_tokens(s@) == spec_tokens_rec(
                s@.skip(i as int),
                s@.subrange(start as int, i as int),
                acc.deep_view(),
            ),
        decreases n - i,
    {
        let ghost rem = s@.skip(i as int);
        let ghost cur = s@.subrange(start as int, i as int);
        let c = s.get_char(i);
        proof {
            assert(rem[0] == s@[i as int]);
            assert(rem.drop_first() =~= s@.skip(i as int + 1));
        }
        if c == ' ' || c == '\t' || c == '\r' || c == '\n' {
            if start < i {
                let tok = s.substring_char(start, i).to_owned();
                let ghost old_acc = acc.deep_view();
                acc.push(tok);
                proof {
                    assert(acc.deep_view() =~= old_acc.push(cur));
                    assert(s@.subrange(i as int + 1, i as int + 1) =~= Seq::<char>::empty());
                }
            } else {
                proof {
                    assert(cur =~= Seq::<char>::empty());
                    assert(s@.subrange(i as int + 1, i as int + 1) =~= Seq::<char>::empty());
                }
            }
            start = i + 1;
        } else {
            proof {
                assert(s@.subrange(start as int, i as int + 1) =~= cur.push(s@[i as int]));
            }
        }
        i = i + 1;
    }
    if start < n {
        let tok = s.substring_char(start, n).to_owned();
        let ghost old_acc = acc.deep_view();
        let ghost cur = s@.subrange(start as int, n as int);
        acc.push(tok);
        proof {
            assert(s@.skip(n as int) =~= Seq::<char>::empty());
            assert(acc.deep_view() =~= old_acc.push(cur));
        }
    } else {
        proof {
            assert(s@.skip(n as int) =~= Seq::<char>::empty());
            assert(s@.subrange(start as int, n as int) =~= Seq::<char>::empty());
        }
    }
    acc
}

/// Joins tokens with single spaces: how a path that itself contains
/// whitespace is put back together from its split fields.
pub open spec fn spec_join_spaces(ts: Seq<Seq<char>>) -> Seq<char>
    decreases ts.len(),
{
    if ts.len() == 0 {
        Seq::empty()
    } else if ts.len() == 1 {
        ts[0]
    } else {
        ts[0] + seq![' '] + spec_join_spaces(ts.drop_first())
    }
}

/// Joins the tokens of `ts` from index `from` on with single spaces.
pub fn join_spaces_from(ts: &Vec<String>, from: usize) -> (r: String)
    requires
        from <= ts.len(),
    ensures
        r@ == spec_join_spaces(ts.deep_view().skip(from as int)),
    decreases ts.len() - from,
{
    let n = ts.len();
    if from == n {
        proof {
            assert(ts.deep_view().skip(from as int) =~= Seq::<Seq<char>>::empty());
        }
        String::new()
    } else if from + 1 == n {
        proof {
            assert(ts.deep_view().skip(from as int)[0] == ts.deep_view()[from as int]);
        }
        ts[from].clone()
    } else {
        let rest = join_spaces_from(ts, from + 1);
        let r = ts[from].clone().concat(" ").concat(rest.as_str());
        proof {
            reveal_strlit(" ");
            assert(" "@ =~= seq![' ']);
            let sk = ts.deep_view().skip(from as int);
            assert(sk[0] == ts.deep_view()[from as int]);
            assert(sk.drop_first() =~= ts.deep_view().skip(from as int + 1));
        }
        r
    }
}

/// What one raw tree-diff line means: `None` for a line that carries no
/// change record (it does not begin with `:`, or has too few fields), else
/// the record. The first five fields are the two modes, the two hashes and
/// the change kind; everything after them is the path, rejoined with single
/// spaces in case the file name contains whitespace.
pub open spec fn spec_parse_diff_tree_line(line: Seq<char>) -> Option<BlobCheckView> {
    if line.len() == 0 || line[0] != ':' {
        None
    } else {
        let ts = spec_tokens(line);
        if ts.len() < 5 {
            None
        } else {
            Some(
                BlobCheckView {
                    mode_prev: ts[0],
                    mode_next: ts[1],
                    blob_prev: ts[2],
                    blob_next: ts[3],
                    path: spec_join_spaces(ts.skip(5)),
                },
            )
        }
    }
}

/// Parses one raw tree-diff line into a change record. A line that holds no
/// record (no leading `:`, or fewer than five fields) yields `None`.
pub fn parse_diff_tree_line(line: &str) -> (r: Option<BlobCheck>)
    ensures
        match r {
            None => spec_parse_diff_tree_line(line@) is None,
            Some(b) => spec_parse_diff_tree_line(line@) == Some(b@),
        },
{
    if line.unicode_len() == 0 {
        return None;
    }
    if line.get_char(0) != ':' {
        return None;
    }
    let ts = tokenize(line);
    if ts.len() < 5 {
        return None;
    }
    let path = join_spaces_from(&ts, 5);
    let b = BlobCheck {
        mode_prev: ts[0].clone(),
        mode_next: ts[1].clone(),
        blob_prev: ts[2].clone(),
        blob_next: ts[3].clone(),
        path,
    };
    proof {
        assert(spec_parse_diff_tree_line(line@) == Some(b@));
    }
    Some(b)
}

/// The hash a choice picks out of a record.
pub open spec fn spec_chosen_hash(b: BlobCheckView, v: BlobCheckValue) -> Seq<char> {
    match v {
        BlobCheckValue::TakeNext => b.blob_next,
        BlobCheckValue::TakePrev => b.blob_prev,
    }
}

/// Adding a hash to a content set: the all-zero sentinel is never added.
pub open spec fn spec_insert_hash(s: Set<Seq<char>>, h: Seq<char>) -> Set<Seq<char>> {
    if all_zeroes(h) {
        s
    } else {
        s.insert(h)
    }
}

/// What one line contributes to a content set under the default policy.
pub open spec fn spec_default_line_blobs(s: Set<Seq<char>>, line: Seq<char>) -> Set<Seq<char>> {
    match spec_parse_diff_tree_line(line) {
        None => s,
        Some(b) => spec_insert_hash(s, spec_chosen_hash(b, spec_default_choice(b))),
    }
}

/// The content set that a whole tree-diff report builds under the default
/// policy, starting from `init`.
pub open spec fn spec_default_blobs(lines: Seq<Seq<char>>, init: Set<Seq<char>>) -> Set<Seq<char>>
    decreases lines.len(),
{
    if lines.len() == 0 {
        init
    } else {
        spec_default_blobs(lines.drop_first(), spec_default_line_blobs(init, lines[0]))
    }
}

/// Whether `h` is one of the two hashes of the record that `line` parses to.
pub open spec fn line_offers_hash(line: Seq<char>, h: Seq<char>) -> bool {
    match spec_parse_diff_tree_line(line) {
        None => false,
        Some(b) => h == b.blob_prev || h == b.blob_next,
    }
}

/// Whether some line of `lines` offers the hash `h`.
pub open spec fn some_line_offers(lines: Seq<Seq<char>>, h: Seq<char>) -> bool {
    exists|i: int| 0 <= i < lines.len() && line_offers_hash(lines[i], h)
}

/// Whether a line was handled as a callback policy directed: if it parses to
/// a record, the callback admitted some choice for it, and the hash that
/// choice picks (unless it is the all-zero sentinel) is in the set.
pub open spec fn callback_line_handled<F: Fn(&BlobCheck) -> Option<BlobCheckValue>>(
    f: F,
    line: Seq<char>,
    s: Set<Seq<char>>,
) -> bool {
    spec_parse_diff_tree_line(line) matches Some(bv) ==> exists|
        b: BlobCheck,
        v: Option<BlobCheckValue>,
    |
        b@ == bv && #[trigger] call_ensures(f, (&b,), v) && match v {
            Some(which) => s.contains(spec_chosen_hash(bv, which)) || all_zeroes(
                spec_chosen_hash(bv, which),
            ),
            None => true,
        }
}

proof fn lemma_some_line_offers_prefix(lines: Seq<Seq<char>>, k: int, h: Seq<char>)
    requires
        0 <= k <= lines.len(),
        some_line_offers(lines.take(k), h),
    ensures
        some_line_offers(lines, h),
{
    let i = choose|i: int| 0 <= i < lines.take(k).len() && line_offers_hash(lines.take(k)[i], h);
    assert(lines.take(k)[i] == lines[i]);
    assert(0 <= i < lines.len() && line_offers_hash(lines[i], h));
}

proof fn lemma_default_blobs_bounds(lines: Seq<Seq<char>>, init: Set<Seq<char>>)
    ensures
        forall|h: Seq<char>| init.contains(h) ==> #[trigger] spec_default_blobs(
            lines,
            init,
        ).contains(h),
        forall|h: Seq<char>| #[trigger] spec_default_blobs(lines, init).contains(h)
            ==> init.contains(h) || some_line_offers(lines, h),
    decreases lines.len(),
{
    if lines.len() == 0 {
    } else {
        let step = spec_default_line_blobs(init, lines[0]);
        lemma_default_blobs_bounds(lines.drop_first(), step);
        assert(spec_default_blobs(lines, init) == spec_default_blobs(lines.drop_first(), step));
        assert forall|h: Seq<char>| init.contains(h) implies #[trigger] spec_default_blobs(
            lines,
            init,
        ).contains(h) by {
            assert(step.contains(h));
            assert(spec_default_blobs(lines.drop_first(), step).contains(h));
        }
        assert forall|h: Seq<char>| #[trigger] spec_default_blobs(lines, init).contains(h) implies
            init.contains(h) || some_line_offers(lines, h) by {
            if !init.contains(h) {
                assert(spec_default_blobs(lines.drop_first(), step).contains(h));
                if step.contains(h) {
                    assert(line_offers_hash(lines[0], h));
                } else {
                    assert(some_line_offers(lines.drop_first(), h));
                    let i = choose|i: int|
                        0 <= i < lines.drop_first().len() && line_offers_hash(
                            lines.drop_first()[i],
                            h,
                        );
                    assert(lines.drop_first()[i] == lines[i + 1]);
                    assert(line_offers_hash(lines[i + 1], h));
                }
            }
        }
    }
}

/// Feeds every line of a tree-diff report through the default policy,
/// accumulating chosen hashes into `blob_set`.
fn collect_blobs_default(diff_lines: &Vec<String>, blob_set: &mut ContentSet)
    requires
        old(blob_set).wf(),
    ensures
        final(blob_set).wf(),
        final(blob_set)@ == spec_default_blobs(diff_lines.deep_view(), old(blob_set)@),
{
    let ghost dv = diff_lines.deep_view();
    let mut i: usize = 0;
    proof {
        assert(dv.skip(0) =~= dv);
    }
    while i < diff_lines.len()
        invariant
            dv == diff_lines.deep_view(),
            0 <= i <= diff_lines.len(),
            blob_set.wf(),
            spec_default_blobs(dv, old(blob_set)@) == spec_default_blobs(
                dv.skip(i as int),
                blob_set@,
            ),
        decreases diff_lines.len() - i,
    {
        let ghost rem = dv.skip(i as int);
        proof {
            assert(rem[0] == dv[i as int]);
            assert(rem.drop_first() =~= dv.skip(i as int + 1));
        }
        match parse_diff_tree_line(diff_lines[i].as_str()) {
            None => {},
            Some(b) => {
                match blob_check_callback_default(&b) {
                    Some(BlobCheckValue::TakeNext) => blob_set.insert(b.blob_next),
                    Some(BlobCheckValue::TakePrev) => blob_set.insert(b.blob_prev),
                    None => {},
                }
            },
        }
        i = i + 1;
    }
    proof {
        assert(dv.skip(diff_lines.len() as int) =~= Seq::<Seq<char>>::empty());
    }
}

/// Feeds every line through a caller-supplied policy.
fn collect_blobs_with<F: Fn(&BlobCheck) -> Option<BlobCheckValue>>(
    diff_lines: &Vec<String>,
    blob_set: &mut ContentSet,
    f: &F,
)
    requires
        old(blob_set).wf(),
        forall|b: &BlobCheck| #[trigger] f.requires((b,)),
    ensures
        final(blob_set).wf(),
        forall|h: Seq<char>| old(blob_set)@.contains(h) ==> final(blob_set)@.contains(h),
        forall|h: Seq<char>| #[trigger] final(blob_set)@.contains(h) ==> old(blob_set)@.contains(h)
            || some_line_offers(diff_lines.deep_view(), h),
        forall|i: int|
            0 <= i < diff_lines.deep_view().len() ==> callback_line_handled(
                f,
                #[trigger] diff_lines.deep_view()[i],
                final(blob_set)@,
            ),
{
    let ghost dv = diff_lines.deep_view();
    let mut i: usize = 0;
    while i < diff_lines.len()
        invariant
            dv == diff_lines.deep_view(),
            0 <= i <= diff_lines.len(),
            blob_set.wf(),
            forall|b: &BlobCheck| #[trigger] f.requires((b,)),
            forall|h: Seq<char>| old(blob_set)@.contains(h) ==> blob_set@.contains(h),
            forall|h: Seq<char>| #[trigger] blob_set@.contains(h) ==> old(blob_set)@.contains(h)
                || some_line_offers(dv.take(i as int), h),
            forall|j: int|
                0 <= j < i ==> callback_line_handled(f, #[trigger] dv[j], blob_set@),
        decreases diff_lines.len() - i,
    {
        let ghost prev = blob_set@;
        match parse_diff_tree_line(diff_lines[i].as_str()) {
            None => {
                proof {
                    assert(dv[i as int] == diff_lines@[i as int]@);
                }
            },
            Some(b) => {
                let ghost bv = b@;
                let ghost gb = b;
                let choice = f(&b);
                match choice {
                    Some(BlobCheckValue::TakeNext) => blob_set.insert(b.blob_next),
                    Some(BlobCheckValue::TakePrev) => blob_set.insert(b.blob_prev),
                    None => {},
                }
                proof {
                    assert(dv[i as int] == diff_lines@[i as int]@);
                    assert forall|h: Seq<char>| #[trigger] blob_set@.contains(h) implies
                        prev.contains(h) || line_offers_hash(dv[i as int], h) by {}
                    assert(call_ensures(f, (&gb,), choice));
                    assert(callback_line_handled(f, dv[i as int], blob_set@));
                }
            },
        }
        proof {
            assert forall|j: int| 0 <= j < i + 1 implies callback_line_handled(
                f,
                #[trigger] dv[j],
                blob_set@,
            ) by {
                if j < i && spec_parse_diff_tree_line(dv[j]) is Some {
                    let (b2, v2): (BlobCheck, Option<BlobCheckValue>) = choose|
                        b2: BlobCheck,
                        v2: Option<BlobCheckValue>,
                    |
                        spec_parse_diff_tree_line(dv[j]) == Some(b2@) && #[trigger] call_ensures(
                            f,
                            (&b2,),
                            v2,
                        ) && match v2 {
                            Some(which) => prev.contains(spec_chosen_hash(b2@, which))
                                || all_zeroes(spec_chosen_hash(b2@, which)),
                            None => true,
                        };
                    assert(call_ensures(f, (&b2,), v2));
                }
            }
        }
        proof {
            assert forall|h: Seq<char>| #[trigger] blob_set@.contains(h) implies old(
                blob_set,
            )@.contains(h) || some_line_offers(dv.take(i as int + 1), h) by {
                if !old(blob_set)@.contains(h) {
                    if prev.contains(h) {
                        assert(dv.take(i as int + 1).take(i as int) =~= dv.take(i as int));
                        lemma_some_line_offers_prefix(dv.take(i as int + 1), i as int, h);
                    } else {
                        assert(line_offers_hash(dv[i as int], h));
                        assert(dv.take(i as int + 1)[i as int] == dv[i as int]);
                    }
                }
            }
        }
        i = i + 1;
    }
    proof {
        assert(dv.take(diff_lines.len() as int) =~= dv);
    }
}

/// Runs a tree-diff report, line by line, through a classification policy
/// and collects the chosen content hashes into `blob_set`. With no callback
/// the default deletion-aware policy decides; a caller-supplied callback may
/// decide otherwise, and whatever it decides, only hashes that stand in some
/// line of the report are ever added.
pub fn get_all_blobs_from_commit_with_callback<F: Fn(&BlobCheck) -> Option<BlobCheckValue>>(
    diff_lines: &Vec<String>,
    blob_set: &mut ContentSet,
    insert_callback: Option<&F>,
)
    requires
        old(blob_set).wf(),
        match insert_callback {
            Some(f) => forall|b: &BlobCheck| #[trigger] f.requires((b,)),
            None => true,
        },
    ensures
        final(blob_set).wf(),
        insert_callback is None ==> final(blob_set)@ == spec_default_blobs(
            diff_lines.deep_view(),
            old(blob_set)@,
        ),
        forall|h: Seq<char>| old(blob_set)@.contains(h) ==> final(blob_set)@.contains(h),
        forall|h: Seq<char>| #[trigger] final(blob_set)@.contains(h) ==> old(blob_set)@.contains(h)
            || some_line_offers(diff_lines.deep_view(), h),
        insert_callback matches Some(f) ==> forall|i: int|
            0 <= i < diff_lines.deep_view().len() ==> callback_line_handled(
                f,
                #[trigger] diff_lines.deep_view()[i],
                final(blob_set)@,
            ),
{
    match insert_callback {
        None => {
            collect_blobs_default(diff_lines, blob_set);
            proof {
                lemma_default_blobs_bounds(diff_lines.deep_view(), old(blob_set)@);
            }
        },
        Some(f) => collect_blobs_with(diff_lines, blob_set, f),
    }
}

/// Collects the content hashes of one tree-diff report under the default
/// policy.
pub fn get_all_blobs_from_commit(diff_lines: &Vec<String>, blob_set: &mut ContentSet)
    requires
        old(blob_set).wf(),
    ensures
        final(blob_set).wf(),
        final(blob_set)@ == spec_default_blobs(diff_lines.deep_view(), old(blob_set)@),
{
    collect_blobs_default(diff_lines, blob_set);
}

/// The union of the content sets of a whole branch: one tree-diff report per
/// commit, folded from the first.
pub open spec fn spec_branch_blobs(commits: Seq<Seq<Seq<char>>>, init: Set<Seq<char>>) -> Set<
    Seq<char>,
>
    decreases commits.len(),
{
    if commits.len() == 0 {
        init
    } else {
        spec_branch_blobs(commits.drop_first(), spec_default_blobs(commits[0], init))
    }
}

/// Builds the aggregate content set of a branch from the tree-diff reports of
/// every commit reachable from its tip.
pub fn get_all_blobs_in_branch(commit_diffs: &Vec<Vec<String>>) -> (r: ContentSet)
    ensures
        r.wf(),
        r@ == spec_branch_blobs(commit_diffs.deep_view(), Set::<Seq<char>>::empty()),
{
    let ghost dv = commit_diffs.deep_view();
    let mut blob_set = ContentSet::new();
    let ghost init = blob_set@;
    let mut i: usize = 0;
    proof {
        assert(dv.skip(0) =~= dv);
    }
    while i < commit_diffs.len()
        invariant
            dv == commit_diffs.deep_view(),
            0 <= i <= commit_diffs.len(),
            blob_set.wf(),
            spec_branch_blobs(dv, init) == spec_branch_blobs(dv.skip(i as int), blob_set@),
        decreases commit_diffs.len() - i,
    {
        let ghost rem = dv.skip(i as int);
        proof {
            assert(rem[0] == dv[i as int]);
            assert(dv[i as int] == commit_diffs@[i as int].deep_view());
            assert(rem.drop_first() =~= dv.skip(i as int + 1));
        }
        get_all_blobs_from_commit(&commit_diffs[i], &mut blob_set);
        i = i + 1;
    }
    proof {
        assert(dv.skip(commit_diffs.len() as int) =~= Seq::<Seq<Seq<char>>>::empty());
    }
    blob_set
}

} // verus!
