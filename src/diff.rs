//! The one-sided difference of two commit lists, keyed on summary text.

use vstd::prelude::*;

use crate::commit::{
    commit_views,
    excluded_words,
    is_excluded,
    mentions_excluded,
    Commit,
    CommitView,
};

verus! {

/// Some commit of `b` has the summary `s`.
pub open spec fn has_summary(b: Seq<CommitView>, s: Seq<char>) -> bool {
    exists|j: int| 0 <= j < b.len() && (#[trigger] b[j]).summary == s
}

/// A commit of the first branch is reported when no commit of the second
/// has its summary and its summary mentions no excluded word.
pub open spec fn is_kept(c: CommitView, b: Seq<CommitView>, words: Seq<Seq<char>>) -> bool {
    !has_summary(b, c.summary) && !is_excluded(c.summary, words)
}

/// The commits of `a` that are reported against `b`, in the order of `a`.
pub open spec fn diff(a: Seq<CommitView>, b: Seq<CommitView>, words: Seq<Seq<char>>) -> Seq<
    CommitView,
> {
    a.filter(|c: CommitView| is_kept(c, b, words))
}

/// The summaries of `commits`.
fn summaries_of(commits: &Vec<Commit>) -> (r: Vec<String>)
    ensures
        r@.len() == commits@.len(),
        forall|j: int| 0 <= j < r@.len() ==> #[trigger] r@[j]@ == commits@[j].summary@,
{
    let mut out: Vec<String> = Vec::new();
    let mut j: usize = 0;
    while j < commits.len()
        invariant
            j <= commits@.len(),
            out@.len() == j,
            forall|k: int| 0 <= k < j ==> #[trigger] out@[k]@ == commits@[k].summary@,
        decreases commits@.len() - j,
    {
        out.push(commits[j].summary.clone());
        j = j + 1;
    }
    out
}

/// Whether `s` is one of `summaries`.
fn is_listed(summaries: &Vec<String>, s: &String) -> (r: bool)
    ensures
        r == exists|j: int| 0 <= j < summaries@.len() && #[trigger] summaries@[j]@ == s@,
{
    let mut j: usize = 0;
    while j < summaries.len()
        invariant
            j <= summaries@.len(),
            forall|k: int| 0 <= k < j ==> #[trigger] summaries@[k]@ != s@,
        decreases summaries@.len() - j,
    {
        if summaries[j] == *s {
            return true;
        }
        j = j + 1;
    }
    false
}

/// The commits of `commits1` whose summary no commit of `commits2` has and
/// which mention no excluded word, in their order in `commits1`.
pub fn compare(commits1: Vec<Commit>, commits2: Vec<Commit>, exclude: Option<Vec<String>>) -> (r:
    Vec<Commit>)
    ensures
        commit_views(r@) == diff(
            commit_views(commits1@),
            commit_views(commits2@),
            excluded_words(exclude),
        ),
{
    let ghost a = commit_views(commits1@);
    let ghost b = commit_views(commits2@);
    let ghost words = excluded_words(exclude);
    let seen = summaries_of(&commits2);
    let mut commits: Vec<Commit> = Vec::new();
    let mut i: usize = 0;
    assert(a.take(0) =~= Seq::<CommitView>::empty());
    proof {
        reveal(Seq::filter);
    }
    while i < commits1.len()
        invariant
            i <= commits1@.len(),
            a == commit_views(commits1@),
            b == commit_views(commits2@),
            words == excluded_words(exclude),
            seen@.len() == commits2@.len(),
            forall|j: int| 0 <= j < seen@.len() ==> #[trigger] seen@[j]@ == commits2@[j].summary@,
            commit_views(commits@) == diff(a.take(i as int), b, words),
        decreases commits1@.len() - i,
    {
        let commit = &commits1[i];
        let listed = is_listed(&seen, &commit.summary);
        let excluded = mentions_excluded(&commit.summary, &exclude);
        proof {
            reveal(Seq::filter);
            assert(a.take(i as int + 1).drop_last() =~= a.take(i as int));
            assert(a.take(i as int + 1).last() == commit@);
            if listed {
                let j = choose|j: int| 0 <= j < seen@.len() && #[trigger] seen@[j]@ == commit.summary@;
                assert(b[j].summary == commit.summary@);
            }
            if has_summary(b, commit.summary@) {
                let j = choose|j: int| 0 <= j < b.len() && (#[trigger] b[j]).summary == commit.summary@;
                assert(seen@[j]@ == commit.summary@);
            }
        }
        if !listed && !excluded {
            let kept = Commit { date: commit.date.clone(), summary: commit.summary.clone() };
            let ghost prior = commits@;
            commits.push(kept);
            assert(commits@.drop_last() =~= prior);
            assert(commit_views(commits@) =~= commit_views(prior).push(kept@));
        }
        i = i + 1;
    }
    assert(a.take(i as int) =~= a);
    commits
}

/// When no summary of `a` is a summary of `b` and nothing is excluded,
/// every commit of `a` is reported, in order.
pub proof fn lemma_disjoint_keeps_all(a: Seq<CommitView>, b: Seq<CommitView>)
    requires
        forall|i: int, j: int|
            0 <= i < a.len() && 0 <= j < b.len() ==> (#[trigger] a[i]).summary != (
            #[trigger] b[j]).summary,
    ensures
        diff(a, b, Seq::empty()) == a,
    decreases a.len(),
{
    reveal(Seq::filter);
    if a.len() > 0 {
        let front = a.drop_last();
        assert forall|i: int, j: int|
            0 <= i < front.len() && 0 <= j < b.len() implies (#[trigger] front[i]).summary != (
            #[trigger] b[j]).summary by {
            assert(front[i] == a[i]);
        }
        lemma_disjoint_keeps_all(front, b);
        assert(!has_summary(b, a.last().summary)) by {
            if has_summary(b, a.last().summary) {
                let j = choose|j: int| 0 <= j < b.len() && (#[trigger] b[j]).summary == a.last().summary;
                assert(a[a.len() - 1].summary != b[j].summary);
            }
        }
        assert(a.drop_last().push(a.last()) =~= a);
    }
}

/// No reported commit has a summary that some commit of `b` has.
pub proof fn lemma_shared_summary_dropped(
    a: Seq<CommitView>,
    b: Seq<CommitView>,
    words: Seq<Seq<char>>,
)
    ensures
        forall|k: int, j: int|
            0 <= k < diff(a, b, words).len() && 0 <= j < b.len() ==> (#[trigger] diff(
                a,
                b,
                words,
            )[k]).summary != (#[trigger] b[j]).summary,
{
    let pred = |c: CommitView| is_kept(c, b, words);
    broadcast use vstd::seq_lib::group_filter_ensures;

    assert forall|k: int, j: int|
        0 <= k < diff(a, b, words).len() && 0 <= j < b.len() implies (#[trigger] diff(
            a,
            b,
            words,
        )[k]).summary != (#[trigger] b[j]).summary by {
        assert(pred(a.filter(pred)[k]));
    }
}

/// The reported commits keep the relative order that they have in `a`:
/// the result gives, for each reported commit, its position in `a`, and
/// these positions increase.
pub proof fn lemma_diff_keeps_order(a: Seq<CommitView>, b: Seq<CommitView>, words: Seq<Seq<char>>) -> (idx: Seq<int>)
    ensures
        idx.len() == diff(a, b, words).len(),
        forall|k: int|
            0 <= k < idx.len() ==> 0 <= #[trigger] idx[k] < a.len() && a[idx[k]] == diff(
                a,
                b,
                words,
            )[k],
        forall|k1: int, k2: int| 0 <= k1 < k2 < idx.len() ==> #[trigger] idx[k1] < #[trigger] idx[k2],
    decreases a.len(),
{
    reveal(Seq::filter);
    if a.len() == 0 {
        Seq::empty()
    } else {
        let front = a.drop_last();
        let prior = lemma_diff_keeps_order(front, b, words);
        if is_kept(a.last(), b, words) {
            let idx = prior.push(a.len() - 1);
            assert forall|k: int| 0 <= k < idx.len() implies 0 <= #[trigger] idx[k] < a.len() && a[idx[k]] == diff(
                a,
                b,
                words,
            )[k] by {
                if k < prior.len() {
                    assert(idx[k] == prior[k]);
                    assert(a[prior[k]] == front[prior[k]]);
                }
            }
            idx
        } else {
            assert forall|k: int| 0 <= k < prior.len() implies 0 <= #[trigger] prior[k] < a.len() && a[prior[k]] == diff(
                a,
                b,
                words,
            )[k] by {
                assert(a[prior[k]] == front[prior[k]]);
            }
            prior
        }
    }
}

} // verus!
