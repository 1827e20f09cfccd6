//! Comparing two branches from their raw log text, and deciding on the
//! repository root reported by the version-control tool.

use vstd::prelude::*;

use crate::commit::{
    commit_views,
    excluded_words,
    is_excluded,
    parse_commit_message,
    parse_line,
    Commit,
    CommitView,
    CompareError,
};
use crate::diff::{compare, diff, is_kept};
use crate::text::{lines_of, split_lines, views};

verus! {

/// The commits that the lines `ls` describe, in order, without excluded
/// ones; or the first malformed line.
pub open spec fn parse_lines(ls: Seq<Seq<char>>, words: Seq<Seq<char>>) -> Result<
    Seq<CommitView>,
    Seq<char>,
>
    decreases ls.len(),
{
    if ls.len() == 0 {
        Ok(Seq::empty())
    } else {
        match parse_lines(ls.drop_last(), words) {
            Err(line) => Err(line),
            Ok(commits) => match parse_line(ls.last(), words) {
                Err(line) => Err(line),
                Ok(None) => Ok(commits),
                Ok(Some(c)) => Ok(commits.push(c)),
            },
        }
    }
}

/// The commits reported for two raw logs: those of the first log whose
/// summary the second log lacks and which mention no excluded word; or the
/// first malformed line, looking at the first log before the second.
pub open spec fn compare_texts(a: Seq<char>, b: Seq<char>, words: Seq<Seq<char>>) -> Result<
    Seq<CommitView>,
    Seq<char>,
> {
    match parse_lines(lines_of(a), words) {
        Err(line) => Err(line),
        Ok(ca) => match parse_lines(lines_of(b), words) {
            Err(line) => Err(line),
            Ok(cb) => Ok(diff(ca, cb, words)),
        },
    }
}

/// Once some prefix of the lines holds a malformed line, parsing all of
/// them reports that same line.
proof fn lemma_error_persists(ls: Seq<Seq<char>>, i: int, words: Seq<Seq<char>>)
    requires
        0 <= i <= ls.len(),
        parse_lines(ls.take(i), words) is Err,
    ensures
        parse_lines(ls, words) == parse_lines(ls.take(i), words),
    decreases ls.len(),
{
    if i == ls.len() {
        assert(ls.take(i) =~= ls);
    } else {
        let front = ls.drop_last();
        assert(front.take(i) =~= ls.take(i));
        lemma_error_persists(front, i, words);
    }
}

/// Parses raw log text into commits, dropping those whose summary mentions
/// an excluded word. The first malformed line is an error.
pub fn parse_log(raw: &str, exclude: &Option<Vec<String>>) -> (r: Result<Vec<Commit>, CompareError>)
    ensures
        match r {
            Ok(v) => parse_lines(lines_of(raw@), excluded_words(*exclude)) == Ok::<
                Seq<CommitView>,
                Seq<char>,
            >(commit_views(v@)),
            Err(CompareError::MalformedLogLine(l)) => parse_lines(
                lines_of(raw@),
                excluded_words(*exclude),
            ) == Err::<Seq<CommitView>, Seq<char>>(l@),
            Err(_) => false,
        },
{
    let lines = split_lines(raw);
    let ghost ls = lines_of(raw@);
    let ghost words = excluded_words(*exclude);
    let mut commits: Vec<Commit> = Vec::new();
    let mut i: usize = 0;
    assert(ls.take(0) =~= Seq::<Seq<char>>::empty());
    assert(commit_views(commits@) =~= Seq::<CommitView>::empty());
    while i < lines.len()
        invariant
            i <= lines@.len(),
            views(lines@) == ls,
            ls == lines_of(raw@),
            words == excluded_words(*exclude),
            parse_lines(ls.take(i as int), words) == Ok::<Seq<CommitView>, Seq<char>>(
                commit_views(commits@),
            ),
        decreases lines@.len() - i,
    {
        let parsed = parse_commit_message(lines[i].as_str(), exclude);
        assert(ls.take(i as int + 1).drop_last() =~= ls.take(i as int));
        assert(ls.take(i as int + 1).last() == lines@[i as int]@);
        match parsed {
            Err(e) => {
                proof {
                    lemma_error_persists(ls, i as int + 1, words);
                }
                return Err(e);
            },
            Ok(None) => {},
            Ok(Some(c)) => {
                let ghost prior = commits@;
                commits.push(c);
                assert(commits@.drop_last() =~= prior);
                assert(commit_views(commits@) =~= commit_views(prior).push(c@));
            },
        }
        i = i + 1;
    }
    assert(ls.take(i as int) =~= ls);
    Ok(commits)
}

/// Compares two raw logs: the commits of `raw1` whose summary no commit of
/// `raw2` has, excluded words dropped at parsing and again when comparing.
pub fn compare_logs(raw1: &str, raw2: &str, exclude: Option<Vec<String>>) -> (r: Result<
    Vec<Commit>,
    CompareError,
>)
    ensures
        match r {
            Ok(v) => compare_texts(raw1@, raw2@, excluded_words(exclude)) == Ok::<
                Seq<CommitView>,
                Seq<char>,
            >(commit_views(v@)),
            Err(CompareError::MalformedLogLine(l)) => compare_texts(
                raw1@,
                raw2@,
                excluded_words(exclude),
            ) == Err::<Seq<CommitView>, Seq<char>>(l@),
            Err(_) => false,
        },
{
    let commits1 = match parse_log(raw1, &exclude) {
        Ok(v) => v,
        Err(e) => {
            return Err(e);
        },
    };
    let commits2 = match parse_log(raw2, &exclude) {
        Ok(v) => v,
        Err(e) => {
            return Err(e);
        },
    };
    Ok(compare(commits1, commits2, exclude))
}

/// No commit that parsing yields mentions an excluded word.
proof fn lemma_parsed_not_excluded(ls: Seq<Seq<char>>, words: Seq<Seq<char>>)
    ensures
        match parse_lines(ls, words) {
            Ok(cs) => forall|k: int| 0 <= k < cs.len() ==> !is_excluded(#[trigger] cs[k].summary, words),
            Err(_) => true,
        },
    decreases ls.len(),
{
    if ls.len() > 0 {
        lemma_parsed_not_excluded(ls.drop_last(), words);
    }
}

/// A commit whose summary mentions an excluded word is never reported:
/// parsing drops it from both logs, and the comparison drops it again.
pub proof fn lemma_excluded_never_reported(a: Seq<char>, b: Seq<char>, words: Seq<Seq<char>>)
    ensures
        match parse_lines(lines_of(a), words) {
            Ok(cs) => forall|k: int| 0 <= k < cs.len() ==> !is_excluded(#[trigger] cs[k].summary, words),
            Err(_) => true,
        },
        match compare_texts(a, b, words) {
            Ok(out) => forall|k: int| 0 <= k < out.len() ==> !is_excluded(#[trigger] out[k].summary, words),
            Err(_) => true,
        },
{
    broadcast use vstd::seq_lib::group_filter_ensures;

    lemma_parsed_not_excluded(lines_of(a), words);
    match compare_texts(a, b, words) {
        Ok(out) => {
            let ca = parse_lines(lines_of(a), words)->Ok_0;
            let cb = parse_lines(lines_of(b), words)->Ok_0;
            let pred = |c: CommitView| is_kept(c, cb, words);
            assert forall|k: int| 0 <= k < out.len() implies !is_excluded(#[trigger] out[k].summary, words) by {
                assert(pred(ca.filter(pred)[k]));
            }
        },
        Err(_) => {},
    }
}

/// Comparing the same logs with the same exclusions twice reports the same
/// commits, or the same malformed line.
pub proof fn lemma_compare_repeatable(
    a: Seq<char>,
    b: Seq<char>,
    words: Seq<Seq<char>>,
    first: Result<Seq<CommitView>, Seq<char>>,
    second: Result<Seq<CommitView>, Seq<char>>,
)
    requires
        first == compare_texts(a, b, words),
        second == compare_texts(a, b, words),
    ensures
        first == second,
{
}

/// What `str::trim` returns for a text.
pub uninterp spec fn trimmed(s: Seq<char>) -> Seq<char>;

/// Relies on `str::trim`: the text without its leading and trailing
/// whitespace, which depends on the text alone.
#[verifier::external_body]
fn trim_text(s: &str) -> (r: String)
    ensures
        r@ == trimmed(s@),
{
    s.trim().to_string()
}

/// Decides on the answer of the tool's top-level query: a query that did
/// not succeed means the directory is not in a repository; otherwise the
/// root is its output, trimmed.
pub fn repo_root_from_query(succeeded: bool, output: &str) -> (r: Result<String, CompareError>)
    ensures
        match r {
            Ok(root) => succeeded && root@ == trimmed(output@),
            Err(e) => !succeeded && e == CompareError::NotARepository,
        },
{
    if !succeeded {
        return Err(CompareError::NotARepository);
    }
    Ok(trim_text(output))
}

} // verus!
