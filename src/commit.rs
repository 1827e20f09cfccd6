//! Commit records, the errors of a comparison, and the parsing of raw log
//! text into records.

use vstd::prelude::*;

use crate::text::{chars_of, contains_chars, occurs_in, split_fields, split_on, views};

verus! {

/// One parsed log entry. Only the date and the summary survive parsing; the
/// summary is the key by which commits of two branches are matched.
#[derive(Debug, Clone, PartialEq, Eq)]
pub struct Commit {
    pub date: String,
    pub summary: String,
}

/// The mathematical value of a [`Commit`].
pub struct CommitView {
    pub date: Seq<char>,
    pub summary: Seq<char>,
}

impl View for Commit {
    type V = CommitView;

    open spec fn view(&self) -> CommitView {
        CommitView { date: self.date@, summary: self.summary@ }
    }
}

/// What can go wrong while comparing two branches.
#[derive(Debug, Clone, PartialEq, Eq)]
pub enum CompareError {
    /// The working directory is not inside a repository.
    NotARepository,
    /// The version-control tool could not be run; the text says why.
    ExecutionFailure(String),
    /// A log line without the three `|`-separated fields; it is carried here.
    MalformedLogLine(String),
}

/// The views of a sequence of commits.
pub open spec fn commit_views(v: Seq<Commit>) -> Seq<CommitView> {
    v.map_values(|c: Commit| c@)
}

/// The words of an optional exclusion list; an absent list has none.
pub open spec fn excluded_words(exclude: Option<Vec<String>>) -> Seq<Seq<char>> {
    match exclude {
        Some(words) => views(words@),
        None => Seq::empty(),
    }
}

/// Some word of `words` occurs in `summary`.
pub open spec fn is_excluded(summary: Seq<char>, words: Seq<Seq<char>>) -> bool {
    exists|k: int| 0 <= k < words.len() && occurs_in(#[trigger] words[k], summary)
}

/// Whether some word of the exclusion list occurs in `summary`.
pub fn mentions_excluded(summary: &String, exclude: &Option<Vec<String>>) -> (r: bool)
    ensures
        r == is_excluded(summary@, excluded_words(*exclude)),
{
    match exclude {
        None => false,
        Some(words) => {
            let text = chars_of(summary.as_str());
            let mut k: usize = 0;
            while k < words.len()
                invariant
                    text@ == summary@,
                    k <= words@.len(),
                    excluded_words(*exclude) == views(words@),
                    forall|j: int| 0 <= j < k ==> !occurs_in(#[trigger] views(words@)[j], summary@),
                decreases words@.len() - k,
            {
                let word = chars_of(words[k].as_str());
                if contains_chars(&text, &word) {
                    assert(occurs_in(views(words@)[k as int], summary@));
                    return true;
                }
                k = k + 1;
            }
            false
        },
    }
}

/// The `|`-separated fields of a raw log line.
pub open spec fn line_fields(line: Seq<char>) -> Seq<Seq<char>> {
    split_on(line, '|')
}

/// A line is malformed when it has fewer than three fields.
pub open spec fn is_malformed(line: Seq<char>) -> bool {
    line_fields(line).len() < 3
}

/// The commit that a well-formed line describes: its second field is the
/// date, its third the summary. The first (the hash) and any further fields
/// are not kept.
pub open spec fn commit_of_line(line: Seq<char>) -> CommitView {
    CommitView { date: line_fields(line)[1], summary: line_fields(line)[2] }
}

/// What parsing one line yields: the malformed line itself as an error,
/// nothing for an excluded commit, or the commit.
pub open spec fn parse_line(line: Seq<char>, words: Seq<Seq<char>>) -> Result<
    Option<CommitView>,
    Seq<char>,
> {
    if is_malformed(line) {
        Err(line)
    } else if is_excluded(commit_of_line(line).summary, words) {
        Ok(None)
    } else {
        Ok(Some(commit_of_line(line)))
    }
}

/// Parses one raw log line of the form `<hash>|<date>|<summary>`, dropping
/// it when its summary mentions an excluded word.
pub fn parse_commit_message(msg: &str, exclude: &Option<Vec<String>>) -> (r: Result<
    Option<Commit>,
    CompareError,
>)
    ensures
        match r {
            Ok(Some(c)) => parse_line(msg@, excluded_words(*exclude)) == Ok::<
                Option<CommitView>,
                Seq<char>,
            >(Some(c@)),
            Ok(None) => parse_line(msg@, excluded_words(*exclude)) == Ok::<
                Option<CommitView>,
                Seq<char>,
            >(None),
            Err(CompareError::MalformedLogLine(l)) => parse_line(msg@, excluded_words(*exclude))
                == Err::<Option<CommitView>, Seq<char>>(l@),
            Err(_) => false,
        },
{
    let fields = split_fields(msg, '|');
    if fields.len() < 3 {
        return Err(CompareError::MalformedLogLine(msg.to_owned()));
    }
    let summary = fields[2].clone();
    if mentions_excluded(&summary, exclude) {
        return Ok(None);
    }
    let date = fields[1].clone();
    Ok(Some(Commit { date, summary }))
}

} // verus!
