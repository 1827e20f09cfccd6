use branch_diff::branches::{compare_logs, parse_log, repo_root_from_query};
use branch_diff::commit::{mentions_excluded, parse_commit_message, Commit, CompareError};
use branch_diff::diff::compare;
use branch_diff::text::{chars_of, contains_chars, split_fields, split_lines};

fn commit(date: &str, summary: &str) -> Commit {
    Commit { date: date.to_string(), summary: summary.to_string() }
}

fn words(ws: &[&str]) -> Option<Vec<String>> {
    Some(ws.iter().map(|w| w.to_string()).collect())
}

#[test]
fn unique_commit_of_first_branch_is_reported() {
    let a = "a1|2024-01-01|Fix bug\na2|2024-01-02|Add feature";
    let b = "b1|2024-01-03|Fix bug";
    let out = compare_logs(a, b, None).unwrap();
    assert_eq!(out, vec![commit("2024-01-02", "Add feature")]);
}

#[test]
fn excluded_word_leaves_nothing() {
    let a = "a1|2024-01-01|Fix bug\na2|2024-01-02|Add feature";
    let b = "b1|2024-01-03|Fix bug";
    let out = compare_logs(a, b, words(&["feature"])).unwrap();
    assert!(out.is_empty());
}

#[test]
fn identical_commit_on_both_branches_is_not_reported() {
    let line = "c1|2024-02-01|Refactor core";
    let out = compare_logs(line, line, None).unwrap();
    assert!(out.is_empty());
}

#[test]
fn duplicate_summaries_within_a_branch_are_both_kept() {
    let a = "d1|2024-03-01|Update docs\nd2|2024-03-05|Update docs\n";
    let out = compare_logs(a, "", None).unwrap();
    assert_eq!(
        out,
        vec![commit("2024-03-01", "Update docs"), commit("2024-03-05", "Update docs")]
    );
}

#[test]
fn failed_top_level_query_is_not_a_repository() {
    let r = repo_root_from_query(false, "fatal: not a git repository\n");
    assert_eq!(r, Err(CompareError::NotARepository));
}

#[test]
fn repository_root_is_trimmed() {
    let r = repo_root_from_query(true, "  /home/dev/project\n");
    assert_eq!(r, Ok("/home/dev/project".to_string()));
}

#[test]
fn disjoint_summaries_keep_every_commit() {
    let a = vec![commit("2024-01-01", "one"), commit("2024-01-02", "two")];
    let b = vec![commit("2024-01-03", "three")];
    let out = compare(a.clone(), b, None);
    assert_eq!(out, a);
}

#[test]
fn shared_summaries_are_dropped() {
    let a = vec![
        commit("2024-01-01", "one"),
        commit("2024-01-02", "two"),
        commit("2024-01-04", "one"),
    ];
    let b = vec![commit("2024-05-01", "one")];
    let out = compare(a, b, None);
    assert_eq!(out, vec![commit("2024-01-02", "two")]);
}

#[test]
fn reported_commits_keep_their_order() {
    let a = vec![
        commit("2024-01-05", "e"),
        commit("2024-01-04", "d"),
        commit("2024-01-03", "c"),
        commit("2024-01-02", "b"),
        commit("2024-01-01", "a"),
    ];
    let b = vec![commit("2024-01-01", "d"), commit("2024-01-01", "b")];
    let out = compare(a, b, None);
    assert_eq!(
        out,
        vec![commit("2024-01-05", "e"), commit("2024-01-03", "c"), commit("2024-01-01", "a")]
    );
}

#[test]
fn comparison_drops_excluded_commits_given_directly() {
    let a = vec![commit("2024-01-01", "WIP parser"), commit("2024-01-02", "Add parser")];
    let out = compare(a, Vec::new(), words(&["WIP"]));
    assert_eq!(out, vec![commit("2024-01-02", "Add parser")]);
}

#[test]
fn excluded_commit_never_reported_from_logs() {
    let a = "x1|2024-01-01|temp hack\nx2|2024-01-02|real work";
    let out = compare_logs(a, "", words(&["hack"])).unwrap();
    assert_eq!(out, vec![commit("2024-01-02", "real work")]);
}

#[test]
fn repeated_comparison_gives_the_same_result() {
    let a = "a1|2024-01-01|Fix bug\na2|2024-01-02|Add feature\na3|2024-01-03|Tidy";
    let b = "b1|2024-01-03|Fix bug";
    let first = compare_logs(a, b, words(&["Tidy"]));
    let second = compare_logs(a, b, words(&["Tidy"]));
    assert_eq!(first, second);
    assert_eq!(first.unwrap(), vec![commit("2024-01-02", "Add feature")]);
}

#[test]
fn empty_second_branch_filters_by_exclusion_only() {
    let a = "a1|2024-01-01|keep me\na2|2024-01-02|drop me";
    let out = compare_logs(a, "", words(&["drop"])).unwrap();
    assert_eq!(out, vec![commit("2024-01-01", "keep me")]);
}

#[test]
fn summaries_compare_exactly() {
    let a = "a1|2024-01-01|Fix bug\na2|2024-01-02|fix bug\na3|2024-01-03|Fix bug ";
    let b = "b1|2024-01-03|Fix bug";
    let out = compare_logs(a, b, None).unwrap();
    assert_eq!(
        out,
        vec![commit("2024-01-02", "fix bug"), commit("2024-01-03", "Fix bug ")]
    );
}

#[test]
fn commits_only_on_second_branch_are_not_reported() {
    let out = compare_logs("", "b1|2024-01-03|Only here", None).unwrap();
    assert!(out.is_empty());
}

#[test]
fn malformed_line_in_first_log_is_an_error() {
    let a = "a1|2024-01-01|Fine\na2|2024-01-02";
    let r = compare_logs(a, "", None);
    assert_eq!(r, Err(CompareError::MalformedLogLine("a2|2024-01-02".to_string())));
}

#[test]
fn malformed_line_in_second_log_is_an_error() {
    let r = compare_logs("a1|2024-01-01|Fine", "b1 2024-01-02 no bars", None);
    assert_eq!(r, Err(CompareError::MalformedLogLine("b1 2024-01-02 no bars".to_string())));
}

#[test]
fn first_malformed_line_is_reported() {
    let r = parse_log("bad one\nbad two", &None);
    assert_eq!(r, Err(CompareError::MalformedLogLine("bad one".to_string())));
}

#[test]
fn parse_keeps_date_and_summary_verbatim() {
    let r = parse_commit_message("abc1234| 2024-01-01 | Some summary ", &None);
    assert_eq!(r, Ok(Some(commit(" 2024-01-01 ", " Some summary "))));
}

#[test]
fn parse_takes_the_third_field_as_summary() {
    let r = parse_commit_message("abc|2024-01-01|left|right", &None);
    assert_eq!(r, Ok(Some(commit("2024-01-01", "left"))));
}

#[test]
fn parse_drops_excluded_line() {
    let r = parse_commit_message("abc|2024-01-01|Merge branch main", &words(&["Merge"]));
    assert_eq!(r, Ok(None));
}

#[test]
fn parse_log_keeps_line_order() {
    let r = parse_log("h3|2024-01-03|third\nh2|2024-01-02|second\nh1|2024-01-01|first\n", &None);
    assert_eq!(
        r,
        Ok(vec![
            commit("2024-01-03", "third"),
            commit("2024-01-02", "second"),
            commit("2024-01-01", "first"),
        ])
    );
}

#[test]
fn empty_log_parses_to_nothing() {
    assert_eq!(parse_log("", &None), Ok(Vec::new()));
}

#[test]
fn lines_drop_terminators() {
    assert_eq!(split_lines("a\r\nb\n"), vec!["a".to_string(), "b".to_string()]);
    assert_eq!(split_lines("a\n\nb"), vec!["a".to_string(), String::new(), "b".to_string()]);
    assert_eq!(split_lines("a\r"), vec!["a\r".to_string()]);
    assert!(split_lines("").is_empty());
    assert_eq!(split_lines("\n"), vec![String::new()]);
}

#[test]
fn fields_split_on_every_delimiter() {
    assert_eq!(
        split_fields("a||b", '|'),
        vec!["a".to_string(), String::new(), "b".to_string()]
    );
    assert_eq!(split_fields("", '|'), vec![String::new()]);
}

#[test]
fn substring_search() {
    let hay = chars_of("Add feature flag");
    assert!(contains_chars(&hay, &chars_of("feature")));
    assert!(contains_chars(&hay, &chars_of("")));
    assert!(contains_chars(&hay, &chars_of("flag")));
    assert!(!contains_chars(&hay, &chars_of("Feature")));
    assert!(!contains_chars(&chars_of("ab"), &chars_of("abc")));
    assert_eq!(chars_of("héllo"), vec!['h', 'é', 'l', 'l', 'o']);
}

#[test]
fn exclusion_list_edges() {
    let s = "Add feature".to_string();
    assert!(!mentions_excluded(&s, &None));
    assert!(!mentions_excluded(&s, &Some(Vec::new())));
    assert!(mentions_excluded(&s, &words(&[""])));
    assert!(mentions_excluded(&s, &words(&["nope", "dd f"])));
    assert!(!mentions_excluded(&s, &words(&["nope", "ADD"])));
}
