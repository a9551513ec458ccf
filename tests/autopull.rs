use autopull::listing::{branch_listed, contains_bytes, SyncError};
use autopull::plan::{count_dirs, plan, plan_repo, repo_steps, GitStep, Visit};
use autopull::report::{mark_line, output_report, text_lines, OUTPUT_MARK};

fn strings(v: &[&str]) -> Vec<String> {
    v.iter().map(|s| s.to_string()).collect()
}

#[test]
fn branch_on_its_own_line_is_found() {
    assert_eq!(branch_listed(b"  develop\n  release\n", "release"), Ok(true));
    assert_eq!(branch_listed(b"  develop\n  release\n", "develop"), Ok(true));
}

#[test]
fn missing_branch_is_not_found() {
    assert_eq!(branch_listed(b"  develop\n  main\n", "release"), Ok(false));
    assert_eq!(branch_listed(b"", "main"), Ok(false));
}

#[test]
fn same_prefix_branch_is_not_matched() {
    assert_eq!(branch_listed(b"  foobar\n", "foo"), Ok(false));
    assert_eq!(branch_listed(b"* foobar\n  main\n", "foo"), Ok(false));
}

#[test]
fn checked_out_branch_is_found() {
    assert_eq!(branch_listed(b"  develop\n* main\n", "main"), Ok(true));
    assert_eq!(branch_listed(b"* main\n", "main"), Ok(true));
}

#[test]
fn whitespace_around_branch_name() {
    // Leading indentation does not hide the branch; trailing spaces before
    // the newline do.
    assert_eq!(branch_listed(b"    main\n", "main"), Ok(true));
    assert_eq!(branch_listed(b"  main  \n", "main"), Ok(false));
    // A last line without its newline is not matched.
    assert_eq!(branch_listed(b"  main", "main"), Ok(false));
}

#[test]
fn branch_name_is_matched_as_a_substring() {
    // The raw containment check also matches a longer name ending in the
    // branch name.
    assert_eq!(branch_listed(b"  feature/main\n", "main"), Ok(true));
}

#[test]
fn listing_that_is_not_text_is_an_error() {
    assert_eq!(branch_listed(&[0xff, 0xfe, b'\n'], "main"), Err(SyncError::InvalidText));
}

#[test]
fn contains_bytes_cases() {
    assert!(contains_bytes(b"abcabd", b"abd"));
    assert!(!contains_bytes(b"abcabc", b"abd"));
    assert!(contains_bytes(b"abc", b""));
    assert!(!contains_bytes(b"ab", b"abc"));
    assert!(contains_bytes(b"abc", b"abc"));
}

#[test]
fn counting_reports_directories_only() {
    assert_eq!(count_dirs(&vec![true, false, true, true, false]), 3);
    assert_eq!(count_dirs(&vec![]), 0);
    assert_eq!(count_dirs(&vec![false, false]), 0);
}

#[test]
fn plan_visits_each_directory_in_order() {
    let p = plan(&vec![false, true, false, true]);
    assert_eq!(p.total, 2);
    assert_eq!(
        p.visits,
        vec![Visit { entry: 1, position: 2 }, Visit { entry: 3, position: 4 }]
    );
}

#[test]
fn plan_of_empty_listing() {
    let p = plan(&vec![]);
    assert_eq!(p.total, 0);
    assert!(p.visits.is_empty());
}

#[test]
fn steps_when_branch_found_or_not() {
    assert_eq!(repo_steps(true), vec![GitStep::Checkout, GitStep::Pull]);
    assert_eq!(repo_steps(false), vec![]);
}

#[test]
fn absent_branch_runs_nothing() {
    assert_eq!(plan_repo(b"* main\n  develop\n", "release"), Ok(vec![]));
}

#[test]
fn present_branch_runs_checkout_then_pull() {
    assert_eq!(
        plan_repo(b"* main\n  release\n", "release"),
        Ok(vec![GitStep::Checkout, GitStep::Pull])
    );
}

#[test]
fn plan_repo_rejects_bad_text() {
    assert_eq!(plan_repo(&[b'a', 0xc0, b'\n'], "a"), Err(SyncError::InvalidText));
}

#[test]
fn three_entries_two_repos_one_file() {
    // repoA has `release`, repoB does not, the third entry is a regular file.
    let p = plan(&vec![true, true, false]);
    assert_eq!(p.total, 2);
    assert_eq!(
        p.visits,
        vec![Visit { entry: 0, position: 1 }, Visit { entry: 1, position: 2 }]
    );
    assert_eq!(
        plan_repo(b"  main\n* release\n", "release"),
        Ok(vec![GitStep::Checkout, GitStep::Pull])
    );
    assert_eq!(plan_repo(b"* main\n", "release"), Ok(vec![]));
}

#[test]
fn lines_are_split_like_std() {
    for text in ["", "a", "a\n", "a\nb", "a\r\nb\r\n", "\n", "\n\n", "a\n\nb\n", "x\r", "a\rb\n", "é\r\nü"] {
        let want: Vec<String> = text.lines().map(|l| l.to_string()).collect();
        assert_eq!(text_lines(text), want, "text {:?}", text);
    }
}

#[test]
fn mark_line_prefixes() {
    assert_eq!(mark_line("done"), " > [output]      |  done");
    assert_eq!(OUTPUT_MARK, " > [output]      |  ");
}

#[test]
fn report_lists_status_then_stdout_then_stderr() {
    let r = output_report("exit status: 1", b"Already on 'main'\n", b"warning: x\r\nerror: y\n");
    let want = strings(&[
        " > [output]      |  exit status: 1",
        " > [output]      |  Already on 'main'",
        " > [output]      |  warning: x",
        " > [output]      |  error: y",
    ]);
    assert_eq!(r, Ok(want));
}

#[test]
fn report_with_empty_outputs() {
    assert_eq!(
        output_report("exit status: 0", b"", b""),
        Ok(strings(&[" > [output]      |  exit status: 0"]))
    );
}

#[test]
fn report_rejects_bad_text() {
    assert_eq!(output_report("exit status: 0", b"ok\n", &[0xff]), Err(SyncError::InvalidText));
    assert_eq!(output_report("exit status: 0", &[0x80], b""), Err(SyncError::InvalidText));
}
