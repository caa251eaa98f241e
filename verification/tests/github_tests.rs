use helix_addons::github_commands::{github_pr_picker_mine_step, pr_diff_step, pr_listing_step};
use helix_addons::github::{
    is_github_pr_buffer_name, pr_number_from_buffer_name, GitHubLabel, GitHubUser, PRDiffState,
    PRFile, PRFileStatus, PRFilter, PRState, PullRequest, ReviewRequest,
};
use helix_addons::github_commands::{
    file_status_from_gh, github_pr_next_file, github_pr_next_hunk, github_pr_picker,
    github_pr_picker_mine, github_pr_picker_open, github_pr_picker_review, github_pr_prev_file,
    github_pr_prev_hunk, initial_diff_line, pr_changes_cell, pr_list_args, pr_number_cell, pr_opened_message,
    pr_state_style, PRStateStyle,
};
use helix_addons::pr_diff::{build_pr_diff_buffer, generate_pr_diff_content, parse_diff_structure};

#[test]
fn test_is_github_pr_buffer_name() {
    assert!(is_github_pr_buffer_name("[pr-diff] #123 - Fix bug"));
    assert!(!is_github_pr_buffer_name("[oil] /home/user"));
    assert!(!is_github_pr_buffer_name("test.rs"));
}

#[test]
fn test_pr_number_from_buffer_name() {
    assert_eq!(
        pr_number_from_buffer_name("[pr-diff] #123 - Fix bug"),
        Some(123)
    );
    assert_eq!(pr_number_from_buffer_name("[pr-diff] #456"), Some(456));
    assert_eq!(pr_number_from_buffer_name("[oil] /home"), None);
}

#[test]
fn test_pr_state_display() {
    assert_eq!(PRState::Open.to_string(), "OPEN");
    assert_eq!(PRState::Closed.to_string(), "CLOSED");
    assert_eq!(PRState::Merged.to_string(), "MERGED");
}

#[test]
fn test_pr_file_status_icon() {
    let file = PRFile {
        path: "test.rs".to_string(),
        status: PRFileStatus::Added,
        additions: 10,
        deletions: 0,
        patch: None,
    };
    assert_eq!(file.status_icon(), "+");
}

fn file(path: &str, status: PRFileStatus, additions: u64, deletions: u64) -> PRFile {
    PRFile { path: path.to_string(), status, additions, deletions, patch: None }
}

fn sample_pr(is_draft: bool, state: PRState) -> PullRequest {
    PullRequest {
        number: 7,
        title: "Add feature".to_string(),
        body: None,
        author: GitHubUser { login: "alice".to_string() },
        state,
        is_draft,
        base_ref_name: "main".to_string(),
        head_ref_name: "feature".to_string(),
        url: "https://example.invalid/pr/7".to_string(),
        additions: 3,
        deletions: 1,
        changed_files: 2,
        labels: vec![
            GitHubLabel { name: "bug".to_string() },
            GitHubLabel { name: "ui".to_string() },
        ],
        assignees: vec![GitHubUser { login: "bob".to_string() }],
        review_requests: vec![
            ReviewRequest { requested_reviewer: Some(GitHubUser { login: "carol".to_string() }) },
            ReviewRequest { requested_reviewer: None },
            ReviewRequest { requested_reviewer: Some(GitHubUser { login: "dave".to_string() }) },
        ],
    }
}

#[test]
fn pull_request_accessors() {
    let pr = sample_pr(false, PRState::Open);
    assert_eq!(pr.author_login(), "alice");
    assert_eq!(pr.label_names(), vec!["bug", "ui"]);
    assert_eq!(pr.assignee_logins(), vec!["bob"]);
    assert_eq!(pr.reviewer_logins(), vec!["carol", "dave"]);
    assert_eq!(pr.state_display(), "OPEN");
    assert_eq!(sample_pr(true, PRState::Merged).state_display(), "DRAFT");
    assert_eq!(sample_pr(false, PRState::Closed).state_display(), "CLOSED");
}

#[test]
fn file_status_icons_and_names() {
    assert_eq!(PRFileStatus::Modified.to_string(), "~");
    assert_eq!(PRFileStatus::Deleted.to_string(), "-");
    assert_eq!(PRFileStatus::Renamed.to_string(), "→");
    assert_eq!(PRFileStatus::Copied.to_string(), "⊕");
    assert_eq!(file_status_from_gh("added"), PRFileStatus::Added);
    assert_eq!(file_status_from_gh("removed"), PRFileStatus::Deleted);
    assert_eq!(file_status_from_gh("deleted"), PRFileStatus::Deleted);
    assert_eq!(file_status_from_gh("renamed"), PRFileStatus::Renamed);
    assert_eq!(file_status_from_gh("copied"), PRFileStatus::Copied);
    assert_eq!(file_status_from_gh("changed"), PRFileStatus::Modified);
}

#[test]
fn filters_and_gh_arguments() {
    let all = github_pr_picker();
    assert!(all.state.is_none() && all.author.is_none() && !all.review_requested);
    assert_eq!(github_pr_picker_open().state.as_deref(), Some("open"));
    assert_eq!(github_pr_picker_mine("alice").author.as_deref(), Some("alice"));
    assert!(github_pr_picker_review().review_requested);
    assert_eq!(PRFilter::by_author("x").author.as_deref(), Some("x"));

    let args = pr_list_args(&PRFilter::open());
    assert_eq!(args.len(), 5);
    assert_eq!(args[0], "pr");
    assert_eq!(args[1], "list");
    assert_eq!(args[2], "--json");
    assert_eq!(args[4], "--state=open");

    let mut f = PRFilter::review_requested();
    f.assignee = Some("bob".to_string());
    f.limit = Some(25);
    let args = pr_list_args(&f);
    assert_eq!(&args[4..], &["--assignee=bob", "--search=review-requested:@me", "--limit=25"]);
}

#[test]
fn diff_state_buffer_name_reads_back() {
    let state = PRDiffState::new(4321, "Fix the thing".to_string());
    let name = state.buffer_name();
    assert_eq!(name, "[pr-diff] #4321 - Fix the thing");
    assert!(is_github_pr_buffer_name(&name));
    assert_eq!(pr_number_from_buffer_name(&name), Some(4321));
    assert_eq!(pr_number_from_buffer_name("[pr-diff] #+12 x"), Some(12));
    assert_eq!(pr_number_from_buffer_name("[pr-diff] #99999999999999999999 x"), None);
    assert_eq!(pr_number_from_buffer_name("[pr-diff] 12"), None);
    assert_eq!(pr_number_from_buffer_name("[pr-diff] #"), None);
}

#[test]
fn diff_state_file_navigation() {
    let mut state = PRDiffState::new(1, "t".to_string());
    assert!(state.current_file().is_none());
    assert!(!state.next_file());
    state.files = vec![file("a", PRFileStatus::Added, 1, 0), file("b", PRFileStatus::Modified, 2, 2)];
    assert_eq!(state.current_file().map(|f| f.path.as_str()), Some("a"));
    assert!(!state.prev_file());
    assert!(state.next_file());
    assert_eq!(state.current_file_index, 1);
    assert!(!state.next_file());
    assert!(state.prev_file());
    assert_eq!(state.current_file_index, 0);
}

#[test]
fn diff_state_hunks_and_files() {
    let mut state = PRDiffState::new(1, "t".to_string());
    state.hunk_lines = vec![10, 20, 30];
    state.file_line_offsets = vec![(8, 18), (19, 40)];
    assert_eq!(state.next_hunk_line(5), Some(10));
    assert_eq!(state.next_hunk_line(20), Some(30));
    assert_eq!(state.next_hunk_line(30), None);
    assert_eq!(state.prev_hunk_line(25), Some(20));
    assert_eq!(state.prev_hunk_line(10), None);
    assert_eq!(state.file_at_line(18), Some(0));
    assert_eq!(state.file_at_line(19), Some(1));
    assert_eq!(state.file_at_line(41), None);
}

#[test]
fn diff_content_and_structure() {
    let files = vec![file("src/a.rs", PRFileStatus::Modified, 3, 1), file("b.txt", PRFileStatus::Added, 2, 0)];
    let diff = "diff --git a/src/a.rs b/src/a.rs\n@@ -1,2 +1,4 @@\n x\n+y\ndiff --git a/b.txt b/b.txt\n@@ -0,0 +1,2 @@\n+b\n";
    let content = generate_pr_diff_content(12, "Title", &files, diff);
    let expected_head = "# PR #12 - Title\n# 2 files changed\n# Keys: [n]ext file | [p]rev file | ]c/[c next/prev hunk | [q]uit\n#\n# Files:\n#   ~ src/a.rs (+3 -1)\n#   + b.txt (+2 -0)\n#\n";
    assert!(content.starts_with(expected_head));
    assert!(content.ends_with(diff));
    let (hunks, offsets) = parse_diff_structure(&content);
    // header: 8 lines, rule, blank line, then the diff from line 10
    assert_eq!(hunks, vec![11, 15]);
    assert_eq!(offsets, vec![(10, 13), (14, 16)]);

    let (text, state) = build_pr_diff_buffer(12, "Title".to_string(), files, diff.to_string());
    assert_eq!(text, content);
    assert_eq!(state.hunk_lines, vec![11, 15]);
    assert_eq!(state.file_line_offsets, vec![(10, 13), (14, 16)]);
    assert_eq!(pr_opened_message(&state), "PR #12 - 2 files changed");
    assert_eq!(initial_diff_line(17, 2), 10);
    assert_eq!(text.lines().nth(10), Some("diff --git a/src/a.rs b/src/a.rs"));
    assert_eq!(initial_diff_line(3, 2), 2);
    assert_eq!(initial_diff_line(0, 0), 0);
    assert_eq!(initial_diff_line(9, 0), 8);
    assert_eq!(initial_diff_line(100, 0), 8);
}

#[test]
fn diff_structure_edge_cases() {
    let (h, o) = parse_diff_structure("");
    assert!(h.is_empty() && o.is_empty());
    let (h, o) = parse_diff_structure("@@ x\r\ndiff --git a b\r\n");
    assert_eq!(h, vec![0]);
    assert_eq!(o, vec![(1, 1)]);
}

#[test]
fn diff_navigation_commands() {
    let mut state = PRDiffState::new(3, "t".to_string());
    state.files = vec![file("a", PRFileStatus::Added, 1, 0), file("b", PRFileStatus::Deleted, 0, 4)];
    state.file_line_offsets = vec![(10, 12), (13, 20)];
    state.hunk_lines = vec![11, 14];

    let out = github_pr_next_file(&mut state, 21);
    assert_eq!(out.line, Some(13));
    assert_eq!(out.message.as_deref(), Some("File 2/2: b"));
    assert_eq!(state.current_file_index, 1);
    let out = github_pr_next_file(&mut state, 21);
    assert_eq!(out.line, None);
    assert_eq!(out.message.as_deref(), Some("Already at last file"));

    let out = github_pr_prev_file(&mut state, 5);
    assert_eq!(out.line, None);
    assert_eq!(out.message.as_deref(), Some("File 1/2: a"));
    assert_eq!(state.current_file_index, 0);
    let out = github_pr_prev_file(&mut state, 21);
    assert_eq!(out.message.as_deref(), Some("Already at first file"));

    let out = github_pr_next_hunk(&state, 11, 21);
    assert_eq!(out.line, Some(14));
    let out = github_pr_next_hunk(&state, 14, 21);
    assert_eq!(out.message.as_deref(), Some("No more hunks"));
    let out = github_pr_prev_hunk(&state, 14, 21);
    assert_eq!(out.line, Some(11));
    let out = github_pr_prev_hunk(&state, 11, 21);
    assert_eq!(out.message.as_deref(), Some("No previous hunks"));
}

#[test]
fn picker_cells_and_styles() {
    let pr = sample_pr(false, PRState::Merged);
    assert_eq!(pr_state_style(&pr), PRStateStyle::Merged);
    assert_eq!(pr_state_style(&sample_pr(true, PRState::Open)), PRStateStyle::Draft);
    assert_eq!(pr_state_style(&sample_pr(false, PRState::Closed)), PRStateStyle::Closed);
    assert_eq!(pr_state_style(&sample_pr(false, PRState::Open)), PRStateStyle::Open);
    assert_eq!(pr_number_cell(&pr), "#7");
    assert_eq!(pr_changes_cell(&pr), "+3 -1");
}

#[test]
fn current_user_is_trimmed() {
    use_user("  octocat\n", "octocat");
    use_user("", "");
    use_user("a b", "a b");
}

fn use_user(out: &str, want: &str) {
    assert_eq!(helix_addons::github_commands::current_user_from_output(out), want);
}

#[test]
fn pr_command_steps() {
    let f = github_pr_picker_mine_step(Ok("alice".to_string())).unwrap();
    assert_eq!(f.author.as_deref(), Some("alice"));
    assert!(f.state.is_none() && !f.review_requested);
    assert_eq!(
        github_pr_picker_mine_step(Err("no auth".to_string())).err(),
        Some("Failed to get current user: no auth".to_string())
    );
    assert_eq!(pr_listing_step(Err("boom".to_string())).err(), Some("Failed to list PRs: boom".to_string()));
    assert_eq!(pr_listing_step(Ok(vec![sample_pr(false, PRState::Open)])).unwrap().len(), 1);
    assert_eq!(
        pr_diff_step(Err("d".to_string()), Err("f".to_string())).err(),
        Some("Failed to get PR diff: d".to_string())
    );
    assert_eq!(pr_diff_step(Ok("x".to_string()), Err("f".to_string())).err(), Some("Failed to get PR files: f".to_string()));
    let (d, fs) = pr_diff_step(Ok("x".to_string()), Ok(vec![])).unwrap();
    assert_eq!(d, "x");
    assert!(fs.is_empty());
}
