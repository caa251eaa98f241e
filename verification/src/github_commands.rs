//! The decisions of the pull-request commands: which pull requests a picker
//! lists, the `gh` arguments that ask for them, and where the cursor goes
//! when the user moves between files and hunks of a diff buffer.
use vstd::prelude::*;
use crate::github::{PRDiffState, PRFile, PRFileStatus, PRFilter, PRState, PullRequest, same_but_index};
use crate::text::{chars_of, decimal, decimal_chars, extend_str, starts_with, string_of, trim, trim_chars};

verus! {

/// The fields that `gh pr list` is asked to report.
pub const PR_LIST_FIELDS: &'static str = "number,title,body,author,state,isDraft,baseRefName,headRefName,url,additions,deletions,changedFiles,labels,assignees,reviewRequests";

/// The picker of all pull requests.
pub fn github_pr_picker() -> (r: PRFilter)
    ensures
        r.state is None && r.author is None && r.assignee is None && !r.review_requested && r.limit is None,
{
    PRFilter::default()
}

/// The picker of open pull requests.
pub fn github_pr_picker_open() -> (r: PRFilter)
    ensures
        r.state matches Some(s) && s@ == "open"@,
        r.author is None && r.assignee is None && !r.review_requested && r.limit is None,
{
    PRFilter::open()
}

/// The picker of the user's own pull requests, given the user's login.
pub fn github_pr_picker_mine(username: &str) -> (r: PRFilter)
    ensures
        r.author matches Some(a) && a@ == username@,
        r.state is None && r.assignee is None && !r.review_requested && r.limit is None,
{
    PRFilter::by_author(username)
}

/// The picker of pull requests that await the user's review.
pub fn github_pr_picker_review() -> (r: PRFilter)
    ensures
        r.review_requested,
        r.state is None && r.author is None && r.assignee is None && r.limit is None,
{
    PRFilter::review_requested()
}

/// `--<flag>=<value>` where the filter has a value, nothing otherwise.
pub open spec fn flag_arg(flag: Seq<char>, value: Option<String>) -> Seq<Seq<char>> {
    match value {
        Some(v) => seq!["--"@ + flag + "="@ + v@],
        None => Seq::empty(),
    }
}

/// The arguments of `gh` that list the pull requests a filter selects.
pub open spec fn pr_list_args_of(f: PRFilter) -> Seq<Seq<char>> {
    seq!["pr"@, "list"@, "--json"@, PR_LIST_FIELDS@] + flag_arg("state"@, f.state) + flag_arg(
        "author"@,
        f.author,
    ) + flag_arg("assignee"@, f.assignee) + (if f.review_requested {
        seq!["--search=review-requested:@me"@]
    } else {
        Seq::empty()
    }) + match f.limit {
        Some(n) => seq!["--limit="@ + decimal(n as nat)],
        None => Seq::empty(),
    }
}

fn flag_string(flag: &str, value: &String) -> (r: String)
    ensures
        r@ == "--"@ + flag@ + "="@ + value@,
{
    let mut v = chars_of("--");
    extend_str(&mut v, flag);
    extend_str(&mut v, "=");
    extend_str(&mut v, value.as_str());
    string_of(&v)
}

/// The arguments of `gh` that list the pull requests `filter` selects.
pub fn pr_list_args(filter: &PRFilter) -> (r: Vec<String>)
    ensures
        r@.map_values(|s: String| s@) == pr_list_args_of(*filter),
{
    let mut args: Vec<String> = Vec::new();
    args.push("pr".to_owned());
    args.push("list".to_owned());
    args.push("--json".to_owned());
    args.push(PR_LIST_FIELDS.to_owned());
    let ghost mut model: Seq<Seq<char>> = seq!["pr"@, "list"@, "--json"@, PR_LIST_FIELDS@];
    assert(args@.map_values(|s: String| s@) == model);
    match &filter.state {
        Some(s) => {
            let a = flag_string("state", s);
            proof { model = model.push(a@); }
            args.push(a);
        },
        None => {},
    }
    assert(model == seq!["pr"@, "list"@, "--json"@, PR_LIST_FIELDS@] + flag_arg("state"@, filter.state));
    assert(args@.map_values(|s: String| s@) == model);
    let ghost m1 = model;
    match &filter.author {
        Some(s) => {
            let a = flag_string("author", s);
            proof { model = model.push(a@); }
            args.push(a);
        },
        None => {},
    }
    assert(model == m1 + flag_arg("author"@, filter.author));
    assert(args@.map_values(|s: String| s@) == model);
    let ghost m2 = model;
    match &filter.assignee {
        Some(s) => {
            let a = flag_string("assignee", s);
            proof { model = model.push(a@); }
            args.push(a);
        },
        None => {},
    }
    assert(model == m2 + flag_arg("assignee"@, filter.assignee));
    assert(args@.map_values(|s: String| s@) == model);
    let ghost m3 = model;
    if filter.review_requested {
        let a = "--search=review-requested:@me".to_owned();
        proof { model = model.push(a@); }
        args.push(a);
    }
    assert(args@.map_values(|s: String| s@) == model);
    let ghost m4 = model;
    match filter.limit {
        Some(n) => {
            let mut v = chars_of("--limit=");
            let mut d = decimal_chars(n as u64);
            v.append(&mut d);
            let a = string_of(&v);
            proof { model = model.push(a@); }
            args.push(a);
        },
        None => {},
    }
    assert(args@.map_values(|s: String| s@) == model);
    assert(model == pr_list_args_of(*filter));
    args
}

/// The status of a changed file as `gh` names it: `added`, `removed` or
/// `deleted`, `renamed`, `copied`; anything else is a modification.
pub open spec fn gh_file_status(s: Seq<char>) -> PRFileStatus {
    if s == "added"@ {
        PRFileStatus::Added
    } else if s == "removed"@ || s == "deleted"@ {
        PRFileStatus::Deleted
    } else if s == "renamed"@ {
        PRFileStatus::Renamed
    } else if s == "copied"@ {
        PRFileStatus::Copied
    } else {
        PRFileStatus::Modified
    }
}

fn str_eq(a: &str, b: &str) -> (r: bool)
    ensures
        r == (a@ == b@),
{
    let x = a.to_owned();
    let y = b.to_owned();
    x == y
}

/// The file status for the status word that `gh pr view` reports.
pub fn file_status_from_gh(status: &str) -> (r: PRFileStatus)
    ensures
        r == gh_file_status(status@),
{
    if str_eq(status, "added") {
        PRFileStatus::Added
    } else if str_eq(status, "removed") || str_eq(status, "deleted") {
        PRFileStatus::Deleted
    } else if str_eq(status, "renamed") {
        PRFileStatus::Renamed
    } else if str_eq(status, "copied") {
        PRFileStatus::Copied
    } else {
        PRFileStatus::Modified
    }
}

/// The status shown when a pull request's diff buffer opens.
pub open spec fn pr_opened_text(number: u64, n_files: nat) -> Seq<char> {
    "PR #"@ + decimal(number as nat) + " - "@ + decimal(n_files) + " files changed"@
}

/// `PR #<number> - <count> files changed`.
pub fn pr_opened_message(state: &PRDiffState) -> (r: String)
    requires
        state.files@.len() <= u64::MAX,
    ensures
        r@ == pr_opened_text(state.pr_number, state.files@.len()),
{
    let mut v = chars_of("PR #");
    let mut a = decimal_chars(state.pr_number);
    v.append(&mut a);
    extend_str(&mut v, " - ");
    let mut b = decimal_chars(state.files.len() as u64);
    v.append(&mut b);
    extend_str(&mut v, " files changed");
    string_of(&v)
}

/// The line the cursor starts on in a new diff buffer of `total_lines`
/// lines for a pull request that changes `file_count` files: the first diff
/// line, just after the `8 + file_count` header lines, or the last line of a
/// shorter buffer.
pub fn initial_diff_line(total_lines: usize, file_count: usize) -> (r: usize)
    ensures
        r == if total_lines == 0 {
            0
        } else if 8 + file_count <= total_lines - 1 {
            (8 + file_count) as usize
        } else {
            (total_lines - 1) as usize
        },
{
    let last = if total_lines > 0 { total_lines - 1 } else { 0 };
    if last >= 8 && file_count <= last - 8 { file_count + 8 } else { last }
}

/// Where a navigation command moves the cursor, and the status it shows.
#[derive(Debug)]
pub struct NavOutcome {
    /// The line the cursor moves to, if it moves.
    pub line: Option<usize>,
    /// The status message, if any.
    pub message: Option<String>,
}

/// `File <i+1>/<n>: <path>`.
pub open spec fn file_status_text(i: nat, n: nat, path: Seq<char>) -> Seq<char> {
    "File "@ + decimal(i + 1) + "/"@ + decimal(n) + ": "@ + path
}

fn file_status_message(state: &PRDiffState, i: usize) -> (r: String)
    requires
        i < state.files@.len(),
        state.files@.len() <= u64::MAX,
    ensures
        r@ == file_status_text(i as nat, state.files@.len(), state.files@[i as int].path@),
{
    let mut v = chars_of("File ");
    let mut a = decimal_chars(i as u64 + 1);
    v.append(&mut a);
    extend_str(&mut v, "/");
    let mut b = decimal_chars(state.files.len() as u64);
    v.append(&mut b);
    extend_str(&mut v, ": ");
    extend_str(&mut v, state.files[i].path.as_str());
    string_of(&v)
}

/// The message when `text` is the message, else none.
pub open spec fn message_is(m: Option<String>, text: Seq<char>) -> bool {
    m matches Some(s) && s@ == text
}

/// Moves a diff buffer to its next file: the file's first line and a status
/// naming it; at the last file only a status. A file without a known line
/// range changes nothing. `total_lines` is the length of the buffer.
pub fn github_pr_next_file(state: &mut PRDiffState, total_lines: usize) -> (r: NavOutcome)
    requires
        old(state).files@.len() <= u64::MAX,
    ensures
        same_but_index(*final(state), *old(state)),
        ({
            let i = old(state).current_file_index;
            let n = old(state).files@.len();
            let offsets = old(state).file_line_offsets@;
            if i + 1 >= n {
                &&& final(state).current_file_index == i
                &&& r.line is None
                &&& message_is(r.message, "Already at last file"@)
            } else if i + 1 < offsets.len() {
                let start = offsets[i + 1].0;
                &&& final(state).current_file_index == i + 1
                &&& r.line == if start < total_lines { Some(start) } else { None }
                &&& message_is(r.message, file_status_text((i + 1) as nat, n, old(state).files@[i + 1].path@))
            } else {
                &&& final(state).current_file_index == i
                &&& r.line is None
                &&& r.message is None
            }
        }),
{
    let n = state.files.len();
    if state.current_file_index >= n || n - state.current_file_index <= 1 {
        return NavOutcome { line: None, message: Some("Already at last file".to_owned()) };
    }
    let next = state.current_file_index + 1;
    if next < state.file_line_offsets.len() {
        let (start, _) = state.file_line_offsets[next];
        state.current_file_index = next;
        let line = if start < total_lines { Some(start) } else { None };
        let message = file_status_message(state, next);
        NavOutcome { line, message: Some(message) }
    } else {
        NavOutcome { line: None, message: None }
    }
}

/// Moves a diff buffer to its previous file: the file's first line and a
/// status naming it; at the first file only a status. A file without a known
/// line range changes nothing.
pub fn github_pr_prev_file(state: &mut PRDiffState, total_lines: usize) -> (r: NavOutcome)
    requires
        old(state).files@.len() <= u64::MAX,
    ensures
        same_but_index(*final(state), *old(state)),
        ({
            let i = old(state).current_file_index;
            let n = old(state).files@.len();
            let offsets = old(state).file_line_offsets@;
            if i == 0 {
                &&& final(state).current_file_index == i
                &&& r.line is None
                &&& message_is(r.message, "Already at first file"@)
            } else if i - 1 < offsets.len() {
                let start = offsets[i - 1].0;
                &&& final(state).current_file_index == i - 1
                &&& r.line == if start < total_lines { Some(start) } else { None }
                &&& if i - 1 < n {
                    message_is(r.message, file_status_text((i - 1) as nat, n, old(state).files@[i - 1].path@))
                } else {
                    r.message is None
                }
            } else {
                &&& final(state).current_file_index == i
                &&& r.line is None
                &&& r.message is None
            }
        }),
{
    if state.current_file_index == 0 {
        return NavOutcome { line: None, message: Some("Already at first file".to_owned()) };
    }
    let prev = state.current_file_index - 1;
    if prev < state.file_line_offsets.len() {
        let (start, _) = state.file_line_offsets[prev];
        state.current_file_index = prev;
        let line = if start < total_lines { Some(start) } else { None };
        let message = if prev < state.files.len() {
            Some(file_status_message(state, prev))
        } else {
            None
        };
        NavOutcome { line, message }
    } else {
        NavOutcome { line: None, message: None }
    }
}

/// Moves the cursor of a diff buffer to the next hunk after `current_line`,
/// or shows that there is none. A hunk past the buffer's end moves nothing.
pub fn github_pr_next_hunk(state: &PRDiffState, current_line: usize, total_lines: usize) -> (r: NavOutcome)
    ensures
        match r.line {
            Some(l) => l < total_lines && r.message is None && exists|i: int|
                0 <= i < state.hunk_lines@.len() && state.hunk_lines@[i] == l && l > current_line
                    && forall|j: int| 0 <= j < i ==> state.hunk_lines@[j] <= current_line,
            None => if forall|j: int|
                0 <= j < state.hunk_lines@.len() ==> state.hunk_lines@[j] <= current_line {
                message_is(r.message, "No more hunks"@)
            } else {
                r.message is None && exists|i: int|
                    0 <= i < state.hunk_lines@.len() && state.hunk_lines@[i] >= total_lines
                        && state.hunk_lines@[i] > current_line && forall|j: int|
                        0 <= j < i ==> state.hunk_lines@[j] <= current_line
            },
        },
{
    match state.next_hunk_line(current_line) {
        Some(l) => {
            if l < total_lines {
                NavOutcome { line: Some(l), message: None }
            } else {
                NavOutcome { line: None, message: None }
            }
        },
        None => NavOutcome { line: None, message: Some("No more hunks".to_owned()) },
    }
}

/// Moves the cursor of a diff buffer to the last hunk before `current_line`,
/// or shows that there is none. A hunk past the buffer's end moves nothing.
pub fn github_pr_prev_hunk(state: &PRDiffState, current_line: usize, total_lines: usize) -> (r: NavOutcome)
    ensures
        match r.line {
            Some(l) => l < total_lines && r.message is None && exists|i: int|
                0 <= i < state.hunk_lines@.len() && state.hunk_lines@[i] == l && l < current_line
                    && forall|j: int| i < j < state.hunk_lines@.len() ==> state.hunk_lines@[j] >= current_line,
            None => if forall|j: int|
                0 <= j < state.hunk_lines@.len() ==> state.hunk_lines@[j] >= current_line {
                message_is(r.message, "No previous hunks"@)
            } else {
                r.message is None && exists|i: int|
                    0 <= i < state.hunk_lines@.len() && state.hunk_lines@[i] >= total_lines
                        && state.hunk_lines@[i] < current_line && forall|j: int|
                        i < j < state.hunk_lines@.len() ==> state.hunk_lines@[j] >= current_line
            },
        },
{
    match state.prev_hunk_line(current_line) {
        Some(l) => {
            if l < total_lines {
                NavOutcome { line: Some(l), message: None }
            } else {
                NavOutcome { line: None, message: None }
            }
        },
        None => NavOutcome { line: None, message: Some("No previous hunks".to_owned()) },
    }
}


/// The style a pull request's state is drawn in, in the picker.
#[derive(Debug, Clone, Copy, PartialEq, Eq, Structural)]
pub enum PRStateStyle {
    Draft,
    Open,
    Merged,
    Closed,
}

/// A draft is drawn as such, whatever its state; the others by their state.
pub fn pr_state_style(pr: &PullRequest) -> (r: PRStateStyle)
    ensures
        r == if pr.is_draft {
            PRStateStyle::Draft
        } else {
            match pr.state {
                PRState::Open => PRStateStyle::Open,
                PRState::Merged => PRStateStyle::Merged,
                PRState::Closed => PRStateStyle::Closed,
            }
        },
{
    if pr.is_draft {
        PRStateStyle::Draft
    } else {
        match pr.state {
            PRState::Open => PRStateStyle::Open,
            PRState::Merged => PRStateStyle::Merged,
            PRState::Closed => PRStateStyle::Closed,
        }
    }
}

/// The picker's `#` column: `#<number>`.
pub fn pr_number_cell(pr: &PullRequest) -> (r: String)
    ensures
        r@ == "#"@ + decimal(pr.number as nat),
{
    let mut v = chars_of("#");
    let mut d = decimal_chars(pr.number);
    v.append(&mut d);
    string_of(&v)
}

/// The picker's `+/-` column: `+<additions> -<deletions>`.
pub fn pr_changes_cell(pr: &PullRequest) -> (r: String)
    ensures
        r@ == "+"@ + decimal(pr.additions as nat) + " -"@ + decimal(pr.deletions as nat),
{
    let mut v = chars_of("+");
    let mut a = decimal_chars(pr.additions);
    v.append(&mut a);
    extend_str(&mut v, " -");
    let mut d = decimal_chars(pr.deletions);
    v.append(&mut d);
    string_of(&v)
}


/// The user name in what `gh api user --jq .login` prints: the text without
/// the white space around it.
pub fn current_user_from_output(output: &str) -> (r: String)
    ensures
        r@ == trim(output@),
{
    let cs = chars_of(output);
    let t = trim_chars(&cs);
    string_of(&t)
}


/// `<prefix><error>`.
fn prefixed(prefix: &str, error: &str) -> (r: String)
    ensures
        r@ == prefix@ + error@,
{
    let mut v = chars_of(prefix);
    extend_str(&mut v, error);
    string_of(&v)
}

/// The picker of the user's own pull requests, from the outcome of looking
/// the user up: the filter for that login, or the error
/// `Failed to get current user: <error>`, after which nothing is listed.
pub fn github_pr_picker_mine_step(user: Result<String, String>) -> (r: Result<PRFilter, String>)
    ensures
        match user {
            Ok(u) => r matches Ok(f) && f.author matches Some(a) && a@ == u@ && f.state is None
                && f.assignee is None && !f.review_requested && f.limit is None,
            Err(e) => r matches Err(m) && m@ == "Failed to get current user: "@ + e@,
        },
{
    match user {
        Ok(u) => Ok(github_pr_picker_mine(u.as_str())),
        Err(e) => Err(prefixed("Failed to get current user: ", e.as_str())),
    }
}

/// The pull requests a picker shows, from the outcome of listing them: the
/// list, or the error `Failed to list PRs: <error>` and no picker.
pub fn pr_listing_step(listing: Result<Vec<PullRequest>, String>) -> (r: Result<Vec<PullRequest>, String>)
    ensures
        match listing {
            Ok(prs) => r matches Ok(v) && v@ == prs@,
            Err(e) => r matches Err(m) && m@ == "Failed to list PRs: "@ + e@,
        },
{
    match listing {
        Ok(prs) => Ok(prs),
        Err(e) => Err(prefixed("Failed to list PRs: ", e.as_str())),
    }
}

/// The diff and files a diff buffer is built from, from the outcomes of
/// fetching them: both, or the error of the diff first
/// (`Failed to get PR diff: <error>`), then that of the files
/// (`Failed to get PR files: <error>`).
pub fn pr_diff_step(diff: Result<String, String>, files: Result<Vec<PRFile>, String>) -> (r: Result<(String, Vec<PRFile>), String>)
    ensures
        match (diff, files) {
            (Err(e), _) => r matches Err(m) && m@ == "Failed to get PR diff: "@ + e@,
            (Ok(_), Err(e)) => r matches Err(m) && m@ == "Failed to get PR files: "@ + e@,
            (Ok(d), Ok(fs)) => r matches Ok(p) && p.0@ == d@ && p.1@ == fs@,
        },
{
    match diff {
        Err(e) => Err(prefixed("Failed to get PR diff: ", e.as_str())),
        Ok(d) => match files {
            Err(e) => Err(prefixed("Failed to get PR files: ", e.as_str())),
            Ok(fs) => Ok((d, fs)),
        },
    }
}


/// The arguments that list the pull requests of a filter name the author
/// with `--author=<author>` where the filter has one, and name an assignee
/// with `--assignee=` only where the filter has one.
pub proof fn law_list_args_name_the_author(f: PRFilter)
    ensures
        f.author matches Some(a) ==> pr_list_args_of(f).contains("--author="@ + a@),
        f.author is None ==> forall|i: int| 0 <= i < pr_list_args_of(f).len() ==> !starts_with(
            #[trigger] pr_list_args_of(f)[i],
            "--author="@,
        ),
        f.assignee is None ==> forall|i: int| 0 <= i < pr_list_args_of(f).len() ==> !starts_with(
            #[trigger] pr_list_args_of(f)[i],
            "--assignee="@,
        ),
        f.assignee matches Some(a) ==> pr_list_args_of(f).contains("--assignee="@ + a@),
        f.state matches Some(st) ==> pr_list_args_of(f).contains("--state="@ + st@),
        f.review_requested ==> pr_list_args_of(f).contains("--search=review-requested:@me"@),
        pr_list_args_of(f).take(4) == seq!["pr"@, "list"@, "--json"@, PR_LIST_FIELDS@],
{
    reveal_strlit("pr");
    reveal_strlit("list");
    reveal_strlit("--json");
    reveal_strlit("--");
    reveal_strlit("=");
    reveal_strlit("state");
    reveal_strlit("author");
    reveal_strlit("assignee");
    reveal_strlit("--author=");
    reveal_strlit("--assignee=");
    reveal_strlit("--search=review-requested:@me");
    reveal_strlit("--limit=");
    reveal_strlit("number,title,body,author,state,isDraft,baseRefName,headRefName,url,additions,deletions,changedFiles,labels,assignees,reviewRequests");
    let base = seq!["pr"@, "list"@, "--json"@, PR_LIST_FIELDS@];
    let st = flag_arg("state"@, f.state);
    let au = flag_arg("author"@, f.author);
    let asg = flag_arg("assignee"@, f.assignee);
    let rr = if f.review_requested { seq!["--search=review-requested:@me"@] } else { Seq::<Seq<char>>::empty() };
    let lim = match f.limit {
        Some(n) => seq!["--limit="@ + decimal(n as nat)],
        None => Seq::<Seq<char>>::empty(),
    };
    let args = pr_list_args_of(f);
    assert(args == base + st + au + asg + rr + lim);
    let pre = base + st;
    reveal_strlit("--state=");
    assert(args.take(4) == base);
    match f.state {
        Some(x) => {
            assert(st[0] == "--state="@ + x@);
            assert(args[base.len() as int] == st[0]);
        },
        None => {},
    }
    if f.review_requested {
        assert(args[(pre + au + asg).len() as int] == rr[0]);
    }
    // where each flag's argument stands
    match f.author {
        Some(a) => {
            assert(au[0] == "--author="@ + a@);
            assert(args[pre.len() as int] == au[0]);
        },
        None => {},
    }
    match f.assignee {
        Some(a) => {
            assert(asg[0] == "--assignee="@ + a@);
            assert(args[(pre + au).len() as int] == asg[0]);
        },
        None => {},
    }
    // no other argument starts like an author or assignee flag
    assert forall|i: int| 0 <= i < args.len() && f.assignee is None implies !starts_with(
        #[trigger] args[i],
        "--assignee="@,
    ) by {
        let x = args[i];
        if starts_with(x, "--assignee="@) {
            assert(x.take(11)[2] == x[2]);
            assert(x.take(11)[3] == x[3]);
            if i >= pre.len() && i < (pre + au).len() {
                assert(x == au[i - pre.len()]);
                let y = f.author->0;
                assert(x == "--"@ + "author"@ + "="@ + y@);
                assert(x[3] == 'u');
            } else if i < base.len() {
                assert(x == base[i]);
            } else if i < pre.len() {
                assert(x == st[i - base.len()]);
                assert(x[2] == 's');
            } else if i < (pre + au + asg).len() {
                assert(false);
            } else if i < (pre + au + asg + rr).len() {
                assert(x == rr[i - (pre + au + asg).len()]);
            } else {
                assert(x == lim[i - (pre + au + asg + rr).len()]);
                assert(x[2] == 'l');
            }
        }
    }
    assert forall|i: int| 0 <= i < args.len() && f.author is None implies !starts_with(
        #[trigger] args[i],
        "--author="@,
    ) by {
        let x = args[i];
        if starts_with(x, "--author="@) {
            assert(x.take(9)[2] == x[2]);
            assert(x.take(9)[3] == x[3]);
            if i < base.len() {
                assert(x == base[i]);
            } else if i < pre.len() {
                assert(x == st[i - base.len()]);
                assert(x[2] == 's');
            } else if i < (pre + au).len() {
                assert(false);
            } else if i < (pre + au + asg).len() {
                assert(x == asg[i - (pre + au).len()]);
                let y = f.assignee->0;
                assert(x == "--"@ + "assignee"@ + "="@ + y@);
                assert(x[3] == 's');
            } else if i < (pre + au + asg + rr).len() {
                assert(x == rr[i - (pre + au + asg).len()]);
            } else {
                assert(x == lim[i - (pre + au + asg + rr).len()]);
                assert(x[2] == 'l');
            }
        }
    }
}

} // verus!
