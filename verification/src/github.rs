//! Pull-request data: the records that the `gh` tool reports, the filter that
//! selects pull requests, and the state of a pull-request diff buffer.
use vstd::prelude::*;
use crate::text::{all_digits, is_digit, is_ws, lemma_decimal_digits, lemma_digit_not_ws, lemma_word_prefix_append, trim_start, without_plus, word_prefix, chars_of, decimal, decimal_chars, extend_str, first_word, first_word_chars, parse_u64, parse_u64_chars, slice_chars, starts_with, starts_with_chars, str_starts_with, string_of};

verus! {

/// Prefix of the name of every pull-request diff buffer.
pub const GITHUB_PR_BUFFER_PREFIX: &'static str = "[pr-diff] ";

/// Pull request state.
#[derive(Debug, Clone, Copy, PartialEq, Eq, Structural)]
pub enum PRState {
    Open,
    Closed,
    Merged,
}

/// The upper-case name under which a state is shown.
pub open spec fn pr_state_text(s: PRState) -> Seq<char> {
    match s {
        PRState::Open => "OPEN"@,
        PRState::Closed => "CLOSED"@,
        PRState::Merged => "MERGED"@,
    }
}

impl PRState {
    /// The upper-case name of the state (`OPEN`, `CLOSED`, `MERGED`).
    pub fn to_string(&self) -> (r: String)
        ensures
            r@ == pr_state_text(*self),
    {
        match self {
            PRState::Open => "OPEN".to_owned(),
            PRState::Closed => "CLOSED".to_owned(),
            PRState::Merged => "MERGED".to_owned(),
        }
    }
}

/// File status in a pull request.
#[derive(Debug, Clone, Copy, PartialEq, Eq, Structural)]
pub enum PRFileStatus {
    Added,
    Modified,
    Deleted,
    Renamed,
    Copied,
}

/// The one-character icon of a file status.
pub open spec fn status_icon_text(s: PRFileStatus) -> Seq<char> {
    match s {
        PRFileStatus::Added => "+"@,
        PRFileStatus::Modified => "~"@,
        PRFileStatus::Deleted => "-"@,
        PRFileStatus::Renamed => "→"@,
        PRFileStatus::Copied => "⊕"@,
    }
}

impl PRFileStatus {
    /// The icon of the status as a string.
    pub fn to_string(&self) -> (r: String)
        ensures
            r@ == status_icon_text(*self),
    {
        self.icon().to_owned()
    }

    /// The icon of the status.
    pub fn icon(&self) -> (r: &'static str)
        ensures
            r@ == status_icon_text(*self),
    {
        match self {
            PRFileStatus::Added => "+",
            PRFileStatus::Modified => "~",
            PRFileStatus::Deleted => "-",
            PRFileStatus::Renamed => "→",
            PRFileStatus::Copied => "⊕",
        }
    }
}

/// A GitHub user: an author, an assignee, or a user whose approval is asked.
#[derive(Debug, Clone)]
pub struct GitHubUser {
    pub login: String,
}

/// A GitHub label.
#[derive(Debug, Clone)]
pub struct GitHubLabel {
    pub name: String,
}

/// A review request.
#[derive(Debug, Clone)]
pub struct ReviewRequest {
    pub requested_reviewer: Option<GitHubUser>,
}

/// A GitHub pull request.
#[derive(Debug, Clone)]
pub struct PullRequest {
    pub number: u64,
    pub title: String,
    pub body: Option<String>,
    pub author: GitHubUser,
    pub state: PRState,
    pub is_draft: bool,
    pub base_ref_name: String,
    pub head_ref_name: String,
    pub url: String,
    pub additions: u64,
    pub deletions: u64,
    pub changed_files: u64,
    pub labels: Vec<GitHubLabel>,
    pub assignees: Vec<GitHubUser>,
    pub review_requests: Vec<ReviewRequest>,
}

/// The logins of the users whose approval is asked, in order, skipping requests that
/// name no user.
pub open spec fn reviewer_logins_of(reqs: Seq<ReviewRequest>) -> Seq<Seq<char>>
    decreases reqs.len(),
{
    if reqs.len() == 0 {
        Seq::empty()
    } else {
        let rest = reviewer_logins_of(reqs.drop_last());
        match reqs.last().requested_reviewer {
            Some(u) => rest.push(u.login@),
            None => rest,
        }
    }
}

/// The state shown for a pull request: `DRAFT` for a draft, else its state.
pub open spec fn state_display_text(is_draft: bool, state: PRState) -> Seq<char> {
    if is_draft {
        "DRAFT"@
    } else {
        pr_state_text(state)
    }
}

impl PullRequest {
    /// The author's login name.
    pub fn author_login(&self) -> (r: &str)
        ensures
            r@ == self.author.login@,
    {
        self.author.login.as_str()
    }

    /// The names of the labels, in order.
    pub fn label_names(&self) -> (r: Vec<&str>)
        ensures
            r@.len() == self.labels@.len(),
            forall|i: int| 0 <= i < r@.len() ==> #[trigger] r@[i]@ == self.labels@[i].name@,
    {
        let mut r: Vec<&str> = Vec::new();
        let mut i: usize = 0;
        while i < self.labels.len()
            invariant
                i <= self.labels@.len(),
                r@.len() == i,
                forall|j: int| 0 <= j < i ==> #[trigger] r@[j]@ == self.labels@[j].name@,
            decreases self.labels.len() - i,
        {
            r.push(self.labels[i].name.as_str());
            i = i + 1;
        }
        r
    }

    /// The logins of the assignees, in order.
    pub fn assignee_logins(&self) -> (r: Vec<&str>)
        ensures
            r@.len() == self.assignees@.len(),
            forall|i: int| 0 <= i < r@.len() ==> #[trigger] r@[i]@ == self.assignees@[i].login@,
    {
        let mut r: Vec<&str> = Vec::new();
        let mut i: usize = 0;
        while i < self.assignees.len()
            invariant
                i <= self.assignees@.len(),
                r@.len() == i,
                forall|j: int| 0 <= j < i ==> #[trigger] r@[j]@ == self.assignees@[j].login@,
            decreases self.assignees.len() - i,
        {
            r.push(self.assignees[i].login.as_str());
            i = i + 1;
        }
        r
    }

    /// The logins of the users whose approval is asked, in order.
    pub fn reviewer_logins(&self) -> (r: Vec<&str>)
        ensures
            r@.len() == reviewer_logins_of(self.review_requests@).len(),
            forall|i: int|
                0 <= i < r@.len() ==> #[trigger] r@[i]@ == reviewer_logins_of(
                    self.review_requests@,
                )[i],
    {
        let mut r: Vec<&str> = Vec::new();
        let mut i: usize = 0;
        while i < self.review_requests.len()
            invariant
                i <= self.review_requests@.len(),
                r@.len() == reviewer_logins_of(self.review_requests@.take(i as int)).len(),
                forall|j: int|
                    0 <= j < r@.len() ==> #[trigger] r@[j]@ == reviewer_logins_of(
                        self.review_requests@.take(i as int),
                    )[j],
            decreases self.review_requests.len() - i,
        {
            assert(self.review_requests@.take(i + 1).drop_last() == self.review_requests@.take(
                i as int,
            ));
            match &self.review_requests[i].requested_reviewer {
                Some(u) => {
                    r.push(u.login.as_str());
                },
                None => {},
            }
            i = i + 1;
        }
        assert(self.review_requests@.take(i as int) == self.review_requests@);
        r
    }

    /// The state to display, `DRAFT` for a draft.
    pub fn state_display(&self) -> (r: &'static str)
        ensures
            r@ == state_display_text(self.is_draft, self.state),
    {
        if self.is_draft {
            "DRAFT"
        } else {
            match self.state {
                PRState::Open => "OPEN",
                PRState::Closed => "CLOSED",
                PRState::Merged => "MERGED",
            }
        }
    }
}

/// A file changed in a pull request.
#[derive(Debug, Clone)]
pub struct PRFile {
    pub path: String,
    pub status: PRFileStatus,
    pub additions: u64,
    pub deletions: u64,
    pub patch: Option<String>,
}

impl PRFile {
    /// The display icon of the file's status.
    pub fn status_icon(&self) -> (r: &'static str)
        ensures
            r@ == status_icon_text(self.status),
    {
        self.status.icon()
    }
}

/// Filter options for listing pull requests.
#[derive(Debug, Clone)]
pub struct PRFilter {
    /// Filter by PR state (open, closed, merged, all).
    pub state: Option<String>,
    /// Filter by author login.
    pub author: Option<String>,
    /// Filter by assignee login.
    pub assignee: Option<String>,
    /// Filter PRs that await the user's approval.
    pub review_requested: bool,
    /// Limit the number of results.
    pub limit: Option<u32>,
}

impl Default for PRFilter {
    /// The filter that selects every pull request.
    fn default() -> (r: Self)
        ensures
            r.state is None,
            r.author is None,
            r.assignee is None,
            !r.review_requested,
            r.limit is None,
    {
        PRFilter { state: None, author: None, assignee: None, review_requested: false, limit: None }
    }
}

impl PRFilter {
    /// A filter for open pull requests only.
    pub fn open() -> (r: Self)
        ensures
            r.state matches Some(s) && s@ == "open"@,
            r.author is None,
            r.assignee is None,
            !r.review_requested,
            r.limit is None,
    {
        PRFilter {
            state: Some("open".to_owned()),
            author: None,
            assignee: None,
            review_requested: false,
            limit: None,
        }
    }

    /// A filter for pull requests authored by `author`.
    pub fn by_author(author: &str) -> (r: Self)
        ensures
            r.state is None,
            r.author matches Some(a) && a@ == author@,
            r.assignee is None,
            !r.review_requested,
            r.limit is None,
    {
        PRFilter {
            state: None,
            author: Some(author.to_owned()),
            assignee: None,
            review_requested: false,
            limit: None,
        }
    }

    /// A filter for pull requests that await the user's approval.
    pub fn review_requested() -> (r: Self)
        ensures
            r.state is None,
            r.author is None,
            r.assignee is None,
            r.review_requested,
            r.limit is None,
    {
        PRFilter { state: None, author: None, assignee: None, review_requested: true, limit: None }
    }
}

/// State for a pull-request diff buffer.
#[derive(Debug, Clone)]
pub struct PRDiffState {
    /// The PR number.
    pub pr_number: u64,
    /// The PR title.
    pub pr_title: String,
    /// Files changed in the PR.
    pub files: Vec<PRFile>,
    /// Current file index being viewed.
    pub current_file_index: usize,
    /// The unified diff content.
    pub unified_diff: String,
    /// Line ranges `(start_line, end_line)` of each file in the diff buffer.
    pub file_line_offsets: Vec<(usize, usize)>,
    /// Hunk header line numbers, for navigation.
    pub hunk_lines: Vec<usize>,
}

/// The name of the diff buffer of a pull request: `[pr-diff] #<number> - <title>`.
pub open spec fn pr_buffer_name(number: u64, title: Seq<char>) -> Seq<char> {
    GITHUB_PR_BUFFER_PREFIX@ + "#"@ + decimal(number as nat) + " - "@ + title
}

/// Two diff states that differ at most in the current file index.
pub open spec fn same_but_index(a: PRDiffState, b: PRDiffState) -> bool {
    &&& a.pr_number == b.pr_number
    &&& a.pr_title@ == b.pr_title@
    &&& a.files@ == b.files@
    &&& a.unified_diff@ == b.unified_diff@
    &&& a.file_line_offsets@ == b.file_line_offsets@
    &&& a.hunk_lines@ == b.hunk_lines@
}

/// The file index after moving to the next file of `n`.
pub open spec fn index_after_next(i: usize, n: nat) -> usize {
    if i + 1 < n { (i + 1) as usize } else { i }
}

/// The file index after moving to the previous file.
pub open spec fn index_after_prev(i: usize) -> usize {
    if i > 0 { (i - 1) as usize } else { i }
}

impl PRDiffState {
    /// A new diff state with no files, no diff and the first file current.
    pub fn new(pr_number: u64, pr_title: String) -> (r: Self)
        ensures
            r.pr_number == pr_number,
            r.pr_title@ == pr_title@,
            r.files@.len() == 0,
            r.current_file_index == 0,
            r.unified_diff@.len() == 0,
            r.file_line_offsets@.len() == 0,
            r.hunk_lines@.len() == 0,
    {
        PRDiffState {
            pr_number,
            pr_title,
            files: Vec::new(),
            current_file_index: 0,
            unified_diff: String::new(),
            file_line_offsets: Vec::new(),
            hunk_lines: Vec::new(),
        }
    }

    /// The buffer name of this diff.
    pub fn buffer_name(&self) -> (r: String)
        ensures
            r@ == pr_buffer_name(self.pr_number, self.pr_title@),
    {
        let mut v: Vec<char> = Vec::new();
        extend_str(&mut v, GITHUB_PR_BUFFER_PREFIX);
        v.push('#');
        let mut n = decimal_chars(self.pr_number);
        v.append(&mut n);
        extend_str(&mut v, " - ");
        extend_str(&mut v, self.pr_title.as_str());
        proof {
            reveal_strlit("#");
        }
        string_of(&v)
    }

    /// The file being viewed, if the index is in range.
    pub fn current_file(&self) -> (r: Option<&PRFile>)
        ensures
            match r {
                Some(f) => self.current_file_index < self.files@.len() && *f
                    == self.files@[self.current_file_index as int],
                None => self.current_file_index >= self.files@.len(),
            },
    {
        if self.current_file_index < self.files.len() {
            Some(&self.files[self.current_file_index])
        } else {
            None
        }
    }

    /// Moves to the next file; `false`, with nothing changed, at the last one.
    pub fn next_file(&mut self) -> (moved: bool)
        ensures
            moved == (old(self).current_file_index + 1 < old(self).files@.len()),
            final(self).current_file_index == index_after_next(
                old(self).current_file_index,
                old(self).files@.len(),
            ),
            same_but_index(*final(self), *old(self)),
    {
        if self.current_file_index < self.files.len() && self.files.len() - self.current_file_index
            > 1 {
            self.current_file_index = self.current_file_index + 1;
            true
        } else {
            false
        }
    }

    /// Moves to the previous file; `false`, with nothing changed, at the first.
    pub fn prev_file(&mut self) -> (moved: bool)
        ensures
            moved == (old(self).current_file_index > 0),
            final(self).current_file_index == index_after_prev(old(self).current_file_index),
            same_but_index(*final(self), *old(self)),
    {
        if self.current_file_index > 0 {
            self.current_file_index = self.current_file_index - 1;
            true
        } else {
            false
        }
    }

    /// The first hunk line after `current_line`, in the order stored.
    pub fn next_hunk_line(&self, current_line: usize) -> (r: Option<usize>)
        ensures
            match r {
                Some(l) => exists|i: int|
                    0 <= i < self.hunk_lines@.len() && self.hunk_lines@[i] == l && l
                        > current_line && forall|j: int|
                        0 <= j < i ==> self.hunk_lines@[j] <= current_line,
                None => forall|j: int|
                    0 <= j < self.hunk_lines@.len() ==> self.hunk_lines@[j] <= current_line,
            },
    {
        let mut i: usize = 0;
        while i < self.hunk_lines.len()
            invariant
                i <= self.hunk_lines@.len(),
                forall|j: int| 0 <= j < i ==> self.hunk_lines@[j] <= current_line,
            decreases self.hunk_lines.len() - i,
        {
            if self.hunk_lines[i] > current_line {
                return Some(self.hunk_lines[i]);
            }
            i = i + 1;
        }
        None
    }

    /// The last hunk line before `current_line`, in the order stored.
    pub fn prev_hunk_line(&self, current_line: usize) -> (r: Option<usize>)
        ensures
            match r {
                Some(l) => exists|i: int|
                    0 <= i < self.hunk_lines@.len() && self.hunk_lines@[i] == l && l
                        < current_line && forall|j: int|
                        i < j < self.hunk_lines@.len() ==> self.hunk_lines@[j] >= current_line,
                None => forall|j: int|
                    0 <= j < self.hunk_lines@.len() ==> self.hunk_lines@[j] >= current_line,
            },
    {
        let mut i: usize = self.hunk_lines.len();
        while i > 0
            invariant
                i <= self.hunk_lines@.len(),
                forall|j: int| i <= j < self.hunk_lines@.len() ==> self.hunk_lines@[j] >= current_line,
            decreases i,
        {
            if self.hunk_lines[i - 1] < current_line {
                return Some(self.hunk_lines[i - 1]);
            }
            i = i - 1;
        }
        None
    }

    /// The index of the first file whose line range holds `line`.
    pub fn file_at_line(&self, line: usize) -> (r: Option<usize>)
        ensures
            match r {
                Some(k) => k < self.file_line_offsets@.len() && in_range(
                    self.file_line_offsets@[k as int],
                    line,
                ) && forall|j: int|
                    0 <= j < k ==> !in_range(#[trigger] self.file_line_offsets@[j], line),
                None => forall|j: int|
                    0 <= j < self.file_line_offsets@.len() ==> !in_range(#[trigger] self.file_line_offsets@[j], line),
            },
    {
        let mut i: usize = 0;
        while i < self.file_line_offsets.len()
            invariant
                i <= self.file_line_offsets@.len(),
                forall|j: int|
                    0 <= j < i ==> !in_range(#[trigger] self.file_line_offsets@[j], line),
            decreases self.file_line_offsets.len() - i,
        {
            let (start, end) = self.file_line_offsets[i];
            if line >= start && line <= end {
                return Some(i);
            }
            i = i + 1;
        }
        None
    }
}

/// `line` lies in the inclusive line range `r`.
pub open spec fn in_range(r: (usize, usize), line: usize) -> bool {
    r.0 <= line <= r.1
}

/// The name is that of a pull-request diff buffer.
pub fn is_github_pr_buffer_name(name: &str) -> (r: bool)
    ensures
        r == starts_with(name@, GITHUB_PR_BUFFER_PREFIX@),
{
    str_starts_with(name, GITHUB_PR_BUFFER_PREFIX)
}

/// The number that a diff buffer name holds: after the prefix a `#`, then the
/// first whitespace-separated word, read as a `u64`.
pub open spec fn pr_number_of(name: Seq<char>) -> Option<u64> {
    if starts_with(name, GITHUB_PR_BUFFER_PREFIX@) {
        let rest = name.skip(GITHUB_PR_BUFFER_PREFIX@.len() as int);
        if rest.len() > 0 && rest[0] == '#' {
            match first_word(rest.drop_first()) {
                Some(w) => parse_u64(w),
                None => None,
            }
        } else {
            None
        }
    } else {
        None
    }
}

/// The pull-request number of a diff buffer name.
pub fn pr_number_from_buffer_name(name: &str) -> (r: Option<u64>)
    ensures
        r == pr_number_of(name@),
{
    let n = chars_of(name);
    let p = chars_of(GITHUB_PR_BUFFER_PREFIX);
    if !starts_with_chars(&n, &p) {
        return None;
    }
    if p.len() >= n.len() || n[p.len()] != '#' {
        return None;
    }
    let rest = slice_chars(&n, p.len() + 1, n.len());
    assert(rest@ == n@.skip(p@.len() as int).drop_first());
    match first_word_chars(&rest) {
        Some(w) => parse_u64_chars(&w),
        None => None,
    }
}


/// The number read back from a diff buffer's name is the pull request's
/// number, whatever its title.
pub proof fn law_buffer_name_number(number: u64, title: Seq<char>)
    ensures
        pr_number_of(pr_buffer_name(number, title)) == Some(number),
        starts_with(pr_buffer_name(number, title), GITHUB_PR_BUFFER_PREFIX@),
{
    reveal_strlit("#");
    reveal_strlit(" - ");
    let p = GITHUB_PR_BUFFER_PREFIX@;
    let d = decimal(number as nat);
    let tail = " - "@ + title;
    let name = pr_buffer_name(number, title);
    assert(name == p + ("#"@ + (d + tail)));
    assert(name.take(p.len() as int) == p);
    let rest = name.skip(p.len() as int);
    assert(rest == "#"@ + (d + tail));
    assert(rest[0] == '#');
    let x = rest.drop_first();
    assert(x == d + tail);
    lemma_decimal_digits(number as nat);
    assert(is_digit(d[0]));
    lemma_digit_not_ws(d[0]);
    assert(x[0] == d[0]);
    assert(trim_start(x) == x);
    assert forall|i: int| 0 <= i < d.len() implies !is_ws(#[trigger] d[i]) by {
        assert(is_digit(d[i]));
        lemma_digit_not_ws(d[i]);
    }
    assert(tail[0] == ' ');
    lemma_word_prefix_append(d, tail);
    assert(first_word(x) == Some(d));
    assert(without_plus(d) == d);
}


/// Moving to the next file and back returns to the same file, where there
/// is a next file; moving back and forward again likewise, where there is a
/// previous one.
pub proof fn law_next_file_then_prev(i: usize, n: nat)
    requires
        n <= usize::MAX,
    ensures
        i + 1 < n ==> index_after_prev(index_after_next(i, n)) == i,
        0 < i < n ==> index_after_next(index_after_prev(i), n) == i,
{
}

} // verus!
