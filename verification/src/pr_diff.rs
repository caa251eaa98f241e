//! The text of a pull-request diff buffer and the structure read back from it:
//! where each file's diff starts and ends, and where each hunk starts.
use vstd::prelude::*;
use crate::github::{PRDiffState, PRFile, status_icon_text};
use crate::text::{
    concat, decimal, decimal_chars, extend_chars, extend_str, lemma_concat_push, lines,
    split_lines, starts_with, starts_with_chars, chars_of, string_of,
};

verus! {

/// The rule under the file summary of a diff buffer.
pub const DIFF_RULE: &'static str = "# ─────────────────────────────────────────────────────────────────────\n";

/// The key help line of a diff buffer.
pub const DIFF_KEYS_LINE: &'static str = "# Keys: [n]ext file | [p]rev file | ]c/[c next/prev hunk | [q]uit\n";

/// The summary line of one changed file: `#   <icon> <path> (+<a> -<d>)`.
pub open spec fn file_summary_line(f: PRFile) -> Seq<char> {
    "#   "@ + status_icon_text(f.status) + " "@ + f.path@ + " (+"@ + decimal(f.additions as nat)
        + " -"@ + decimal(f.deletions as nat) + ")\n"@
}

/// The summary lines of the first `n` files.
pub open spec fn file_summary(files: Seq<PRFile>) -> Seq<char> {
    concat(files.map_values(|f: PRFile| file_summary_line(f)))
}

/// The whole text of a diff buffer: a commented header, the file summary and
/// the unified diff.
pub open spec fn pr_diff_content(number: u64, title: Seq<char>, files: Seq<PRFile>, diff: Seq<char>) -> Seq<char> {
    "# PR #"@ + decimal(number as nat) + " - "@ + title + "\n"@
        + "# "@ + decimal(files.len()) + " files changed\n"@
        + DIFF_KEYS_LINE@
        + "#\n"@
        + "# Files:\n"@
        + file_summary(files)
        + "#\n"@
        + DIFF_RULE@
        + "\n"@
        + diff
}

/// The text of the diff buffer of a pull request.
pub fn generate_pr_diff_content(pr_number: u64, title: &str, files: &[PRFile], diff: &str) -> (r: String)
    requires
        files@.len() <= u64::MAX,
    ensures
        r@ == pr_diff_content(pr_number, title@, files@, diff@),
{
    let mut v: Vec<char> = Vec::new();
    extend_str(&mut v, "# PR #");
    let mut d = decimal_chars(pr_number);
    v.append(&mut d);
    extend_str(&mut v, " - ");
    extend_str(&mut v, title);
    extend_str(&mut v, "\n");
    extend_str(&mut v, "# ");
    let mut d = decimal_chars(files.len() as u64);
    v.append(&mut d);
    extend_str(&mut v, " files changed\n");
    extend_str(&mut v, DIFF_KEYS_LINE);
    extend_str(&mut v, "#\n");
    extend_str(&mut v, "# Files:\n");
    let ghost head = v@;
    let ghost lines_spec = files@.map_values(|f: PRFile| file_summary_line(f));
    let mut i: usize = 0;
    while i < files.len()
        invariant
            i <= files@.len(),
            lines_spec == files@.map_values(|f: PRFile| file_summary_line(f)),
            v@ == head + concat(lines_spec.take(i as int)),
        decreases files.len() - i,
    {
        let f = &files[i];
        let mut line: Vec<char> = Vec::new();
        extend_str(&mut line, "#   ");
        extend_str(&mut line, f.status_icon());
        extend_str(&mut line, " ");
        extend_str(&mut line, f.path.as_str());
        extend_str(&mut line, " (+");
        let mut a = decimal_chars(f.additions);
        line.append(&mut a);
        extend_str(&mut line, " -");
        let mut dl = decimal_chars(f.deletions);
        line.append(&mut dl);
        extend_str(&mut line, ")\n");
        proof {
            assert(line@ == file_summary_line(files@[i as int]));
            assert(lines_spec.take(i + 1) == lines_spec.take(i as int).push(lines_spec[i as int]));
            lemma_concat_push(lines_spec.take(i as int), lines_spec[i as int]);
        }
        extend_chars(&mut v, &line);
        i = i + 1;
    }
    assert(lines_spec.take(files@.len() as int) == lines_spec);
    extend_str(&mut v, "#\n");
    extend_str(&mut v, DIFF_RULE);
    extend_str(&mut v, "\n");
    extend_str(&mut v, diff);
    string_of(&v)
}

/// A line that starts a file's diff.
pub open spec fn is_file_header(line: Seq<char>) -> bool {
    starts_with(line, "diff --git"@)
}

/// A line that starts a hunk (and does not start a file's diff).
pub open spec fn is_hunk_header(line: Seq<char>) -> bool {
    !is_file_header(line) && starts_with(line, "@@"@)
}

/// The numbers of the hunk header lines among the first `n` lines.
pub open spec fn hunk_line_numbers(ls: Seq<Seq<char>>, n: int) -> Seq<int>
    decreases n,
{
    if n <= 0 {
        Seq::empty()
    } else if is_hunk_header(ls[n - 1]) {
        hunk_line_numbers(ls, n - 1).push(n - 1)
    } else {
        hunk_line_numbers(ls, n - 1)
    }
}

/// The numbers of the file header lines among the first `n` lines.
pub open spec fn file_start_lines(ls: Seq<Seq<char>>, n: int) -> Seq<int>
    decreases n,
{
    if n <= 0 {
        Seq::empty()
    } else if is_file_header(ls[n - 1]) {
        file_start_lines(ls, n - 1).push(n - 1)
    } else {
        file_start_lines(ls, n - 1)
    }
}

/// The line range of the `j`-th file: from its header to the line before the
/// next file's header, the last file to the last line (`last`).
pub open spec fn file_range(starts: Seq<int>, j: int, last: int) -> (int, int) {
    if j + 1 < starts.len() {
        (starts[j], starts[j + 1] - 1)
    } else {
        (starts[j], last)
    }
}

/// The last line number of a text with `n` lines (0 for no line).
pub open spec fn last_line(n: int) -> int {
    if n > 0 { n - 1 } else { 0 }
}

/// Numbers grow along a start list.
proof fn lemma_starts_increasing(ls: Seq<Seq<char>>, n: int)
    requires
        0 <= n <= ls.len(),
    ensures
        forall|j: int| 0 <= j < file_start_lines(ls, n).len() ==> 0 <= #[trigger] file_start_lines(ls, n)[j] < n,
        forall|a: int, b: int|
            0 <= a < b < file_start_lines(ls, n).len() ==> file_start_lines(ls, n)[a] < file_start_lines(ls, n)[b],
    decreases n,
{
    if n > 0 {
        lemma_starts_increasing(ls, n - 1);
        let prev = file_start_lines(ls, n - 1);
        let cur = file_start_lines(ls, n);
        if is_file_header(ls[n - 1]) {
            assert(cur == prev.push(n - 1));
            assert forall|a: int, b: int| 0 <= a < b < cur.len() implies cur[a] < cur[b] by {
                if b == cur.len() - 1 {
                    assert(cur[a] == prev[a]);
                } else {
                    assert(cur[a] == prev[a] && cur[b] == prev[b]);
                }
            }
        } else {
            assert(cur == prev);
        }
    }
}

/// The hunk lines and the per-file line ranges of a diff buffer's text.
pub fn parse_diff_structure(content: &str) -> (r: (Vec<usize>, Vec<(usize, usize)>))
    ensures
        ({
            let ls = lines(content@);
            let hunks = hunk_line_numbers(ls, ls.len() as int);
            let starts = file_start_lines(ls, ls.len() as int);
            &&& r.0@.len() == hunks.len()
            &&& forall|i: int| 0 <= i < hunks.len() ==> r.0@[i] == hunks[i]
            &&& r.1@.len() == starts.len()
            &&& forall|j: int|
                0 <= j < starts.len() ==> (#[trigger] r.1@[j]).0 == file_range(starts, j, last_line(ls.len() as int)).0
                    && r.1@[j].1 == file_range(starts, j, last_line(ls.len() as int)).1
        }),
{
    let cs = chars_of(content);
    let ls = split_lines(&cs);
    let ghost sl = lines(content@);
    assert(ls@.len() == sl.len());
    let diff_tag = chars_of("diff --git");
    let hunk_tag = chars_of("@@");
    let mut hunks: Vec<usize> = Vec::new();
    let mut offsets: Vec<(usize, usize)> = Vec::new();
    let mut current: Option<usize> = None;
    let mut k: usize = 0;
    while k < ls.len()
        invariant
            k <= ls@.len(),
            ls@.len() == sl.len(),
            sl == lines(content@),
            forall|i: int| 0 <= i < ls@.len() ==> #[trigger] ls@[i]@ == sl[i],
            diff_tag@ == "diff --git"@,
            hunk_tag@ == "@@"@,
            hunks@.len() == hunk_line_numbers(sl, k as int).len(),
            forall|i: int| 0 <= i < hunks@.len() ==> hunks@[i] == hunk_line_numbers(sl, k as int)[i],
            ({
                let st = file_start_lines(sl, k as int);
                &&& current is None <==> st.len() == 0
                &&& current matches Some(c) ==> c == st.last()
                &&& offsets@.len() == if st.len() > 0 { st.len() - 1 } else { 0 }
                &&& forall|j: int|
                    0 <= j < offsets@.len() ==> (#[trigger] offsets@[j]).0 == st[j] && offsets@[j].1
                        == st[j + 1] - 1
            }),
        decreases ls.len() - k,
    {
        let ghost st_before = file_start_lines(sl, k as int);
        proof {
            lemma_starts_increasing(sl, k as int);
        }
        if starts_with_chars(&ls[k], &diff_tag) {
            match current {
                Some(start) => {
                    offsets.push((start, k - 1));
                },
                None => {},
            }
            current = Some(k);
            proof {
                let st = file_start_lines(sl, k + 1);
                assert(st == st_before.push(k as int));
                assert forall|j: int|
                    0 <= j < offsets@.len() implies (#[trigger] offsets@[j]).0 == st[j]
                        && offsets@[j].1 == st[j + 1] - 1 by {
                    if j + 1 == offsets@.len() {
                    }
                }
            }
        } else if starts_with_chars(&ls[k], &hunk_tag) {
            hunks.push(k);
        }
        k = k + 1;
    }
    match current {
        Some(start) => {
            let end: usize = if ls.len() > 0 { ls.len() - 1 } else { 0 };
            offsets.push((start, end));
        },
        None => {},
    }
    (hunks, offsets)
}

/// The diff buffer of a pull request: its text and the diff state read from it.
pub fn build_pr_diff_buffer(pr_number: u64, pr_title: String, files: Vec<PRFile>, diff: String) -> (r: (String, PRDiffState))
    requires
        files@.len() <= u64::MAX,
    ensures
        r.0@ == pr_diff_content(pr_number, pr_title@, files@, diff@),
        r.1.pr_number == pr_number,
        r.1.pr_title@ == pr_title@,
        r.1.files@ == files@,
        r.1.current_file_index == 0,
        r.1.unified_diff@ == diff@,
        ({
            let ls = lines(r.0@);
            let hunks = hunk_line_numbers(ls, ls.len() as int);
            let starts = file_start_lines(ls, ls.len() as int);
            &&& r.1.hunk_lines@.len() == hunks.len()
            &&& forall|i: int| 0 <= i < hunks.len() ==> r.1.hunk_lines@[i] == hunks[i]
            &&& r.1.file_line_offsets@.len() == starts.len()
            &&& forall|j: int|
                0 <= j < starts.len() ==> (#[trigger] r.1.file_line_offsets@[j]).0 == file_range(starts, j, last_line(ls.len() as int)).0
                    && r.1.file_line_offsets@[j].1 == file_range(starts, j, last_line(ls.len() as int)).1
        }),
{
    let content = generate_pr_diff_content(pr_number, pr_title.as_str(), files.as_slice(), diff.as_str());
    let (hunk_lines, file_line_offsets) = parse_diff_structure(content.as_str());
    let mut state = PRDiffState::new(pr_number, pr_title);
    state.files = files;
    state.unified_diff = diff;
    state.hunk_lines = hunk_lines;
    state.file_line_offsets = file_line_offsets;
    (content, state)
}

} // verus!
