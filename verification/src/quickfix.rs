//! The quickfix list: file locations gathered from pickers, searches or
//! diagnostics, a current position that wraps around, and the buffer text
//! that lists them.
use vstd::prelude::*;
use crate::path::{is_absolute_path, normalize_path, normalized, path_is_absolute, path_strip_prefix, strip_path_prefix};
use crate::text::{
    chars_of, concat, decimal, decimal_chars, extend_chars, extend_str, first_line,
    lemma_concat_append, lemma_concat_push, lemma_decimal_no_newline, lemma_first_line_no_newline,
    lemma_lines_concat, lines, no_newline, pad_left, pad_left_chars, split_lines, string_of, strip_cr,
};

verus! {

/// The name of the quickfix buffer.
pub const QUICKFIX_BUFFER_NAME: &'static str = "[quickfix]";

/// The help line under the title of the quickfix buffer.
pub const QUICKFIX_HELP_LINE: &'static str = "# Press Enter on a line to jump to that location\n";

/// A single location in a file.
#[derive(Debug, Clone)]
pub struct QuickfixItem {
    /// The path of the file that holds this location.
    pub uri: String,
    /// The line number (0-indexed).
    pub line: usize,
    /// The column number (0-indexed).
    pub col: usize,
    /// Optional end position for range highlighting.
    pub end_line: Option<usize>,
    pub end_col: Option<usize>,
    /// A text description or preview of this location.
    pub text: String,
    /// Optional kind label (e.g. "error", "warning", "match").
    pub kind: Option<String>,
}

/// The working directory as paths are compared with it: normalized where it
/// is absolute.
pub open spec fn cwd_for_display(cwd: Seq<char>) -> Seq<char> {
    if path_is_absolute(cwd) { normalized(cwd) } else { cwd }
}

/// How a path is shown: relative to the working directory where, both
/// normalized, it lies under it; else under `~` where it lies under the home
/// directory; a relative path as it is.
pub open spec fn display_path_of(p: Seq<char>, cwd: Seq<char>, home: Option<Seq<char>>) -> Seq<char> {
    if path_is_absolute(p) {
        match path_strip_prefix(normalized(p), cwd_for_display(cwd)) {
            Some(r) => r,
            None => match home {
                Some(h) => match path_strip_prefix(p, h) {
                    Some(r) => "~/"@ + r,
                    None => p,
                },
                None => p,
            },
        }
    } else {
        p
    }
}

/// `path:line:col`, with line and column counted from 1.
pub open spec fn location_text(item: QuickfixItem, cwd: Seq<char>, home: Option<Seq<char>>) -> Seq<char> {
    display_path_of(item.uri@, cwd, home) + ":"@ + decimal((item.line + 1) as nat) + ":"@
        + decimal((item.col + 1) as nat)
}

/// The line and column of the item can be counted from 1.
pub open spec fn countable(item: QuickfixItem) -> bool {
    item.line < usize::MAX && item.col < usize::MAX
}

impl QuickfixItem {
    /// A location without a range or kind.
    pub fn new(uri: String, line: usize, col: usize, text: String) -> (r: Self)
        ensures
            r.uri@ == uri@,
            r.line == line,
            r.col == col,
            r.end_line is None,
            r.end_col is None,
            r.text@ == text@,
            r.kind is None,
    {
        QuickfixItem { uri, line, col, end_line: None, end_col: None, text, kind: None }
    }

    /// A location with an end position.
    pub fn with_range(uri: String, line: usize, col: usize, end_line: usize, end_col: usize, text: String) -> (r: Self)
        ensures
            r.uri@ == uri@,
            r.line == line,
            r.col == col,
            r.end_line == Some(end_line),
            r.end_col == Some(end_col),
            r.text@ == text@,
            r.kind is None,
    {
        QuickfixItem {
            uri,
            line,
            col,
            end_line: Some(end_line),
            end_col: Some(end_col),
            text,
            kind: None,
        }
    }

    /// The same location with a kind label.
    pub fn with_kind(self, kind: String) -> (r: Self)
        ensures
            r.uri@ == self.uri@,
            r.line == self.line,
            r.col == self.col,
            r.end_line == self.end_line,
            r.end_col == self.end_col,
            r.text@ == self.text@,
            r.kind matches Some(k) && k@ == kind@,
    {
        let mut s = self;
        s.kind = Some(kind);
        s
    }

    /// The path of the file; every location here names a file.
    pub fn path(&self) -> (r: Option<&str>)
        ensures
            r matches Some(p) && p@ == self.uri@,
    {
        Some(self.uri.as_str())
    }

    /// The path as shown: relative to `cwd` where it lies under it, else
    /// under `~` where it lies under `home`.
    pub fn display_path(&self, cwd: &str, home: Option<&str>) -> (r: String)
        ensures
            r@ == display_path_of(self.uri@, cwd@, match home {
                Some(h) => Some(h@),
                None => None,
            }),
    {
        let v = self.display_path_chars(cwd, home);
        string_of(&v)
    }

    fn display_path_chars(&self, cwd: &str, home: Option<&str>) -> (r: Vec<char>)
        ensures
            r@ == display_path_of(self.uri@, cwd@, match home {
                Some(h) => Some(h@),
                None => None,
            }),
    {
        let p = self.uri.as_str();
        if !is_absolute_path(p) {
            return chars_of(p);
        }
        let np = normalize_path(p);
        let nc = if is_absolute_path(cwd) { normalize_path(cwd) } else { cwd.to_owned() };
        match strip_path_prefix(np.as_str(), nc.as_str()) {
            Some(r) => chars_of(r.as_str()),
            None => match home {
                Some(h) => match strip_path_prefix(p, h) {
                    Some(r) => {
                        let mut v = chars_of("~/");
                        extend_str(&mut v, r.as_str());
                        v
                    },
                    None => chars_of(p),
                },
                None => chars_of(p),
            },
        }
    }

    /// `path:line:col`, with line and column counted from 1.
    pub fn location_string(&self, cwd: &str, home: Option<&str>) -> (r: String)
        requires
            countable(*self),
        ensures
            r@ == location_text(*self, cwd@, match home {
                Some(h) => Some(h@),
                None => None,
            }),
    {
        let v = self.location_chars(cwd, home);
        string_of(&v)
    }

    fn location_chars(&self, cwd: &str, home: Option<&str>) -> (r: Vec<char>)
        requires
            countable(*self),
        ensures
            r@ == location_text(*self, cwd@, match home {
                Some(h) => Some(h@),
                None => None,
            }),
    {
        let mut v = self.display_path_chars(cwd, home);
        extend_str(&mut v, ":");
        let mut l = decimal_chars((self.line + 1) as u64);
        v.append(&mut l);
        extend_str(&mut v, ":");
        let mut c = decimal_chars((self.col + 1) as u64);
        v.append(&mut c);
        v
    }
}

/// The quickfix list: its items, the current position and an optional title.
#[derive(Debug, Clone)]
pub struct QuickfixList {
    items: Vec<QuickfixItem>,
    current: usize,
    title: Option<String>,
}

/// The contents of a quickfix list.
pub struct QuickfixListView {
    pub items: Seq<QuickfixItem>,
    pub current: nat,
    pub title: Option<Seq<char>>,
}

impl View for QuickfixList {
    type V = QuickfixListView;

    closed spec fn view(&self) -> QuickfixListView {
        QuickfixListView {
            items: self.items@,
            current: self.current as nat,
            title: match self.title {
                Some(t) => Some(t@),
                None => None,
            },
        }
    }
}

/// The position `count` steps after `cur` in a ring of `len` positions.
pub open spec fn ring_forward(cur: nat, count: nat, len: nat) -> nat {
    ((cur + count) as int % (len as int)) as nat
}

/// The position `count` steps before `cur` in a ring of `len` positions.
pub open spec fn ring_backward(cur: nat, count: nat, len: nat) -> nat {
    ((cur + len - (count as int % (len as int))) % (len as int)) as nat
}

/// The title line of the quickfix buffer.
pub open spec fn quickfix_title_line(title: Option<Seq<char>>, n: nat) -> Seq<char> {
    match title {
        Some(t) => "# Quickfix: "@ + t + " ("@ + decimal(n) + " items)\n"@,
        None => "# Quickfix ("@ + decimal(n) + " items)\n"@,
    }
}

/// `[kind] ` for an item with a kind, nothing otherwise.
pub open spec fn kind_prefix(kind: Option<String>) -> Seq<char> {
    match kind {
        Some(k) => "["@ + k@ + "] "@,
        None => Seq::empty(),
    }
}

/// The buffer line of the `idx`-th item: an optional right-aligned number,
/// the location, the kind and the first line of the text.
pub open spec fn quickfix_item_line(
    idx: int,
    item: QuickfixItem,
    numbered: bool,
    cwd: Seq<char>,
    home: Option<Seq<char>>,
) -> Seq<char> {
    (if numbered { pad_left(decimal((idx + 1) as nat), 4) + " | "@ } else { Seq::empty() })
        + location_text(item, cwd, home) + " | "@ + kind_prefix(item.kind) + first_line(item.text@)
        + "\n"@
}

/// The text of the quickfix buffer: a title line, a help line, a blank line,
/// then one line per item.
pub open spec fn quickfix_buffer_text(
    v: QuickfixListView,
    numbered: bool,
    cwd: Seq<char>,
    home: Option<Seq<char>>,
) -> Seq<char> {
    quickfix_title_line(v.title, v.items.len()) + QUICKFIX_HELP_LINE@ + "\n"@ + concat(
        Seq::new(v.items.len(), |i: int| quickfix_item_line(i, v.items[i], numbered, cwd, home)),
    )
}

/// The status text: `[empty]`, or `[<current>/<count>]` counting from 1.
pub open spec fn quickfix_status_text(v: QuickfixListView) -> Seq<char> {
    if v.items.len() == 0 {
        "[empty]"@
    } else {
        "["@ + decimal(v.current + 1) + "/"@ + decimal(v.items.len()) + "]"@
    }
}

/// The item index shown on a buffer line: lines 0 to 2 are the header.
pub open spec fn item_index_of_line(line: nat, n: nat) -> Option<nat> {
    if line < 3 || line - 3 >= n {
        None
    } else {
        Some((line - 3) as nat)
    }
}

impl QuickfixList {
    /// The position is that of an item, or 0 for an empty list.
    pub closed spec fn wf(&self) -> bool {
        self.current == 0 || self.current < self.items@.len()
    }

    /// An empty list without a title.
    pub fn new() -> (r: Self)
        ensures
            r.wf(),
            r@.items.len() == 0,
            r@.current == 0,
            r@.title is None,
    {
        QuickfixList { items: Vec::new(), current: 0, title: None }
    }

    /// A list of the given items, the first current, without a title.
    pub fn with_items(items: Vec<QuickfixItem>) -> (r: Self)
        ensures
            r.wf(),
            r@.items == items@,
            r@.current == 0,
            r@.title is None,
    {
        QuickfixList { items, current: 0, title: None }
    }

    /// The same list with a title.
    pub fn with_title(self, title: String) -> (r: Self)
        requires
            self.wf(),
        ensures
            r.wf(),
            r@.items == self@.items,
            r@.current == self@.current,
            r@.title == Some(title@),
    {
        let mut s = self;
        s.title = Some(title);
        s
    }

    /// The title, if any.
    pub fn title(&self) -> (r: Option<&str>)
        ensures
            match r {
                Some(t) => self@.title == Some(t@),
                None => self@.title is None,
            },
    {
        match &self.title {
            Some(t) => Some(t.as_str()),
            None => None,
        }
    }

    /// Sets the title.
    pub fn set_title(&mut self, title: String)
        requires
            old(self).wf(),
        ensures
            final(self).wf(),
            final(self)@.items == old(self)@.items,
            final(self)@.current == old(self)@.current,
            final(self)@.title == Some(title@),
    {
        self.title = Some(title);
    }

    /// Removes every item and the title.
    pub fn clear(&mut self)
        ensures
            final(self).wf(),
            final(self)@.items.len() == 0,
            final(self)@.current == 0,
            final(self)@.title is None,
    {
        self.items.clear();
        self.current = 0;
        self.title = None;
    }

    /// Adds an item at the end; the position stays.
    pub fn push(&mut self, item: QuickfixItem)
        requires
            old(self).wf(),
        ensures
            final(self).wf(),
            final(self)@.items == old(self)@.items.push(item),
            final(self)@.current == old(self)@.current,
            final(self)@.title == old(self)@.title,
    {
        self.items.push(item);
    }

    /// Replaces every item; the first becomes current.
    pub fn set_items(&mut self, items: Vec<QuickfixItem>)
        ensures
            final(self).wf(),
            final(self)@.items == items@,
            final(self)@.current == 0,
            final(self)@.title == old(self)@.title,
    {
        self.items = items;
        self.current = 0;
    }

    /// The number of items.
    pub fn len(&self) -> (r: usize)
        ensures
            r == self@.items.len(),
    {
        self.items.len()
    }

    /// The list holds no item.
    pub fn is_empty(&self) -> (r: bool)
        ensures
            r == (self@.items.len() == 0),
    {
        self.items.len() == 0
    }

    /// The current item, `None` for an empty list.
    pub fn current(&self) -> (r: Option<&QuickfixItem>)
        requires
            self.wf(),
        ensures
            match r {
                Some(it) => self@.current < self@.items.len() && *it == self@.items[self@.current as int],
                None => self@.items.len() == 0,
            },
    {
        if self.current < self.items.len() {
            Some(&self.items[self.current])
        } else {
            None
        }
    }

    /// The current position (0-indexed).
    pub fn current_index(&self) -> (r: usize)
        ensures
            r == self@.current,
    {
        self.current
    }

    /// Makes `index` current, or the last item where `index` is past the end;
    /// an empty list stays as it is.
    pub fn set_current(&mut self, index: usize)
        requires
            old(self).wf(),
        ensures
            final(self).wf(),
            final(self)@.items == old(self)@.items,
            final(self)@.title == old(self)@.title,
            final(self)@.current == if old(self)@.items.len() == 0 {
                old(self)@.current
            } else if index < old(self)@.items.len() {
                index as nat
            } else {
                (old(self)@.items.len() - 1) as nat
            },
    {
        if self.items.len() > 0 {
            let last = self.items.len() - 1;
            self.current = if index < last { index } else { last };
        }
    }

    /// Moves `count` items forward, wrapping around, and returns the new
    /// current item; `None` for an empty list.
    pub fn forward(&mut self, count: usize) -> (r: Option<&QuickfixItem>)
        requires
            old(self).wf(),
        ensures
            final(self).wf(),
            final(self)@.items == old(self)@.items,
            final(self)@.title == old(self)@.title,
            old(self)@.items.len() == 0 ==> r is None && final(self)@.current == old(self)@.current,
            old(self)@.items.len() > 0 ==> final(self)@.current == ring_forward(
                old(self)@.current,
                count as nat,
                old(self)@.items.len(),
            ) && r == Some(&final(self)@.items[final(self)@.current as int]),
    {
        if self.items.len() == 0 {
            return None;
        }
        let len = self.items.len();
        let k = count % len;
        let cur = self.current;
        let next = if k >= len - cur { k - (len - cur) } else { cur + k };
        proof {
            let c = cur as int;
            let l = len as int;
            let kk = k as int;
            assert(kk == (count as int) % l);
            vstd::arithmetic::div_mod::lemma_add_mod_noop(c, count as int, l);
            vstd::arithmetic::div_mod::lemma_small_mod(c as nat, l as nat);
            assert((c + count) % l == (c + kk) % l);
            if kk >= l - c {
                assert(c + kk == (c + kk - l) + l);
                vstd::arithmetic::div_mod::lemma_mod_add_multiples_vanish(c + kk - l, l);
                vstd::arithmetic::div_mod::lemma_small_mod((c + kk - l) as nat, l as nat);
                assert((c + kk) % l == next as int);
            } else {
                vstd::arithmetic::div_mod::lemma_small_mod((c + kk) as nat, l as nat);
                assert((c + kk) % l == next as int);
            }
            assert(ring_forward(c as nat, count as nat, l as nat) == next);
        }
        self.current = next;
        Some(&self.items[self.current])
    }

    /// Moves `count` items backward, wrapping around, and returns the new
    /// current item; `None` for an empty list.
    pub fn backward(&mut self, count: usize) -> (r: Option<&QuickfixItem>)
        requires
            old(self).wf(),
        ensures
            final(self).wf(),
            final(self)@.items == old(self)@.items,
            final(self)@.title == old(self)@.title,
            old(self)@.items.len() == 0 ==> r is None && final(self)@.current == old(self)@.current,
            old(self)@.items.len() > 0 ==> final(self)@.current == ring_backward(
                old(self)@.current,
                count as nat,
                old(self)@.items.len(),
            ) && r == Some(&final(self)@.items[final(self)@.current as int]),
    {
        if self.items.len() == 0 {
            return None;
        }
        let len = self.items.len();
        let k = count % len;
        let cur = self.current;
        let next = if cur >= k { cur - k } else { cur + (len - k) };
        proof {
            let c = cur as int;
            let l = len as int;
            let kk = k as int;
            assert(kk == (count as int) % l);
            if c >= kk {
                assert(c + l - kk == (c - kk) + l);
                vstd::arithmetic::div_mod::lemma_mod_add_multiples_vanish(c - kk, l);
                vstd::arithmetic::div_mod::lemma_small_mod((c - kk) as nat, l as nat);
            } else {
                vstd::arithmetic::div_mod::lemma_small_mod((c + l - kk) as nat, l as nat);
            }
        }
        self.current = next;
        Some(&self.items[self.current])
    }

    /// Moves to the next item, wrapping around, and returns it.
    pub fn next(&mut self) -> (r: Option<&QuickfixItem>)
        requires
            old(self).wf(),
        ensures
            final(self).wf(),
            final(self)@.items == old(self)@.items,
            final(self)@.title == old(self)@.title,
            old(self)@.items.len() == 0 ==> r is None && final(self)@.current == old(self)@.current,
            old(self)@.items.len() > 0 ==> final(self)@.current == ring_forward(
                old(self)@.current,
                1,
                old(self)@.items.len(),
            ) && r == Some(&final(self)@.items[final(self)@.current as int]),
    {
        if self.items.len() == 0 {
            return None;
        }
        let len = self.items.len();
        let cur = self.current;
        self.current = if cur + 1 == len { 0 } else { cur + 1 };
        proof {
            if cur + 1 == len {
                vstd::arithmetic::div_mod::lemma_mod_self_0(len as int);
            } else {
                vstd::arithmetic::div_mod::lemma_small_mod((cur + 1) as nat, len as nat);
            }
        }
        Some(&self.items[self.current])
    }

    /// Moves to the previous item, wrapping around, and returns it.
    pub fn prev(&mut self) -> (r: Option<&QuickfixItem>)
        requires
            old(self).wf(),
        ensures
            final(self).wf(),
            final(self)@.items == old(self)@.items,
            final(self)@.title == old(self)@.title,
            old(self)@.items.len() == 0 ==> r is None && final(self)@.current == old(self)@.current,
            old(self)@.items.len() > 0 ==> final(self)@.current == ring_backward(
                old(self)@.current,
                1,
                old(self)@.items.len(),
            ) && r == Some(&final(self)@.items[final(self)@.current as int]),
    {
        if self.items.len() == 0 {
            return None;
        }
        let len = self.items.len();
        let cur = self.current;
        self.current = if cur == 0 { len - 1 } else { cur - 1 };
        proof {
            let l = len as int;
            if l == 1 {
                assert(1int % 1 == 0);
            } else {
                vstd::arithmetic::div_mod::lemma_small_mod(1, l as nat);
            }
            if cur == 0 {
                vstd::arithmetic::div_mod::lemma_small_mod((l - 1) as nat, l as nat);
            } else {
                assert(cur + l - 1 == (cur - 1) + l);
                vstd::arithmetic::div_mod::lemma_mod_add_multiples_vanish(cur - 1, l);
                vstd::arithmetic::div_mod::lemma_small_mod((cur - 1) as nat, l as nat);
            }
        }
        Some(&self.items[self.current])
    }

    /// Goes to the first item and returns it.
    pub fn first(&mut self) -> (r: Option<&QuickfixItem>)
        requires
            old(self).wf(),
        ensures
            final(self).wf(),
            final(self)@.items == old(self)@.items,
            final(self)@.title == old(self)@.title,
            old(self)@.items.len() == 0 ==> r is None && final(self)@.current == old(self)@.current,
            old(self)@.items.len() > 0 ==> final(self)@.current == 0 && r == Some(
                &final(self)@.items[0],
            ),
    {
        if self.items.len() == 0 {
            return None;
        }
        self.current = 0;
        Some(&self.items[self.current])
    }

    /// Goes to the last item and returns it.
    pub fn last(&mut self) -> (r: Option<&QuickfixItem>)
        requires
            old(self).wf(),
        ensures
            final(self).wf(),
            final(self)@.items == old(self)@.items,
            final(self)@.title == old(self)@.title,
            old(self)@.items.len() == 0 ==> r is None && final(self)@.current == old(self)@.current,
            old(self)@.items.len() > 0 ==> final(self)@.current == old(self)@.items.len() - 1
                && r == Some(&final(self)@.items[final(self)@.current as int]),
    {
        if self.items.len() == 0 {
            return None;
        }
        self.current = self.items.len() - 1;
        Some(&self.items[self.current])
    }

    /// All items, in order.
    pub fn iter(&self) -> (r: &[QuickfixItem])
        ensures
            r@ == self@.items,
    {
        self.items.as_slice()
    }

    /// All items, in order.
    pub fn items(&self) -> (r: &[QuickfixItem])
        ensures
            r@ == self@.items,
    {
        self.items.as_slice()
    }

    /// `[empty]`, or `[<current>/<count>]` counting from 1.
    pub fn status(&self) -> (r: String)
        requires
            self.wf(),
        ensures
            r@ == quickfix_status_text(self@),
    {
        if self.items.len() == 0 {
            return "[empty]".to_owned();
        }
        let mut v: Vec<char> = Vec::new();
        extend_str(&mut v, "[");
        let mut c = decimal_chars((self.current + 1) as u64);
        v.append(&mut c);
        extend_str(&mut v, "/");
        let mut n = decimal_chars(self.items.len() as u64);
        v.append(&mut n);
        extend_str(&mut v, "]");
        string_of(&v)
    }

    /// The text of the quickfix buffer: a title line, a help line, a blank
    /// line, then one `path:line:col | [kind] text` line per item, optionally
    /// numbered.
    pub fn to_buffer_content(&self, show_line_numbers: bool, cwd: &str, home: Option<&str>) -> (r: String)
        requires
            self@.items.len() < usize::MAX,
            forall|i: int| 0 <= i < self@.items.len() ==> countable(#[trigger] self@.items[i]),
        ensures
            r@ == quickfix_buffer_text(self@, show_line_numbers, cwd@, match home {
                Some(h) => Some(h@),
                None => None,
            }),
    {
        let ghost home_v = match home {
            Some(h) => Some(h@),
            None => None::<Seq<char>>,
        };
        let mut v: Vec<char> = Vec::new();
        match &self.title {
            Some(t) => {
                extend_str(&mut v, "# Quickfix: ");
                extend_str(&mut v, t.as_str());
                extend_str(&mut v, " (");
            },
            None => {
                extend_str(&mut v, "# Quickfix (");
            },
        }
        let mut n = decimal_chars(self.items.len() as u64);
        v.append(&mut n);
        extend_str(&mut v, " items)\n");
        extend_str(&mut v, QUICKFIX_HELP_LINE);
        extend_str(&mut v, "\n");
        let ghost head = v@;
        let ghost parts = Seq::new(
            self@.items.len(),
            |i: int| quickfix_item_line(i, self@.items[i], show_line_numbers, cwd@, home_v),
        );
        let mut i: usize = 0;
        while i < self.items.len()
            invariant
                i <= self.items@.len(),
                self.items@.len() < usize::MAX,
                forall|j: int| 0 <= j < self.items@.len() ==> countable(#[trigger] self.items@[j]),
                self@.items == self.items@,
                parts == Seq::new(
                    self@.items.len(),
                    |i: int| quickfix_item_line(i, self@.items[i], show_line_numbers, cwd@, home_v),
                ),
                home_v == match home {
                    Some(h) => Some(h@),
                    None => None::<Seq<char>>,
                },
                v@ == head + concat(parts.take(i as int)),
            decreases self.items.len() - i,
        {
            let line = item_line_chars(i, &self.items[i], show_line_numbers, cwd, home);
            proof {
                assert(parts.take(i + 1) == parts.take(i as int).push(parts[i as int]));
                lemma_concat_push(parts.take(i as int), parts[i as int]);
            }
            extend_chars(&mut v, &line);
            i = i + 1;
        }
        assert(parts.take(self@.items.len() as int) == parts);
        string_of(&v)
    }

    /// The index of the item shown on a buffer line; lines 0 to 2 are the
    /// header.
    pub fn line_to_item_index(&self, line: usize) -> (r: Option<usize>)
        ensures
            match r {
                Some(i) => item_index_of_line(line as nat, self@.items.len()) == Some(i as nat),
                None => item_index_of_line(line as nat, self@.items.len()) is None,
            },
    {
        if line < 3 {
            return None;
        }
        let idx = line - 3;
        if idx < self.items.len() {
            Some(idx)
        } else {
            None
        }
    }

    /// The item shown on a buffer line.
    pub fn item_at_line(&self, line: usize) -> (r: Option<&QuickfixItem>)
        ensures
            match r {
                Some(it) => item_index_of_line(line as nat, self@.items.len()) matches Some(i) && *it
                    == self@.items[i as int],
                None => item_index_of_line(line as nat, self@.items.len()) is None,
            },
    {
        match self.line_to_item_index(line) {
            Some(idx) => Some(&self.items[idx]),
            None => None,
        }
    }
}

fn kind_prefix_chars(kind: &Option<String>) -> (r: Vec<char>)
    ensures
        r@ == kind_prefix(*kind),
{
    match kind {
        Some(k) => {
            let mut v = chars_of("[");
            extend_str(&mut v, k.as_str());
            extend_str(&mut v, "] ");
            v
        },
        None => Vec::new(),
    }
}

fn first_line_chars(text: &String) -> (r: Vec<char>)
    ensures
        r@ == first_line(text@),
{
    let cs = chars_of(text.as_str());
    let ls = split_lines(&cs);
    if ls.len() > 0 {
        let mut v: Vec<char> = Vec::new();
        extend_chars(&mut v, &ls[0]);
        v
    } else {
        cs
    }
}

fn item_line_chars(idx: usize, item: &QuickfixItem, numbered: bool, cwd: &str, home: Option<&str>) -> (r: Vec<char>)
    requires
        idx < usize::MAX,
        countable(*item),
    ensures
        r@ == quickfix_item_line(idx as int, *item, numbered, cwd@, match home {
            Some(h) => Some(h@),
            None => None,
        }),
{
    let mut v: Vec<char> = Vec::new();
    if numbered {
        let n = decimal_chars((idx + 1) as u64);
        let mut p = pad_left_chars(&n, 4);
        v.append(&mut p);
        extend_str(&mut v, " | ");
    }
    let mut loc = item.location_chars(cwd, home);
    v.append(&mut loc);
    extend_str(&mut v, " | ");
    let mut k = kind_prefix_chars(&item.kind);
    v.append(&mut k);
    let mut f = first_line_chars(&item.text);
    v.append(&mut f);
    extend_str(&mut v, "\n");
    v
}

} // verus!

verus! {

/// Moving `count` items forward and then `count` items back returns to the
/// same item.
pub proof fn law_forward_then_backward(cur: nat, count: nat, len: nat)
    requires
        cur < len,
    ensures
        ring_backward(ring_forward(cur, count, len), count, len) == cur,
{
    let l = len as int;
    let c = cur as int;
    let k = count as int;
    let f = (c + k) % l;
    vstd::arithmetic::div_mod::lemma_fundamental_div_mod(c + k, l);
    vstd::arithmetic::div_mod::lemma_fundamental_div_mod(k, l);
    let km = k % l;
    assert(0 <= km < l);
    assert(0 <= f < l);
    // f + l - km == c + l * (1 + k / l - (c + k) / l)
    let q = 1 + k / l - (c + k) / l;
    assert(f + l - km == c + l * q) by (nonlinear_arith)
        requires
            c + k == l * ((c + k) / l) + f,
            k == l * (k / l) + km,
            q == 1 + k / l - (c + k) / l;
    vstd::arithmetic::div_mod::lemma_mod_multiples_vanish(q, c, l);
    vstd::arithmetic::div_mod::lemma_small_mod(c as nat, l as nat);
}

/// Moving `count` items back and then `count` items forward returns to the
/// same item.
pub proof fn law_backward_then_forward(cur: nat, count: nat, len: nat)
    requires
        cur < len,
    ensures
        ring_forward(ring_backward(cur, count, len), count, len) == cur,
{
    let l = len as int;
    let c = cur as int;
    let k = count as int;
    vstd::arithmetic::div_mod::lemma_fundamental_div_mod(k, l);
    let km = k % l;
    assert(0 <= km < l);
    let a = c + l - km;
    vstd::arithmetic::div_mod::lemma_fundamental_div_mod(a, l);
    let b = a % l;
    assert(0 <= b < l);
    // b + k == c + l * q
    let q = 1 + k / l - a / l;
    assert(b + k == c + l * q) by (nonlinear_arith)
        requires
            a == l * (a / l) + b,
            k == l * (k / l) + km,
            a == c + l - km,
            q == 1 + k / l - a / l;
    vstd::arithmetic::div_mod::lemma_mod_multiples_vanish(q, c, l);
    vstd::arithmetic::div_mod::lemma_small_mod(c as nat, l as nat);
    assert(ring_backward(cur, count, len) == b as nat);
}

/// Moving forward from the last item wraps to the first, and moving back
/// from the first wraps to the last.
pub proof fn law_wrap_around(len: nat)
    requires
        len > 0,
    ensures
        ring_forward((len - 1) as nat, 1, len) == 0,
        ring_backward(0, 1, len) == len - 1,
{
    let l = len as int;
    vstd::arithmetic::div_mod::lemma_mod_self_0(l);
    if l == 1 {
        assert(1int % 1 == 0);
        assert(0int % 1 == 0);
    } else {
        vstd::arithmetic::div_mod::lemma_small_mod(1, len);
        vstd::arithmetic::div_mod::lemma_small_mod((len - 1) as nat, len);
    }
}

/// Moving as many items forward as the list holds returns to the same item.
pub proof fn law_full_cycle(cur: nat, len: nat)
    requires
        cur < len,
    ensures
        ring_forward(cur, len, len) == cur,
{
    vstd::arithmetic::div_mod::lemma_mod_add_multiples_vanish(cur as int, len as int);
    vstd::arithmetic::div_mod::lemma_small_mod(cur, len);
}

/// Every move stays within the list.
pub proof fn law_moves_stay_in_list(cur: nat, count: nat, len: nat)
    requires
        len > 0,
    ensures
        ring_forward(cur, count, len) < len,
        ring_backward(cur, count, len) < len,
{
}


/// `p` is one line: text without a line feed, then a line feed.
pub open spec fn single_line(p: Seq<char>) -> bool {
    &&& p.len() > 0
    &&& p.last() == '\n'
    &&& forall|i: int| 0 <= i < p.len() - 1 ==> p[i] != '\n'
}

proof fn lemma_no_newline_add(a: Seq<char>, b: Seq<char>)
    requires
        no_newline(a),
        no_newline(b),
    ensures
        no_newline(a + b),
{
    assert forall|i: int| 0 <= i < (a + b).len() implies (a + b)[i] != '\n' by {
        if i >= a.len() {
            assert((a + b)[i] == b[i - a.len()]);
        }
    }
}

proof fn lemma_single_line_add(a: Seq<char>, l: Seq<char>)
    requires
        no_newline(a),
        single_line(l),
    ensures
        single_line(a + l),
{
    assert((a + l).last() == l.last());
    assert forall|i: int| 0 <= i < (a + l).len() - 1 implies (a + l)[i] != '\n' by {
        if i >= a.len() {
            assert((a + l)[i] == l[i - a.len()]);
        }
    }
}

proof fn lemma_title_single_line(title: Option<Seq<char>>, n: nat)
    requires
        match title {
            Some(t) => no_newline(t),
            None => true,
        },
    ensures
        single_line(quickfix_title_line(title, n)),
{
    reveal_strlit("# Quickfix: ");
    reveal_strlit(" (");
    reveal_strlit(" items)\n");
    reveal_strlit("# Quickfix (");
    lemma_decimal_no_newline(n);
    assert(single_line(" items)\n"@));
    match title {
        Some(t) => {
            assert(no_newline("# Quickfix: "@));
            assert(no_newline(" ("@));
            lemma_no_newline_add("# Quickfix: "@, t);
            lemma_no_newline_add("# Quickfix: "@ + t, " ("@);
            lemma_no_newline_add("# Quickfix: "@ + t + " ("@, decimal(n));
            lemma_single_line_add("# Quickfix: "@ + t + " ("@ + decimal(n), " items)\n"@);
        },
        None => {
            assert(no_newline("# Quickfix ("@));
            lemma_no_newline_add("# Quickfix ("@, decimal(n));
            lemma_single_line_add("# Quickfix ("@ + decimal(n), " items)\n"@);
        },
    }
}

proof fn lemma_item_single_line(idx: int, item: QuickfixItem, numbered: bool, cwd: Seq<char>, home: Option<Seq<char>>)
    requires
        0 <= idx,
        no_newline(display_path_of(item.uri@, cwd, home)),
        item.kind matches Some(k) ==> no_newline(k@),
    ensures
        single_line(quickfix_item_line(idx, item, numbered, cwd, home)),
{
    reveal_strlit(" | ");
    reveal_strlit(":");
    reveal_strlit("[");
    reveal_strlit("] ");
    reveal_strlit("\n");
    assert(no_newline(" | "@));
    assert(no_newline(":"@));
    assert(no_newline("["@));
    assert(no_newline("] "@));
    assert(single_line("\n"@));
    let num = decimal((idx + 1) as nat);
    lemma_decimal_no_newline((idx + 1) as nat);
    let padded = pad_left(num, 4);
    assert(no_newline(padded)) by {
        if num.len() < 4 {
            let sp = Seq::new((4 - num.len()) as nat, |i: int| ' ');
            assert(no_newline(sp));
            lemma_no_newline_add(sp, num);
        }
    }
    let prefix = if numbered { padded + " | "@ } else { Seq::empty() };
    assert(no_newline(prefix)) by {
        if numbered {
            lemma_no_newline_add(padded, " | "@);
        }
    }
    let d = display_path_of(item.uri@, cwd, home);
    lemma_decimal_no_newline((item.line + 1) as nat);
    lemma_decimal_no_newline((item.col + 1) as nat);
    lemma_no_newline_add(d, ":"@);
    lemma_no_newline_add(d + ":"@, decimal((item.line + 1) as nat));
    lemma_no_newline_add(d + ":"@ + decimal((item.line + 1) as nat), ":"@);
    lemma_no_newline_add(d + ":"@ + decimal((item.line + 1) as nat) + ":"@, decimal((item.col + 1) as nat));
    let loc = location_text(item, cwd, home);
    assert(no_newline(loc));
    let kp = kind_prefix(item.kind);
    assert(no_newline(kp)) by {
        match item.kind {
            Some(k) => {
                lemma_no_newline_add("["@, k@);
                lemma_no_newline_add("["@ + k@, "] "@);
            },
            None => {},
        }
    }
    lemma_first_line_no_newline(item.text@);
    lemma_no_newline_add(prefix, loc);
    lemma_no_newline_add(prefix + loc, " | "@);
    lemma_no_newline_add(prefix + loc + " | "@, kp);
    lemma_no_newline_add(prefix + loc + " | "@ + kp, first_line(item.text@));
    lemma_single_line_add(prefix + loc + " | "@ + kp + first_line(item.text@), "\n"@);
}

/// The quickfix buffer has three header lines and then one line per item:
/// line `3 + i` is the line of item `i`, and Enter on it jumps to item `i`.
/// This holds where the title, the shown paths and the kinds hold no line
/// feed.
pub proof fn law_buffer_lines_are_items(v: QuickfixListView, numbered: bool, cwd: Seq<char>, home: Option<Seq<char>>)
    requires
        match v.title {
            Some(t) => no_newline(t),
            None => true,
        },
        forall|i: int| 0 <= i < v.items.len() ==> no_newline(display_path_of((#[trigger] v.items[i]).uri@, cwd, home)),
        forall|i: int| 0 <= i < v.items.len() ==> ((#[trigger] v.items[i]).kind matches Some(k) ==> no_newline(k@)),
    ensures
        lines(quickfix_buffer_text(v, numbered, cwd, home)).len() == 3 + v.items.len(),
        forall|i: int|
            0 <= i < v.items.len() ==> {
                &&& #[trigger] lines(quickfix_buffer_text(v, numbered, cwd, home))[3 + i] == strip_cr(
                    quickfix_item_line(i, v.items[i], numbered, cwd, home).drop_last(),
                )
                &&& item_index_of_line((3 + i) as nat, v.items.len()) == Some(i as nat)
            },
{
    let n = v.items.len();
    let items = Seq::new(n, |i: int| quickfix_item_line(i, v.items[i], numbered, cwd, home));
    let title = quickfix_title_line(v.title, n);
    let header = seq![title, QUICKFIX_HELP_LINE@, "\n"@];
    let parts = header + items;
    reveal_strlit("# Press Enter on a line to jump to that location\n");
    reveal_strlit("\n");
    lemma_title_single_line(v.title, n);
    assert(single_line(QUICKFIX_HELP_LINE@));
    assert(single_line("\n"@));
    assert forall|k: int| 0 <= k < parts.len() implies single_line(#[trigger] parts[k]) by {
        if k >= 3 {
            assert(parts[k] == items[k - 3]);
            lemma_item_single_line(k - 3, v.items[k - 3], numbered, cwd, home);
        } else {
            assert(parts[k] == header[k]);
        }
    }
    lemma_concat_append(header, items);
    assert(concat(header) == title + QUICKFIX_HELP_LINE@ + "\n"@) by {
        let h0 = Seq::<Seq<char>>::empty();
        let h1 = h0.push(title);
        let h2 = h1.push(QUICKFIX_HELP_LINE@);
        assert(header == h2.push("\n"@));
        assert(concat(h0) == Seq::<char>::empty());
        lemma_concat_push(h0, title);
        assert(Seq::<char>::empty() + title == title);
        lemma_concat_push(h1, QUICKFIX_HELP_LINE@);
        lemma_concat_push(h2, "\n"@);
    }
    assert(quickfix_buffer_text(v, numbered, cwd, home) == concat(parts));
    lemma_lines_concat(parts);
    let f = |p: Seq<char>| strip_cr(p.drop_last());
    assert(lines(concat(parts)) == parts.map_values(f));
    assert forall|i: int| 0 <= i < n implies #[trigger] lines(quickfix_buffer_text(v, numbered, cwd, home))[3 + i]
        == strip_cr(quickfix_item_line(i, v.items[i], numbered, cwd, home).drop_last()) by {
        assert(parts[3 + i] == items[i]);
    }
}

} // verus!
