//! The state of the oil editor overlay: the directory shown, a cursor over
//! its lines (a header, `..`, then one line per entry), and the operations
//! waiting for confirmation.
use vstd::prelude::*;
use crate::oil::{OilEntry, OilOperation, OilState, op_views, oil_operations, compute_oil_operations};
use crate::text::{chars_of, decimal, decimal_chars, extend_str, pad_left, pad_left_chars, string_of};
use crate::oil::{OilFileType, OilSortOrder};
use crate::path::{join_path, parent_path, path_join, path_parent};

verus! {

/// The oil editor overlay.
pub struct OilEditor {
    buffer: OilState,
    cursor_line: usize,
    scroll_offset: usize,
    show_help: bool,
    show_confirmation: bool,
    pending_ops: Vec<OilOperation>,
    status: Option<String>,
    modified: bool,
}

/// What the editor holds, as text.
pub struct OilEditorView {
    pub directory: Seq<char>,
    pub entries: Seq<OilEntry>,
    pub cursor_line: nat,
    pub scroll_offset: nat,
    pub show_help: bool,
    pub show_confirmation: bool,
    pub pending: Seq<OilOperation>,
    pub status: Option<Seq<char>>,
    pub modified: bool,
    pub show_hidden: bool,
    pub sort_order: OilSortOrder,
}

impl View for OilEditor {
    type V = OilEditorView;

    closed spec fn view(&self) -> OilEditorView {
        OilEditorView {
            directory: self.buffer.directory@,
            entries: self.buffer.original_entries@,
            cursor_line: self.cursor_line as nat,
            scroll_offset: self.scroll_offset as nat,
            show_help: self.show_help,
            show_confirmation: self.show_confirmation,
            pending: self.pending_ops@,
            status: match self.status {
                Some(s) => Some(s@),
                None => None,
            },
            modified: self.modified,
            show_hidden: self.buffer.show_hidden,
            sort_order: self.buffer.sort_order,
        }
    }
}

/// What the editor asks of its host after a save.
#[derive(Debug, Clone, Copy, PartialEq, Eq, Structural)]
pub enum SaveDecision {
    /// Nothing to do.
    Nothing,
    /// Ask the user to confirm the pending operations.
    Confirm,
    /// Run the pending operations now.
    Apply,
}

/// `<count> operation(s) completed successfully`.
pub open spec fn completed_text(count: nat) -> Seq<char> {
    decimal(count) + " operation(s) completed successfully"@
}

impl OilEditor {
    /// An editor for a directory and its listing, the cursor on the first
    /// entry (after the header line and `..`).
    pub fn new(path: String, entries: Vec<OilEntry>) -> (r: Self)
        ensures
            r@.directory == path@,
            r@.entries == entries@,
            r@.cursor_line == 2,
            r@.scroll_offset == 0,
            !r@.show_help,
            !r@.show_confirmation,
            r@.pending.len() == 0,
            r@.status is None,
            !r@.modified,
            !r@.show_hidden,
            r@.sort_order == OilSortOrder::Name,
    {
        let mut buffer = OilState::new(path);
        buffer.original_entries = entries;
        OilEditor {
            buffer,
            cursor_line: 2,
            scroll_offset: 0,
            show_help: false,
            show_confirmation: false,
            pending_ops: Vec::new(),
            status: None,
            modified: false,
        }
    }

    /// The directory shown.
    pub fn path(&self) -> (r: &String)
        ensures
            r@ == self@.directory,
    {
        &self.buffer.directory
    }

    /// The number of lines: the header, `..` and one per entry.
    pub fn total_lines(&self) -> (r: usize)
        requires
            self@.entries.len() + 2 <= usize::MAX,
        ensures
            r == self@.entries.len() + 2,
    {
        2 + self.buffer.original_entries.len()
    }

    /// Moves the cursor up one line, staying on the first.
    pub fn cursor_up(&mut self)
        ensures
            final(self)@ == with_cursor(old(self)@, if old(self)@.cursor_line > 0 {
                (old(self)@.cursor_line - 1) as nat
            } else {
                0
            }),
    {
        if self.cursor_line > 0 {
            self.cursor_line = self.cursor_line - 1;
        }
    }

    /// Moves the cursor down one line, staying on the last of `max_lines`.
    pub fn cursor_down(&mut self, max_lines: usize)
        ensures
            final(self)@ == with_cursor(old(self)@, if old(self)@.cursor_line + 1 < max_lines {
                old(self)@.cursor_line + 1
            } else {
                old(self)@.cursor_line
            }),
    {
        let last = if max_lines > 0 { max_lines - 1 } else { 0 };
        if self.cursor_line < last {
            self.cursor_line = self.cursor_line + 1;
        }
    }

    /// Shows another directory: its listing, the cursor on its first entry,
    /// nothing modified.
    pub fn load_directory(&mut self, path: String, entries: Vec<OilEntry>)
        ensures
            final(self)@.directory == path@,
            final(self)@.entries == entries@,
            final(self)@.cursor_line == 2,
            final(self)@.scroll_offset == 0,
            !final(self)@.modified,
            final(self)@.pending == old(self)@.pending,
            final(self)@.status == old(self)@.status,
    {
        self.buffer.directory = path;
        self.buffer.original_entries = entries;
        self.cursor_line = 2;
        self.scroll_offset = 0;
        self.modified = false;
    }

    /// The directory was read afresh: its listing replaces the old one, the
    /// status says so and nothing is modified.
    pub fn finish_refresh(&mut self, entries: Vec<OilEntry>)
        ensures
            final(self)@ == (OilEditorView {
                entries: entries@,
                status: Some("Refreshed"@),
                modified: false,
                ..old(self)@
            }),
    {
        self.buffer.original_entries = entries;
        self.status = Some("Refreshed".to_owned());
        self.modified = false;
    }

    /// The listing shown.
    pub fn entries(&self) -> (r: &[OilEntry])
        ensures
            r@ == self@.entries,
    {
        self.buffer.original_entries.as_slice()
    }

    /// Shows `Refresh error: <message>` in the status line.
    pub fn report_refresh_error(&mut self, message: &str)
        ensures
            final(self)@ == (OilEditorView { status: Some("Refresh error: "@ + message@), ..old(self)@ }),
    {
        let mut v = chars_of("Refresh error: ");
        extend_str(&mut v, message);
        self.status = Some(string_of(&v));
    }

    /// Lists hidden files or not, from now on.
    pub fn set_show_hidden(&mut self, show_hidden: bool)
        ensures
            final(self)@ == (OilEditorView { show_hidden, ..old(self)@ }),
    {
        self.buffer.show_hidden = show_hidden;
    }

    /// Hidden files were toggled: the setting flips and the listing read
    /// with the new setting replaces the old one; the cursor stays.
    pub fn toggle_hidden(&mut self, entries: Vec<OilEntry>)
        ensures
            final(self)@ == (OilEditorView {
                show_hidden: !old(self)@.show_hidden,
                entries: entries@,
                ..old(self)@
            }),
    {
        self.buffer.show_hidden = !self.buffer.show_hidden;
        self.buffer.original_entries = entries;
    }

    /// The directory above the one shown, if it has one.
    pub fn parent_directory(&self) -> (r: Option<String>)
        ensures
            match r {
                Some(p) => path_parent(self@.directory) == Some(p@),
                None => path_parent(self@.directory) is None,
            },
    {
        parent_path(self.buffer.directory.as_str())
    }

    /// Shows `Error: <message>` in the status line.
    pub fn report_error(&mut self, message: &str)
        ensures
            final(self)@.status == Some("Error: "@ + message@),
            final(self)@.directory == old(self)@.directory,
            final(self)@.entries == old(self)@.entries,
            final(self)@.cursor_line == old(self)@.cursor_line,
            final(self)@.pending == old(self)@.pending,
    {
        let mut v = chars_of("Error: ");
        extend_str(&mut v, message);
        self.status = Some(string_of(&v));
    }

    /// Reads the edited text: the operations it asks for become pending.
    /// None: a status says so. Else they run at once where a single one may
    /// skip confirmation or confirmation is off; otherwise they wait for it.
    pub fn prepare_operations(&mut self, content: &str, skip_confirm_simple: bool, confirm_changes: bool) -> (r: SaveDecision)
        ensures
            ({
                let ops = oil_operations(old(self)@.entries, content@, old(self)@.directory);
                &&& final(self)@.directory == old(self)@.directory
                &&& final(self)@.entries == old(self)@.entries
                &&& if ops.len() == 0 {
                    &&& r == SaveDecision::Nothing
                    &&& final(self)@.status == Some("No changes detected"@)
                    &&& final(self)@.pending == old(self)@.pending
                } else {
                    &&& op_views(final(self)@.pending) == ops
                    &&& final(self)@.status == old(self)@.status
                    &&& if skip_confirm_simple && ops.len() == 1 {
                        r == SaveDecision::Apply
                    } else if confirm_changes {
                        r == SaveDecision::Confirm && final(self)@.show_confirmation
                    } else {
                        r == SaveDecision::Apply
                    }
                }
            }),
    {
        let ops = compute_oil_operations(
            self.buffer.original_entries.as_slice(),
            content,
            self.buffer.directory.as_str(),
        );
        if ops.len() == 0 {
            self.status = Some("No changes detected".to_owned());
            return SaveDecision::Nothing;
        }
        let n = ops.len();
        self.pending_ops = ops;
        if skip_confirm_simple && n == 1 {
            SaveDecision::Apply
        } else if confirm_changes {
            self.show_confirmation = true;
            SaveDecision::Confirm
        } else {
            SaveDecision::Apply
        }
    }

    /// The operations to run, or `None` with a status when none are pending.
    pub fn take_pending(&mut self) -> (r: Option<Vec<OilOperation>>)
        ensures
            old(self)@.pending.len() == 0 ==> r is None && final(self)@.status == Some(
                "No pending changes"@,
            ),
            old(self)@.pending.len() > 0 ==> (r matches Some(ops) && ops@ == old(self)@.pending),
            old(self)@.pending.len() > 0 ==> final(self)@.status == old(self)@.status,
            final(self)@.pending == old(self)@.pending,
            final(self)@.directory == old(self)@.directory,
            final(self)@.entries == old(self)@.entries,
    {
        if self.pending_ops.len() == 0 {
            self.status = Some("No pending changes".to_owned());
            return None;
        }
        let mut ops: Vec<OilOperation> = Vec::new();
        let mut i: usize = 0;
        while i < self.pending_ops.len()
            invariant
                i <= self.pending_ops@.len(),
                ops@ == self.pending_ops@.take(i as int),
            decreases self.pending_ops.len() - i,
        {
            ops.push(clone_operation(&self.pending_ops[i]));
            assert(self.pending_ops@.take(i + 1) == self.pending_ops@.take(i as int).push(
                self.pending_ops@[i as int],
            ));
            i = i + 1;
        }
        assert(self.pending_ops@.take(self.pending_ops@.len() as int) == self.pending_ops@);
        Some(ops)
    }

    /// Records how the pending operations went: on success the count, the
    /// listing of the directory read afresh and nothing modified; on failure
    /// the errors. Nothing stays pending and the confirmation closes.
    pub fn finish_operations(&mut self, outcome: Result<(usize, Vec<OilEntry>), String>)
        requires
            outcome matches Ok(p) ==> p.0 <= u64::MAX,
        ensures
            final(self)@.pending.len() == 0,
            !final(self)@.show_confirmation,
            final(self)@.directory == old(self)@.directory,
            match outcome {
                Ok((count, entries)) => final(self)@.status == Some(completed_text(count as nat))
                    && final(self)@.entries == entries@ && !final(self)@.modified,
                Err(e) => final(self)@.status == Some("Errors: "@ + e@) && final(self)@.entries
                    == old(self)@.entries,
            },
    {
        match outcome {
            Ok((count, entries)) => {
                let mut v = decimal_chars(count as u64);
                extend_str(&mut v, " operation(s) completed successfully");
                self.status = Some(string_of(&v));
                self.buffer.original_entries = entries;
                self.modified = false;
            },
            Err(e) => {
                let mut v = chars_of("Errors: ");
                extend_str(&mut v, e.as_str());
                self.status = Some(string_of(&v));
            },
        }
        self.pending_ops = Vec::new();
        self.show_confirmation = false;
    }

    /// The user declined the pending operations.
    pub fn cancel_operations(&mut self)
        ensures
            final(self)@ == (OilEditorView {
                show_confirmation: false,
                pending: Seq::empty(),
                status: Some("Cancelled"@),
                ..old(self)@
            }),
    {
        self.show_confirmation = false;
        self.pending_ops = Vec::new();
        self.status = Some("Cancelled".to_owned());
    }

    /// The status line text, if one is set.
    pub fn status(&self) -> (r: Option<&String>)
        ensures
            match r {
                Some(s) => self@.status == Some(s@),
                None => self@.status is None,
            },
    {
        match &self.status {
            Some(s) => Some(s),
            None => None,
        }
    }

    /// The first line of the listing that is shown.
    pub fn scroll_offset(&self) -> (r: usize)
        ensures
            r == self@.scroll_offset,
    {
        self.scroll_offset
    }

    /// The line the cursor is on.
    pub fn cursor_line(&self) -> (r: usize)
        ensures
            r == self@.cursor_line,
    {
        self.cursor_line
    }
}

/// A copy of an operation.
pub fn clone_operation(op: &OilOperation) -> (r: OilOperation)
    ensures
        r == *op,
{
    match op {
        OilOperation::Create { path, is_dir } => OilOperation::Create { path: path.clone(), is_dir: *is_dir },
        OilOperation::Delete { path, is_dir } => OilOperation::Delete { path: path.clone(), is_dir: *is_dir },
        OilOperation::Rename { from, to } => OilOperation::Rename { from: from.clone(), to: to.clone() },
    }
}


/// A key of the keyboard, as the oil editor tells them apart.
#[derive(Debug, Clone, Copy, PartialEq, Eq, Structural)]
pub enum OilKeyCode {
    Char(char),
    Enter,
    Esc,
    Up,
    Down,
    Other,
}

/// An event that reaches the oil editor.
#[derive(Debug, Clone, Copy, PartialEq, Eq, Structural)]
pub enum OilInput {
    /// A key, with whether Control was held.
    Key { code: OilKeyCode, ctrl: bool },
    /// Any other event.
    Other,
}

/// What the editor asks of its host after an event.
#[derive(Debug, Clone, Copy, PartialEq, Eq, Structural)]
pub enum OilResponse {
    /// The event is not for the editor.
    Ignored,
    /// The event was handled; nothing else to do.
    Handled,
    /// Close the oil overlay.
    Close,
    /// Run the pending operations.
    Apply,
    /// Go into the directory or open the file of the cursor line.
    EnterOrOpen,
    /// Show the parent directory.
    GotoParent,
    /// Show or hide hidden files.
    ToggleHidden,
    /// Read the buffer for changes and prepare their operations.
    Save,
    /// Read the directory afresh.
    Refresh,
}

/// The view with the cursor on another line.
pub open spec fn with_cursor(v: OilEditorView, line: nat) -> OilEditorView {
    OilEditorView { cursor_line: line, ..v }
}

/// The state after an event, and what the host must do.
pub open spec fn oil_step(v: OilEditorView, input: OilInput) -> (OilEditorView, OilResponse) {
    match input {
        OilInput::Other => (v, OilResponse::Ignored),
        OilInput::Key { code, ctrl } => {
            if v.show_confirmation {
                match code {
                    OilKeyCode::Char(c) => if c == 'y' || c == 'Y' {
                        (v, OilResponse::Apply)
                    } else if c == 'n' || c == 'N' || c == 'q' {
                        (
                            OilEditorView { show_confirmation: false, pending: Seq::empty(), status: Some("Cancelled"@), ..v },
                            OilResponse::Handled,
                        )
                    } else {
                        (v, OilResponse::Handled)
                    },
                    OilKeyCode::Esc => (
                        OilEditorView { show_confirmation: false, pending: Seq::empty(), status: Some("Cancelled"@), ..v },
                        OilResponse::Handled,
                    ),
                    _ => (v, OilResponse::Handled),
                }
            } else if v.show_help {
                (OilEditorView { show_help: false, ..v }, OilResponse::Handled)
            } else {
                let total = v.entries.len() + 2;
                match code {
                    OilKeyCode::Esc => (v, OilResponse::Close),
                    OilKeyCode::Down => (with_cursor(v, if v.cursor_line + 1 < total { v.cursor_line + 1 } else { v.cursor_line }), OilResponse::Handled),
                    OilKeyCode::Up => (with_cursor(v, if v.cursor_line > 0 { (v.cursor_line - 1) as nat } else { 0 }), OilResponse::Handled),
                    OilKeyCode::Enter => (v, OilResponse::EnterOrOpen),
                    OilKeyCode::Other => (v, OilResponse::Handled),
                    OilKeyCode::Char(c) => {
                        if c == 'q' {
                            (v, OilResponse::Close)
                        } else if c == '?' {
                            (OilEditorView { show_help: true, ..v }, OilResponse::Handled)
                        } else if c == 'j' {
                            (with_cursor(v, if v.cursor_line + 1 < total { v.cursor_line + 1 } else { v.cursor_line }), OilResponse::Handled)
                        } else if c == 'k' {
                            (with_cursor(v, if v.cursor_line > 0 { (v.cursor_line - 1) as nat } else { 0 }), OilResponse::Handled)
                        } else if c == 'g' {
                            (with_cursor(v, 0), OilResponse::Handled)
                        } else if c == 'G' {
                            (with_cursor(v, (total - 1) as nat), OilResponse::Handled)
                        } else if c == '-' {
                            (v, OilResponse::GotoParent)
                        } else if c == '.' {
                            (v, OilResponse::ToggleHidden)
                        } else if c == 's' && ctrl {
                            (v, OilResponse::Save)
                        } else if c == 'r' && ctrl {
                            (v, OilResponse::Refresh)
                        } else {
                            (v, OilResponse::Handled)
                        }
                    },
                }
            }
        },
    }
}

/// Where Enter on the cursor line leads.
#[derive(Debug, PartialEq, Eq)]
pub enum EnterTarget {
    /// The `..` line: the parent directory.
    Parent,
    /// A directory entry: the directory at this path.
    Directory(String),
    /// A file entry: the file at this path, opened in place of the overlay.
    File(String),
    /// The header line, or past the entries: nothing.
    Nothing,
}

/// The help overlay's lines.
pub open spec fn help_text() -> Seq<Seq<char>> {
    seq![
        ""@,
        "  Navigation:"@,
        "    Enter    Open file/directory"@,
        "    -        Go to parent directory"@,
        "    j/k      Move cursor down/up"@,
        "    g/G      Go to first/last entry"@,
        "    ."@,
        "  Operations:"@,
        "    Edit     Rename file (change the name)"@,
        "    dd       Delete file"@,
        "    o        Create new file"@,
        "    O        Create new directory"@,
        "    yy       Yank (copy) file"@,
        "    p        Paste file"@,
        ""@,
        "  Commands:"@,
        "    Ctrl-s   Apply pending changes"@,
        "    Ctrl-r   Refresh directory"@,
        "    .        Toggle hidden files"@,
        "    ?        Toggle this help"@,
        "    q/Esc    Close oil"@,
        ""@,
        "  Press any key to close"@
    ]
}

/// How a listing line is drawn.
#[derive(Debug, Clone, Copy, PartialEq, Eq, Structural)]
pub enum OilLineStyle {
    Selected,
    Directory,
    Text,
}

/// `hidden: on` or `hidden: off`.
pub open spec fn hidden_text(show_hidden: bool) -> Seq<char> {
    if show_hidden { "hidden: on"@ } else { "hidden: off"@ }
}

/// The status line: the status where one is set, else the hidden-files
/// setting with the pending changes or the hint for help.
pub open spec fn oil_status_text(status: Option<Seq<char>>, show_hidden: bool, pending_count: nat) -> Seq<char> {
    match status {
        Some(s) => s,
        None => if pending_count > 0 {
            " "@ + hidden_text(show_hidden) + " | "@ + decimal(pending_count) + " pending changes | Ctrl-s to apply"@
        } else {
            " "@ + hidden_text(show_hidden) + " | Press ? for help"@
        },
    }
}

/// The lines of the confirmation dialog.
pub open spec fn confirmation_text(pending: Seq<OilOperation>) -> Seq<Seq<char>> {
    seq!["The following operations will be performed:"@, ""@]
        + Seq::new(pending.len(), |i: int| "  "@ + crate::oil::op_description(pending[i]@))
        + seq![""@, "[y]es  [n]o  [q]uit"@]
}

/// The first shown line after scrolling just enough to show the cursor line
/// in `height` lines.
pub open spec fn oil_scrolled(cursor: nat, offset: nat, height: nat) -> nat {
    if cursor < offset {
        cursor
    } else if cursor >= offset + height {
        if cursor >= height - 1 { (cursor - (height - 1)) as nat } else { 0 }
    } else {
        offset
    }
}

impl OilEditor {
    /// Handles an event: the confirmation dialog and the help overlay take
    /// keys first; otherwise keys move the cursor or ask the host to act.
    pub fn handle_input(&mut self, input: OilInput) -> (r: OilResponse)
        requires
            old(self)@.entries.len() + 2 <= usize::MAX,
        ensures
            (final(self)@, r) == oil_step(old(self)@, input),
    {
        match input {
            OilInput::Other => OilResponse::Ignored,
            OilInput::Key { code, ctrl } => {
                if self.show_confirmation {
                    match code {
                        OilKeyCode::Char(c) => {
                            if c == 'y' || c == 'Y' {
                                OilResponse::Apply
                            } else if c == 'n' || c == 'N' || c == 'q' {
                                self.cancel_operations();
                                OilResponse::Handled
                            } else {
                                OilResponse::Handled
                            }
                        },
                        OilKeyCode::Esc => {
                            self.cancel_operations();
                            OilResponse::Handled
                        },
                        _ => OilResponse::Handled,
                    }
                } else if self.show_help {
                    self.show_help = false;
                    OilResponse::Handled
                } else {
                    let total = self.total_lines();
                    match code {
                        OilKeyCode::Esc => OilResponse::Close,
                        OilKeyCode::Down => {
                            self.cursor_down(total);
                            OilResponse::Handled
                        },
                        OilKeyCode::Up => {
                            self.cursor_up();
                            OilResponse::Handled
                        },
                        OilKeyCode::Enter => OilResponse::EnterOrOpen,
                        OilKeyCode::Other => OilResponse::Handled,
                        OilKeyCode::Char(c) => {
                            if c == 'q' {
                                OilResponse::Close
                            } else if c == '?' {
                                self.show_help = true;
                                OilResponse::Handled
                            } else if c == 'j' {
                                self.cursor_down(total);
                                OilResponse::Handled
                            } else if c == 'k' {
                                self.cursor_up();
                                OilResponse::Handled
                            } else if c == 'g' {
                                self.cursor_line = 0;
                                OilResponse::Handled
                            } else if c == 'G' {
                                self.cursor_line = total - 1;
                                OilResponse::Handled
                            } else if c == '-' {
                                OilResponse::GotoParent
                            } else if c == '.' {
                                OilResponse::ToggleHidden
                            } else if c == 's' && ctrl {
                                OilResponse::Save
                            } else if c == 'r' && ctrl {
                                OilResponse::Refresh
                            } else {
                                OilResponse::Handled
                            }
                        },
                    }
                }
            },
        }
    }

    /// Where Enter on the cursor line leads: line 1 is `..`, line `2 + i`
    /// the entry `i`, whose path is the entry's name joined to the directory.
    pub fn enter_target(&self) -> (r: EnterTarget)
        ensures
            ({
                let v = self@;
                if v.cursor_line == 1 {
                    r == EnterTarget::Parent
                } else if 2 <= v.cursor_line < v.entries.len() + 2 {
                    let e = v.entries[v.cursor_line - 2];
                    match r {
                        EnterTarget::Directory(p) => e.file_type == OilFileType::Directory
                            && p@ == path_join(v.directory, e.name@),
                        EnterTarget::File(p) => e.file_type != OilFileType::Directory
                            && p@ == path_join(v.directory, e.name@),
                        _ => false,
                    }
                } else {
                    r == EnterTarget::Nothing
                }
            }),
    {
        let line = self.cursor_line;
        if line == 1 {
            return EnterTarget::Parent;
        }
        if line < 2 || line - 2 >= self.buffer.original_entries.len() {
            return EnterTarget::Nothing;
        }
        let entry = &self.buffer.original_entries[line - 2];
        let path = join_path(self.buffer.directory.as_str(), entry.name.as_str());
        match entry.file_type {
            OilFileType::Directory => EnterTarget::Directory(path),
            _ => EnterTarget::File(path),
        }
    }

    /// Scrolls just enough for the cursor line to be among the `height`
    /// lines of the listing.
    pub fn scroll_to_cursor(&mut self, height: usize)
        requires
            height > 0 || old(self)@.cursor_line < old(self)@.scroll_offset,
        ensures
            final(self)@ == (OilEditorView {
                scroll_offset: oil_scrolled(old(self)@.cursor_line, old(self)@.scroll_offset, height as nat),
                ..old(self)@
            }),
    {
        if self.cursor_line < self.scroll_offset {
            self.scroll_offset = self.cursor_line;
        } else if self.cursor_line - self.scroll_offset >= height {
            let keep = height - 1;
            self.scroll_offset = if self.cursor_line >= keep { self.cursor_line - keep } else { 0 };
        }
    }

    /// The header: the directory, and `[+]` when the listing was modified.
    pub fn header_text(&self) -> (r: String)
        ensures
            r@ == " "@ + self@.directory + " "@ + (if self@.modified { "[+]"@ } else { ""@ }),
    {
        let mut v = chars_of(" ");
        extend_str(&mut v, self.buffer.directory.as_str());
        extend_str(&mut v, " ");
        if self.modified {
            extend_str(&mut v, "[+]");
        } else {
            extend_str(&mut v, "");
        }
        string_of(&v)
    }

    /// How listing line `line_num` is drawn (`..` is line 1): the cursor
    /// line as selected, directories as such, the rest as text.
    pub fn line_style(&self, line_num: usize, is_dir: bool) -> (r: OilLineStyle)
        ensures
            r == if line_num == self@.cursor_line {
                OilLineStyle::Selected
            } else if is_dir {
                OilLineStyle::Directory
            } else {
                OilLineStyle::Text
            },
    {
        if line_num == self.cursor_line {
            OilLineStyle::Selected
        } else if is_dir {
            OilLineStyle::Directory
        } else {
            OilLineStyle::Text
        }
    }

    /// The status line, given the number of operations the directory has
    /// waiting.
    pub fn status_line(&self, pending_count: usize) -> (r: String)
        requires
            pending_count <= u64::MAX,
        ensures
            r@ == oil_status_text(self@.status, self@.show_hidden, pending_count as nat),
    {
        match &self.status {
            Some(s) => s.clone(),
            None => {
                let mut v = chars_of(" ");
                if self.buffer.show_hidden {
                    extend_str(&mut v, "hidden: on");
                } else {
                    extend_str(&mut v, "hidden: off");
                }
                if pending_count > 0 {
                    extend_str(&mut v, " | ");
                    let n = decimal_chars(pending_count as u64);
                    crate::text::extend_chars(&mut v, &n);
                    extend_str(&mut v, " pending changes | Ctrl-s to apply");
                } else {
                    extend_str(&mut v, " | Press ? for help");
                }
                string_of(&v)
            },
        }
    }

    /// The lines of the confirmation dialog: a title, a blank line, one line
    /// per pending operation, a blank line and the choices.
    pub fn confirmation_lines(&self) -> (r: Vec<String>)
        ensures
            r@.len() == confirmation_text(self@.pending).len(),
            forall|i: int| 0 <= i < r@.len() ==> #[trigger] r@[i]@ == confirmation_text(self@.pending)[i],
    {
        let ghost want = confirmation_text(self@.pending);
        let mut lines: Vec<String> = Vec::new();
        lines.push("The following operations will be performed:".to_owned());
        lines.push("".to_owned());
        let mut i: usize = 0;
        while i < self.pending_ops.len()
            invariant
                i <= self.pending_ops@.len(),
                want == confirmation_text(self@.pending),
                self@.pending == self.pending_ops@,
                lines@.len() == i + 2,
                forall|k: int| 0 <= k < lines@.len() ==> #[trigger] lines@[k]@ == want[k],
            decreases self.pending_ops.len() - i,
        {
            let mut v = chars_of("  ");
            let d = self.pending_ops[i].description();
            extend_str(&mut v, d.as_str());
            lines.push(string_of(&v));
            i = i + 1;
        }
        lines.push("".to_owned());
        lines.push("[y]es  [n]o  [q]uit".to_owned());
        lines
    }
}

/// The lines of the help overlay.
pub fn help_lines() -> (r: Vec<&'static str>)
    ensures
        r@.len() == help_text().len(),
        forall|i: int| 0 <= i < r@.len() ==> #[trigger] r@[i]@ == help_text()[i],
{
    let r = vec![
        "",
        "  Navigation:",
        "    Enter    Open file/directory",
        "    -        Go to parent directory",
        "    j/k      Move cursor down/up",
        "    g/G      Go to first/last entry",
        "    .",
        "  Operations:",
        "    Edit     Rename file (change the name)",
        "    dd       Delete file",
        "    o        Create new file",
        "    O        Create new directory",
        "    yy       Yank (copy) file",
        "    p        Paste file",
        "",
        "  Commands:",
        "    Ctrl-s   Apply pending changes",
        "    Ctrl-r   Refresh directory",
        "    .        Toggle hidden files",
        "    ?        Toggle this help",
        "    q/Esc    Close oil",
        "",
        "  Press any key to close",
    ];
    r
}

/// The number of a listing line, right-aligned in three columns and
/// followed by a space.
pub fn line_number_text(line_num: usize) -> (r: String)
    requires
        line_num <= u64::MAX,
    ensures
        r@ == pad_left(decimal(line_num as nat), 3) + " "@,
{
    let digits = decimal_chars(line_num as u64);
    let mut v = pad_left_chars(&digits, 3);
    extend_str(&mut v, " ");
    string_of(&v)
}

/// The place of a centred overlay in an area at (x, y) of (width, height):
/// at most `max_width` wide and `lines + 2` high, leaving two cells around.
pub fn overlay_area(x: u16, y: u16, width: u16, height: u16, max_width: u16, lines: usize) -> (r: (u16, u16, u16, u16))
    requires
        lines + 2 <= u16::MAX,
        x + width <= u16::MAX,
        y + height <= u16::MAX,
    ensures
        ({
            let w = if max_width <= (if width >= 4 { width - 4 } else { 0 }) { max_width as int } else { if width >= 4 { width - 4 } else { 0 } };
            let avail_h = if height >= 4 { height - 4 } else { 0 };
            let h = if lines + 2 <= avail_h { lines + 2 } else { avail_h };
            r == ((x + (width - w) / 2) as u16, (y + (height - h) / 2) as u16, w as u16, h as u16)
        }),
{
    let avail_w: u16 = if width >= 4 { width - 4 } else { 0 };
    let w: u16 = if max_width <= avail_w { max_width } else { avail_w };
    let avail_h: u16 = if height >= 4 { height - 4 } else { 0 };
    let want_h: u16 = (lines + 2) as u16;
    let h: u16 = if want_h <= avail_h { want_h } else { avail_h };
    (x + (width - w) / 2, y + (height - h) / 2, w, h)
}


/// Outside the confirmation dialog and the help overlay, the arrow keys do
/// what `k` and `j` do: Up moves the cursor one line up (staying on the
/// first), Down one line down (staying on the last of the header, `..` and
/// the entries), and nothing else changes.
pub proof fn law_arrows_move_like_j_k(v: OilEditorView, ctrl: bool)
    requires
        !v.show_confirmation,
        !v.show_help,
    ensures
        oil_step(v, OilInput::Key { code: OilKeyCode::Up, ctrl }) == oil_step(
            v,
            OilInput::Key { code: OilKeyCode::Char('k'), ctrl },
        ),
        oil_step(v, OilInput::Key { code: OilKeyCode::Down, ctrl }) == oil_step(
            v,
            OilInput::Key { code: OilKeyCode::Char('j'), ctrl },
        ),
        oil_step(v, OilInput::Key { code: OilKeyCode::Up, ctrl }) == (
            OilEditorView { cursor_line: if v.cursor_line > 0 { (v.cursor_line - 1) as nat } else { 0 }, ..v },
            OilResponse::Handled,
        ),
        oil_step(v, OilInput::Key { code: OilKeyCode::Down, ctrl }) == (
            OilEditorView {
                cursor_line: if v.cursor_line + 1 < v.entries.len() + 2 { v.cursor_line + 1 } else { v.cursor_line },
                ..v
            },
            OilResponse::Handled,
        ),
{
}

} // verus!
