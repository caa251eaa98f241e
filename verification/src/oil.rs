//! The oil file manager: a directory shown as an editable buffer, one entry per
//! line, and the filesystem operations that an edited buffer asks for.
use vstd::prelude::*;
use crate::path::{join_path, path_join};
use crate::text::{
    chars_of, concat, extend_chars, extend_str, find, find_chars, is_ws, lemma_concat_push,
    lemma_find_is, lemma_lines_append, lemma_lines_concat, lemma_lines_single, lemma_trim_keeps_first,
    lemma_trim_noop, lines, occurs_at, slice_chars, split_lines, starts_with, starts_with_chars,
    str_starts_with, string_of, strip_cr, trim, trim_chars, trim_end, trim_end_char, trim_start,
};

verus! {

/// Prefix of the name of every oil buffer.
pub const OIL_BUFFER_NAME_PREFIX: &'static str = "[oil] ";

/// The key help line under the directory line of an oil buffer.
pub const OIL_HELP_LINE: &'static str = "# d=directory -=file l=symlink | Enter:open -:parent :w:apply\n";

/// File type for oil entries.
#[derive(Debug, Clone, Copy, PartialEq, Eq, Structural)]
pub enum OilFileType {
    File,
    Directory,
    Symlink,
}

/// A single entry in the oil buffer representing a file or directory.
#[derive(Debug, Clone)]
pub struct OilEntry {
    /// The name of the file or directory.
    pub name: String,
    /// The type of the entry.
    pub file_type: OilFileType,
    /// The original full path of the entry.
    pub original_path: String,
    /// For symlinks, the target path.
    pub symlink_target: Option<String>,
}

impl OilEntry {
    /// A new entry without a symlink target.
    pub fn new(name: String, file_type: OilFileType, original_path: String) -> (r: Self)
        ensures
            r.name@ == name@,
            r.file_type == file_type,
            r.original_path@ == original_path@,
            r.symlink_target is None,
    {
        OilEntry { name, file_type, original_path, symlink_target: None }
    }

    /// A new symlink entry.
    pub fn symlink(name: String, original_path: String, target: String) -> (r: Self)
        ensures
            r.name@ == name@,
            r.file_type == OilFileType::Symlink,
            r.original_path@ == original_path@,
            r.symlink_target matches Some(t) && t@ == target@,
    {
        OilEntry { name, file_type: OilFileType::Symlink, original_path, symlink_target: Some(target) }
    }
}

/// Operations that can be performed on the filesystem.
#[derive(Debug, Clone)]
pub enum OilOperation {
    /// Create a new file or directory.
    Create { path: String, is_dir: bool },
    /// Delete a file or directory.
    Delete { path: String, is_dir: bool },
    /// Rename a file or directory.
    Rename { from: String, to: String },
}

/// An operation with its paths as text.
pub enum OpView {
    Create { path: Seq<char>, is_dir: bool },
    Delete { path: Seq<char>, is_dir: bool },
    Rename { from: Seq<char>, to: Seq<char> },
}

impl View for OilOperation {
    type V = OpView;

    open spec fn view(&self) -> OpView {
        match self {
            OilOperation::Create { path, is_dir } => OpView::Create { path: path@, is_dir: *is_dir },
            OilOperation::Delete { path, is_dir } => OpView::Delete { path: path@, is_dir: *is_dir },
            OilOperation::Rename { from, to } => OpView::Rename { from: from@, to: to@ },
        }
    }
}

/// The views of a sequence of operations.
pub open spec fn op_views(ops: Seq<OilOperation>) -> Seq<OpView> {
    ops.map_values(|o: OilOperation| o@)
}

/// `directory` or `file`.
pub open spec fn kind_text(is_dir: bool) -> Seq<char> {
    if is_dir { "directory"@ } else { "file"@ }
}

/// The description of an operation, as shown before it is applied.
pub open spec fn op_description(op: OpView) -> Seq<char> {
    match op {
        OpView::Create { path, is_dir } => "Create "@ + kind_text(is_dir) + " '"@ + path + "'"@,
        OpView::Delete { path, is_dir } => "Delete "@ + kind_text(is_dir) + " '"@ + path + "'"@,
        OpView::Rename { from, to } => "Rename '"@ + from + "' to '"@ + to + "'"@,
    }
}

impl OilOperation {
    /// A human-readable description of the operation.
    pub fn description(&self) -> (r: String)
        ensures
            r@ == op_description(self@),
    {
        let mut v: Vec<char> = Vec::new();
        match self {
            OilOperation::Create { path, is_dir } => {
                extend_str(&mut v, "Create ");
                extend_str(&mut v, if *is_dir { "directory" } else { "file" });
                extend_str(&mut v, " '");
                extend_str(&mut v, path.as_str());
                extend_str(&mut v, "'");
            },
            OilOperation::Delete { path, is_dir } => {
                extend_str(&mut v, "Delete ");
                extend_str(&mut v, if *is_dir { "directory" } else { "file" });
                extend_str(&mut v, " '");
                extend_str(&mut v, path.as_str());
                extend_str(&mut v, "'");
            },
            OilOperation::Rename { from, to } => {
                extend_str(&mut v, "Rename '");
                extend_str(&mut v, from.as_str());
                extend_str(&mut v, "' to '");
                extend_str(&mut v, to.as_str());
                extend_str(&mut v, "'");
            },
        }
        string_of(&v)
    }
}

/// Sort order for oil entries.
#[derive(Debug, Clone, Copy, PartialEq, Eq, Structural)]
pub enum OilSortOrder {
    Name,
    Size,
    Modified,
}

impl Default for OilSortOrder {
    /// Sorting by name.
    fn default() -> (r: Self)
        ensures
            r == OilSortOrder::Name,
    {
        OilSortOrder::Name
    }
}

/// State for an oil buffer.
#[derive(Debug, Clone)]
pub struct OilState {
    /// The directory being viewed.
    pub directory: String,
    /// The original entries when the buffer was created or refreshed.
    pub original_entries: Vec<OilEntry>,
    /// Whether to show hidden files.
    pub show_hidden: bool,
    /// Sort order for entries.
    pub sort_order: OilSortOrder,
}

impl OilState {
    /// A new state for a directory: no entries, hidden files hidden, sorted by name.
    pub fn new(directory: String) -> (r: Self)
        ensures
            r.directory@ == directory@,
            r.original_entries@.len() == 0,
            !r.show_hidden,
            r.sort_order == OilSortOrder::Name,
    {
        OilState {
            directory,
            original_entries: Vec::new(),
            show_hidden: false,
            sort_order: OilSortOrder::default(),
        }
    }

    /// The buffer name of this state: the prefix and the directory.
    pub fn buffer_name(&self) -> (r: String)
        ensures
            r@ == OIL_BUFFER_NAME_PREFIX@ + self.directory@,
    {
        let mut v: Vec<char> = Vec::new();
        extend_str(&mut v, OIL_BUFFER_NAME_PREFIX);
        extend_str(&mut v, self.directory.as_str());
        string_of(&v)
    }
}

/// A parsed entry from an oil buffer line.
#[derive(Debug, Clone)]
pub struct ParsedEntry {
    /// The name of the entry.
    pub name: String,
    /// Whether this is a directory.
    pub is_dir: bool,
    /// Whether this is a symlink.
    pub is_symlink: bool,
}

/// A parsed entry with its name as text.
pub struct ParsedView {
    pub name: Seq<char>,
    pub is_dir: bool,
    pub is_symlink: bool,
}

impl View for ParsedEntry {
    type V = ParsedView;

    open spec fn view(&self) -> ParsedView {
        ParsedView { name: self.name@, is_dir: self.is_dir, is_symlink: self.is_symlink }
    }
}

/// The line of an entry: `d name/`, `- name` or `l name -> target`.
pub open spec fn entry_line(e: OilEntry) -> Seq<char> {
    match e.file_type {
        OilFileType::Directory => "d "@ + e.name@ + "/"@,
        OilFileType::File => "- "@ + e.name@,
        OilFileType::Symlink => "l "@ + e.name@ + " -> "@ + match e.symlink_target {
            Some(t) => t@,
            None => "?"@,
        },
    }
}

/// The text of an oil buffer: the directory, the key help, a blank line, then
/// one line per entry.
pub open spec fn oil_buffer_content(directory: Seq<char>, entries: Seq<OilEntry>) -> Seq<char> {
    "# "@ + directory + "\n"@ + OIL_HELP_LINE@ + "\n"@ + concat(
        entries.map_values(|e: OilEntry| entry_line(e) + "\n"@),
    )
}

/// The line of a single entry.
pub fn format_oil_entry(entry: &OilEntry) -> (r: String)
    ensures
        r@ == entry_line(*entry),
{
    let v = entry_line_chars(entry);
    string_of(&v)
}

fn entry_line_chars(entry: &OilEntry) -> (v: Vec<char>)
    ensures
        v@ == entry_line(*entry),
{
    let mut v: Vec<char> = Vec::new();
    match entry.file_type {
        OilFileType::Directory => {
            extend_str(&mut v, "d ");
            extend_str(&mut v, entry.name.as_str());
            extend_str(&mut v, "/");
        },
        OilFileType::File => {
            extend_str(&mut v, "- ");
            extend_str(&mut v, entry.name.as_str());
        },
        OilFileType::Symlink => {
            extend_str(&mut v, "l ");
            extend_str(&mut v, entry.name.as_str());
            extend_str(&mut v, " -> ");
            match &entry.symlink_target {
                Some(t) => extend_str(&mut v, t.as_str()),
                None => extend_str(&mut v, "?"),
            }
        },
    }
    v
}

/// The text of an oil buffer for a directory and its entries.
pub fn generate_oil_buffer_content(directory: &str, entries: &[OilEntry]) -> (r: String)
    ensures
        r@ == oil_buffer_content(directory@, entries@),
{
    let mut v: Vec<char> = Vec::new();
    extend_str(&mut v, "# ");
    extend_str(&mut v, directory);
    extend_str(&mut v, "\n");
    extend_str(&mut v, OIL_HELP_LINE);
    extend_str(&mut v, "\n");
    let ghost head = v@;
    let ghost parts = entries@.map_values(|e: OilEntry| entry_line(e) + "\n"@);
    let mut i: usize = 0;
    while i < entries.len()
        invariant
            i <= entries@.len(),
            parts == entries@.map_values(|e: OilEntry| entry_line(e) + "\n"@),
            v@ == head + concat(parts.take(i as int)),
        decreases entries.len() - i,
    {
        let mut line = entry_line_chars(&entries[i]);
        extend_str(&mut line, "\n");
        proof {
            assert(parts.take(i + 1) == parts.take(i as int).push(parts[i as int]));
            lemma_concat_push(parts.take(i as int), parts[i as int]);
        }
        extend_chars(&mut v, &line);
        i = i + 1;
    }
    assert(parts.take(entries@.len() as int) == parts);
    string_of(&v)
}

/// The entry that a buffer line names, or `None` for a blank line, a comment
/// or a line in no known form. The line is trimmed first; then `d name/` is a
/// directory (all trailing `/` removed), `- name` a file and `l name -> target`
/// a symlink (the name ends at the first ` -> `). An empty name gives `None`.
pub open spec fn parse_line(line: Seq<char>) -> Option<ParsedView> {
    parse_trimmed(trim(line))
}

/// `parse_line` on a trimmed line.
pub open spec fn parse_trimmed(t: Seq<char>) -> Option<ParsedView> {
    if t.len() == 0 || t[0] == '#' {
        None
    } else if starts_with(t, "d "@) {
        named(trim_end_char(t.skip(2), '/'), true, false)
    } else if starts_with(t, "- "@) {
        named(t.skip(2), false, false)
    } else if starts_with(t, "l "@) {
        named(link_name(t.skip(2)), false, true)
    } else {
        None
    }
}

/// The name part of `name -> target`: up to the first ` -> `, or all of it.
pub open spec fn link_name(rest: Seq<char>) -> Seq<char> {
    match find(rest, " -> "@) {
        Some(p) => rest.take(p),
        None => rest,
    }
}

/// A parsed entry, or `None` for an empty name.
pub open spec fn named(name: Seq<char>, is_dir: bool, is_symlink: bool) -> Option<ParsedView> {
    if name.len() == 0 {
        None
    } else {
        Some(ParsedView { name, is_dir, is_symlink })
    }
}

fn named_exec(name: Vec<char>, is_dir: bool, is_symlink: bool) -> (r: Option<ParsedEntry>)
    ensures
        match r {
            Some(p) => named(name@, is_dir, is_symlink) == Some(p@),
            None => named(name@, is_dir, is_symlink) == None::<ParsedView>,
        },
{
    if name.len() == 0 {
        None
    } else {
        Some(ParsedEntry { name: string_of(&name), is_dir, is_symlink })
    }
}

fn link_name_exec(rest: &Vec<char>) -> (r: Vec<char>)
    ensures
        r@ == link_name(rest@),
{
    let arrow = chars_of(" -> ");
    match find_chars(rest, &arrow) {
        Some(p) => {
            slice_chars(rest, 0, p)
        },
        None => slice_chars(rest, 0, rest.len()),
    }
}

fn trim_end_slashes(s: &Vec<char>) -> (out: Vec<char>)
    ensures
        out@ == trim_end_char(s@, '/'),
{
    let mut end = s.len();
    assert(s@.subrange(0, end as int) == s@);
    while end > 0 && s[end - 1] == '/'
        invariant
            end <= s.len(),
            trim_end_char(s@, '/') == trim_end_char(s@.subrange(0, end as int), '/'),
        decreases end,
    {
        assert(s@.subrange(0, end as int).drop_last() == s@.subrange(0, end - 1));
        end = end - 1;
    }
    slice_chars(s, 0, end)
}

fn parse_line_chars(line: &Vec<char>) -> (r: Option<ParsedEntry>)
    ensures
        match r {
            Some(p) => parse_line(line@) == Some(p@),
            None => parse_line(line@) == None::<ParsedView>,
        },
{
    let t = trim_chars(line);
    if t.len() == 0 || t[0] == '#' {
        return None;
    }
    let d_tag = chars_of("d ");
    let f_tag = chars_of("- ");
    let l_tag = chars_of("l ");
    proof {
        reveal_strlit("d ");
        reveal_strlit("- ");
        reveal_strlit("l ");
    }
    if starts_with_chars(&t, &d_tag) {
        let rest = slice_chars(&t, 2, t.len());
        named_exec(trim_end_slashes(&rest), true, false)
    } else if starts_with_chars(&t, &f_tag) {
        named_exec(slice_chars(&t, 2, t.len()), false, false)
    } else if starts_with_chars(&t, &l_tag) {
        let rest = slice_chars(&t, 2, t.len());
        named_exec(link_name_exec(&rest), false, true)
    } else {
        None
    }
}

/// Parses a single line of an oil buffer; `None` for a comment, a blank line
/// or a line in no known form.
pub fn parse_oil_line(line: &str) -> (r: Option<ParsedEntry>)
    ensures
        match r {
            Some(p) => parse_line(line@) == Some(p@),
            None => parse_line(line@) == None::<ParsedView>,
        },
{
    let cs = chars_of(line);
    parse_line_chars(&cs)
}

/// The entries that the lines name, in order, skipping the others.
pub open spec fn parsed_entries(ls: Seq<Seq<char>>) -> Seq<ParsedView>
    decreases ls.len(),
{
    if ls.len() == 0 {
        Seq::empty()
    } else {
        let rest = parsed_entries(ls.drop_last());
        match parse_line(ls.last()) {
            Some(p) => rest.push(p),
            None => rest,
        }
    }
}

/// Some parsed entry has this name.
pub open spec fn has_parsed_name(cur: Seq<ParsedView>, name: Seq<char>) -> bool {
    exists|i: int| 0 <= i < cur.len() && (#[trigger] cur[i]).name == name
}

/// Some original entry has this name.
pub open spec fn has_entry_name(orig: Seq<OilEntry>, name: Seq<char>) -> bool {
    exists|i: int| 0 <= i < orig.len() && (#[trigger] orig[i]).name@ == name
}

/// One deletion for each original entry whose name no current entry has, in
/// the original order.
pub open spec fn deletions(orig: Seq<OilEntry>, cur: Seq<ParsedView>) -> Seq<OpView>
    decreases orig.len(),
{
    if orig.len() == 0 {
        Seq::empty()
    } else {
        let rest = deletions(orig.drop_last(), cur);
        let e = orig.last();
        if has_parsed_name(cur, e.name@) {
            rest
        } else {
            rest.push(
                OpView::Delete { path: e.original_path@, is_dir: e.file_type == OilFileType::Directory },
            )
        }
    }
}

/// One creation, in the directory, for each current entry whose name no
/// original entry has, in the buffer's order.
pub open spec fn creations(cur: Seq<ParsedView>, orig: Seq<OilEntry>, dir: Seq<char>) -> Seq<OpView>
    decreases cur.len(),
{
    if cur.len() == 0 {
        Seq::empty()
    } else {
        let rest = creations(cur.drop_last(), orig, dir);
        let p = cur.last();
        if has_entry_name(orig, p.name) {
            rest
        } else {
            rest.push(OpView::Create { path: path_join(dir, p.name), is_dir: p.is_dir })
        }
    }
}

/// The operations that turn the original entries into those of the edited
/// buffer: the deletions, then the creations; a single deletion and a single
/// creation of the same kind become one rename.
pub open spec fn oil_operations(orig: Seq<OilEntry>, content: Seq<char>, dir: Seq<char>) -> Seq<OpView> {
    let cur = parsed_entries(lines(content));
    let d = deletions(orig, cur);
    let c = creations(cur, orig, dir);
    if d.len() == 1 && c.len() == 1 && rename_of(d[0], c[0]) is Some {
        seq![rename_of(d[0], c[0])->0]
    } else {
        d + c
    }
}

/// A deletion and a creation of the same kind, seen as one rename.
pub open spec fn rename_of(d: OpView, c: OpView) -> Option<OpView> {
    match (d, c) {
        (OpView::Delete { path: from, is_dir: a }, OpView::Create { path: to, is_dir: b }) => {
            if a == b {
                Some(OpView::Rename { from, to })
            } else {
                None
            }
        },
        _ => None,
    }
}

fn has_parsed_name_exec(cur: &Vec<ParsedEntry>, name: &String) -> (b: bool)
    ensures
        b == has_parsed_name(cur@.map_values(|p: ParsedEntry| p@), name@),
{
    let ghost cv = cur@.map_values(|p: ParsedEntry| p@);
    let mut i: usize = 0;
    while i < cur.len()
        invariant
            i <= cur@.len(),
            cv == cur@.map_values(|p: ParsedEntry| p@),
            forall|j: int| 0 <= j < i ==> cv[j].name != name@,
        decreases cur.len() - i,
    {
        if cur[i].name == *name {
            assert(cv[i as int].name == name@);
            return true;
        }
        i = i + 1;
    }
    false
}

fn has_entry_name_exec(orig: &[OilEntry], name: &String) -> (b: bool)
    ensures
        b == has_entry_name(orig@, name@),
{
    let mut i: usize = 0;
    while i < orig.len()
        invariant
            i <= orig@.len(),
            forall|j: int| 0 <= j < i ==> orig@[j].name@ != name@,
        decreases orig.len() - i,
    {
        if orig[i].name == *name {
            assert(orig@[i as int].name@ == name@);
            return true;
        }
        i = i + 1;
    }
    false
}

fn parse_all(ls: &Vec<Vec<char>>, Ghost(sl): Ghost<Seq<Seq<char>>>) -> (cur: Vec<ParsedEntry>)
    requires
        ls@.len() == sl.len(),
        forall|i: int| 0 <= i < ls@.len() ==> #[trigger] ls@[i]@ == sl[i],
    ensures
        cur@.map_values(|p: ParsedEntry| p@) == parsed_entries(sl),
{
    let mut cur: Vec<ParsedEntry> = Vec::new();
    let mut i: usize = 0;
    while i < ls.len()
        invariant
            i <= ls@.len(),
            ls@.len() == sl.len(),
            forall|k: int| 0 <= k < ls@.len() ==> #[trigger] ls@[k]@ == sl[k],
            cur@.map_values(|p: ParsedEntry| p@) == parsed_entries(sl.take(i as int)),
        decreases ls.len() - i,
    {
        assert(sl.take(i + 1).drop_last() == sl.take(i as int));
        assert(sl.take(i + 1).last() == sl[i as int]);
        match parse_line_chars(&ls[i]) {
            Some(p) => {
                let ghost before = cur@;
                cur.push(p);
                assert(cur@ == before.push(p));
                assert(cur@.map_values(|p: ParsedEntry| p@) == before.map_values(
                    |p: ParsedEntry| p@,
                ).push(p@));
            },
            None => {},
        }
        i = i + 1;
    }
    assert(sl.take(ls@.len() as int) == sl);
    cur
}

/// The operations that applying an edited oil buffer asks for.
pub fn compute_oil_operations(original_entries: &[OilEntry], current_content: &str, directory: &str) -> (r: Vec<OilOperation>)
    ensures
        op_views(r@) == oil_operations(original_entries@, current_content@, directory@),
{
    let cs = chars_of(current_content);
    let ls = split_lines(&cs);
    let current = parse_all(&ls, Ghost(lines(current_content@)));
    let ghost cur = parsed_entries(lines(current_content@));
    let ghost orig = original_entries@;
    let mut ops: Vec<OilOperation> = Vec::new();
    let mut i: usize = 0;
    while i < original_entries.len()
        invariant
            i <= orig.len(),
            orig == original_entries@,
            cur == current@.map_values(|p: ParsedEntry| p@),
            op_views(ops@) == deletions(orig.take(i as int), cur),
        decreases original_entries.len() - i,
    {
        assert(orig.take(i + 1).drop_last() == orig.take(i as int));
        assert(orig.take(i + 1).last() == orig[i as int]);
        let e = &original_entries[i];
        if !has_parsed_name_exec(&current, &e.name) {
            let is_dir = match e.file_type {
                OilFileType::Directory => true,
                _ => false,
            };
            let op = OilOperation::Delete { path: e.original_path.clone(), is_dir };
            let ghost before = ops@;
            ops.push(op);
            assert(op_views(ops@) == op_views(before).push(op@));
        }
        i = i + 1;
    }
    assert(orig.take(orig.len() as int) == orig);
    let n_deletions = ops.len();
    let ghost dels = op_views(ops@);
    let mut creates: Vec<OilOperation> = Vec::new();
    let mut j: usize = 0;
    while j < current.len()
        invariant
            j <= cur.len(),
            orig == original_entries@,
            cur == current@.map_values(|p: ParsedEntry| p@),
            op_views(creates@) == creations(cur.take(j as int), orig, directory@),
        decreases current.len() - j,
    {
        assert(cur.take(j + 1).drop_last() == cur.take(j as int));
        assert(cur.take(j + 1).last() == cur[j as int]);
        let p = &current[j];
        if !has_entry_name_exec(original_entries, &p.name) {
            let path = join_path(directory, p.name.as_str());
            let op = OilOperation::Create { path, is_dir: p.is_dir };
            let ghost before = creates@;
            creates.push(op);
            assert(op_views(creates@) == op_views(before).push(op@));
        }
        j = j + 1;
    }
    assert(cur.take(cur.len() as int) == cur);
    if ops.len() == 1 && creates.len() == 1 {
        let single = match (&ops[0], &creates[0]) {
            (
                OilOperation::Delete { path: from, is_dir: a },
                OilOperation::Create { path: to, is_dir: b },
            ) => {
                if *a == *b {
                    Some(OilOperation::Rename { from: from.clone(), to: to.clone() })
                } else {
                    None
                }
            },
            _ => None,
        };
        match single {
            Some(op) => {
                let mut r: Vec<OilOperation> = Vec::new();
                r.push(op);
                assert(op_views(r@) == seq![op@]);
                return r;
            },
            None => {},
        }
    }
    let ghost before = ops@;
    let ghost added = creates@;
    ops.append(&mut creates);
    assert(op_views(ops@) == op_views(before) + op_views(added)) by {
        assert(ops@ == before + added);
    };
    ops
}

/// The name is that of an oil buffer.
pub fn is_oil_buffer_name(name: &str) -> (r: bool)
    ensures
        r == starts_with(name@, OIL_BUFFER_NAME_PREFIX@),
{
    str_starts_with(name, OIL_BUFFER_NAME_PREFIX)
}

/// The directory that an oil buffer name shows: the name after the prefix.
pub fn directory_from_buffer_name(name: &str) -> (r: Option<String>)
    ensures
        match r {
            Some(d) => starts_with(name@, OIL_BUFFER_NAME_PREFIX@) && d@ == name@.skip(
                OIL_BUFFER_NAME_PREFIX@.len() as int,
            ),
            None => !starts_with(name@, OIL_BUFFER_NAME_PREFIX@),
        },
{
    let n = chars_of(name);
    let p = chars_of(OIL_BUFFER_NAME_PREFIX);
    if starts_with_chars(&n, &p) {
        let rest = slice_chars(&n, p.len(), n.len());
        Some(string_of(&rest))
    } else {
        None
    }
}

} // verus!

verus! {

/// The target text that a symlink's line shows.
pub open spec fn target_text(e: OilEntry) -> Seq<char> {
    match e.symlink_target {
        Some(t) => t@,
        None => "?"@,
    }
}

/// An entry whose line reads back as the same entry: a name that is not
/// empty; a file's name does not end with whitespace, a directory's does not
/// end with `/`; a symlink's name holds no ` -> ` that starts within it, and
/// its target holds a character other than whitespace.
pub open spec fn reads_back(e: OilEntry) -> bool {
    let n = e.name@;
    &&& n.len() > 0
    &&& match e.file_type {
        OilFileType::File => !is_ws(n.last()),
        OilFileType::Directory => n.last() != '/',
        OilFileType::Symlink => {
            &&& forall|j: int| 0 <= j < n.len() ==> !occurs_at(n + " -> "@, " -> "@, j)
            &&& exists|k: int| 0 <= k < target_text(e).len() && !is_ws(#[trigger] target_text(e)[k])
        },
    }
}

/// An entry that can stand in a buffer and be read back: its line reads
/// back, and neither its name nor a symlink's target holds a line feed.
pub open spec fn listable(e: OilEntry) -> bool {
    &&& reads_back(e)
    &&& forall|i: int| 0 <= i < e.name@.len() ==> #[trigger] e.name@[i] != '\n'
    &&& e.file_type == OilFileType::Symlink ==> forall|i: int|
        0 <= i < target_text(e).len() ==> #[trigger] target_text(e)[i] != '\n'
}

/// What the parser reads from an entry's line.
pub open spec fn entry_parsed(e: OilEntry) -> ParsedView {
    ParsedView {
        name: e.name@,
        is_dir: e.file_type == OilFileType::Directory,
        is_symlink: e.file_type == OilFileType::Symlink,
    }
}

proof fn lemma_help_line_single()
    ensures
        OIL_HELP_LINE@.len() > 1,
        OIL_HELP_LINE@.last() == '\n',
        forall|i: int| 0 <= i < OIL_HELP_LINE@.len() - 1 ==> OIL_HELP_LINE@[i] != '\n',
        OIL_HELP_LINE@[0] == '#',
{
    reveal_strlit("# d=directory -=file l=symlink | Enter:open -:parent :w:apply\n");
}

proof fn lemma_entry_line_shape(e: OilEntry)
    requires
        listable(e),
    ensures
        entry_line(e).len() > 0,
        !is_ws(entry_line(e)[0]),
        forall|i: int| 0 <= i < entry_line(e).len() ==> entry_line(e)[i] != '\n',
{
    reveal_strlit("d ");
    reveal_strlit("- ");
    reveal_strlit("l ");
    reveal_strlit("/");
    reveal_strlit(" -> ");
    let n = e.name@;
    let l = entry_line(e);
    match e.file_type {
        OilFileType::Directory => {
            assert(l == seq!['d', ' '] + n + seq!['/']);
            assert forall|i: int| 0 <= i < l.len() implies l[i] != '\n' by {
                if 2 <= i < 2 + n.len() {
                    assert(l[i] == n[i - 2]);
                }
            }
        },
        OilFileType::File => {
            assert(l == seq!['-', ' '] + n);
            assert forall|i: int| 0 <= i < l.len() implies l[i] != '\n' by {
                if 2 <= i {
                    assert(l[i] == n[i - 2]);
                }
            }
        },
        OilFileType::Symlink => {
            let t = target_text(e);
            assert(l == seq!['l', ' '] + n + seq![' ', '-', '>', ' '] + t);
            assert forall|i: int| 0 <= i < l.len() implies l[i] != '\n' by {
                if 2 <= i < 2 + n.len() {
                    assert(l[i] == n[i - 2]);
                } else if 6 + n.len() <= i {
                    assert(l[i] == t[i - 6 - n.len()]);
                }
            }
        },
    }
}

/// Removing a carriage return at the end of a line that starts with a
/// character other than whitespace does not change what it parses to.
proof fn lemma_parse_strip_cr(l: Seq<char>)
    requires
        l.len() > 0,
        !is_ws(l[0]),
    ensures
        parse_line(strip_cr(l)) == parse_line(l),
{
    if l.len() > 0 && l.last() == '\r' {
        let d = l.drop_last();
        assert(is_ws(l.last()));
        assert(l.len() > 1);
        assert(d[0] == l[0]);
        assert(trim_start(l) == l);
        assert(trim_start(d) == d);
        assert(trim_end(l) == trim_end(d));
    }
}

/// Trimming the end of `a + b`, where `b` holds a character other than
/// whitespace, trims the end of `b` alone.
proof fn lemma_trim_end_suffix(a: Seq<char>, b: Seq<char>)
    requires
        exists|k: int| 0 <= k < b.len() && !is_ws(#[trigger] b[k]),
    ensures
        trim_end(a + b) == a + trim_end(b),
        exists|k: int| 0 <= k < trim_end(b).len() && !is_ws(#[trigger] trim_end(b)[k]),
    decreases b.len(),
{
    let k = choose|k: int| 0 <= k < b.len() && !is_ws(#[trigger] b[k]);
    assert((a + b).last() == b.last());
    if is_ws(b.last()) {
        assert(k < b.len() - 1);
        assert(b.drop_last()[k] == b[k]);
        lemma_trim_end_suffix(a, b.drop_last());
        assert((a + b).drop_last() == a + b.drop_last());
    } else {
        assert(trim_end(b)[k] == b[k]);
    }
}

proof fn lemma_parse_dir_line(n: Seq<char>)
    requires
        n.len() > 0,
        n.last() != '/',
    ensures
        parse_trimmed(seq!['d', ' '] + n + seq!['/']) == Some(ParsedView { name: n, is_dir: true, is_symlink: false }),
{
    reveal_strlit("d ");
    let l = seq!['d', ' '] + n + seq!['/'];
    assert(l.take(2) =~= "d "@);
    let rest = l.skip(2);
    assert(rest == n.push('/'));
    assert(rest.drop_last() == n);
    assert(trim_end_char(n, '/') == n);
}

proof fn lemma_parse_file_line(n: Seq<char>)
    requires
        n.len() > 0,
    ensures
        parse_trimmed(seq!['-', ' '] + n) == Some(ParsedView { name: n, is_dir: false, is_symlink: false }),
{
    reveal_strlit("d ");
    reveal_strlit("- ");
    let l = seq!['-', ' '] + n;
    assert(!starts_with(l, "d "@)) by {
        assert(l.take(2)[0] == '-');
    }
    assert(l.take(2) =~= "- "@);
    assert(l.skip(2) == n);
}

#[verifier::rlimit(50)]
proof fn lemma_parse_link_line(n: Seq<char>, t: Seq<char>)
    requires
        n.len() > 0,
        forall|j: int| 0 <= j < n.len() ==> !occurs_at(n + " -> "@, " -> "@, j),
    ensures
        parse_trimmed(seq!['l', ' '] + (n + " -> "@ + t)) == Some(ParsedView { name: n, is_dir: false, is_symlink: true }),
{
    reveal_strlit("d ");
    reveal_strlit("- ");
    reveal_strlit("l ");
    reveal_strlit(" -> ");
    let arrow = " -> "@;
    let l = seq!['l', ' '] + (n + arrow + t);
    assert(!starts_with(l, "d "@)) by {
        assert(l.take(2)[0] == 'l');
    }
    assert(!starts_with(l, "- "@)) by {
        assert(l.take(2)[0] == 'l');
    }
    assert(l.take(2) =~= "l "@);
    let rest = l.skip(2);
    assert(rest == n + arrow + t);
    assert(rest.subrange(n.len() as int, n.len() + 4int) == arrow);
    assert(occurs_at(rest, arrow, n.len() as int));
    assert forall|j: int| 0 <= j < n.len() implies !occurs_at(rest, arrow, j) by {
        if occurs_at(rest, arrow, j) {
            assert((n + arrow).subrange(j, j + 4) =~= rest.subrange(j, j + 4));
            assert(occurs_at(n + arrow, arrow, j));
        }
    }
    lemma_find_is(rest, arrow, n.len() as int);
    assert(rest.take(n.len() as int) == n);
}

/// The line of an entry reads back as that entry.
pub proof fn law_entry_line_parses_back(e: OilEntry)
    requires
        reads_back(e),
    ensures
        parse_line(entry_line(e)) == Some(entry_parsed(e)),
{
    let l = entry_line(e);
    let n = e.name@;
    match e.file_type {
        OilFileType::Directory => {
            reveal_strlit("d ");
            reveal_strlit("/");
            assert(l == seq!['d', ' '] + n + seq!['/']);
            lemma_trim_noop(l);
            lemma_parse_dir_line(n);
        },
        OilFileType::File => {
            reveal_strlit("- ");
            assert(l == seq!['-', ' '] + n);
            assert(l.last() == n.last());
            lemma_trim_noop(l);
            lemma_parse_file_line(n);
        },
        OilFileType::Symlink => {
            reveal_strlit("l ");
            let t = target_text(e);
            let head = seq!['l', ' '] + (n + " -> "@);
            assert(l == seq!['l', ' '] + (n + " -> "@ + t));
            assert(l == head + t);
            lemma_trim_end_suffix(head, t);
            assert(trim_start(l) == l);
            assert(trim(l) == head + trim_end(t));
            assert(head + trim_end(t) == seq!['l', ' '] + (n + " -> "@ + trim_end(t)));
            lemma_parse_link_line(n, trim_end(t));
        },
    }
}

/// Entries of a concatenation of line lists are those of each.
proof fn lemma_parsed_entries_append(a: Seq<Seq<char>>, b: Seq<Seq<char>>)
    ensures
        parsed_entries(a + b) == parsed_entries(a) + parsed_entries(b),
    decreases b.len(),
{
    if b.len() == 0 {
        assert(a + b == a);
        assert(parsed_entries(a) + Seq::<ParsedView>::empty() == parsed_entries(a));
    } else {
        lemma_parsed_entries_append(a, b.drop_last());
        assert((a + b).drop_last() == a + b.drop_last());
        assert((a + b).last() == b.last());
    }
}

/// A line that starts with `#` names no entry.
proof fn lemma_comment_line(l: Seq<char>)
    requires
        l.len() > 0,
        l[0] == '#',
    ensures
        parse_line(l) is None,
{
    lemma_trim_keeps_first(l);
}

/// The three header lines of a buffer name nothing; the lines after them
/// are those of the entry text.
#[verifier::rlimit(50)]
proof fn lemma_header_lines(dir: Seq<char>, body: Seq<char>)
    requires
        forall|i: int| 0 <= i < dir.len() ==> dir[i] != '\n',
    ensures
        parsed_entries(lines("# "@ + dir + "\n"@ + OIL_HELP_LINE@ + "\n"@ + body)) == parsed_entries(lines(body)),
{
    reveal_strlit("# ");
    reveal_strlit("\n");
    lemma_help_line_single();
    let help = OIL_HELP_LINE@;
    let first = seq!['#', ' '] + dir;
    let content = "# "@ + dir + "\n"@ + OIL_HELP_LINE@ + "\n"@ + body;
    assert(content == first.push('\n') + (help + (seq!['\n'] + body)));
    assert forall|i: int| 0 <= i < first.len() implies first[i] != '\n' by {
        if i >= 2 {
            assert(first[i] == dir[i - 2]);
        }
    }
    lemma_lines_single(first, Seq::empty());
    assert(Seq::<char>::empty() + first == first);
    lemma_lines_append(first.push('\n'), help + (seq!['\n'] + body), Seq::empty());
    let hb = help.drop_last();
    assert(help == hb.push('\n'));
    assert forall|i: int| 0 <= i < hb.len() implies hb[i] != '\n' by {
        assert(hb[i] == help[i]);
    }
    lemma_lines_single(hb, Seq::empty());
    assert(Seq::<char>::empty() + hb == hb);
    lemma_lines_append(help, seq!['\n'] + body, Seq::empty());
    assert(seq!['\n'] == Seq::<char>::empty().push('\n'));
    lemma_lines_single(Seq::empty(), Seq::empty());
    lemma_lines_append(seq!['\n'], body, Seq::empty());
    let head = seq![strip_cr(first), strip_cr(hb), strip_cr(Seq::<char>::empty())];
    assert(lines(content) == head + lines(body));
    assert(strip_cr(first)[0] == '#');
    lemma_comment_line(strip_cr(first));
    assert(hb.len() > 0 && hb[0] == '#');
    assert(strip_cr(hb).len() > 0 && strip_cr(hb)[0] == '#');
    lemma_comment_line(strip_cr(hb));
    assert(trim(Seq::<char>::empty()) == Seq::<char>::empty());
    reveal_with_fuel(parsed_entries, 4);
    assert(head.drop_last().drop_last().drop_last() == Seq::<Seq<char>>::empty());
    assert(parsed_entries(head) == Seq::<ParsedView>::empty());
    lemma_parsed_entries_append(head, lines(body));
}

/// The lines of the buffer text of a directory name exactly its entries.
#[verifier::rlimit(50)]
proof fn lemma_buffer_entries(dir: Seq<char>, entries: Seq<OilEntry>)
    requires
        forall|i: int| 0 <= i < dir.len() ==> dir[i] != '\n',
        forall|k: int| 0 <= k < entries.len() ==> listable(#[trigger] entries[k]),
    ensures
        parsed_entries(lines(oil_buffer_content(dir, entries))) == entries.map_values(
            |e: OilEntry| entry_parsed(e),
        ),
{
    reveal_strlit("\n");
    let parts = entries.map_values(|e: OilEntry| entry_line(e) + "\n"@);
    let body = concat(parts);
    lemma_header_lines(dir, body);
    assert forall|k: int|
        0 <= k < parts.len() implies (#[trigger] parts[k]).len() > 0 && parts[k].last() == '\n'
            && forall|i: int| 0 <= i < parts[k].len() - 1 ==> parts[k][i] != '\n' by {
        lemma_entry_line_shape(entries[k]);
        assert(parts[k] == entry_line(entries[k]).push('\n'));
        assert forall|i: int| 0 <= i < parts[k].len() - 1 implies parts[k][i] != '\n' by {
            assert(parts[k][i] == entry_line(entries[k])[i]);
        }
    }
    lemma_lines_concat(parts);
    let entry_lines = parts.map_values(|p: Seq<char>| strip_cr(p.drop_last()));
    assert forall|k: int| 0 <= k < entries.len() implies #[trigger] entry_lines[k] == strip_cr(entry_line(entries[k])) by {
        assert(parts[k] == entry_line(entries[k]) + "\n"@);
        assert(parts[k].drop_last() == entry_line(entries[k]));
    }
    lemma_parsed_lines(entries, entry_lines);
}

proof fn lemma_parsed_lines(entries: Seq<OilEntry>, entry_lines: Seq<Seq<char>>)
    requires
        forall|k: int| 0 <= k < entries.len() ==> listable(#[trigger] entries[k]),
        entry_lines.len() == entries.len(),
        forall|k: int| 0 <= k < entries.len() ==> #[trigger] entry_lines[k] == strip_cr(entry_line(entries[k])),
    ensures
        parsed_entries(entry_lines) == entries.map_values(|e: OilEntry| entry_parsed(e)),
    decreases entries.len(),
{
    if entries.len() == 0 {
        assert(entry_lines =~= Seq::<Seq<char>>::empty());
        assert(entries.map_values(|e: OilEntry| entry_parsed(e)) =~= Seq::<ParsedView>::empty());
    } else {
        let init = entries.drop_last();
        let e = entries.last();
        assert(listable(entries[entries.len() - 1]));
        assert forall|k: int| 0 <= k < init.len() implies listable(#[trigger] init[k]) by {
            assert(init[k] == entries[k]);
        }
        let il = entry_lines.drop_last();
        assert forall|k: int| 0 <= k < init.len() implies #[trigger] il[k] == strip_cr(entry_line(init[k])) by {
            assert(il[k] == entry_lines[k]);
            assert(init[k] == entries[k]);
        }
        lemma_parsed_lines(init, il);
        assert(entry_lines.last() == strip_cr(entry_line(entries[entries.len() - 1])));
        law_entry_line_parses_back(e);
        lemma_entry_line_shape(e);
        lemma_parse_strip_cr(entry_line(e));
        assert(entries.map_values(|e: OilEntry| entry_parsed(e)) == init.map_values(
            |e: OilEntry| entry_parsed(e),
        ).push(entry_parsed(e)));
    }
}

/// No original entry is missing from the current ones.
proof fn lemma_no_deletions(orig: Seq<OilEntry>, cur: Seq<ParsedView>)
    requires
        forall|k: int| 0 <= k < orig.len() ==> has_parsed_name(cur, #[trigger] orig[k].name@),
    ensures
        deletions(orig, cur) == Seq::<OpView>::empty(),
    decreases orig.len(),
{
    if orig.len() > 0 {
        assert forall|k: int| 0 <= k < orig.drop_last().len() implies has_parsed_name(
            cur,
            #[trigger] orig.drop_last()[k].name@,
        ) by {
            assert(orig.drop_last()[k] == orig[k]);
        }
        lemma_no_deletions(orig.drop_last(), cur);
        assert(has_parsed_name(cur, orig[orig.len() - 1].name@));
    }
}

/// No current entry is missing from the original ones.
proof fn lemma_no_creations(cur: Seq<ParsedView>, orig: Seq<OilEntry>, dir: Seq<char>)
    requires
        forall|k: int| 0 <= k < cur.len() ==> has_entry_name(orig, (#[trigger] cur[k]).name),
    ensures
        creations(cur, orig, dir) == Seq::<OpView>::empty(),
    decreases cur.len(),
{
    if cur.len() > 0 {
        assert forall|k: int| 0 <= k < cur.drop_last().len() implies has_entry_name(
            orig,
            (#[trigger] cur.drop_last()[k]).name,
        ) by {
            assert(cur.drop_last()[k] == cur[k]);
        }
        lemma_no_creations(cur.drop_last(), orig, dir);
        assert(has_entry_name(orig, cur[cur.len() - 1].name));
    }
}

/// Saving an oil buffer that was not edited asks for no operation.
pub proof fn law_unedited_buffer_is_no_change(dir: Seq<char>, entries: Seq<OilEntry>)
    requires
        forall|i: int| 0 <= i < dir.len() ==> dir[i] != '\n',
        forall|k: int| 0 <= k < entries.len() ==> listable(#[trigger] entries[k]),
    ensures
        oil_operations(entries, oil_buffer_content(dir, entries), dir) == Seq::<OpView>::empty(),
{
    lemma_buffer_entries(dir, entries);
    let cur = parsed_entries(lines(oil_buffer_content(dir, entries)));
    assert(cur == entries.map_values(|e: OilEntry| entry_parsed(e)));
    assert forall|k: int| 0 <= k < entries.len() implies has_parsed_name(cur, #[trigger] entries[k].name@) by {
        assert(cur[k] == entry_parsed(entries[k]));
    }
    lemma_no_deletions(entries, cur);
    assert forall|k: int| 0 <= k < cur.len() implies has_entry_name(entries, (#[trigger] cur[k]).name) by {
        assert(cur[k] == entry_parsed(entries[k]));
        assert(entries[k].name@ == cur[k].name);
    }
    lemma_no_creations(cur, entries, dir);
    let d = deletions(entries, cur);
    let c = creations(cur, entries, dir);
    assert(d + c == Seq::<OpView>::empty());
}

/// The directory read back from an oil buffer's name is the directory shown.
pub proof fn law_buffer_name_directory(dir: Seq<char>)
    ensures
        starts_with(OIL_BUFFER_NAME_PREFIX@ + dir, OIL_BUFFER_NAME_PREFIX@),
        (OIL_BUFFER_NAME_PREFIX@ + dir).skip(OIL_BUFFER_NAME_PREFIX@.len() as int) == dir,
{
    assert((OIL_BUFFER_NAME_PREFIX@ + dir).take(OIL_BUFFER_NAME_PREFIX@.len() as int) == OIL_BUFFER_NAME_PREFIX@);
    assert((OIL_BUFFER_NAME_PREFIX@ + dir).skip(OIL_BUFFER_NAME_PREFIX@.len() as int) == dir);
}


/// A directory's contents as the paths it holds, each with whether it is a
/// directory.
pub type DirModel = Map<Seq<char>, bool>;

/// The directory after an operation.
pub open spec fn apply_op(fs: DirModel, op: OpView) -> DirModel {
    match op {
        OpView::Create { path, is_dir } => fs.insert(path, is_dir),
        OpView::Delete { path, is_dir } => fs.remove(path),
        OpView::Rename { from, to } => fs.remove(from).insert(to, fs[from]),
    }
}

/// The directory after the operations, in order.
pub open spec fn apply_ops(fs: DirModel, ops: Seq<OpView>) -> DirModel
    decreases ops.len(),
{
    if ops.len() == 0 {
        fs
    } else {
        apply_op(apply_ops(fs, ops.drop_last()), ops.last())
    }
}

/// The directory that holds the entries: each at its name in `dir`.
pub open spec fn listing_model(orig: Seq<OilEntry>, dir: Seq<char>) -> DirModel
    decreases orig.len(),
{
    if orig.len() == 0 {
        Map::empty()
    } else {
        listing_model(orig.drop_last(), dir).insert(
            path_join(dir, orig.last().name@),
            orig.last().file_type == OilFileType::Directory,
        )
    }
}

/// The directory that a buffer's entries describe.
pub open spec fn buffer_model(cur: Seq<ParsedView>, dir: Seq<char>) -> DirModel
    decreases cur.len(),
{
    if cur.len() == 0 {
        Map::empty()
    } else {
        buffer_model(cur.drop_last(), dir).insert(path_join(dir, cur.last().name), cur.last().is_dir)
    }
}

/// Distinct names of the entries are distinct paths in `dir`.
pub open spec fn entries_apart(orig: Seq<OilEntry>, dir: Seq<char>) -> bool {
    forall|i: int, j: int|
        0 <= i < orig.len() && 0 <= j < orig.len() && #[trigger] path_join(dir, orig[i].name@) == #[trigger] path_join(
            dir,
            orig[j].name@,
        ) ==> orig[i].name@ == orig[j].name@
}

/// Distinct names of the buffer's entries are distinct paths in `dir`.
pub open spec fn parsed_apart(cur: Seq<ParsedView>, dir: Seq<char>) -> bool {
    forall|i: int, j: int|
        0 <= i < cur.len() && 0 <= j < cur.len() && #[trigger] path_join(dir, cur[i].name) == #[trigger] path_join(
            dir,
            cur[j].name,
        ) ==> cur[i].name == cur[j].name
}

proof fn lemma_apply_ops_append(fs: DirModel, a: Seq<OpView>, b: Seq<OpView>)
    ensures
        apply_ops(fs, a + b) == apply_ops(apply_ops(fs, a), b),
    decreases b.len(),
{
    if b.len() == 0 {
        assert(a + b == a);
    } else {
        lemma_apply_ops_append(fs, a, b.drop_last());
        assert((a + b).drop_last() == a + b.drop_last());
        assert((a + b).last() == b.last());
    }
}

proof fn lemma_listing_model(orig: Seq<OilEntry>, dir: Seq<char>)
    requires
        entries_apart(orig, dir),
        forall|i: int, j: int| 0 <= i < j < orig.len() ==> orig[i].name@ != orig[j].name@,
    ensures
        forall|i: int| 0 <= i < orig.len() ==> listing_model(orig, dir).contains_key(path_join(dir, (#[trigger] orig[i]).name@))
            && listing_model(orig, dir)[path_join(dir, orig[i].name@)] == (orig[i].file_type == OilFileType::Directory),
        forall|k: Seq<char>| #[trigger] listing_model(orig, dir).contains_key(k) ==> exists|i: int|
            0 <= i < orig.len() && path_join(dir, (#[trigger] orig[i]).name@) == k,
    decreases orig.len(),
{
    if orig.len() > 0 {
        let init = orig.drop_last();
        assert forall|i: int, j: int|
            0 <= i < init.len() && 0 <= j < init.len() && #[trigger] path_join(dir, init[i].name@) == #[trigger] path_join(
                dir,
                init[j].name@,
            ) implies init[i].name@ == init[j].name@ by {
            assert(init[i] == orig[i] && init[j] == orig[j]);
        }
        lemma_listing_model(init, dir);
        let m = listing_model(orig, dir);
        let last = orig.last();
        assert forall|i: int| 0 <= i < orig.len() implies m.contains_key(path_join(dir, (#[trigger] orig[i]).name@))
            && m[path_join(dir, orig[i].name@)] == (orig[i].file_type == OilFileType::Directory) by {
            if i < orig.len() - 1 {
                assert(init[i] == orig[i]);
                assert(orig[i].name@ != last.name@);
                assert(orig[orig.len() - 1] == last);
                assert(path_join(dir, orig[i].name@) != path_join(dir, orig[orig.len() - 1].name@));
            }
        }
        assert forall|k: Seq<char>| #[trigger] m.contains_key(k) implies exists|i: int|
            0 <= i < orig.len() && path_join(dir, (#[trigger] orig[i]).name@) == k by {
            if k == path_join(dir, last.name@) {
                assert(orig[orig.len() - 1] == last);
            } else {
                assert(listing_model(init, dir).contains_key(k));
                let i = choose|i: int| 0 <= i < init.len() && path_join(dir, (#[trigger] init[i]).name@) == k;
                assert(orig[i] == init[i]);
            }
        }
    }
}

proof fn lemma_buffer_model(cur: Seq<ParsedView>, dir: Seq<char>)
    requires
        parsed_apart(cur, dir),
        forall|i: int, j: int| 0 <= i < j < cur.len() ==> cur[i].name != cur[j].name,
    ensures
        forall|i: int| 0 <= i < cur.len() ==> buffer_model(cur, dir).contains_key(path_join(dir, (#[trigger] cur[i]).name))
            && buffer_model(cur, dir)[path_join(dir, cur[i].name)] == cur[i].is_dir,
        forall|k: Seq<char>| #[trigger] buffer_model(cur, dir).contains_key(k) ==> exists|i: int|
            0 <= i < cur.len() && path_join(dir, (#[trigger] cur[i]).name) == k,
    decreases cur.len(),
{
    if cur.len() > 0 {
        let init = cur.drop_last();
        assert forall|i: int, j: int|
            0 <= i < init.len() && 0 <= j < init.len() && #[trigger] path_join(dir, init[i].name) == #[trigger] path_join(
                dir,
                init[j].name,
            ) implies init[i].name == init[j].name by {
            assert(init[i] == cur[i] && init[j] == cur[j]);
        }
        lemma_buffer_model(init, dir);
        let m = buffer_model(cur, dir);
        let last = cur.last();
        assert forall|i: int| 0 <= i < cur.len() implies m.contains_key(path_join(dir, (#[trigger] cur[i]).name))
            && m[path_join(dir, cur[i].name)] == cur[i].is_dir by {
            if i < cur.len() - 1 {
                assert(init[i] == cur[i]);
                assert(cur[i].name != last.name);
                assert(cur[cur.len() - 1] == last);
                assert(path_join(dir, cur[i].name) != path_join(dir, cur[cur.len() - 1].name));
            }
        }
        assert forall|k: Seq<char>| #[trigger] m.contains_key(k) implies exists|i: int|
            0 <= i < cur.len() && path_join(dir, (#[trigger] cur[i]).name) == k by {
            if k == path_join(dir, last.name) {
                assert(cur[cur.len() - 1] == last);
            } else {
                assert(buffer_model(init, dir).contains_key(k));
                let i = choose|i: int| 0 <= i < init.len() && path_join(dir, (#[trigger] init[i]).name) == k;
                assert(cur[i] == init[i]);
            }
        }
    }
}

/// The original entry at `i` is deleted: the buffer no longer names it.
pub open spec fn deleted_at(orig: Seq<OilEntry>, cur: Seq<ParsedView>, i: int) -> bool {
    0 <= i < orig.len() && !has_parsed_name(cur, orig[i].name@)
}

/// The buffer entry at `i` is created: the directory did not hold it.
pub open spec fn created_at(cur: Seq<ParsedView>, orig: Seq<OilEntry>, i: int) -> bool {
    0 <= i < cur.len() && !has_entry_name(orig, cur[i].name)
}

proof fn lemma_deletions_effect(fs: DirModel, orig: Seq<OilEntry>, cur: Seq<ParsedView>)
    ensures
        forall|k: Seq<char>| #[trigger] apply_ops(fs, deletions(orig, cur)).contains_key(k) <==> (fs.contains_key(k)
            && !exists|i: int| #[trigger] deleted_at(orig, cur, i) && orig[i].original_path@ == k),
        forall|k: Seq<char>| #[trigger] apply_ops(fs, deletions(orig, cur)).contains_key(k) ==> apply_ops(
            fs,
            deletions(orig, cur),
        )[k] == fs[k],
    decreases orig.len(),
{
    if orig.len() > 0 {
        let init = orig.drop_last();
        lemma_deletions_effect(fs, init, cur);
        let prev = apply_ops(fs, deletions(init, cur));
        let e = orig.last();
        let ds = deletions(orig, cur);
        if has_parsed_name(cur, e.name@) {
            assert(ds == deletions(init, cur));
        } else {
            let op = OpView::Delete { path: e.original_path@, is_dir: e.file_type == OilFileType::Directory };
            assert(ds == deletions(init, cur).push(op));
            assert(ds.drop_last() == deletions(init, cur));
        }
        let r = apply_ops(fs, ds);
        assert forall|k: Seq<char>| #[trigger] r.contains_key(k) <==> (fs.contains_key(k)
            && !exists|i: int| #[trigger] deleted_at(orig, cur, i) && orig[i].original_path@ == k) by {
            if exists|i: int| #[trigger] deleted_at(orig, cur, i) && orig[i].original_path@ == k {
                let i = choose|i: int| #[trigger] deleted_at(orig, cur, i) && orig[i].original_path@ == k;
                if i < orig.len() - 1 {
                    assert(init[i] == orig[i]);
                    assert(deleted_at(init, cur, i));
                }
            }
            if exists|i: int| #[trigger] deleted_at(init, cur, i) && init[i].original_path@ == k {
                let i = choose|i: int| #[trigger] deleted_at(init, cur, i) && init[i].original_path@ == k;
                assert(init[i] == orig[i]);
                assert(deleted_at(orig, cur, i));
            }
            if !has_parsed_name(cur, e.name@) {
                assert(deleted_at(orig, cur, orig.len() - 1));
            }
        }
    }
}

proof fn lemma_creations_effect(fs: DirModel, cur: Seq<ParsedView>, orig: Seq<OilEntry>, dir: Seq<char>)
    requires
        parsed_apart(cur, dir),
        forall|i: int, j: int| 0 <= i < j < cur.len() ==> cur[i].name != cur[j].name,
    ensures
        forall|k: Seq<char>| #[trigger] apply_ops(fs, creations(cur, orig, dir)).contains_key(k) <==> (fs.contains_key(k)
            || exists|i: int| #[trigger] created_at(cur, orig, i) && path_join(dir, cur[i].name) == k),
        forall|i: int| #[trigger] created_at(cur, orig, i) ==> apply_ops(fs, creations(cur, orig, dir))[path_join(dir, cur[i].name)]
            == cur[i].is_dir,
        forall|k: Seq<char>|
            #![trigger apply_ops(fs, creations(cur, orig, dir))[k]]
            fs.contains_key(k) && !(exists|i: int| #[trigger] created_at(cur, orig, i) && path_join(dir, cur[i].name) == k)
                ==> apply_ops(fs, creations(cur, orig, dir))[k] == fs[k],
    decreases cur.len(),
{
    if cur.len() > 0 {
        let init = cur.drop_last();
        assert forall|i: int, j: int| 0 <= i < j < init.len() implies init[i].name != init[j].name by {
            assert(init[i] == cur[i] && init[j] == cur[j]);
        }
        assert forall|i: int, j: int|
            0 <= i < init.len() && 0 <= j < init.len() && #[trigger] path_join(dir, init[i].name) == #[trigger] path_join(
                dir,
                init[j].name,
            ) implies init[i].name == init[j].name by {
            assert(init[i] == cur[i] && init[j] == cur[j]);
        }
        lemma_creations_effect(fs, init, orig, dir);
        let p = cur.last();
        let cs = creations(cur, orig, dir);
        let prev = apply_ops(fs, creations(init, orig, dir));
        let r = apply_ops(fs, cs);
        if has_entry_name(orig, p.name) {
            assert(cs == creations(init, orig, dir));
            assert(r == prev);
        } else {
            let op = OpView::Create { path: path_join(dir, p.name), is_dir: p.is_dir };
            assert(cs == creations(init, orig, dir).push(op));
            assert(cs.drop_last() == creations(init, orig, dir));
            assert(cs.last() == op);
            assert(r == prev.insert(path_join(dir, p.name), p.is_dir));
        }
        let last = cur.len() - 1;
        assert(cur[last] == p);
        assert forall|i: int| 0 <= i < init.len() implies (#[trigger] created_at(cur, orig, i)) == created_at(init, orig, i) by {
            assert(init[i] == cur[i]);
        }
        assert forall|k: Seq<char>| #[trigger] r.contains_key(k) <==> (fs.contains_key(k)
            || exists|i: int| #[trigger] created_at(cur, orig, i) && path_join(dir, cur[i].name) == k) by {
            if exists|i: int| #[trigger] created_at(cur, orig, i) && path_join(dir, cur[i].name) == k {
                let i = choose|i: int| #[trigger] created_at(cur, orig, i) && path_join(dir, cur[i].name) == k;
                if i < last {
                    assert(created_at(init, orig, i) && path_join(dir, init[i].name) == k);
                }
            }
            if exists|i: int| #[trigger] created_at(init, orig, i) && path_join(dir, init[i].name) == k {
                let i = choose|i: int| #[trigger] created_at(init, orig, i) && path_join(dir, init[i].name) == k;
                assert(created_at(cur, orig, i));
            }
            if !has_entry_name(orig, p.name) {
                assert(created_at(cur, orig, last));
            }
        }
        assert forall|i: int| #[trigger] created_at(cur, orig, i) implies r[path_join(dir, cur[i].name)] == cur[i].is_dir by {
            if i < last {
                assert(created_at(init, orig, i));
                assert(cur[i].name != p.name);
            }
        }
        assert forall|k: Seq<char>|
            #![trigger r[k]]
            fs.contains_key(k) && !(exists|i: int| #[trigger] created_at(cur, orig, i) && path_join(dir, cur[i].name) == k)
                implies r[k] == fs[k] by {
            assert forall|i: int| #[trigger] created_at(init, orig, i) implies path_join(dir, init[i].name) != k by {
                assert(created_at(cur, orig, i));
            }
            if !has_entry_name(orig, p.name) {
                assert(created_at(cur, orig, last));
            }
        }
    }
}

/// Running the operations that saving a buffer asks for turns the directory
/// into the one the buffer describes. This holds where each entry lies at its
/// name in the directory, names are distinct on each side, the distinct
/// names of each side are distinct paths in the directory, and a name on both
/// sides keeps its kind.
pub proof fn law_operations_reach_buffer(orig: Seq<OilEntry>, content: Seq<char>, dir: Seq<char>)
    requires
        entries_apart(orig, dir),
        parsed_apart(parsed_entries(lines(content)), dir),
        forall|i: int| 0 <= i < orig.len() ==> (#[trigger] orig[i]).original_path@ == path_join(dir, orig[i].name@),
        forall|i: int, j: int| 0 <= i < j < orig.len() ==> orig[i].name@ != orig[j].name@,
        forall|i: int, j: int|
            0 <= i < j < parsed_entries(lines(content)).len() ==> parsed_entries(lines(content))[i].name
                != parsed_entries(lines(content))[j].name,
        forall|i: int, j: int|
            0 <= i < parsed_entries(lines(content)).len() && 0 <= j < orig.len() && #[trigger] parsed_entries(
                lines(content),
            )[i].name == #[trigger] orig[j].name@ ==> parsed_entries(lines(content))[i].is_dir == (orig[j].file_type
                == OilFileType::Directory),
    ensures
        apply_ops(listing_model(orig, dir), oil_operations(orig, content, dir)) == buffer_model(
            parsed_entries(lines(content)),
            dir,
        ),
{
    let cur = parsed_entries(lines(content));
    let fs0 = listing_model(orig, dir);
    let d = deletions(orig, cur);
    let c = creations(cur, orig, dir);
    lemma_listing_model(orig, dir);
    lemma_buffer_model(cur, dir);
    lemma_deletions_effect(fs0, orig, cur);
    let fs1 = apply_ops(fs0, d);
    lemma_creations_effect(fs1, cur, orig, dir);
    let fs2 = apply_ops(fs1, c);
    lemma_apply_ops_append(fs0, d, c);
    let want = buffer_model(cur, dir);
    assert forall|k: Seq<char>| #[trigger] fs2.contains_key(k) <==> want.contains_key(k) by {
        if want.contains_key(k) {
            let i = choose|i: int| 0 <= i < cur.len() && path_join(dir, (#[trigger] cur[i]).name) == k;
            if !created_at(cur, orig, i) {
                let j = choose|j: int| 0 <= j < orig.len() && (#[trigger] orig[j]).name@ == cur[i].name;
                assert(fs0.contains_key(path_join(dir, orig[j].name@)));
                if exists|x: int| #[trigger] deleted_at(orig, cur, x) && orig[x].original_path@ == k {
                    let x = choose|x: int| #[trigger] deleted_at(orig, cur, x) && orig[x].original_path@ == k;
                    assert(path_join(dir, orig[x].name@) == path_join(dir, orig[j].name@));
                    assert(cur[i].name == orig[x].name@);
                }
            }
        }
        if fs2.contains_key(k) && !want.contains_key(k) {
            if fs1.contains_key(k) {
                let j = choose|j: int| 0 <= j < orig.len() && path_join(dir, (#[trigger] orig[j]).name@) == k;
                if has_parsed_name(cur, orig[j].name@) {
                    let i = choose|i: int| 0 <= i < cur.len() && (#[trigger] cur[i]).name == orig[j].name@;
                    assert(want.contains_key(path_join(dir, cur[i].name)));
                } else {
                    assert(deleted_at(orig, cur, j));
                }
            } else {
                let i = choose|i: int| #[trigger] created_at(cur, orig, i) && path_join(dir, cur[i].name) == k;
                assert(want.contains_key(path_join(dir, cur[i].name)));
            }
        }
    }
    assert forall|k: Seq<char>| #[trigger] want.contains_key(k) implies fs2[k] == want[k] by {
        let i = choose|i: int| 0 <= i < cur.len() && path_join(dir, (#[trigger] cur[i]).name) == k;
        if created_at(cur, orig, i) {
        } else {
            let j = choose|j: int| 0 <= j < orig.len() && (#[trigger] orig[j]).name@ == cur[i].name;
            assert(fs0[path_join(dir, orig[j].name@)] == (orig[j].file_type == OilFileType::Directory));
            assert(fs1.contains_key(k));
            assert forall|x: int| #[trigger] created_at(cur, orig, x) implies path_join(dir, cur[x].name) != k by {
                if path_join(dir, cur[x].name) == k {
                    assert(cur[x].name == cur[i].name);
                    assert(cur[x].name == orig[j].name@);
                }
            }
        }
    }
    assert(fs2 =~= want);
    if d.len() == 1 && c.len() == 1 && rename_of(d[0], c[0]) is Some {
        lemma_deletions_elems(orig, cur);
        assert(deletion_from(orig, cur, d[0]));
        let x = choose|x: int| #[trigger] deleted_at(orig, cur, x) && d[0] == deletion_op(orig[x]);
        let from = orig[x].original_path@;
        assert(fs0[from] == (orig[x].file_type == OilFileType::Directory));
        let ren = rename_of(d[0], c[0])->0;
        let ops = oil_operations(orig, content, dir);
        assert(ops == seq![ren]);
        assert(ops.drop_last() == Seq::<OpView>::empty());
        assert(ops.last() == ren);
        assert(apply_ops(fs0, Seq::<OpView>::empty()) == fs0);
        assert(apply_ops(fs0, ops) == apply_op(fs0, ren));
        let dc = d + c;
        assert(dc.drop_last() == seq![d[0]]);
        assert(dc.last() == c[0]);
        assert(seq![d[0]].drop_last() == Seq::<OpView>::empty());
        assert(seq![d[0]].last() == d[0]);
        assert(apply_ops(fs0, seq![d[0]]) == apply_op(fs0, d[0]));
        assert(apply_ops(fs0, dc) == apply_op(apply_op(fs0, d[0]), c[0]));
        match c[0] {
            OpView::Create { path: to, is_dir: b } => {
                assert(ren == OpView::Rename { from, to });
                assert(apply_op(fs0, ren) =~= apply_ops(fs0, dc));
            },
            _ => {},
        }
    }
}

/// The deletion of an entry: its original path, with its kind.
pub open spec fn deletion_op(e: OilEntry) -> OpView {
    OpView::Delete { path: e.original_path@, is_dir: e.file_type == OilFileType::Directory }
}

/// `op` deletes an original entry that the buffer no longer names.
pub open spec fn deletion_from(orig: Seq<OilEntry>, cur: Seq<ParsedView>, op: OpView) -> bool {
    exists|x: int| #[trigger] deleted_at(orig, cur, x) && op == deletion_op(orig[x])
}

/// Each deletion removes the original path of an entry the buffer no longer
/// names, with that entry's kind.
proof fn lemma_deletions_elems(orig: Seq<OilEntry>, cur: Seq<ParsedView>)
    ensures
        forall|m: int| 0 <= m < deletions(orig, cur).len() ==> deletion_from(orig, cur, #[trigger] deletions(orig, cur)[m]),
    decreases orig.len(),
{
    if orig.len() > 0 {
        let init = orig.drop_last();
        lemma_deletions_elems(init, cur);
        let ds = deletions(orig, cur);
        let prev = deletions(init, cur);
        let e = orig.last();
        let op = deletion_op(e);
        if has_parsed_name(cur, e.name@) {
            assert(ds == prev);
        } else {
            assert(ds == prev.push(op));
            assert(orig[orig.len() - 1] == e);
        }
        assert forall|m: int| 0 <= m < ds.len() implies deletion_from(orig, cur, #[trigger] ds[m]) by {
            if m < prev.len() {
                assert(ds[m] == prev[m]);
                assert(deletion_from(init, cur, prev[m]));
                let x = choose|x: int| #[trigger] deleted_at(init, cur, x) && prev[m] == deletion_op(init[x]);
                assert(init[x] == orig[x]);
                assert(deleted_at(orig, cur, x));
            } else {
                assert(ds[m] == op);
                assert(deleted_at(orig, cur, orig.len() - 1));
            }
        }
    }
}

} // verus!
