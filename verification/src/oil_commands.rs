//! The decisions of the oil commands: what Enter on a buffer line opens, where
//! the parent directory is, how a directory listing is filtered and ordered,
//! and how a batch of filesystem operations is run.
use vstd::prelude::*;
use crate::oil::{OilEntry, OilFileType, OilOperation, OilSortOrder, OilState, parse_line};
use crate::path::{join_path, parent_path, path_join, path_parent};
use crate::text::{chars_of, lemma_text_lt_asymmetric, lowercase, text_lt, text_lt_exec, to_lowercase};

verus! {

/// What Enter on an oil buffer line asks for.
#[derive(Debug)]
pub enum OilEnterAction {
    /// The line names no entry.
    Nothing,
    /// Show this directory in the oil buffer.
    OpenDirectory(String),
    /// Open this file.
    OpenFile(String),
    /// Show this directory, which the buffer added, if it exists by now.
    OpenNewDirectory(String),
    /// Open this file, which the buffer added, if it exists by now.
    OpenNewFile(String),
}

/// The position of the first original entry named `name`.
pub open spec fn first_named(orig: Seq<OilEntry>, name: Seq<char>, k: int) -> bool {
    &&& 0 <= k < orig.len()
    &&& orig[k].name@ == name
    &&& forall|j: int| 0 <= j < k ==> (#[trigger] orig[j]).name@ != name
}

/// What Enter on `line` of an oil buffer with `state` opens: the entry the
/// line names, by its original path, if the directory held it; else the path
/// of the new entry in the directory.
pub fn oil_enter(state: &OilState, line: &str) -> (r: OilEnterAction)
    ensures
        match parse_line(line@) {
            None => r is Nothing,
            Some(p) => {
                let orig = state.original_entries@;
                if exists|k: int| 0 <= k < orig.len() && (#[trigger] orig[k]).name@ == p.name {
                    exists|k: int|
                        #[trigger] first_named(orig, p.name, k) && if orig[k].file_type == OilFileType::Directory {
                            r matches OilEnterAction::OpenDirectory(d) && d@ == orig[k].original_path@
                        } else {
                            r matches OilEnterAction::OpenFile(f) && f@ == orig[k].original_path@
                        }
                } else if p.is_dir {
                    r matches OilEnterAction::OpenNewDirectory(d) && d@ == path_join(
                        state.directory@,
                        p.name,
                    )
                } else {
                    r matches OilEnterAction::OpenNewFile(f) && f@ == path_join(state.directory@, p.name)
                }
            },
        },
{
    let parsed = match crate::oil::parse_oil_line(line) {
        Some(p) => p,
        None => return OilEnterAction::Nothing,
    };
    let ghost orig = state.original_entries@;
    let mut i: usize = 0;
    while i < state.original_entries.len()
        invariant
            i <= orig.len(),
            orig == state.original_entries@,
            parse_line(line@) == Some(parsed@),
            forall|j: int| 0 <= j < i ==> (#[trigger] orig[j]).name@ != parsed.name@,
        decreases state.original_entries.len() - i,
    {
        let e = &state.original_entries[i];
        if e.name == parsed.name {
            assert(first_named(orig, parsed.name@, i as int));
            assert(parse_line(line@) == Some(parsed@));
            assert(orig[i as int] == *e);
            return match e.file_type {
                OilFileType::Directory => OilEnterAction::OpenDirectory(e.original_path.clone()),
                _ => OilEnterAction::OpenFile(e.original_path.clone()),
            };
        }
        i = i + 1;
    }
    let path = join_path(state.directory.as_str(), parsed.name.as_str());
    if parsed.is_dir {
        OilEnterAction::OpenNewDirectory(path)
    } else {
        OilEnterAction::OpenNewFile(path)
    }
}

/// What the parent command asks for.
#[derive(Debug)]
pub enum OilParentAction {
    /// Show this directory.
    Open(String),
    /// The directory is a root: report that, open nothing.
    AtRoot,
}

/// The parent of the directory an oil buffer shows.
pub fn oil_parent(state: &OilState) -> (r: OilParentAction)
    ensures
        match path_parent(state.directory@) {
            Some(p) => r matches OilParentAction::Open(q) && q@ == p,
            None => r is AtRoot,
        },
{
    match parent_path(state.directory.as_str()) {
        Some(p) => OilParentAction::Open(p),
        None => OilParentAction::AtRoot,
    }
}

/// Flips whether hidden files are shown, and returns the new setting.
pub fn oil_toggle_hidden(state: &mut OilState) -> (shown: bool)
    ensures
        shown == !old(state).show_hidden,
        final(state).show_hidden == shown,
        final(state).directory@ == old(state).directory@,
        final(state).original_entries@ == old(state).original_entries@,
        final(state).sort_order == old(state).sort_order,
{
    state.show_hidden = !state.show_hidden;
    state.show_hidden
}

/// The status after hidden files were toggled.
pub fn hidden_status_message(shown: bool) -> (r: &'static str)
    ensures
        r@ == if shown { "Showing hidden files"@ } else { "Hiding hidden files"@ },
{
    if shown { "Showing hidden files" } else { "Hiding hidden files" }
}

/// A name that starts with a dot is hidden.
pub open spec fn is_hidden(e: OilEntry) -> bool {
    e.name@.len() > 0 && e.name@[0] == '.'
}

/// The entries a listing shows: all of them, or those that are not hidden.
pub open spec fn visible(entries: Seq<OilEntry>, show_hidden: bool) -> Seq<OilEntry> {
    entries.filter(|e: OilEntry| show_hidden || !is_hidden(e))
}

/// The key an entry is ordered by: by name, directories come first; then the
/// lower-case name. The other orders use the lower-case name alone.
pub open spec fn sort_key(e: OilEntry, order: OilSortOrder) -> (int, Seq<char>) {
    (if order == OilSortOrder::Name && e.file_type == OilFileType::Directory { 0 } else { 1 }, lowercase(e.name@))
}

/// Key `a` comes strictly before key `b`.
pub open spec fn key_lt(a: (int, Seq<char>), b: (int, Seq<char>)) -> bool {
    a.0 < b.0 || (a.0 == b.0 && text_lt(a.1, b.1))
}

/// Each entry's key is at most the next one's.
pub open spec fn sorted_by_key(entries: Seq<OilEntry>, order: OilSortOrder) -> bool {
    forall|i: int|
        0 <= i < entries.len() - 1 ==> !key_lt(sort_key(#[trigger] entries[i + 1], order), sort_key(entries[i], order))
}

proof fn lemma_key_lt_asymmetric(a: (int, Seq<char>), b: (int, Seq<char>))
    ensures
        key_lt(a, b) ==> !key_lt(b, a),
{
    lemma_text_lt_asymmetric(a.1, b.1);
}

proof fn lemma_multiset_insert<A>(s: Seq<A>, p: int, a: A)
    requires
        0 <= p <= s.len(),
    ensures
        s.insert(p, a).to_multiset() =~= s.to_multiset().insert(a),
{
    broadcast use vstd::seq_lib::group_seq_properties;
    broadcast use vstd::multiset::group_multiset_axioms;
    let t = s.insert(p, a);
    s.insert_ensures(p, a);
    assert(t.remove(p) =~= s);
    t.to_multiset_ensures();
    assert(t.to_multiset().remove(a) =~= s.to_multiset());
    assert(t.contains(a)) by {
        assert(t[p] == a);
    }
    assert(t.to_multiset().count(a) > 0);
}

proof fn lemma_insert_sorted(before: Seq<OilEntry>, p: int, e: OilEntry, order: OilSortOrder)
    requires
        0 <= p <= before.len(),
        sorted_by_key(before, order),
        p > 0 ==> !key_lt(sort_key(e, order), sort_key(before[p - 1], order)),
        p < before.len() ==> key_lt(sort_key(e, order), sort_key(before[p], order)),
    ensures
        sorted_by_key(before.insert(p, e), order),
{
    let after = before.insert(p, e);
    before.insert_ensures(p, e);
    if p < before.len() {
        lemma_key_lt_asymmetric(sort_key(e, order), sort_key(before[p], order));
    }
    assert forall|k: int|
        0 <= k < after.len() - 1 implies !key_lt(
            sort_key(#[trigger] after[k + 1], order),
            sort_key(after[k], order),
        ) by {
        if k + 1 < p {
            assert(after[k] == before[k] && after[k + 1] == before[k + 1]);
        } else if k + 1 == p {
            assert(after[k] == before[k]);
        } else if k == p {
            assert(after[k + 1] == before[k]);
        } else {
            assert(after[k] == before[k - 1] && after[k + 1] == before[k]);
            assert(before[(k - 1) + 1] == before[k]);
        }
    }
}

/// The entries whose key is `k`.
pub open spec fn has_key(order: OilSortOrder, k: (int, Seq<char>)) -> spec_fn(OilEntry) -> bool {
    |x: OilEntry| sort_key(x, order) == k
}

/// Inserting an element that the predicate rejects leaves the filtered
/// sequence as it was; inserting one it keeps, after every kept element,
/// appends it.
proof fn lemma_insert_filter<A>(s: Seq<A>, p: int, e: A, f: spec_fn(A) -> bool)
    requires
        0 <= p <= s.len(),
        f(e) ==> forall|j: int| p <= j < s.len() ==> !f(#[trigger] s[j]),
    ensures
        s.insert(p, e).filter(f) == if f(e) { s.filter(f).push(e) } else { s.filter(f) },
{
    let a = s.take(p);
    let b = s.skip(p);
    assert(s == a + b);
    assert(s.insert(p, e) == a.push(e) + b);
    Seq::filter_distributes_over_add(a, b, f);
    Seq::filter_distributes_over_add(a.push(e), b, f);
    a.lemma_filter_push(e, f);
    if f(e) {
        assert(b.all(|x: A| !f(x))) by {
            assert forall|j: int| 0 <= j < b.len() implies !f(b[j]) by {
                assert(b[j] == s[p + j]);
            }
        }
        b.lemma_all_neg_filter_empty(f);
        assert(b.filter(f) == Seq::<A>::empty());
        assert(a.filter(f).push(e) + Seq::<A>::empty() == a.filter(f).push(e));
        assert(a.filter(f) + Seq::<A>::empty() == a.filter(f));
    }
}

fn entry_key(e: &OilEntry, order: OilSortOrder) -> (r: (u8, Vec<char>))
    ensures
        r.0 as int == sort_key(*e, order).0,
        r.1@ == sort_key(*e, order).1,
{
    let rank: u8 = match order {
        OilSortOrder::Name => match e.file_type {
            OilFileType::Directory => 0,
            _ => 1,
        },
        _ => 1,
    };
    let lower = to_lowercase(e.name.as_str());
    (rank, chars_of(lower.as_str()))
}

fn key_lt_exec(a: &(u8, Vec<char>), b: &(u8, Vec<char>)) -> (r: bool)
    ensures
        r == key_lt((a.0 as int, a.1@), (b.0 as int, b.1@)),
{
    a.0 < b.0 || (a.0 == b.0 && text_lt_exec(&a.1, &b.1))
}

/// The listing of a directory: the entries the setting shows, ordered by the
/// sort order (stable; by name, directories first; names compared in lower
/// case).
pub fn prepare_directory_entries(entries: Vec<OilEntry>, show_hidden: bool, sort_order: OilSortOrder) -> (r: Vec<OilEntry>)
    ensures
        r@.to_multiset() == visible(entries@, show_hidden).to_multiset(),
        sorted_by_key(r@, sort_order),
        forall|k: (int, Seq<char>)|
            #[trigger] r@.filter(has_key(sort_order, k)) == visible(entries@, show_hidden).filter(has_key(sort_order, k)),
{
    let ghost all = entries@;
    let ghost pred = |e: OilEntry| show_hidden || !is_hidden(e);
    let mut rest = entries;
    let mut out: Vec<OilEntry> = Vec::new();
    let mut keys: Vec<(u8, Vec<char>)> = Vec::new();
    let ghost mut i: int = 0;
    assert(all.take(0).filter(pred) =~= Seq::<OilEntry>::empty());
    assert(all.skip(0) == all);
    while rest.len() > 0
        invariant
            0 <= i <= all.len(),
            rest@ == all.skip(i),
            pred == (|e: OilEntry| show_hidden || !is_hidden(e)),
            out@.to_multiset() == all.take(i).filter(pred).to_multiset(),
            keys@.len() == out@.len(),
            forall|k: int|
                0 <= k < keys@.len() ==> (#[trigger] keys@[k]).0 as int == sort_key(out@[k], sort_order).0
                    && keys@[k].1@ == sort_key(out@[k], sort_order).1,
            sorted_by_key(out@, sort_order),
            forall|k: (int, Seq<char>)|
                #[trigger] out@.filter(has_key(sort_order, k)) == all.take(i).filter(pred).filter(has_key(sort_order, k)),
        decreases rest.len(),
    {
        let e = rest.remove(0);
        let ghost prev_in = all.take(i).filter(pred);
        proof {
            assert(all[i] == e);
            assert(rest@ == all.skip(i + 1));
            assert(all.take(i + 1) == all.take(i).push(all[i]));
            all.take(i).lemma_filter_push(all[i], pred);
            i = i + 1;
        }
        let cs = chars_of(e.name.as_str());
        let hidden = cs.len() > 0 && cs[0] == '.';
        if show_hidden || !hidden {
            let key = entry_key(&e, sort_order);
            let mut p = out.len();
            while p > 0 && key_lt_exec(&key, &keys[p - 1])
                invariant
                    p <= out@.len(),
                    keys@.len() == out@.len(),
                    key.0 as int == sort_key(e, sort_order).0,
                    key.1@ == sort_key(e, sort_order).1,
                    forall|k: int|
                        0 <= k < keys@.len() ==> (#[trigger] keys@[k]).0 as int == sort_key(
                            out@[k],
                            sort_order,
                        ).0 && keys@[k].1@ == sort_key(out@[k], sort_order).1,
                    forall|k: int|
                        p <= k < out@.len() ==> key_lt(
                            (key.0 as int, key.1@),
                            (keys@[k].0 as int, keys@[k].1@),
                        ),
                decreases p,
            {
                p = p - 1;
            }
            let ghost before = out@;
            let ghost before_keys = keys@;
            proof {
                if p > 0 {
                    assert(before_keys[p - 1] == keys@[p - 1]);
                }
                if p < before.len() {
                    assert(key_lt((key.0 as int, key.1@), (keys@[p as int].0 as int, keys@[p as int].1@)));
                }
                broadcast use vstd::seq_lib::group_seq_properties;
                lemma_multiset_insert(before, p as int, e);
                before.insert_ensures(p as int, e);
                before_keys.insert_ensures(p as int, key);
                lemma_insert_sorted(before, p as int, e, sort_order);
            }
            out.insert(p, e);
            keys.insert(p, key);
            proof {
                assert forall|k: (int, Seq<char>)| #[trigger] out@.filter(has_key(sort_order, k)) == all.take(i).filter(pred).filter(has_key(sort_order, k)) by {
                    let f = has_key(sort_order, k);
                    assert forall|j: int| p <= j < before.len() && f(e) implies !f(#[trigger] before[j]) by {
                        assert(key_lt((key.0 as int, key.1@), (before_keys[j].0 as int, before_keys[j].1@)));
                        assert(before_keys[j].0 as int == sort_key(before[j], sort_order).0);
                        assert(before_keys[j].1@ == sort_key(before[j], sort_order).1);
                        lemma_text_lt_asymmetric(key.1@, key.1@);
                    }
                    lemma_insert_filter(before, p as int, e, f);
                    assert(all.take(i).filter(pred) == prev_in.push(e));
                    prev_in.lemma_filter_push(e, f);
                }
                assert forall|k: int| 0 <= k < keys@.len() implies (#[trigger] keys@[k]).0 as int == sort_key(
                    out@[k],
                    sort_order,
                ).0 && keys@[k].1@ == sort_key(out@[k], sort_order).1 by {
                    if k < p {
                        assert(keys@[k] == before_keys[k] && out@[k] == before[k]);
                    } else if k > p {
                        assert(keys@[k] == before_keys[k - 1] && out@[k] == before[k - 1]);
                    }
                }
            }
        } else {
            assert(is_hidden(e));
        }
        proof {
            broadcast use vstd::seq_lib::group_seq_properties;
        }
    }
    assert(all.take(i) == all);
    out
}

/// Runs the operations in order with `execute` and stops at the first that
/// fails: `Ok` with the number of operations when all succeed, else the
/// failing operation's position and its error.
pub fn execute_oil_operations<E, F: Fn(&OilOperation) -> Result<(), E>>(operations: &[OilOperation], execute: F) -> (r: Result<usize, (usize, E)>)
    requires
        forall|i: int| 0 <= i < operations@.len() ==> call_requires(execute, (&operations@[i],)),
    ensures
        match r {
            Ok(n) => n == operations@.len() && forall|i: int|
                0 <= i < operations@.len() ==> call_ensures(execute, (&operations@[i],), Ok(())),
            Err((k, e)) => k < operations@.len() && call_ensures(execute, (&operations@[k as int],), Err(e))
                && forall|i: int| 0 <= i < k ==> call_ensures(execute, (&operations@[i],), Ok(())),
        },
{
    let mut i: usize = 0;
    while i < operations.len()
        invariant
            i <= operations@.len(),
            forall|k: int| 0 <= k < operations@.len() ==> call_requires(execute, (&operations@[k],)),
            forall|k: int| 0 <= k < i ==> call_ensures(execute, (&operations@[k],), Ok(())),
        decreases operations.len() - i,
    {
        let res = execute(&operations[i]);
        match res {
            Ok(u) => {
                assert(res == Ok::<(), E>(()));
            },
            Err(e) => {
                return Err((i, e));
            },
        }
        i = i + 1;
    }
    Ok(operations.len())
}


/// What a command shows the user when it is done.
#[derive(Debug, PartialEq, Eq)]
pub enum EditorNote {
    /// Nothing.
    Silent,
    /// A status message.
    Status(String),
    /// An error message.
    Error(String),
}

/// `<prefix><error>`.
fn prefixed(prefix: &str, error: &str) -> (r: String)
    ensures
        r@ == prefix@ + error@,
{
    let mut v = chars_of(prefix);
    crate::text::extend_str(&mut v, error);
    crate::text::string_of(&v)
}

/// What Enter does once it knows what is at the path of an entry the buffer
/// added.
#[derive(Debug, PartialEq, Eq)]
pub enum NewEntryStep {
    /// Show this directory.
    OpenDirectory(String),
    /// Open this file.
    OpenFile(String),
    /// The entry is not on disk with its kind yet: report this error.
    NotYetSaved(String),
}

/// A new directory is shown only where the path is a directory by now, a
/// new file opened only where it is a file; otherwise the error says to
/// save the buffer first.
pub fn open_new_entry(path: String, is_dir: bool, path_is_dir: bool, path_is_file: bool) -> (r: NewEntryStep)
    ensures
        if is_dir {
            if path_is_dir {
                r matches NewEntryStep::OpenDirectory(p) && p@ == path@
            } else {
                r matches NewEntryStep::NotYetSaved(m) && m@ == "Directory does not exist yet. Save the buffer first."@
            }
        } else {
            if path_is_file {
                r matches NewEntryStep::OpenFile(p) && p@ == path@
            } else {
                r matches NewEntryStep::NotYetSaved(m) && m@ == "File does not exist yet. Save the buffer first."@
            }
        },
{
    if is_dir {
        if path_is_dir {
            NewEntryStep::OpenDirectory(path)
        } else {
            NewEntryStep::NotYetSaved("Directory does not exist yet. Save the buffer first.".to_owned())
        }
    } else {
        if path_is_file {
            NewEntryStep::OpenFile(path)
        } else {
            NewEntryStep::NotYetSaved("File does not exist yet. Save the buffer first.".to_owned())
        }
    }
}

/// What Enter shows after opening a directory (`is_dir`) or a file: nothing,
/// or `Failed to open directory: <error>` / `Failed to open file: <error>`.
pub fn oil_enter_note(is_dir: bool, open_error: Option<&str>) -> (r: EditorNote)
    ensures
        match open_error {
            None => r is Silent,
            Some(e) => r matches EditorNote::Error(m) && m@ == (if is_dir {
                "Failed to open directory: "@
            } else {
                "Failed to open file: "@
            }) + e@,
        },
{
    match open_error {
        None => EditorNote::Silent,
        Some(e) => if is_dir {
            EditorNote::Error(prefixed("Failed to open directory: ", e))
        } else {
            EditorNote::Error(prefixed("Failed to open file: ", e))
        },
    }
}

/// What the parent command shows: `Already at root directory` at a root,
/// `Failed to open parent directory: <error>` where opening the parent
/// failed, else nothing.
pub fn oil_parent_note(action: &OilParentAction, open_error: Option<&str>) -> (r: EditorNote)
    ensures
        match action {
            OilParentAction::AtRoot => r matches EditorNote::Status(m) && m@ == "Already at root directory"@,
            OilParentAction::Open(_) => match open_error {
                None => r is Silent,
                Some(e) => r matches EditorNote::Error(m) && m@ == "Failed to open parent directory: "@ + e@,
            },
        },
{
    match action {
        OilParentAction::AtRoot => EditorNote::Status("Already at root directory".to_owned()),
        OilParentAction::Open(_) => match open_error {
            None => EditorNote::Silent,
            Some(e) => EditorNote::Error(prefixed("Failed to open parent directory: ", e)),
        },
    }
}

/// What toggling hidden files shows after the buffer was read afresh:
/// `Showing hidden files` or `Hiding hidden files`, or
/// `Failed to refresh: <error>` where reading failed (the setting stays
/// toggled).
pub fn oil_toggle_hidden_note(shown: bool, refresh_error: Option<&str>) -> (r: EditorNote)
    ensures
        match refresh_error {
            None => r matches EditorNote::Status(m) && m@ == (if shown {
                "Showing hidden files"@
            } else {
                "Hiding hidden files"@
            }),
            Some(e) => r matches EditorNote::Error(m) && m@ == "Failed to refresh: "@ + e@,
        },
{
    match refresh_error {
        None => EditorNote::Status(hidden_status_message(shown).to_owned()),
        Some(e) => EditorNote::Error(prefixed("Failed to refresh: ", e)),
    }
}

/// What the refresh command shows: `Oil buffer refreshed`, or
/// `Failed to refresh: <error>`.
pub fn oil_refresh_note(refresh_error: Option<&str>) -> (r: EditorNote)
    ensures
        match refresh_error {
            None => r matches EditorNote::Status(m) && m@ == "Oil buffer refreshed"@,
            Some(e) => r matches EditorNote::Error(m) && m@ == "Failed to refresh: "@ + e@,
        },
{
    match refresh_error {
        None => EditorNote::Status("Oil buffer refreshed".to_owned()),
        Some(e) => EditorNote::Error(prefixed("Failed to refresh: ", e)),
    }
}


proof fn lemma_rank_grows(r: Seq<OilEntry>, order: OilSortOrder, i: int, j: int)
    requires
        sorted_by_key(r, order),
        0 <= i <= j < r.len(),
    ensures
        sort_key(r[i], order).0 <= sort_key(r[j], order).0,
    decreases j - i,
{
    if i < j {
        lemma_rank_grows(r, order, i, j - 1);
        assert(!key_lt(sort_key(r[(j - 1) + 1], order), sort_key(r[j - 1], order)));
    }
}

/// A listing in name order puts every directory before every other entry;
/// next to each other, two entries that are not directories (files and
/// symlinks alike) come in the order of their lower-case names.
pub proof fn law_name_order_directories_first(r: Seq<OilEntry>)
    requires
        sorted_by_key(r, OilSortOrder::Name),
    ensures
        forall|i: int, j: int|
            0 <= i < j < r.len() && (#[trigger] r[j]).file_type == OilFileType::Directory ==> (#[trigger] r[i]).file_type
                == OilFileType::Directory,
        forall|i: int|
            0 <= i < r.len() - 1 && r[i].file_type != OilFileType::Directory && (#[trigger] r[i + 1]).file_type
                != OilFileType::Directory ==> !text_lt(lowercase(r[i + 1].name@), lowercase(r[i].name@)),
{
    assert forall|i: int, j: int|
        0 <= i < j < r.len() && (#[trigger] r[j]).file_type == OilFileType::Directory implies (#[trigger] r[i]).file_type
            == OilFileType::Directory by {
        lemma_rank_grows(r, OilSortOrder::Name, i, j);
    }
    assert forall|i: int|
        0 <= i < r.len() - 1 && r[i].file_type != OilFileType::Directory && (#[trigger] r[i + 1]).file_type
            != OilFileType::Directory implies !text_lt(lowercase(r[i + 1].name@), lowercase(r[i].name@)) by {
        assert(!key_lt(sort_key(r[i + 1], OilSortOrder::Name), sort_key(r[i], OilSortOrder::Name)));
    }
}

/// A listing by size or by time orders entries of every kind alike: next to
/// each other, they come in the order of their lower-case names.
pub proof fn law_other_orders_by_name(r: Seq<OilEntry>, order: OilSortOrder)
    requires
        order != OilSortOrder::Name,
        sorted_by_key(r, order),
    ensures
        forall|i: int| 0 <= i < r.len() - 1 ==> !text_lt(lowercase((#[trigger] r[i + 1]).name@), lowercase(r[i].name@)),
{
    assert forall|i: int| 0 <= i < r.len() - 1 implies !text_lt(lowercase((#[trigger] r[i + 1]).name@), lowercase(r[i].name@)) by {
        assert(!key_lt(sort_key(r[i + 1], order), sort_key(r[i], order)));
    }
}

} // verus!
