//! The most-recently-opened files, most recent first, and the text form in
//! which they are kept between sessions (one path per line).
use vstd::prelude::*;
use crate::text::{chars_of, concat, extend_chars, extend_str, lemma_concat_push, lemma_lines_append, lemma_lines_single, lines, split_lines, strip_cr, string_of};

verus! {

/// At most this many files are kept by `push`.
pub const MAX_ENTRIES: usize = 100;

/// The name of the file, in the cache directory, that holds the list.
pub const RECENT_FILES_FILENAME: &'static str = "recent_files";

/// Tracks recently opened files, most recent first.
#[derive(Debug)]
pub struct RecentFiles {
    files: Vec<String>,
}

/// The list after `path` is pushed: `path` first, then the other entries in
/// their order, cut to `MAX_ENTRIES`.
pub open spec fn pushed(files: Seq<Seq<char>>, path: Seq<char>) -> Seq<Seq<char>> {
    let all = seq![path] + without(files, path);
    if all.len() > MAX_ENTRIES {
        all.take(MAX_ENTRIES as int)
    } else {
        all
    }
}

/// The files other than `path`, in order.
pub open spec fn without(files: Seq<Seq<char>>, path: Seq<char>) -> Seq<Seq<char>> {
    files.filter(other_than(path))
}

/// The test that a file is not `path`.
pub open spec fn other_than(path: Seq<char>) -> spec_fn(Seq<char>) -> bool {
    |p: Seq<char>| p != path
}

/// No path occurs twice.
pub open spec fn distinct(files: Seq<Seq<char>>) -> bool {
    forall|i: int, j: int| 0 <= i < j < files.len() ==> files[i] != files[j]
}

/// The text form of a list: each path followed by a line feed.
pub open spec fn recent_files_text(files: Seq<Seq<char>>) -> Seq<char> {
    concat(files.map_values(|p: Seq<char>| p + "\n"@))
}

/// A path that the text form gives back unchanged: it holds no line feed and
/// does not end with a carriage return.
pub open spec fn storable(p: Seq<char>) -> bool {
    (forall|i: int| 0 <= i < p.len() ==> p[i] != '\n') && !(p.len() > 0 && p.last() == '\r')
}

impl View for RecentFiles {
    type V = Seq<Seq<char>>;

    closed spec fn view(&self) -> Seq<Seq<char>> {
        self.files@.map_values(|p: String| p@)
    }
}

impl Default for RecentFiles {
    /// An empty list.
    fn default() -> (r: Self)
        ensures
            r@.len() == 0,
    {
        Self::new()
    }
}

impl RecentFiles {
    /// An empty list.
    pub fn new() -> (r: Self)
        ensures
            r@.len() == 0,
    {
        let r = RecentFiles { files: Vec::new() };
        assert(r@ == Seq::<Seq<char>>::empty());
        r
    }

    /// Adds a file: it moves to the front, any earlier occurrence is removed,
    /// and the list is cut to `MAX_ENTRIES`.
    pub fn push(&mut self, path: String)
        ensures
            final(self)@ == pushed(old(self)@, path@),
    {
        let ghost old_view = self@;
        let mut kept: Vec<String> = Vec::new();
        kept.push(path.clone());
        let mut i: usize = 0;
        proof {
            assert(old_view.take(0).filter(other_than(path@)) == Seq::<Seq<char>>::empty());
            assert(kept@.map_values(|p: String| p@) == seq![path@]);
        }
        while i < self.files.len()
            invariant
                i <= self.files@.len(),
                old_view == self.files@.map_values(|p: String| p@),
                kept@.map_values(|p: String| p@) == seq![path@] + old_view.take(i as int).filter(
                    other_than(path@),
                ),
            decreases self.files.len() - i,
        {
            proof {
                assert(old_view.take(i + 1) == old_view.take(i as int).push(old_view[i as int]));
                old_view.take(i as int).lemma_filter_push(old_view[i as int], other_than(path@));
            }
            if self.files[i] != path {
                let ghost before = kept@;
                kept.push(self.files[i].clone());
                assert(kept@.map_values(|p: String| p@) == before.map_values(|p: String| p@).push(
                    self.files@[i as int]@,
                ));
            }
            i = i + 1;
        }
        assert(old_view.take(self.files@.len() as int) == old_view);
        if kept.len() > MAX_ENTRIES {
            let ghost before = kept@;
            kept.truncate(MAX_ENTRIES);
            assert(kept@.map_values(|p: String| p@) == before.map_values(|p: String| p@).take(
                MAX_ENTRIES as int,
            ));
        }
        self.files = kept;
    }

    /// The files, most recent first.
    pub fn iter(&self) -> (r: &[String])
        ensures
            r@.map_values(|p: String| p@) == self@,
    {
        self.files.as_slice()
    }

    /// The number of files.
    pub fn len(&self) -> (r: usize)
        ensures
            r == self@.len(),
    {
        self.files.len()
    }

    /// The list that a stored text holds: one path per line, as `str::lines`
    /// splits it.
    pub fn from_text(text: &str) -> (r: Self)
        ensures
            r@ == lines(text@),
    {
        let cs = chars_of(text);
        let ls = split_lines(&cs);
        let mut files: Vec<String> = Vec::new();
        let mut i: usize = 0;
        while i < ls.len()
            invariant
                i <= ls@.len(),
                ls@.len() == lines(text@).len(),
                forall|k: int| 0 <= k < ls@.len() ==> #[trigger] ls@[k]@ == lines(text@)[k],
                files@.map_values(|p: String| p@) == lines(text@).take(i as int),
            decreases ls.len() - i,
        {
            let ghost before = files@;
            files.push(string_of(&ls[i]));
            assert(lines(text@).take(i + 1) == lines(text@).take(i as int).push(lines(text@)[i as int]));
            assert(files@.map_values(|p: String| p@) == before.map_values(|p: String| p@).push(
                ls@[i as int]@,
            ));
            i = i + 1;
        }
        assert(lines(text@).take(ls@.len() as int) == lines(text@));
        RecentFiles { files }
    }

    /// The text form of the list: each path followed by a line feed.
    pub fn to_text(&self) -> (r: String)
        ensures
            r@ == recent_files_text(self@),
    {
        let ghost parts = self@.map_values(|p: Seq<char>| p + "\n"@);
        let mut v: Vec<char> = Vec::new();
        let mut i: usize = 0;
        while i < self.files.len()
            invariant
                i <= self.files@.len(),
                self@ == self.files@.map_values(|p: String| p@),
                parts == self@.map_values(|p: Seq<char>| p + "\n"@),
                v@ == concat(parts.take(i as int)),
            decreases self.files.len() - i,
        {
            let mut line = chars_of(self.files[i].as_str());
            extend_str(&mut line, "\n");
            proof {
                assert(parts.take(i + 1) == parts.take(i as int).push(parts[i as int]));
                lemma_concat_push(parts.take(i as int), parts[i as int]);
            }
            extend_chars(&mut v, &line);
            i = i + 1;
        }
        assert(parts.take(self@.len() as int) == parts);
        string_of(&v)
    }
}

} // verus!

verus! {

/// A pushed file comes first.
pub proof fn law_push_puts_first(files: Seq<Seq<char>>, path: Seq<char>)
    ensures
        pushed(files, path).len() > 0,
        pushed(files, path)[0] == path,
{
}

/// The list never holds more than `MAX_ENTRIES` files after a push.
pub proof fn law_push_bounded(files: Seq<Seq<char>>, path: Seq<char>)
    ensures
        pushed(files, path).len() <= MAX_ENTRIES,
{
}

/// A push keeps every file at most once.
pub proof fn law_push_keeps_distinct(files: Seq<Seq<char>>, path: Seq<char>)
    requires
        distinct(files),
    ensures
        distinct(pushed(files, path)),
{
    let rest = without(files, path);
    lemma_filter_distinct(files, path);
    let all = seq![path] + rest;
    assert forall|i: int, j: int| 0 <= i < j < all.len() implies all[i] != all[j] by {
        if i == 0 {
            assert(all[j] == rest[j - 1]);
        } else {
            assert(all[i] == rest[i - 1] && all[j] == rest[j - 1]);
        }
    }
}

proof fn lemma_filter_distinct(files: Seq<Seq<char>>, path: Seq<char>)
    requires
        distinct(files),
    ensures
        distinct(without(files, path)),
        forall|i: int| 0 <= i < without(files, path).len() ==> #[trigger] without(files, path)[i] != path,
    decreases files.len(),
{
    let pred = other_than(path);
    if files.len() > 0 {
        let init = files.drop_last();
        assert(distinct(init));
        lemma_filter_distinct(init, path);
        assert(files == init.push(files.last()));
        init.lemma_filter_push(files.last(), pred);
        let fi = init.filter(pred);
        if pred(files.last()) {
            assert forall|i: int| 0 <= i < fi.len() implies fi[i] != files.last() by {
                assert(fi.contains(fi[i]));
                init.lemma_filter_contains_rev(pred, fi[i]);
                let k = choose|k: int| 0 <= k < init.len() && init[k] == fi[i];
                assert(files[k] == init[k]);
            }
            let fl = fi.push(files.last());
            assert forall|i: int, j: int| 0 <= i < j < fl.len() implies fl[i] != fl[j] by {
                if j == fl.len() - 1 {
                    assert(fl[i] == fi[i]);
                } else {
                    assert(fl[i] == fi[i] && fl[j] == fi[j]);
                }
            }
            assert forall|i: int| 0 <= i < fl.len() implies #[trigger] fl[i] != path by {
                if i < fi.len() {
                    assert(fl[i] == fi[i]);
                }
            }
        }
    } else {
        assert(files.filter(pred) =~= Seq::<Seq<char>>::empty());
    }
}


proof fn lemma_filter_all(s: Seq<Seq<char>>, path: Seq<char>)
    requires
        forall|i: int| 0 <= i < s.len() ==> s[i] != path,
    ensures
        without(s, path) == s,
    decreases s.len(),
{
    if s.len() > 0 {
        lemma_filter_all(s.drop_last(), path);
        assert(s == s.drop_last().push(s.last()));
        s.drop_last().lemma_filter_push(s.last(), other_than(path));
    } else {
        assert(without(s, path) =~= s);
    }
}

/// Pushing the same file twice is pushing it once.
pub proof fn law_push_idempotent(files: Seq<Seq<char>>, path: Seq<char>)
    ensures
        pushed(pushed(files, path), path) == pushed(files, path),
{
    broadcast use vstd::seq_lib::group_seq_properties;
    let w = without(files, path);
    lemma_filter_distinct_aux(files, path);
    let a = pushed(files, path);
    let tail = a.drop_first();
    assert(a == seq![path] + tail);
    assert forall|i: int| 0 <= i < tail.len() implies tail[i] != path by {
        assert(tail[i] == w[i]);
    }
    lemma_filter_all(tail, path);
    assert(seq![path].filter(other_than(path)) =~= Seq::<Seq<char>>::empty()) by {
        reveal_with_fuel(Seq::filter, 2);
    }
    Seq::filter_distributes_over_add(seq![path], tail, other_than(path));
    assert(without(a, path) == tail);
    assert(seq![path] + tail == a);
}

proof fn lemma_filter_distinct_aux(files: Seq<Seq<char>>, path: Seq<char>)
    ensures
        forall|i: int| 0 <= i < without(files, path).len() ==> #[trigger] without(files, path)[i] != path,
{
    assert forall|i: int| 0 <= i < without(files, path).len() implies #[trigger] without(files, path)[i] != path by {
        files.lemma_filter_pred(other_than(path), i);
    }
}

/// The text form of a list ends with a line feed, unless the list is empty.
proof fn lemma_text_ends_with_newline(files: Seq<Seq<char>>)
    requires
        files.len() > 0,
    ensures
        recent_files_text(files).len() > 0,
        recent_files_text(files).last() == '\n',
{
    reveal_strlit("\n");
    let parts = files.map_values(|p: Seq<char>| p + "\n"@);
    assert(parts.last() == files.last() + "\n"@);
    assert(parts.drop_last() == files.drop_last().map_values(|p: Seq<char>| p + "\n"@));
}

/// Reading back the text form of a list gives the list, for paths that hold
/// no line feed and do not end with a carriage return.
pub proof fn law_text_round_trip(files: Seq<Seq<char>>)
    requires
        forall|i: int| 0 <= i < files.len() ==> storable(#[trigger] files[i]),
    ensures
        lines(recent_files_text(files)) == files,
    decreases files.len(),
{
    reveal_strlit("\n");
    if files.len() == 0 {
        assert(files.map_values(|p: Seq<char>| p + "\n"@) =~= Seq::<Seq<char>>::empty());
        assert(recent_files_text(files) == Seq::<char>::empty());
        assert(lines(Seq::<char>::empty()) =~= Seq::<Seq<char>>::empty());
        assert(files =~= Seq::<Seq<char>>::empty());
    } else {
        let init = files.drop_last();
        let last = files.last();
        assert(storable(files[files.len() - 1]));
        assert forall|i: int| 0 <= i < init.len() implies storable(#[trigger] init[i]) by {
            assert(init[i] == files[i]);
        }
        law_text_round_trip(init);
        let parts = files.map_values(|p: Seq<char>| p + "\n"@);
        assert(parts.drop_last() == init.map_values(|p: Seq<char>| p + "\n"@));
        assert(parts.last() == last + "\n"@);
        assert(last + "\n"@ == last.push('\n'));
        assert(recent_files_text(files) == recent_files_text(init) + last.push('\n'));
        lemma_lines_single(last, Seq::empty());
        assert(Seq::<char>::empty() + last == last);
        assert(strip_cr(last) == last);
        if init.len() == 0 {
            assert(recent_files_text(init) == Seq::<char>::empty()) by {
                assert(init.map_values(|p: Seq<char>| p + "\n"@) =~= Seq::<Seq<char>>::empty());
            }
            assert(recent_files_text(init) + last.push('\n') == last.push('\n'));
            assert(files == seq![last]);
        } else {
            lemma_text_ends_with_newline(init);
            lemma_lines_append(recent_files_text(init), last.push('\n'), Seq::empty());
            assert(files == init.push(last));
        }
    }
}


/// After pushing `a` and then another file `b`, `b` comes first and `a`
/// right after it.
pub proof fn law_two_pushes(files: Seq<Seq<char>>, a: Seq<char>, b: Seq<char>)
    requires
        a != b,
    ensures
        pushed(pushed(files, a), b).len() >= 2,
        pushed(pushed(files, a), b)[0] == b,
        pushed(pushed(files, a), b)[1] == a,
{
    let first = pushed(files, a);
    assert(first.len() > 0 && first[0] == a);
    let tail = first.drop_first();
    assert(first == seq![a] + tail);
    tail.lemma_filter_prepend(a, other_than(b));
    let w = without(first, b);
    assert(w.len() > 0 && w[0] == a);
    let all = seq![b] + w;
    assert(all[1] == a);
}


/// At most `MAX_ENTRIES` of the files, from the front.
pub open spec fn capped(files: Seq<Seq<char>>) -> Seq<Seq<char>> {
    if files.len() > MAX_ENTRIES { files.take(MAX_ENTRIES as int) } else { files }
}

/// Leaving out one file removes at most one entry of a list without
/// repetitions, and none where the file is not in it.
proof fn lemma_without_len(files: Seq<Seq<char>>, path: Seq<char>)
    requires
        distinct(files),
    ensures
        without(files, path).len() + 1 >= files.len(),
        !files.contains(path) ==> without(files, path).len() == files.len(),
    decreases files.len(),
{
    if files.len() > 0 {
        let init = files.drop_last();
        assert forall|i: int, j: int| 0 <= i < j < init.len() implies init[i] != init[j] by {
            assert(init[i] == files[i] && init[j] == files[j]);
        }
        lemma_without_len(init, path);
        assert(files == init.push(files.last()));
        init.lemma_filter_push(files.last(), other_than(path));
        if files.last() == path {
            assert(!init.contains(path)) by {
                if init.contains(path) {
                    let k = choose|k: int| 0 <= k < init.len() && init[k] == path;
                    assert(files[k] == files[files.len() - 1]);
                }
            }
            assert(files.contains(path)) by {
                assert(files[files.len() - 1] == path);
            }
        } else {
            if !files.contains(path) {
                assert(!init.contains(path)) by {
                    if init.contains(path) {
                        let k = choose|k: int| 0 <= k < init.len() && init[k] == path;
                        assert(files[k] == path);
                    }
                }
            }
        }
    }
}

/// After pushing `a` and then another file `b` onto a list without
/// repetitions, the list is `b`, `a`, then the other files in their order,
/// at most `MAX_ENTRIES` in all.
pub proof fn law_two_pushes_keep_order(files: Seq<Seq<char>>, a: Seq<char>, b: Seq<char>)
    requires
        a != b,
        distinct(files),
    ensures
        pushed(pushed(files, a), b) == capped(seq![b, a] + without(without(files, a), b)),
{
    let w = without(files, a);
    lemma_filter_distinct(files, a);
    let first = pushed(files, a);
    let all_a = seq![a] + w;
    let t = if all_a.len() > MAX_ENTRIES { w.take(MAX_ENTRIES - 1) } else { w };
    assert(first == seq![a] + t) by {
        if all_a.len() > MAX_ENTRIES {
            assert(all_a.take(MAX_ENTRIES as int) == seq![a] + w.take(MAX_ENTRIES - 1));
        }
    }
    t.lemma_filter_prepend(a, other_than(b));
    assert(without(first, b) == seq![a] + without(t, b));
    let x = seq![b, a] + without(t, b);
    assert(seq![b] + (seq![a] + without(t, b)) == x);
    let y = seq![b, a] + without(w, b);
    if all_a.len() > MAX_ENTRIES {
        let rest = w.skip(MAX_ENTRIES - 1);
        assert(w == t + rest);
        Seq::filter_distributes_over_add(t, rest, other_than(b));
        assert(without(w, b) == without(t, b) + without(rest, b));
        assert forall|i: int, j: int| 0 <= i < j < t.len() implies t[i] != t[j] by {
            assert(t[i] == w[i] && t[j] == w[j]);
        }
        lemma_without_len(t, b);
        assert(x.len() >= MAX_ENTRIES);
        assert(y == x + without(rest, b));
        assert(capped(y) == capped(x)) by {
            assert(y.take(MAX_ENTRIES as int) == x.take(MAX_ENTRIES as int));
            if x.len() == MAX_ENTRIES {
                assert(x.take(MAX_ENTRIES as int) == x);
            }
        }
    }
}

} // verus!
