use helix_addons::diagnostics::{body_top_offset, max_text_width, popup_size};
use helix_addons::diagnostics::{Diagnostic, DiagnosticsPopup, NumberOrString, PopupKey, Severity};
use helix_addons::quickfix::{QuickfixItem, QuickfixList};
use helix_addons::recent_files::RecentFiles;

fn item(path: &str, line: usize, col: usize, text: &str) -> QuickfixItem {
    QuickfixItem::new(path.to_string(), line, col, text.to_string())
}

fn three() -> QuickfixList {
    QuickfixList::with_items(vec![item("/w/a.rs", 0, 0, "one"), item("/w/b.rs", 4, 2, "two"), item("/w/c.rs", 9, 0, "three")])
}

#[test]
fn quickfix_wraps_around() {
    let mut q = three();
    assert_eq!(q.len(), 3);
    assert_eq!(q.current().map(|i| i.text.as_str()), Some("one"));
    assert_eq!(q.next().map(|i| i.text.as_str()), Some("two"));
    assert_eq!(q.next().map(|i| i.text.as_str()), Some("three"));
    assert_eq!(q.next().map(|i| i.text.as_str()), Some("one"));
    assert_eq!(q.prev().map(|i| i.text.as_str()), Some("three"));
    assert_eq!(q.forward(5).map(|i| i.text.as_str()), Some("two"));
    assert_eq!(q.backward(7).map(|i| i.text.as_str()), Some("one"));
    assert_eq!(q.forward(usize::MAX).map(|i| i.text.as_str()), Some("one"));
    assert_eq!(q.backward(usize::MAX).map(|i| i.text.as_str()), Some("one"));
    assert_eq!(q.last().map(|i| i.text.as_str()), Some("three"));
    assert_eq!(q.first().map(|i| i.text.as_str()), Some("one"));
    q.set_current(10);
    assert_eq!(q.current_index(), 2);
    q.set_current(1);
    assert_eq!(q.current_index(), 1);
    assert_eq!(q.status(), "[2/3]");
}

#[test]
fn quickfix_forward_then_backward_restores() {
    for start in 0..3 {
        for count in [0usize, 1, 2, 3, 4, 100, usize::MAX] {
            let mut q = three();
            q.set_current(start);
            q.forward(count);
            q.backward(count);
            assert_eq!(q.current_index(), start);
        }
    }
}

#[test]
fn quickfix_empty_list() {
    let mut q = QuickfixList::new();
    assert!(q.is_empty());
    assert!(q.next().is_none());
    assert!(q.prev().is_none());
    assert!(q.forward(3).is_none());
    assert!(q.backward(3).is_none());
    assert!(q.first().is_none());
    assert!(q.last().is_none());
    assert!(q.current().is_none());
    q.set_current(4);
    assert_eq!(q.current_index(), 0);
    assert_eq!(q.status(), "[empty]");
    assert_eq!(q.line_to_item_index(3), None);
}

#[test]
fn quickfix_title_push_clear() {
    let mut q = QuickfixList::new().with_title("search".to_string());
    assert_eq!(q.title(), Some("search"));
    q.push(item("x", 0, 0, "t"));
    assert_eq!(q.len(), 1);
    q.set_title("other".to_string());
    assert_eq!(q.title(), Some("other"));
    q.set_items(vec![item("y", 1, 1, "u"), item("z", 2, 2, "v")]);
    assert_eq!(q.items().len(), 2);
    assert_eq!(q.iter()[1].uri, "z");
    q.clear();
    assert!(q.is_empty());
    assert_eq!(q.title(), None);
}

#[test]
fn quickfix_buffer_text() {
    let mut items = vec![item("/w/src/a.rs", 0, 4, "let x = 1;\nsecond line"), item("/home/me/b.rs", 9, 0, "b\r\n")];
    items[1] = items[1].clone().with_kind("error".to_string());
    items.push(item("rel/c.rs", 2, 3, ""));
    let q = QuickfixList::with_items(items).with_title("Results".to_string());
    let text = q.to_buffer_content(false, "/w", Some("/home/me"));
    assert_eq!(
        text,
        "# Quickfix: Results (3 items)\n# Press Enter on a line to jump to that location\n\nsrc/a.rs:1:5 | let x = 1;\n~/b.rs:10:1 | [error] b\nrel/c.rs:3:4 | \n"
    );
    let numbered = QuickfixList::with_items(vec![item("/x/a", 0, 0, "t")]).to_buffer_content(true, "/w", None);
    assert_eq!(numbered, "# Quickfix (1 items)\n# Press Enter on a line to jump to that location\n\n   1 | /x/a:1:1 | t\n");
    assert_eq!(q.line_to_item_index(2), None);
    assert_eq!(q.line_to_item_index(3), Some(0));
    assert_eq!(q.line_to_item_index(5), Some(2));
    assert_eq!(q.line_to_item_index(6), None);
    assert_eq!(q.item_at_line(4).map(|i| i.line), Some(9));
    let lines: Vec<&str> = text.lines().collect();
    assert_eq!(lines.len(), 3 + q.len());
    for i in 0..q.len() {
        assert_eq!(q.line_to_item_index(3 + i), Some(i));
    }
    assert_eq!(lines[4], "~/b.rs:10:1 | [error] b");
}

#[test]
fn quickfix_item_paths() {
    let it = QuickfixItem::with_range("/w/a.rs".to_string(), 1, 2, 3, 4, "t".to_string());
    assert_eq!(it.end_line, Some(3));
    assert_eq!(it.end_col, Some(4));
    assert_eq!(it.path(), Some("/w/a.rs"));
    assert_eq!(it.display_path("/w", None), "a.rs");
    assert_eq!(it.display_path("/other", None), "/w/a.rs");
    assert_eq!(it.display_path("/other", Some("/w")), "~/a.rs");
    assert_eq!(it.location_string("/w", None), "a.rs:2:3");
}

#[test]
fn recent_files_push_moves_to_front() {
    let mut r = RecentFiles::new();
    r.push("a".to_string());
    r.push("b".to_string());
    r.push("a".to_string());
    assert_eq!(r.iter(), &["a".to_string(), "b".to_string()]);
    r.push("a".to_string());
    assert_eq!(r.len(), 2);
    for i in 0..150 {
        r.push(format!("f{}", i));
    }
    assert_eq!(r.len(), 100);
    assert_eq!(r.iter()[0], "f149");
    assert_eq!(r.iter()[99], "f50");
}

#[test]
fn recent_files_text_round_trip() {
    let mut r = RecentFiles::default();
    r.push("/x/one".to_string());
    r.push("/y/two".to_string());
    let text = r.to_text();
    assert_eq!(text, "/y/two\n/x/one\n");
    let back = RecentFiles::from_text(&text);
    assert_eq!(back.iter(), r.iter());
    let loaded = RecentFiles::from_text("p1\r\np2\np2");
    assert_eq!(loaded.iter(), &["p1".to_string(), "p2".to_string(), "p2".to_string()]);
}

fn diag(sev: Option<Severity>, source: Option<&str>, code: Option<NumberOrString>, msg: &str) -> Diagnostic {
    Diagnostic { message: msg.to_string(), severity: sev, code, source: source.map(|s| s.to_string()) }
}

#[test]
fn diagnostics_popup_headers_and_paging() {
    let ds = vec![
        diag(Some(Severity::Error), Some("rustc"), Some(NumberOrString::String("E0308".to_string())), "mismatched types"),
        diag(None, None, Some(NumberOrString::Number(-42)), "careful"),
        diag(Some(Severity::Hint), Some("clippy"), Some(NumberOrString::String(String::new())), "hint"),
    ];
    let mut p = DiagnosticsPopup::new(&ds);
    assert!(p.has_header());
    let c = p.content().unwrap();
    assert_eq!(c.header.as_deref(), Some("**[1/3] Error (rustc E0308):**"));
    assert_eq!(c.body, "mismatched types");
    p.handle_key(PopupKey::Next);
    assert_eq!(p.content().unwrap().header.as_deref(), Some("**[2/3] Warning (unknown -42):**"));
    p.handle_key(PopupKey::Next);
    assert_eq!(p.content().unwrap().header.as_deref(), Some("**[3/3] Hint (clippy):**"));
    p.handle_key(PopupKey::Next);
    assert_eq!(p.content().unwrap().body, "mismatched types");
    p.handle_key(PopupKey::Previous);
    assert_eq!(p.content().unwrap().body, "hint");
    p.set_index(7);
    assert_eq!(p.content().unwrap().body, "hint");

    let single = DiagnosticsPopup::new(&ds[..1]);
    assert_eq!(single.content().unwrap().header.as_deref(), Some("**Error (rustc E0308):**"));
    let mut none = DiagnosticsPopup::new(&[]);
    assert!(!none.has_header());
    assert!(none.content().is_none());
    none.handle_key(PopupKey::Previous);
    none.handle_key(PopupKey::Next);
    assert!(none.content().is_none());
    assert_eq!(ds[1].severity(), Severity::Warning);
}

#[test]
fn diagnostics_popup_sizes() {
    assert_eq!(max_text_width(0), 10);
    assert_eq!(max_text_width(50), 48);
    assert_eq!(max_text_width(500), 120);
    assert_eq!(popup_size(false, true, 5, 5, 5), (20, 3));
    assert_eq!(popup_size(true, true, 30, 12, 4), (32, 8));
    assert_eq!(popup_size(true, false, 0, 12, 4), (14, 6));
    assert_eq!(body_top_offset(true), 2);
    assert_eq!(body_top_offset(false), 0);
}

#[test]
fn two_pushes_keep_both_in_front() {
    let mut r = RecentFiles::new();
    r.push("/x".to_string());
    r.push("/a".to_string());
    r.push("/b".to_string());
    assert_eq!(r.iter(), &["/b".to_string(), "/a".to_string(), "/x".to_string()]);
}

#[test]
fn display_path_normalizes_before_relating() {
    let it = item("/home/u/proj/../proj/src/a.rs", 0, 0, "x");
    assert_eq!(it.display_path("/home/u/proj", None), "src/a.rs");
    assert_eq!(it.display_path("/home/u/proj/./", None), "src/a.rs");
    let other = item("/etc/./hosts", 0, 0, "x");
    assert_eq!(other.display_path("/home/u/proj", Some("/home/u")), "/etc/./hosts");
    assert_eq!(item("/home/u/n.txt", 0, 0, "x").display_path("/w", Some("/home/u")), "~/n.txt");
}

#[test]
fn path_normalization() {
    use_norm("/a/./b//c/../d", "/a/b/d");
    use_norm("/..", "/");
    use_norm("/", "/");
    use_norm("/x/y/../../..", "/");
    use_norm("/x/", "/x");
}

fn use_norm(p: &str, want: &str) {
    assert_eq!(helix_addons::path::normalize_path(p), want);
}

#[test]
fn next_undoes_prev_and_wraps() {
    let mut q = three();
    assert_eq!(q.prev().map(|i| i.text.as_str()), Some("three"));
    assert_eq!(q.next().map(|i| i.text.as_str()), Some("one"));
    assert_eq!(q.current_index(), 0);
    q.last();
    assert_eq!(q.next().map(|i| i.text.as_str()), Some("one"));
    let mut empty = QuickfixList::new();
    assert!(empty.next().is_none() && empty.prev().is_none());
}

#[test]
fn two_pushes_keep_the_rest_in_order() {
    let mut r = RecentFiles::new();
    for p in ["/c", "/b", "/a", "/x"] {
        r.push(p.to_string());
    }
    r.push("/a".to_string());
    r.push("/b".to_string());
    assert_eq!(r.iter(), &["/b".to_string(), "/a".to_string(), "/x".to_string(), "/c".to_string()]);
    let mut full = RecentFiles::new();
    for i in 0..150 {
        full.push(format!("/f{}", i));
    }
    full.push("/f10".to_string());
    full.push("/f149".to_string());
    assert_eq!(full.len(), 100);
    assert_eq!(full.iter()[0], "/f149");
    assert_eq!(full.iter()[1], "/f10");
    assert_eq!(full.iter()[2], "/f148");
}
