use helix_addons::oil_commands::{
    oil_enter_note, oil_parent_note, oil_refresh_note, oil_toggle_hidden_note, open_new_entry, EditorNote,
    NewEntryStep,
};
use std::path::PathBuf;

use helix_addons::oil::{
    compute_oil_operations, directory_from_buffer_name, format_oil_entry,
    generate_oil_buffer_content, is_oil_buffer_name, parse_oil_line, OilEntry, OilFileType,
    OilOperation, OilSortOrder, OilState,
};
use helix_addons::oil_commands::{
    execute_oil_operations, hidden_status_message, oil_enter, oil_parent, oil_toggle_hidden,
    prepare_directory_entries, OilEnterAction, OilParentAction,
};
use helix_addons::oil_editor::{
    help_lines, line_number_text, overlay_area, EnterTarget, OilEditor, OilInput, OilKeyCode, OilLineStyle,
    OilResponse, SaveDecision,
};

#[test]
fn test_parse_oil_line_file() {
    let parsed = parse_oil_line("- README.md").unwrap();
    assert_eq!(parsed.name, "README.md");
    assert!(!parsed.is_dir);
    assert!(!parsed.is_symlink);
}

#[test]
fn test_parse_oil_line_directory() {
    let parsed = parse_oil_line("d src/").unwrap();
    assert_eq!(parsed.name, "src");
    assert!(parsed.is_dir);
    assert!(!parsed.is_symlink);
}

#[test]
fn test_parse_oil_line_symlink() {
    let parsed = parse_oil_line("l config -> /etc/config").unwrap();
    assert_eq!(parsed.name, "config");
    assert!(!parsed.is_dir);
    assert!(parsed.is_symlink);
}

#[test]
fn test_parse_oil_line_comment() {
    assert!(parse_oil_line("# This is a comment").is_none());
    assert!(parse_oil_line("").is_none());
    assert!(parse_oil_line("   ").is_none());
}

#[test]
fn test_format_oil_entry_file() {
    let entry = OilEntry::new(
        "test.txt".to_string(),
        OilFileType::File,
        "/tmp/test.txt".to_string(),
    );
    assert_eq!(format_oil_entry(&entry), "- test.txt");
}

#[test]
fn test_format_oil_entry_directory() {
    let entry = OilEntry::new(
        "src".to_string(),
        OilFileType::Directory,
        "/tmp/src".to_string(),
    );
    assert_eq!(format_oil_entry(&entry), "d src/");
}

#[test]
fn test_compute_operations_create() {
    let original = vec![];
    let current = "- newfile.txt\n";
    let ops = compute_oil_operations(&original, current, "/tmp");
    assert_eq!(ops.len(), 1);
    assert!(matches!(ops[0], OilOperation::Create { is_dir: false, .. }));
}

#[test]
fn test_compute_operations_delete() {
    let original = vec![OilEntry::new(
        "oldfile.txt".to_string(),
        OilFileType::File,
        "/tmp/oldfile.txt".to_string(),
    )];
    let current = "";
    let ops = compute_oil_operations(&original, current, "/tmp");
    assert_eq!(ops.len(), 1);
    assert!(matches!(ops[0], OilOperation::Delete { is_dir: false, .. }));
}

#[test]
fn test_compute_operations_rename() {
    let original = vec![OilEntry::new(
        "old.txt".to_string(),
        OilFileType::File,
        "/tmp/old.txt".to_string(),
    )];
    let current = "- new.txt\n";
    let ops = compute_oil_operations(&original, current, "/tmp");
    assert_eq!(ops.len(), 1);
    assert!(matches!(ops[0], OilOperation::Rename { .. }));
}

#[test]
fn test_is_oil_buffer_name() {
    assert!(is_oil_buffer_name("[oil] /home/user"));
    assert!(!is_oil_buffer_name("[quickfix]"));
    assert!(!is_oil_buffer_name("test.txt"));
}

#[test]
fn test_directory_from_buffer_name() {
    let dir = directory_from_buffer_name("[oil] /home/user").unwrap();
    assert_eq!(PathBuf::from(dir), PathBuf::from("/home/user"));
}

fn entry(name: &str, ty: OilFileType) -> OilEntry {
    OilEntry::new(name.to_string(), ty, format!("/tmp/{}", name))
}

#[test]
fn parse_oil_line_edge_cases() {
    let p = parse_oil_line("  d a//  ").unwrap();
    assert_eq!(p.name, "a");
    assert!(p.is_dir);
    assert!(parse_oil_line("d /").is_none());
    assert!(parse_oil_line("x file").is_none());
    let p = parse_oil_line("l link").unwrap();
    assert_eq!(p.name, "link");
    assert!(parse_oil_line("l  -> target").is_none());
    let p = parse_oil_line("- name with spaces\r").unwrap();
    assert_eq!(p.name, "name with spaces");
}

#[test]
fn symlink_lines_and_descriptions() {
    let e = OilEntry::symlink("cfg".to_string(), "/tmp/cfg".to_string(), "/etc/cfg".to_string());
    assert_eq!(format_oil_entry(&e), "l cfg -> /etc/cfg");
    let mut e2 = e.clone();
    e2.symlink_target = None;
    assert_eq!(format_oil_entry(&e2), "l cfg -> ?");

    let c = OilOperation::Create { path: "/tmp/x".to_string(), is_dir: true };
    assert_eq!(c.description(), "Create directory '/tmp/x'");
    let d = OilOperation::Delete { path: "/tmp/y".to_string(), is_dir: false };
    assert_eq!(d.description(), "Delete file '/tmp/y'");
    let r = OilOperation::Rename { from: "/a".to_string(), to: "/b".to_string() };
    assert_eq!(r.description(), "Rename '/a' to '/b'");
}

#[test]
fn buffer_content_round_trip_has_no_operations() {
    let entries = vec![
        entry("src", OilFileType::Directory),
        entry("README.md", OilFileType::File),
        OilEntry::symlink("cfg".to_string(), "/tmp/cfg".to_string(), "/etc/cfg".to_string()),
    ];
    let content = generate_oil_buffer_content("/tmp", &entries);
    assert_eq!(
        content,
        "# /tmp\n# d=directory -=file l=symlink | Enter:open -:parent :w:apply\n\nd src/\n- README.md\nl cfg -> /etc/cfg\n"
    );
    let ops = compute_oil_operations(&entries, &content, "/tmp");
    assert!(ops.is_empty());
}

#[test]
fn operations_for_mixed_edits() {
    let entries = vec![entry("a", OilFileType::File), entry("b", OilFileType::Directory)];
    // delete both, create two: no rename
    let ops = compute_oil_operations(&entries, "- c\nd e/\n", "/tmp");
    assert_eq!(ops.len(), 4);
    assert!(matches!(&ops[0], OilOperation::Delete { path, is_dir: false } if path == "/tmp/a"));
    assert!(matches!(&ops[1], OilOperation::Delete { path, is_dir: true } if path == "/tmp/b"));
    assert!(matches!(&ops[2], OilOperation::Create { path, is_dir: false } if path == "/tmp/c"));
    assert!(matches!(&ops[3], OilOperation::Create { path, is_dir: true } if path == "/tmp/e"));
    // one deletion, one creation of another kind: no rename
    let ops = compute_oil_operations(&entries, "- a\nd z/\n- y\n", "/tmp");
    assert_eq!(ops.len(), 3);
    // a directory renamed
    let ops = compute_oil_operations(&entries, "- a\nd c/\n", "/tmp");
    assert_eq!(ops.len(), 1);
    assert!(matches!(&ops[0], OilOperation::Rename { from, to } if from == "/tmp/b" && to == "/tmp/c"));
}

#[test]
fn oil_state_and_names() {
    let state = OilState::new("/home/me".to_string());
    assert_eq!(state.buffer_name(), "[oil] /home/me");
    assert_eq!(directory_from_buffer_name(&state.buffer_name()).as_deref(), Some("/home/me"));
    assert_eq!(state.sort_order, OilSortOrder::Name);
    assert!(!state.show_hidden);
    assert_eq!(OilSortOrder::default(), OilSortOrder::Name);
    assert!(directory_from_buffer_name("[quickfix]").is_none());
}

#[test]
fn enter_parent_and_hidden_commands() {
    let mut state = OilState::new("/tmp/w".to_string());
    state.original_entries = vec![entry("src", OilFileType::Directory), entry("a.txt", OilFileType::File)];
    assert!(matches!(oil_enter(&state, "d src/"), OilEnterAction::OpenDirectory(p) if p == "/tmp/src"));
    assert!(matches!(oil_enter(&state, "- a.txt"), OilEnterAction::OpenFile(p) if p == "/tmp/a.txt"));
    assert!(matches!(oil_enter(&state, "d new/"), OilEnterAction::OpenNewDirectory(p) if p == "/tmp/w/new"));
    assert!(matches!(oil_enter(&state, "- n.rs"), OilEnterAction::OpenNewFile(p) if p == "/tmp/w/n.rs"));
    assert!(matches!(oil_enter(&state, "# comment"), OilEnterAction::Nothing));

    assert!(matches!(oil_parent(&state), OilParentAction::Open(p) if p == "/tmp"));
    assert!(matches!(oil_parent(&OilState::new("/".to_string())), OilParentAction::AtRoot));

    assert!(oil_toggle_hidden(&mut state));
    assert_eq!(hidden_status_message(state.show_hidden), "Showing hidden files");
    assert!(!oil_toggle_hidden(&mut state));
    assert_eq!(hidden_status_message(false), "Hiding hidden files");
}

#[test]
fn listing_is_filtered_and_sorted() {
    let raw = vec![
        entry("zeta", OilFileType::File),
        entry(".hidden", OilFileType::File),
        entry("Beta", OilFileType::Directory),
        entry("alpha", OilFileType::File),
        entry("gamma", OilFileType::Directory),
    ];
    let names = |v: &Vec<OilEntry>| v.iter().map(|e| e.name.clone()).collect::<Vec<_>>();
    let by_name = prepare_directory_entries(raw.clone(), false, OilSortOrder::Name);
    assert_eq!(names(&by_name), vec!["Beta", "gamma", "alpha", "zeta"]);
    let with_hidden = prepare_directory_entries(raw.clone(), true, OilSortOrder::Size);
    assert_eq!(names(&with_hidden), vec![".hidden", "alpha", "Beta", "gamma", "zeta"]);
}

#[test]
fn operations_run_until_the_first_failure() {
    let ops = vec![
        OilOperation::Create { path: "/a".to_string(), is_dir: false },
        OilOperation::Delete { path: "/fail".to_string(), is_dir: false },
        OilOperation::Create { path: "/c".to_string(), is_dir: false },
    ];
    let run = |op: &OilOperation| match op {
        OilOperation::Delete { path, .. } if path == "/fail" => Err("denied".to_string()),
        _ => Ok(()),
    };
    assert_eq!(execute_oil_operations(&ops, run), Err((1, "denied".to_string())));
    assert_eq!(execute_oil_operations(&ops[..1], run), Ok(1));
    assert_eq!(execute_oil_operations(&[], run), Ok(0));
}

#[test]
fn oil_editor_cursor_and_saving() {
    let entries = vec![entry("a", OilFileType::File), entry("b", OilFileType::File)];
    let mut ed = OilEditor::new("/tmp".to_string(), entries.clone());
    assert_eq!(ed.path(), "/tmp");
    assert_eq!(ed.total_lines(), 4);
    assert_eq!(ed.cursor_line(), 2);
    ed.cursor_down(4);
    ed.cursor_down(4);
    assert_eq!(ed.cursor_line(), 3);
    ed.cursor_up();
    ed.cursor_up();
    ed.cursor_up();
    ed.cursor_up();
    assert_eq!(ed.cursor_line(), 0);

    let content = generate_oil_buffer_content("/tmp", &entries);
    assert_eq!(ed.prepare_operations(&content, false, true), SaveDecision::Nothing);
    assert_eq!(ed.status().map(|s| s.as_str()), Some("No changes detected"));

    assert_eq!(ed.prepare_operations("- a\n", true, true), SaveDecision::Apply);
    assert_eq!(ed.prepare_operations("", true, true), SaveDecision::Confirm);
    let pending = ed.take_pending().unwrap();
    assert_eq!(pending.len(), 2);
    ed.finish_operations(Ok((2, vec![])));
    assert_eq!(ed.status().map(|s| s.as_str()), Some("2 operation(s) completed successfully"));
    assert!(ed.take_pending().is_none());
    assert_eq!(ed.status().map(|s| s.as_str()), Some("No pending changes"));
    ed.report_error("boom");
    assert_eq!(ed.status().map(|s| s.as_str()), Some("Error: boom"));
    ed.cancel_operations();
    assert_eq!(ed.status().map(|s| s.as_str()), Some("Cancelled"));
}

fn key(c: char) -> OilInput {
    OilInput::Key { code: OilKeyCode::Char(c), ctrl: false }
}

#[test]
fn oil_editor_keys_move_and_ask() {
    let entries = vec![entry("a", OilFileType::File), entry("d", OilFileType::Directory)];
    let mut ed = OilEditor::new("/tmp".to_string(), entries);
    assert_eq!(ed.handle_input(OilInput::Other), OilResponse::Ignored);
    assert_eq!(ed.handle_input(key('j')), OilResponse::Handled);
    assert_eq!(ed.cursor_line(), 3);
    assert_eq!(ed.handle_input(OilInput::Key { code: OilKeyCode::Down, ctrl: false }), OilResponse::Handled);
    assert_eq!(ed.cursor_line(), 3);
    assert_eq!(ed.handle_input(key('g')), OilResponse::Handled);
    assert_eq!(ed.cursor_line(), 0);
    assert_eq!(ed.handle_input(key('G')), OilResponse::Handled);
    assert_eq!(ed.cursor_line(), 3);
    assert_eq!(ed.handle_input(key('k')), OilResponse::Handled);
    assert_eq!(ed.cursor_line(), 2);
    assert_eq!(ed.handle_input(OilInput::Key { code: OilKeyCode::Enter, ctrl: false }), OilResponse::EnterOrOpen);
    assert_eq!(ed.handle_input(key('-')), OilResponse::GotoParent);
    assert_eq!(ed.handle_input(key('.')), OilResponse::ToggleHidden);
    assert_eq!(ed.handle_input(key('s')), OilResponse::Handled);
    assert_eq!(ed.handle_input(OilInput::Key { code: OilKeyCode::Char('s'), ctrl: true }), OilResponse::Save);
    assert_eq!(ed.handle_input(OilInput::Key { code: OilKeyCode::Char('r'), ctrl: true }), OilResponse::Refresh);
    assert_eq!(ed.handle_input(key('?')), OilResponse::Handled);
    assert_eq!(ed.handle_input(key('q')), OilResponse::Handled);
    assert_eq!(ed.handle_input(key('q')), OilResponse::Close);
    assert_eq!(ed.handle_input(OilInput::Key { code: OilKeyCode::Esc, ctrl: false }), OilResponse::Close);
}

#[test]
fn oil_editor_confirmation_takes_the_keys() {
    let entries = vec![entry("a", OilFileType::File), entry("b", OilFileType::File)];
    let mut ed = OilEditor::new("/tmp".to_string(), entries);
    assert_eq!(ed.prepare_operations("", false, true), SaveDecision::Confirm);
    let lines = ed.confirmation_lines();
    assert_eq!(lines.len(), 6);
    assert_eq!(lines[0], "The following operations will be performed:");
    assert_eq!(lines[2], "  Delete file '/tmp/a'");
    assert_eq!(lines[5], "[y]es  [n]o  [q]uit");
    assert_eq!(ed.handle_input(key('j')), OilResponse::Handled);
    assert_eq!(ed.cursor_line(), 2);
    assert_eq!(ed.handle_input(key('Y')), OilResponse::Apply);
    assert_eq!(ed.handle_input(key('n')), OilResponse::Handled);
    assert_eq!(ed.status().map(|s| s.as_str()), Some("Cancelled"));
    assert!(ed.confirmation_lines().len() == 4);
    assert_eq!(ed.handle_input(key('q')), OilResponse::Close);
}

#[test]
fn oil_editor_enter_targets() {
    let entries = vec![entry("a", OilFileType::File), entry("d", OilFileType::Directory)];
    let mut ed = OilEditor::new("/tmp".to_string(), entries);
    assert_eq!(ed.enter_target(), EnterTarget::File("/tmp/a".to_string()));
    ed.cursor_down(4);
    assert_eq!(ed.enter_target(), EnterTarget::Directory("/tmp/d".to_string()));
    ed.cursor_up();
    ed.cursor_up();
    assert_eq!(ed.enter_target(), EnterTarget::Parent);
    ed.cursor_up();
    assert_eq!(ed.enter_target(), EnterTarget::Nothing);
}

#[test]
fn oil_editor_screen_text() {
    let entries = vec![entry("a", OilFileType::File)];
    let mut ed = OilEditor::new("/tmp".to_string(), entries);
    assert_eq!(ed.header_text(), " /tmp ");
    assert_eq!(ed.status_line(0), " hidden: off | Press ? for help");
    assert_eq!(ed.status_line(3), " hidden: off | 3 pending changes | Ctrl-s to apply");
    assert_eq!(ed.line_style(2, false), OilLineStyle::Selected);
    assert_eq!(ed.line_style(1, true), OilLineStyle::Directory);
    assert_eq!(ed.line_style(3, false), OilLineStyle::Text);
    assert_eq!(line_number_text(7), "  7 ");
    assert_eq!(line_number_text(1234), "1234 ");
    ed.finish_refresh(vec![]);
    assert_eq!(ed.status_line(0), "Refreshed");
    assert_eq!(help_lines().len(), 23);
    assert_eq!(help_lines()[1], "  Navigation:");
    assert_eq!(overlay_area(0, 0, 100, 40, 50, 23), (25, 7, 50, 25));
    assert_eq!(overlay_area(0, 0, 20, 10, 60, 5), (2, 2, 16, 6));
}

#[test]
fn oil_editor_scrolls_to_the_cursor() {
    let entries = vec![
        entry("a", OilFileType::File),
        entry("b", OilFileType::File),
        entry("c", OilFileType::File),
        entry("d", OilFileType::File),
    ];
    let mut ed = OilEditor::new("/tmp".to_string(), entries);
    for _ in 0..3 {
        ed.cursor_down(6);
    }
    assert_eq!(ed.cursor_line(), 5);
    ed.scroll_to_cursor(2);
    assert_eq!(ed.scroll_offset(), 4);
    ed.cursor_up();
    ed.cursor_up();
    ed.scroll_to_cursor(2);
    assert_eq!(ed.scroll_offset(), 3);
    ed.scroll_to_cursor(10);
    assert_eq!(ed.scroll_offset(), 3);
}

#[test]
fn oil_command_notes() {
    assert_eq!(open_new_entry("/d/x".to_string(), true, true, false), NewEntryStep::OpenDirectory("/d/x".to_string()));
    assert_eq!(
        open_new_entry("/d/x".to_string(), true, false, true),
        NewEntryStep::NotYetSaved("Directory does not exist yet. Save the buffer first.".to_string())
    );
    assert_eq!(open_new_entry("/d/f".to_string(), false, false, true), NewEntryStep::OpenFile("/d/f".to_string()));
    assert_eq!(
        open_new_entry("/d/f".to_string(), false, true, false),
        NewEntryStep::NotYetSaved("File does not exist yet. Save the buffer first.".to_string())
    );
    assert_eq!(oil_enter_note(true, None), EditorNote::Silent);
    assert_eq!(oil_enter_note(true, Some("x")), EditorNote::Error("Failed to open directory: x".to_string()));
    assert_eq!(oil_enter_note(false, Some("y")), EditorNote::Error("Failed to open file: y".to_string()));
    assert_eq!(oil_parent_note(&OilParentAction::AtRoot, None), EditorNote::Status("Already at root directory".to_string()));
    assert_eq!(oil_parent_note(&OilParentAction::Open("/".to_string()), None), EditorNote::Silent);
    assert_eq!(
        oil_parent_note(&OilParentAction::Open("/".to_string()), Some("denied")),
        EditorNote::Error("Failed to open parent directory: denied".to_string())
    );
    assert_eq!(oil_toggle_hidden_note(true, None), EditorNote::Status("Showing hidden files".to_string()));
    assert_eq!(oil_toggle_hidden_note(false, None), EditorNote::Status("Hiding hidden files".to_string()));
    assert_eq!(oil_toggle_hidden_note(true, Some("gone")), EditorNote::Error("Failed to refresh: gone".to_string()));
    assert_eq!(oil_refresh_note(None), EditorNote::Status("Oil buffer refreshed".to_string()));
    assert_eq!(oil_refresh_note(Some("gone")), EditorNote::Error("Failed to refresh: gone".to_string()));
}

#[test]
fn oil_editor_hidden_setting_shows_in_status() {
    let mut ed = OilEditor::new("/tmp".to_string(), vec![entry("a", OilFileType::File)]);
    ed.cursor_up();
    assert_eq!(ed.status_line(0), " hidden: off | Press ? for help");
    ed.toggle_hidden(vec![entry(".h", OilFileType::File), entry("a", OilFileType::File)]);
    assert_eq!(ed.status_line(0), " hidden: on | Press ? for help");
    assert_eq!(ed.cursor_line(), 1);
    assert_eq!(ed.entries().len(), 2);
    ed.set_show_hidden(false);
    assert_eq!(ed.status_line(2), " hidden: off | 2 pending changes | Ctrl-s to apply");
    assert_eq!(ed.parent_directory(), Some("/".to_string()));
    let root = OilEditor::new("/".to_string(), vec![]);
    assert_eq!(root.parent_directory(), None);
}

#[test]
fn wider_names_read_back() {
    let dir = OilEntry::new("trailing ".to_string(), OilFileType::Directory, "/t/trailing ".to_string());
    let link = OilEntry::symlink("a>b".to_string(), "/t/a>b".to_string(), "target ".to_string());
    let file = OilEntry::new("x/".to_string(), OilFileType::File, "/t/x/".to_string());
    for e in [&dir, &link, &file] {
        let p = parse_oil_line(&format_oil_entry(e)).unwrap();
        assert_eq!(p.name, e.name);
        assert_eq!(p.is_dir, e.file_type == OilFileType::Directory);
        assert_eq!(p.is_symlink, e.file_type == OilFileType::Symlink);
    }
    let entries = vec![dir, link, file];
    let content = generate_oil_buffer_content("/t", &entries);
    assert!(compute_oil_operations(&entries, &content, "/t").is_empty());
}

#[test]
fn listing_keeps_read_order_among_equal_keys() {
    let raw = vec![
        entry("B", OilFileType::File),
        entry("b", OilFileType::File),
        entry("a", OilFileType::Directory),
        entry("A", OilFileType::File),
    ];
    let names: Vec<String> =
        prepare_directory_entries(raw.clone(), false, OilSortOrder::Name).into_iter().map(|e| e.name).collect();
    assert_eq!(names, vec!["a", "A", "B", "b"]);
    let names: Vec<String> =
        prepare_directory_entries(raw, false, OilSortOrder::Size).into_iter().map(|e| e.name).collect();
    assert_eq!(names, vec!["a", "A", "B", "b"]);
}
