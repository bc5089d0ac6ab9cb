use schemaui::entries::EntryEditor;
use schemaui::keys::{KeyCode, KeyEvent, KeyModifiers};

fn strings(items: &[&str]) -> Vec<String> {
    items.iter().map(|s| s.to_string()).collect()
}

#[test]
fn an_array_text_opens_as_trimmed_entries() {
    let editor = EntryEditor::open(" a ,, b,c ");
    assert_eq!(editor.entries(), &strings(&["a", "b", "c"])[..]);
    assert_eq!(editor.selected(), 0);
    assert!(EntryEditor::open("   ").entries().is_empty());
}

#[test]
fn entries_written_back_open_as_the_same_entries() {
    let editor = EntryEditor::open("x,y , z");
    let text = editor.to_text();
    assert_eq!(text, "x, y, z");
    assert_eq!(EntryEditor::open(&text).entries(), editor.entries());
}

#[test]
fn adding_then_removing_an_entry_changes_nothing() {
    let mut editor = EntryEditor::open("1, 2");
    editor.add_entry();
    assert_eq!(editor.selected(), 2);
    editor.remove_entry();
    assert_eq!(editor.entries(), &strings(&["1", "2"])[..]);
    assert_eq!(editor.selected(), 1);
}

#[test]
fn moving_down_then_up_restores_the_order() {
    let mut editor = EntryEditor::open("1, 2, 3");
    editor.move_entry(1);
    assert_eq!(editor.entries(), &strings(&["2", "1", "3"])[..]);
    assert_eq!(editor.selected(), 1);
    editor.move_entry(-1);
    assert_eq!(editor.entries(), &strings(&["1", "2", "3"])[..]);
    assert_eq!(editor.selected(), 0);
    editor.move_entry(-1);
    assert_eq!(editor.selected(), 0);
}

#[test]
fn typing_edits_the_selected_entry_but_not_with_commas() {
    let mut editor = EntryEditor::open("ab");
    editor.type_key(&KeyEvent::new(KeyCode::Char('c'), KeyModifiers::none()));
    editor.type_key(&KeyEvent::new(KeyCode::Char(','), KeyModifiers::none()));
    assert_eq!(editor.entries(), &strings(&["abc"])[..]);
    editor.type_key(&KeyEvent::new(KeyCode::Backspace, KeyModifiers::none()));
    assert_eq!(editor.entries(), &strings(&["ab"])[..]);
    editor.select_entry(1);
    assert_eq!(editor.selected(), 0);
}
