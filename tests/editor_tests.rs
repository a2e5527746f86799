use modal_editor::buffer::BufferEntry;
use modal_editor::display::runs_of;
use modal_editor::editor::{EditMode, EditorState, CURSOR_MARK};
use modal_editor::error::EditorError;
use modal_editor::fonts::Font;
use modal_editor::highlighter::Highlighter;
use modal_editor::keymaps::{EditCommand, KeyPress, Modifiers};

fn active_texts(e: &EditorState) -> Vec<String> {
    e.active_buffer.get_lines().iter().map(|l| l.to_text()).collect()
}

#[test]
fn i_enters_insert_and_escape_leaves() {
    let mut e = EditorState::new();
    assert_eq!(e.get_mode(), EditMode::Normal);
    e.process_keystroke('i');
    assert_eq!(e.get_mode(), EditMode::Insert);
    e.process_keystroke('\x1b');
    assert_eq!(e.get_mode(), EditMode::Normal);
}

#[test]
fn insert_mode_types_unbound_keys() {
    let mut e = EditorState::new();
    for c in "iab\ncd".chars() {
        e.process_keystroke(c);
    }
    assert_eq!(active_texts(&e), vec!["ab\n".to_string(), "cd".to_string()]);
    assert_eq!(e.active_buffer.get_cursor_pos(), (2, 2));
}

#[test]
fn normal_mode_discards_unbound_keys() {
    let mut e = EditorState::new();
    e.process_keystroke('x');
    assert_eq!(e.get_mode(), EditMode::Normal);
    assert_eq!(active_texts(&e), vec![String::new()]);
}

#[test]
fn modified_key_is_not_the_plain_binding() {
    let mut e = EditorState::new();
    e.process_key_press(KeyPress { key: 'i', modifiers: Modifiers::with_alt() });
    assert_eq!(e.get_mode(), EditMode::Normal);
}

#[test]
fn command_and_visual_modes_drop_keys() {
    let mut e = EditorState::new();
    e.set_command_mode();
    e.process_keystroke('i');
    assert_eq!(e.get_mode(), EditMode::Command);
    e.set_visual_mode();
    e.process_keystroke('i');
    assert_eq!(e.get_mode(), EditMode::Visual);
    assert_eq!(active_texts(&e), vec![String::new()]);
    e.set_normal_mode();
    assert_eq!(e.get_mode(), EditMode::Normal);
    e.set_insert_mode();
    assert_eq!(e.get_mode(), EditMode::Insert);
    e.set_mode(EditMode::Visual);
    assert_eq!(e.get_mode(), EditMode::Visual);
    e.execute(EditCommand::SetMode(EditMode::Normal));
    assert_eq!(e.get_mode(), EditMode::Normal);
}

#[test]
fn create_and_change_buffers() {
    let mut e = EditorState::new();
    assert_eq!(e.create_empty_buffer(), 1);
    assert_eq!(e.create_empty_buffer(), 2);
    assert_eq!(e.change_buffer(2), Ok(()));
    assert_eq!(e.active_buffer.get_id(), 2);
    assert_eq!(e.change_buffer(5), Err(EditorError::BufferNotFound(5)));
    assert_eq!(e.active_buffer.get_id(), 2);
}

#[test]
fn buffer_ids_strictly_increase_from_one() {
    let mut e = EditorState::new();
    let ids: Vec<u32> = (0..5).map(|_| e.create_empty_buffer()).collect();
    assert_eq!(ids, vec![1, 2, 3, 4, 5]);
    e.change_buffer(3).unwrap();
    assert_eq!(e.create_empty_buffer(), 6);
}

#[test]
fn change_to_missing_buffer_keeps_active() {
    let mut e = EditorState::new();
    assert_eq!(e.change_buffer(1), Err(EditorError::BufferNotFound(1)));
    assert_eq!(e.active_buffer.get_id(), 0);
    e.create_empty_buffer();
    assert_eq!(e.change_buffer(0), Err(EditorError::BufferNotFound(0)));
    assert_eq!(e.active_buffer.get_id(), 0);
}

#[test]
fn buffer_list_stays_sorted_after_exchange() {
    let mut e = EditorState::new();
    e.create_empty_buffer();
    e.create_empty_buffer();
    e.create_empty_buffer();
    e.change_buffer(2).unwrap();
    let ids: Vec<u32> = e.get_buffer_list().iter().map(|p| p.0).collect();
    assert_eq!(ids, vec![0, 1, 3]);
    e.change_buffer(0).unwrap();
    let list = e.get_buffer_list();
    let ids: Vec<u32> = list.iter().map(|p| p.0).collect();
    assert_eq!(ids, vec![1, 2, 3]);
    assert!(list.iter().all(|p| p.1.is_none()));
    assert_eq!(e.active_buffer.get_id(), 0);
}

#[test]
fn exchanged_buffer_keeps_its_text() {
    let mut e = EditorState::new();
    for c in "ihi".chars() {
        e.process_keystroke(c);
    }
    e.create_empty_buffer();
    e.change_buffer(1).unwrap();
    assert_eq!(active_texts(&e), vec![String::new()]);
    e.change_buffer(0).unwrap();
    assert_eq!(active_texts(&e), vec!["hi".to_string()]);
}

#[test]
fn status_line_shows_mode_and_cursor() {
    let mut e = EditorState::new();
    e.update();
    assert_eq!(e.status_line, "[NORMAL] [1:0]");
    for c in "iabcdefghijkl".chars() {
        e.process_keystroke(c);
    }
    e.update();
    assert_eq!(e.status_line, "[INSERT] [1:12]");
}

#[test]
fn mode_labels() {
    assert_eq!(EditMode::Normal.label(), "NORMAL");
    assert_eq!(EditMode::Insert.label(), "INSERT");
    assert_eq!(EditMode::Visual.label(), "VISUAL");
    assert_eq!(EditMode::Command.label(), "COMMAND");
}

#[test]
fn display_buffer_marks_cursor() {
    let mut e = EditorState::new();
    for c in "iab".chars() {
        e.process_keystroke(c);
    }
    let d = e.get_display_buffer();
    let t: Vec<String> = d.get_lines().iter().map(|l| l.to_text()).collect();
    assert_eq!(t, vec![format!("ab{}", CURSOR_MARK)]);
    assert_eq!(CURSOR_MARK, '\u{2588}');
    assert_eq!(active_texts(&e), vec!["ab".to_string()]);
}

#[test]
fn display_buffer_marks_cursor_mid_line() {
    let mut e = EditorState::new();
    e.active_buffer.get_current_line_mut().insert_text(0, "héj").unwrap();
    let d = e.get_display_buffer();
    assert_eq!(d.get_current_line().to_text(), "\u{2588}héj");
}

#[test]
fn section_text_is_one_normal_run() {
    let mut e = EditorState::new();
    for c in "iab\ncd".chars() {
        e.process_keystroke(c);
    }
    let d = e.get_display_buffer();
    let runs = e.get_section_text(&d);
    assert_eq!(runs.len(), 1);
    assert_eq!(runs[0].text, "ab\ncd\u{2588}");
    assert_eq!(runs[0].font, Font::Normal);
}

#[test]
fn runs_split_at_style_tags() {
    let entries = vec![
        BufferEntry::Text('a'),
        BufferEntry::Font(Font::Bold),
        BufferEntry::Text('b'),
        BufferEntry::Text('c'),
        BufferEntry::Font(Font::Comment),
    ];
    let runs = runs_of(&entries);
    let got: Vec<(String, Font)> = runs.iter().map(|r| (r.text.clone(), r.font)).collect();
    assert_eq!(
        got,
        vec![
            ("a".to_string(), Font::Normal),
            ("bc".to_string(), Font::Bold),
            (String::new(), Font::Comment),
        ]
    );
    assert_eq!(runs_of(&vec![]).len(), 1);
}

#[test]
fn highlighter_passes_leave_cache() {
    let e = EditorState::new();
    let mut h = Highlighter::new();
    h.highlight_buffer(&e.active_buffer);
    h.highlight_line(&e.active_buffer, 0);
    assert_eq!(h.cached_line_count(), 0);
}
