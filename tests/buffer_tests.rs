use modal_editor::buffer::{Buffer, BufferEntry};
use modal_editor::error::EditorError;
use modal_editor::fonts::Font;
use modal_editor::line::Line;

fn texts(b: &Buffer) -> Vec<String> {
    b.get_lines().iter().map(|l| l.to_text()).collect()
}

fn type_str(b: &mut Buffer, s: &str) {
    for c in s.chars() {
        b.insert_at_cursor(c);
    }
}

#[test]
fn typing_two_lines() {
    let mut b = Buffer::new(0);
    type_str(&mut b, "ab\ncd");
    // the first line keeps its newline marker
    assert_eq!(texts(&b), vec!["ab\n".to_string(), "cd".to_string()]);
    let visible: Vec<String> = texts(&b).iter().map(|t| t.trim_end_matches('\n').to_string()).collect();
    assert_eq!(visible, vec!["ab".to_string(), "cd".to_string()]);
    assert_eq!(b.get_cursor_pos(), (2, 2));
}

#[test]
fn typing_then_backspace() {
    let mut b = Buffer::new(0);
    type_str(&mut b, "a\x08");
    assert_eq!(texts(&b), vec![String::new()]);
    assert_eq!(b.get_cursor_pos(), (1, 0));
}

#[test]
fn plain_char_grows_line_by_one() {
    let mut b = Buffer::new(3);
    b.get_current_line_mut().insert_text(0, "cd").unwrap();
    assert_eq!(b.get_cursor_pos(), (1, 0));
    b.insert_at_cursor('x');
    assert_eq!(texts(&b), vec!["xcd".to_string()]);
    assert_eq!(b.get_cursor_pos(), (1, 1));
    b.insert_at_cursor('é');
    assert_eq!(texts(&b), vec!["xécd".to_string()]);
    assert_eq!(b.get_current_line().len(), 4);
    assert_eq!(b.get_cursor_pos(), (1, 2));
}

#[test]
fn newline_split_rejoins_to_original() {
    let mut b = Buffer::new(0);
    type_str(&mut b, "ab");
    b.get_current_line_mut().push('c');
    b.get_current_line_mut().push('d');
    assert_eq!(b.get_cursor_pos(), (1, 2));
    b.insert_at_cursor('\n');
    assert_eq!(texts(&b), vec!["ab\n".to_string(), "cd".to_string()]);
    assert_eq!(b.get_cursor_pos(), (2, 0));
    let t = texts(&b);
    let rejoined = format!("{}{}", t[0].trim_end_matches('\n'), t[1]);
    assert_eq!(rejoined, "abcd");
}

#[test]
fn carriage_return_splits_like_newline() {
    let mut b = Buffer::new(0);
    type_str(&mut b, "x\ry");
    assert_eq!(texts(&b), vec!["x\n".to_string(), "y".to_string()]);
    assert_eq!(b.get_cursor_pos(), (2, 1));
}

#[test]
fn backspace_on_empty_line_merges_up() {
    let mut b = Buffer::new(0);
    type_str(&mut b, "ab\n");
    assert_eq!(b.get_cursor_pos(), (2, 0));
    b.insert_at_cursor('\x08');
    assert_eq!(texts(&b), vec!["ab".to_string()]);
    assert_eq!(b.get_cursor_pos(), (1, 2));
}

#[test]
fn backspace_merge_keeps_line_without_marker() {
    let mut b = Buffer::new(0);
    type_str(&mut b, "ab");
    b.insert_line_below(Line::new());
    b.insert_line_above(Line::from_text("top"));
    assert_eq!(texts(&b), vec!["top".to_string(), "ab".to_string(), String::new()]);
    assert_eq!(b.get_cursor_pos(), (2, 2));
}

#[test]
fn backspace_on_empty_first_line_is_noop() {
    let mut b = Buffer::new(0);
    b.insert_at_cursor('\x08');
    assert_eq!(texts(&b), vec![String::new()]);
    assert_eq!(b.get_cursor_pos(), (1, 0));
    assert!(!b.get_current_line().is_edited());
}

#[test]
fn backspace_at_column_zero_of_text_is_noop() {
    let mut b = Buffer::new(0);
    b.get_current_line_mut().insert_text(0, "cd").unwrap();
    b.insert_at_cursor('\x08');
    assert_eq!(texts(&b), vec!["cd".to_string()]);
    assert_eq!(b.get_cursor_pos(), (1, 0));
}

#[test]
fn tab_inserts_three_spaces_at_cursor() {
    let mut b = Buffer::new(0);
    b.get_current_line_mut().insert_text(0, "cd").unwrap();
    b.insert_at_cursor('\t');
    assert_eq!(texts(&b), vec!["   cd".to_string()]);
    assert_eq!(b.get_cursor_pos(), (1, 3));
}

#[test]
fn delete_at_cursor_removes_char_under_cursor() {
    let mut b = Buffer::new(0);
    b.get_current_line_mut().insert_text(0, "xyz").unwrap();
    assert_eq!(b.delete_at_cursor(), Ok('x'));
    assert_eq!(texts(&b), vec!["yz".to_string()]);
    assert_eq!(b.get_cursor_pos(), (1, 0));
}

#[test]
fn delete_at_end_of_line_is_out_of_range() {
    let mut b = Buffer::new(0);
    type_str(&mut b, "ab");
    assert_eq!(b.delete_at_cursor(), Err(EditorError::IndexOutOfRange(2)));
    assert_eq!(texts(&b), vec!["ab".to_string()]);
}

#[test]
fn insert_line_above_keeps_cursor_on_its_line() {
    let mut b = Buffer::new(0);
    type_str(&mut b, "ab");
    b.insert_line_above(Line::from_text("zz"));
    assert_eq!(texts(&b), vec!["zz".to_string(), "ab".to_string()]);
    assert_eq!(b.get_cursor_pos(), (2, 2));
    assert_eq!(b.get_current_line().to_text(), "ab");
}

#[test]
fn insert_line_below_leaves_cursor() {
    let mut b = Buffer::new(0);
    type_str(&mut b, "ab");
    b.insert_line_below(Line::from_text("zz"));
    assert_eq!(texts(&b), vec!["ab".to_string(), "zz".to_string()]);
    assert_eq!(b.get_cursor_pos(), (1, 2));
}

#[test]
fn buffer_id_and_path() {
    let b = Buffer::new(7);
    assert_eq!(b.get_id(), 7);
    assert_eq!(b.get_path(), None);
}

#[test]
fn snapshot_is_a_deep_copy() {
    let mut b = Buffer::new(4);
    type_str(&mut b, "hi\nyo");
    let c = b.snapshot();
    b.insert_at_cursor('!');
    assert_eq!(texts(&c), vec!["hi\n".to_string(), "yo".to_string()]);
    assert_eq!(c.get_cursor_pos(), (2, 2));
    assert_eq!(c.get_id(), 4);
}

#[test]
fn buffer_entry_from_char() {
    assert_eq!(BufferEntry::from('q'), BufferEntry::Text('q'));
    assert_ne!(BufferEntry::from('q'), BufferEntry::Font(Font::Normal));
}

#[test]
fn line_insert_and_out_of_range() {
    let mut l = Line::from_text("héllo");
    assert!(!l.is_edited());
    assert_eq!(l.len(), 5);
    assert_eq!(l.insert(5, '!'), Ok(()));
    assert_eq!(l.to_text(), "héllo!");
    assert!(l.is_edited());
    assert_eq!(l.insert(9, '?'), Err(EditorError::IndexOutOfRange(9)));
    assert_eq!(l.to_text(), "héllo!");
}

#[test]
fn line_insert_text_in_middle() {
    let mut l = Line::from_text("ad");
    assert_eq!(l.insert_text(1, "bc"), Ok(()));
    assert_eq!(l.to_text(), "abcd");
    assert_eq!(l.insert_text(5, "x"), Err(EditorError::IndexOutOfRange(5)));
}

#[test]
fn line_remove_pop_push() {
    let mut l = Line::from_text("abc");
    assert_eq!(l.remove(1), Ok('b'));
    assert_eq!(l.remove(2), Err(EditorError::IndexOutOfRange(2)));
    assert_eq!(l.pop(), Some('c'));
    l.push('z');
    assert_eq!(l.to_text(), "az");
    let mut e = Line::new();
    assert_eq!(e.pop(), None);
    assert!(!e.is_edited());
    assert!(e.is_empty());
}

#[test]
fn line_split_off_returns_rest() {
    let mut l = Line::from_text("abcd");
    let rest = l.split_off(1).ok().unwrap();
    assert_eq!(l.to_text(), "a");
    assert_eq!(rest.to_text(), "bcd");
    assert!(rest.is_edited());
    assert!(l.split_off(3).is_err());
    assert_eq!(l.to_text(), "a");
}

#[test]
fn line_chars_access() {
    let mut l = Line::from_text("ab");
    assert_eq!(l.chars(), &vec!['a', 'b']);
    assert!(!l.is_edited());
    l.chars_mut().push('c');
    assert!(l.is_edited());
    assert_eq!(l.to_text(), "abc");
    let d = l.duplicate();
    assert_eq!(d.to_text(), "abc");
    assert!(d.is_edited());
}
