use nodepat::editor::EditorState;

fn chars(s: &str) -> Vec<char> {
    s.chars().collect()
}

fn string_of(v: &[char]) -> String {
    v.iter().collect()
}

#[test]
fn test_position_to_line_column() {
    let mut ed = EditorState::new();
    ed.text = chars("ab\ncd");
    assert_eq!(ed.position_to_line_column(4), (2, 2));
    assert_eq!(ed.position_to_line_column(0), (1, 1));
    // Offsets beyond the text clamp to the end-of-text position.
    assert_eq!(ed.position_to_line_column(100), (2, 3));
    assert_eq!(ed.position_to_line_column(2), (1, 3));
    assert_eq!(ed.position_to_line_column(3), (2, 1));
}

#[test]
fn test_undo_redo_inverse_pair() {
    let mut ed = EditorState::new();
    ed.text = chars("first");
    ed.save_undo_state();
    ed.text = chars("second");
    assert!(ed.undo());
    assert_eq!(string_of(&ed.text), "first");
    assert!(ed.redo());
    assert_eq!(string_of(&ed.text), "second");
}

#[test]
fn test_undo_redo_empty_histories() {
    let mut ed = EditorState::new();
    ed.text = chars("text");
    assert!(!ed.undo());
    assert_eq!(string_of(&ed.text), "text");
    assert!(!ed.redo());
    assert_eq!(string_of(&ed.text), "text");
}

#[test]
fn test_undo_limit_eviction() {
    let mut ed = EditorState::new();
    // Push 101 snapshots; the oldest must be evicted, keeping the most
    // recent 100 in order.
    for i in 0..101u32 {
        ed.text = chars(&format!("state{i}"));
        ed.save_undo_state();
    }
    assert_eq!(ed.undo_history.len(), 100);
    assert_eq!(string_of(&ed.undo_history[0]), "state1");
    assert_eq!(string_of(&ed.undo_history[99]), "state100");
}

#[test]
fn test_save_undo_state_clears_redo() {
    let mut ed = EditorState::new();
    ed.text = chars("one");
    ed.save_undo_state();
    ed.text = chars("two");
    assert!(ed.undo());
    assert_eq!(ed.redo_history.len(), 1);
    // Any new edit checkpoint clears the redo branch unconditionally.
    ed.save_undo_state();
    assert_eq!(ed.redo_history.len(), 0);
    assert!(!ed.redo());
}

#[test]
fn test_insert_time_date_shape() {
    let mut ed = EditorState::new();
    ed.text = chars("note: ");
    nodepat::editor::insert_time_date(&mut ed);
    let t = &ed.text;
    assert!(t.len() >= 6 + 19);
    assert_eq!(string_of(&t[..6]), "note: ");
    let stamp = &t[6..];
    // hh:mm:ss mm/dd/yyyy with a four-or-more digit year.
    assert_eq!(stamp[2], ':');
    assert_eq!(stamp[5], ':');
    assert_eq!(stamp[8], ' ');
    assert_eq!(stamp[11], '/');
    assert_eq!(stamp[14], '/');
    for (i, c) in stamp.iter().enumerate() {
        if ![2, 5, 8, 11, 14].contains(&i) {
            assert!(c.is_ascii_digit(), "stamp holds a digit at {i}");
        }
    }
}
