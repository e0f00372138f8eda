use nodepat::editor::EditorState;
use nodepat::file_ops::FileState;
use nodepat::search::SearchState;
use nodepat::search::find_next;
use nodepat::search::replace_all;
use nodepat::search::replace_current;

fn chars(s: &str) -> Vec<char> {
    s.chars().collect()
}

fn string_of(v: &[char]) -> String {
    v.iter().collect()
}

fn editor_with(text: &str) -> EditorState {
    let mut ed = EditorState::new();
    ed.text = chars(text);
    ed
}

#[test]
fn test_find_next() {
    let mut ed = editor_with("Hello World Hello");
    let mut search = SearchState::new();
    search.find_text = chars("Hello");
    search.case_sensitive = false;
    search.search_down = true;
    search.search_position = 0;

    assert!(find_next(&ed, &mut search));
    assert_eq!(search.search_position, 5);
}

#[test]
fn test_find_next_wraps_forward() {
    let ed = editor_with("Hello World Hello");
    let mut search = SearchState::new();
    search.find_text = chars("hello");
    search.case_sensitive = false;
    search.search_down = true;
    search.search_position = 0;

    assert!(find_next(&ed, &mut search));
    assert_eq!(search.search_position, 5);
    assert!(find_next(&ed, &mut search));
    assert_eq!(search.search_position, 17);
    // No further match ahead: wrap around to the first one.
    assert!(find_next(&ed, &mut search));
    assert_eq!(search.search_position, 5);
}

#[test]
fn test_find_next_case_sensitive_misses() {
    let ed = editor_with("Hello World");
    let mut search = SearchState::new();
    search.find_text = chars("hello");
    search.case_sensitive = true;
    search.search_down = true;
    assert!(!find_next(&ed, &mut search));
    assert_eq!(search.search_position, 0);
}

#[test]
fn test_find_next_backward() {
    let ed = editor_with("Hello World Hello");
    let mut search = SearchState::new();
    search.find_text = chars("Hello");
    search.case_sensitive = true;
    search.search_down = false;
    search.search_position = 10;

    // The last match that ends by offset 10 starts at 0.
    assert!(find_next(&ed, &mut search));
    assert_eq!(search.search_position, 0);
}

#[test]
fn test_find_next_backward_wraps() {
    let ed = editor_with("abc Hello");
    let mut search = SearchState::new();
    search.find_text = chars("Hello");
    search.case_sensitive = true;
    search.search_down = false;
    search.search_position = 2;

    // Nothing ends by offset 2; wrapping finds the match at 4.
    assert!(find_next(&ed, &mut search));
    assert_eq!(search.search_position, 4);
}

#[test]
fn test_find_next_empty_pattern() {
    let ed = editor_with("anything");
    let mut search = SearchState::new();
    search.search_down = true;
    assert!(!find_next(&ed, &mut search));
    assert_eq!(search.search_position, 0);
}

#[test]
fn test_find_next_position_clamped() {
    let ed = editor_with("Hello");
    let mut search = SearchState::new();
    search.find_text = chars("Hello");
    search.case_sensitive = true;
    search.search_down = true;
    search.search_position = 999;
    // The stale resume offset clamps to the end; wraparound still finds it.
    assert!(find_next(&ed, &mut search));
    assert_eq!(search.search_position, 5);
}

#[test]
fn test_replace_all() {
    let mut ed = editor_with("Hello World Hello");
    let mut file = FileState::new();
    let mut search = SearchState::new();
    search.find_text = chars("Hello");
    search.replace_text = chars("Hi");
    search.case_sensitive = true;

    let count = replace_all(&mut ed, &mut file, &search);
    assert_eq!(count, 2);
    assert_eq!(string_of(&ed.text), "Hi World Hi");
    assert!(file.is_modified);
}

#[test]
fn test_replace_all_case_insensitive() {
    let mut ed = editor_with("HELLO world hello");
    let mut file = FileState::new();
    let mut search = SearchState::new();
    search.find_text = chars("Hello");
    search.replace_text = chars("Hi");
    search.case_sensitive = false;

    let count = replace_all(&mut ed, &mut file, &search);
    assert_eq!(count, 2);
    assert_eq!(string_of(&ed.text), "Hi world Hi");
}

#[test]
fn test_replace_all_is_one_undo_step() {
    let mut ed = editor_with("a a a");
    let mut file = FileState::new();
    let mut search = SearchState::new();
    search.find_text = chars("a");
    search.replace_text = chars("b");
    search.case_sensitive = true;

    let count = replace_all(&mut ed, &mut file, &search);
    assert_eq!(count, 3);
    assert_eq!(string_of(&ed.text), "b b b");
    assert!(ed.undo());
    assert_eq!(string_of(&ed.text), "a a a");
}

#[test]
fn test_replace_all_replacement_contains_pattern() {
    // The replacement contains the pattern; scanning left to right must
    // terminate with one replacement per original occurrence.
    let mut ed = editor_with("aaa");
    let mut file = FileState::new();
    let mut search = SearchState::new();
    search.find_text = chars("a");
    search.replace_text = chars("aa");
    search.case_sensitive = true;

    let count = replace_all(&mut ed, &mut file, &search);
    assert_eq!(count, 3);
    assert_eq!(string_of(&ed.text), "aaaaaa");
}

#[test]
fn test_replace_all_empty_pattern_is_noop() {
    let mut ed = editor_with("text");
    let mut file = FileState::new();
    let mut search = SearchState::new();
    search.replace_text = chars("x");
    let count = replace_all(&mut ed, &mut file, &search);
    assert_eq!(count, 0);
    assert_eq!(string_of(&ed.text), "text");
    assert!(!file.is_modified);
    assert_eq!(ed.undo_history.len(), 0);
}

#[test]
fn test_replace_current() {
    let mut ed = editor_with("one two one");
    let mut file = FileState::new();
    let mut search = SearchState::new();
    search.find_text = chars("one");
    search.replace_text = chars("1");
    search.case_sensitive = true;
    search.search_position = 8;

    // The first match anywhere is replaced, regardless of the cursor.
    assert!(replace_current(&mut ed, &mut file, &mut search));
    assert_eq!(string_of(&ed.text), "1 two one");
    assert_eq!(search.search_position, 1);
    assert!(file.is_modified);
    // The replacement is a single undo step.
    assert!(ed.undo());
    assert_eq!(string_of(&ed.text), "one two one");
}

#[test]
fn test_replace_current_no_match() {
    let mut ed = editor_with("one two");
    let mut file = FileState::new();
    let mut search = SearchState::new();
    search.find_text = chars("three");
    search.replace_text = chars("3");
    search.case_sensitive = true;
    assert!(!replace_current(&mut ed, &mut file, &mut search));
    assert_eq!(string_of(&ed.text), "one two");
    assert!(!file.is_modified);
    assert_eq!(ed.undo_history.len(), 0);
}
