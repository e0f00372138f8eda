use nodepat::codec::Encoding;
use nodepat::file_ops::FileError;
use nodepat::file_ops::FileState;
use nodepat::file_ops::MAX_FILE_SIZE;

fn chars(s: &str) -> Vec<char> {
    s.chars().collect()
}

fn string_of(v: &[char]) -> String {
    v.iter().collect()
}

#[test]
fn test_load_save_utf8() {
    let test_content = "Hello, World!\nTest line 2";
    let mut file_state = FileState::new();

    // Saving a fresh document encodes UTF-8; loading the bytes back gives
    // the same text.
    let saved = file_state.encode_for_save(&chars(test_content));
    file_state.mark_saved("test_Nodepat_utf8.txt");
    assert_eq!(file_state.file_path, "test_Nodepat_utf8.txt");
    assert!(!file_state.is_modified);

    let loaded = file_state
        .load_file("test_Nodepat_utf8.txt", &saved)
        .expect("Failed to load test data");
    assert_eq!(string_of(&loaded), test_content);
    assert_eq!(file_state.encoding, Encoding::Utf8);
}

#[test]
fn test_file_too_large() {
    let mut file_state = FileState::new();
    let large_content = vec![b'x'; 70_000];

    let result = file_state.load_file("test_Nodepat_large.txt", &large_content);
    assert!(result.is_err());
    let error = result.expect_err("Expected error for large file");
    assert!(error.message().contains("too large"));
    // Nothing was recorded for the failed load.
    assert_eq!(file_state.file_path, "");
}

#[test]
fn test_size_cap_boundary() {
    let mut file_state = FileState::new();
    // Exactly one byte over the cap fails...
    let over = vec![b'a'; MAX_FILE_SIZE + 1];
    assert_eq!(
        file_state.load_file("over.txt", &over),
        Err(FileError::FileTooLarge)
    );
    // ...and exactly the cap succeeds.
    let at = vec![b'a'; MAX_FILE_SIZE];
    let text = file_state.load_file("at.txt", &at).expect("at the cap loads");
    assert_eq!(text.len(), MAX_FILE_SIZE);
    assert_eq!(file_state.file_path, "at.txt");
}

#[test]
fn test_saved_encoding_reused() {
    let mut file_state = FileState::new();
    // FF FE BOM then "ok" in UTF-16 LE.
    let bytes = vec![0xFF, 0xFE, b'o', 0x00, b'k', 0x00];
    let text = file_state.load_file("doc.txt", &bytes).expect("well-formed");
    assert_eq!(file_state.encoding, Encoding::Utf16Le);
    // Saving re-encodes under the recorded encoding, reproducing the bytes.
    let rewritten = file_state.encode_for_save(&text);
    assert_eq!(rewritten, bytes);
}

#[test]
fn test_load_invalid_utf16_reports_error() {
    let mut file_state = FileState::new();
    let bytes = vec![0xFF, 0xFE, 0x00];
    assert_eq!(
        file_state.load_file("bad.txt", &bytes),
        Err(FileError::InvalidEncoding)
    );
    assert_eq!(file_state.file_path, "");
    assert_eq!(file_state.encoding, Encoding::Utf8);
}

#[test]
fn test_add_to_recent_files() {
    let mut config = nodepat::config::Config::create_default();
    let mut file_state = FileState::new();
    // No backing file: nothing is recorded.
    file_state.add_to_recent_files(&mut config);
    assert_eq!(config.recent_files.len(), 0);

    file_state.mark_saved("/tmp/a.txt");
    file_state.add_to_recent_files(&mut config);
    assert_eq!(config.recent_files.len(), 1);
    assert_eq!(config.recent_files[0], "/tmp/a.txt");
}
