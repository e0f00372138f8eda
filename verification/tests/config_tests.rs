use nodepat::config::Config;
use nodepat::format::FontFamily;
use nodepat::format::FontStyle;
use nodepat::format::FormatSettings;

#[test]
fn test_add_recent_file() {
    let mut config = Config::create_default();
    let path1 = "/path/to/file1.txt";
    let path2 = "/path/to/file2.txt";
    config.add_recent_file(path1);
    config.add_recent_file(path2);
    assert_eq!(config.recent_files.len(), 2);
    assert_eq!(config.recent_files[0], path2);
}

#[test]
fn test_recent_files_limit() {
    let mut config = Config::create_default();
    for i in 0..15 {
        let path = format!("/path/to/file{i}.txt");
        config.add_recent_file(&path);
    }
    assert_eq!(config.recent_files.len(), 10);
}

#[test]
fn test_recent_files_dedupe_moves_to_front() {
    let mut config = Config::create_default();
    config.add_recent_file("/a");
    config.add_recent_file("/b");
    config.add_recent_file("/c");
    config.add_recent_file("/a");
    assert_eq!(config.recent_files, vec!["/a", "/c", "/b"]);
}

#[test]
fn test_default_config_values() {
    let config = Config::create_default();
    assert_eq!(config.font_family, "Courier New");
    assert_eq!(config.font_family_type, FontFamily::Monospace);
    assert_eq!(config.font_style, FontStyle::Regular);
    assert_eq!(config.font_size, 10);
    assert!(!config.show_status_bar);
    assert!(config.dark_mode);
    assert_eq!(config.window_width, 640);
    assert_eq!(config.window_height, 480);
}

#[test]
fn test_format_settings_round_trip() {
    let mut config = Config::create_default();
    let mut settings = FormatSettings::new();
    config.apply_to_format(&mut settings);
    assert_eq!(settings.font_family, "Courier New");
    assert_eq!(settings.font_size, 10);

    settings.font_size = 14;
    settings.font_family_type = FontFamily::Proportional;
    settings.font_style = FontStyle::Bold;
    config.update_from_format(&settings);
    assert_eq!(config.font_size, 14);
    assert_eq!(config.font_family_type, FontFamily::Proportional);
    assert_eq!(config.font_style, FontStyle::Bold);
}

#[test]
fn test_font_display_names() {
    assert_eq!(FontFamily::Monospace.display_name(), "Monospace");
    assert_eq!(FontFamily::Proportional.display_name(), "Proportional");
    assert_eq!(FontStyle::Regular.display_name(), "Regular");
    assert_eq!(FontStyle::Bold.display_name(), "Bold");
    assert_eq!(FontStyle::Italic.display_name(), "Italic");
    assert_eq!(FontStyle::BoldItalic.display_name(), "Bold Italic");
    assert_eq!(
        FontFamily::all(),
        vec![FontFamily::Monospace, FontFamily::Proportional]
    );
    assert_eq!(FontStyle::all().len(), 4);
    assert_eq!(FontFamily::default(), FontFamily::Monospace);
    assert_eq!(FontStyle::default(), FontStyle::Regular);
}
