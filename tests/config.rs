use holocron::config::{default_archive_dir, join_path, Config, NotesFormat};
use std::path::PathBuf;

#[test]
fn test_notes_format_display() {
    assert_eq!(NotesFormat::Obsidian.to_string(), "obsidian");
    assert_eq!(NotesFormat::Logseq.to_string(), "logseq");
    assert_eq!(NotesFormat::Plain.to_string(), "plain");
}

#[test]
fn test_notes_format_default() {
    let format = NotesFormat::default();
    assert!(matches!(format, NotesFormat::Obsidian));
}

#[test]
fn test_config_new() {
    let config = Config::new("/test/path".to_string());

    assert_eq!(PathBuf::from(&config.til_path), PathBuf::from("/test/path"));
    assert_eq!(config.archive_dir, "archive");
    assert!(config.notes_path.is_none());
    assert!(matches!(config.notes_format, NotesFormat::Obsidian));
}

#[test]
fn test_config_archive_path() {
    let config = Config {
        til_path: "/test/til".to_string(),
        archive_dir: "entries".to_string(),
        notes_path: None,
        notes_format: NotesFormat::Plain,
    };

    assert_eq!(PathBuf::from(config.archive_path()), PathBuf::from("/test/til/entries"));
}

#[test]
fn test_config_skill_paths() {
    let config = Config::new("/test/til".to_string());

    assert_eq!(
        PathBuf::from(config.til_skill_path("model")),
        PathBuf::from("/test/til/.model/commands/til.md")
    );
    assert_eq!(
        PathBuf::from(config.note_skill_path("model")),
        PathBuf::from("/test/til/.model/commands/note.md")
    );
}

#[test]
fn notes_format_parse_accepts_any_case() {
    assert_eq!(NotesFormat::parse("Obsidian"), Some(NotesFormat::Obsidian));
    assert_eq!(NotesFormat::parse("LOGSEQ"), Some(NotesFormat::Logseq));
    assert_eq!(NotesFormat::parse("plain"), Some(NotesFormat::Plain));
}

#[test]
fn notes_format_parse_rejects_unknown_names() {
    assert_eq!(NotesFormat::parse("markdown"), None);
    assert_eq!(NotesFormat::parse(""), None);
}

#[test]
fn default_archive_dir_is_archive() {
    assert_eq!(default_archive_dir(), "archive");
}

#[test]
fn join_path_matches_std() {
    for (base, part) in [
        ("/a", "b"),
        ("/a/", "b"),
        ("", "b"),
        ("/a", "/b"),
        ("rel", "x/y"),
    ] {
        let expected = PathBuf::from(base).join(part);
        assert_eq!(PathBuf::from(join_path(base, part)), expected);
        assert_eq!(join_path(base, part), expected.to_string_lossy());
    }
}
