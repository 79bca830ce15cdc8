use holocron::notes::writer::{
    collapse_underscores, ensure_trailing_newline, extract_title, sanitize_filename,
    title_to_filename,
};

#[test]
fn test_extract_title_from_frontmatter() {
    let content = "---\ntitle: My Note Title\ndate: 2024-01-01\ntags: [test]\n---\n\n# Content Here\n";
    assert_eq!(extract_title(content), Some("My Note Title".to_string()));
}

#[test]
fn test_extract_title_from_frontmatter_quoted() {
    let content = "---\ntitle: \"Quoted Title\"\n---\n";
    assert_eq!(extract_title(content), Some("Quoted Title".to_string()));
}

#[test]
fn test_extract_title_from_frontmatter_single_quoted() {
    let content = "---\ntitle: 'Single Quoted'\n---\n";
    assert_eq!(extract_title(content), Some("Single Quoted".to_string()));
}

#[test]
fn test_extract_title_from_h1() {
    let content = "# My H1 Title\n\nSome content.";
    assert_eq!(extract_title(content), Some("My H1 Title".to_string()));
}

#[test]
fn test_extract_title_no_title() {
    let content = "Some content without a title.";
    assert_eq!(extract_title(content), None);
}

#[test]
fn test_extract_title_empty_frontmatter_title() {
    let content = "---\ntitle:\n---\n# Fallback Title\n";
    assert_eq!(extract_title(content), Some("Fallback Title".to_string()));
}

#[test]
fn test_title_to_filename() {
    assert_eq!(title_to_filename("Rust Clippy"), "rust_clippy.md");
    assert_eq!(title_to_filename("Git: The Basics"), "git_the_basics.md");
}

#[test]
fn test_title_to_filename_special_chars() {
    assert_eq!(title_to_filename("What's New?"), "what_s_new.md");
    assert_eq!(title_to_filename("Test & More"), "test_more.md");
}

#[test]
fn test_collapse_underscores() {
    assert_eq!(collapse_underscores("a__b"), "a_b");
    assert_eq!(collapse_underscores("___test___"), "test");
    assert_eq!(collapse_underscores("no_change"), "no_change");
}

#[test]
fn test_sanitize_filename() {
    assert_eq!(sanitize_filename("test"), "test.md");
    assert_eq!(sanitize_filename("test.md"), "test.md");
    assert_eq!(sanitize_filename("Test File"), "test_file.md");
    assert_eq!(sanitize_filename("UPPER.md"), "upper.md");
}

#[test]
fn frontmatter_title_round_trips() {
    let content = "---\ntitle: \"Borrow Checker Basics\"\ndate: 2024-05-01\n---\n\n# Other Heading\n";
    assert_eq!(extract_title(content), Some("Borrow Checker Basics".to_string()));
}

#[test]
fn frontmatter_without_closing_delimiter_is_read_to_the_end() {
    let content = "---\ntitle: Open Ended\n";
    assert_eq!(extract_title(content), Some("Open Ended".to_string()));
}

#[test]
fn missing_frontmatter_title_falls_back_to_heading() {
    let content = "---\ndate: 2024-01-01\n---\n\n  # Heading Title  \n";
    assert_eq!(extract_title(content), Some("Heading Title".to_string()));
}

#[test]
fn quotes_only_title_falls_back() {
    let content = "---\ntitle: \"\"\n---\n# From Heading\n";
    assert_eq!(extract_title(content), Some("From Heading".to_string()));
}

#[test]
fn trailing_newline_added_once() {
    assert_eq!(ensure_trailing_newline("# Note"), "# Note\n");
    assert_eq!(ensure_trailing_newline("# Note\n"), "# Note\n");
    assert_eq!(ensure_trailing_newline(""), "\n");
}
