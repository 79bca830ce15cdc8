use holocron::til::writer::{
    add_entry_to_category, capitalize_first, category_key, collapse_underscores, extract_title,
    find_categories_end, find_category_index, find_end_position, find_insertion_point,
    sanitize_filename, title_to_filename, update_til_count, updated_readme,
};

fn lines(text: &[&str]) -> Vec<String> {
    text.iter().map(|s| s.to_string()).collect()
}

#[test]
fn writer_test_title_to_filename() {
    assert_eq!(title_to_filename("Git Rebasing"), "git_rebasing.md");
    assert_eq!(title_to_filename("How to Use --onto"), "how_to_use_onto.md");
    assert_eq!(title_to_filename("Command Line Reset"), "command_line_reset.md");
}

#[test]
fn test_extract_title() {
    let content = "# My Title\n\nSome content here.";
    assert_eq!(extract_title(content), Some("My Title".to_string()));

    let content = "  # Trimmed Title  \n\nMore content.";
    assert_eq!(extract_title(content), Some("Trimmed Title".to_string()));

    let content = "No heading here";
    assert_eq!(extract_title(content), None);
}

#[test]
fn writer_test_collapse_underscores() {
    assert_eq!(collapse_underscores("a__b___c"), "a_b_c");
    assert_eq!(collapse_underscores("___test___"), "test");
    assert_eq!(collapse_underscores("no_change"), "no_change");
}

#[test]
fn writer_test_sanitize_filename() {
    assert_eq!(sanitize_filename("test"), "test.md");
    assert_eq!(sanitize_filename("test.md"), "test.md");
    assert_eq!(sanitize_filename("Test File"), "test_file.md");
}

#[test]
fn test_capitalize_first() {
    assert_eq!(capitalize_first("git"), "Git");
    assert_eq!(capitalize_first("rust"), "Rust");
    assert_eq!(capitalize_first(""), "");
}

#[test]
fn test_update_til_count() {
    let mut lines = vec![
        "# TIL".to_string(),
        "25 TILs & Counting".to_string(),
        "other".to_string(),
    ];
    update_til_count(&mut lines);
    assert_eq!(lines[1], "26 TILs & Counting");
}

#[test]
fn test_find_categories_end() {
    let lines = vec![
        "### Categories".to_string(),
        "* [Git](#git)".to_string(),
        "---".to_string(),
    ];
    assert_eq!(find_categories_end(&lines), Some(2));
}

#[test]
fn counter_only_first_match_changes() {
    let mut ls = lines(&["x TILs & Counting", "5 TILs & Counting", "9 TILs & Counting"]);
    update_til_count(&mut ls);
    assert_eq!(ls, lines(&["x TILs & Counting", "6 TILs & Counting", "9 TILs & Counting"]));
}

#[test]
fn counter_missing_leaves_lines() {
    let mut ls = lines(&["# TIL", "no counter here"]);
    update_til_count(&mut ls);
    assert_eq!(ls, lines(&["# TIL", "no counter here"]));
}

#[test]
fn counter_past_u32_range_keeps_counting() {
    let mut ls = lines(&["4294967295 TILs & Counting"]);
    update_til_count(&mut ls);
    assert_eq!(ls[0], "4294967296 TILs & Counting");
}

#[test]
fn counter_word_must_parse() {
    let mut ls = lines(&["4294967296 TILs & Counting", "+7 TILs & Counting suffix"]);
    update_til_count(&mut ls);
    assert_eq!(ls, lines(&["4294967296 TILs & Counting", "8 TILs & Counting"]));
}

#[test]
fn category_index_ignores_case_and_spaces() {
    let ls = lines(&["# T", "  ### GIT  ", "### Git"]);
    assert_eq!(find_category_index(&ls, "### Git", "git"), Some(1));
    assert_eq!(find_category_index(&ls, "### Rust", "rust"), None);
}

#[test]
fn insertion_point_before_trailing_blank() {
    let ls = lines(&["### Git", "- [A](a)", "- [B](b)", "", "### Rust"]);
    assert_eq!(find_insertion_point(&ls, 0), 3);
    let ls = lines(&["### Git", "- [A](a)", "---"]);
    assert_eq!(find_insertion_point(&ls, 0), 2);
    let ls = lines(&["### Git", "- [A](a)", "prose"]);
    assert_eq!(find_insertion_point(&ls, 0), 2);
    let ls = lines(&["### Git"]);
    assert_eq!(find_insertion_point(&ls, 0), 1);
}

#[test]
fn end_position_skips_trailing_blanks() {
    assert_eq!(find_end_position(&lines(&["a", "b", "", "  "])), 2);
    assert_eq!(find_end_position(&lines(&["", ""])), 0);
    assert_eq!(find_end_position(&lines(&[])), 0);
}

#[test]
fn categories_end_absent_without_header_or_boundary() {
    assert_eq!(find_categories_end(&lines(&["* [Git](#git)", "---"])), None);
    assert_eq!(find_categories_end(&lines(&["### Categories", "* [Git](#git)"])), None);
    assert_eq!(
        find_categories_end(&lines(&["---", "### Categories", "* [A](#a)", "### A"])),
        Some(3)
    );
}

#[test]
fn new_category_without_categories_list() {
    let mut ls = lines(&["# TIL", "", ""]);
    add_entry_to_category(&mut ls, "archive", "sql", "joins.md", "Joins");
    assert_eq!(
        ls,
        lines(&["# TIL", "", "### Sql", "", "- [Joins](archive/sql/joins.md)", "", "", ""])
    );
}

const README: &str = "# TIL\n5 TILs & Counting\n### Categories\n* [Git](#git)\n---\n### Git\n- [Existing Entry](archive/git/existing.md)\n";

#[test]
fn readme_update_existing_category() {
    let readme = updated_readme(README, "archive", "git", "new_entry.md", "New Entry");
    assert!(readme.contains("6 TILs & Counting"));
    assert!(readme.contains("- [New Entry](archive/git/new_entry.md)"));
    assert_eq!(
        readme,
        "# TIL\n6 TILs & Counting\n### Categories\n* [Git](#git)\n---\n### Git\n- [Existing Entry](archive/git/existing.md)\n- [New Entry](archive/git/new_entry.md)\n"
    );
}

#[test]
fn readme_update_new_category() {
    let readme = updated_readme(README, "archive", "rust", "ownership.md", "Ownership");
    assert!(readme.contains("### Rust"));
    assert!(readme.contains("- [Ownership](archive/rust/ownership.md)"));
    assert_eq!(
        readme,
        "# TIL\n6 TILs & Counting\n### Categories\n* [Git](#git)\n* [Rust](#rust)\n---\n### Git\n- [Existing Entry](archive/git/existing.md)\n\n### Rust\n\n- [Ownership](archive/rust/ownership.md)\n\n"
    );
}

#[test]
fn scenario_existing_section_gains_one_line() {
    let doc = "5 TILs & Counting\n### Categories\n* [Git](#git)\n---\n### Git\n- [Existing](archive/git/existing.md)\n";
    let out = updated_readme(doc, "archive", "git", "new.md", "New");
    let out_lines: Vec<&str> = out.lines().collect();
    assert_eq!(out_lines.len(), 7);
    assert_eq!(out_lines[0], "6 TILs & Counting");
    assert_eq!(out_lines.iter().filter(|l| **l == "- [New](archive/git/new.md)").count(), 1);
    assert!(out_lines.contains(&"- [Existing](archive/git/existing.md)"));
    assert_eq!(out_lines.iter().filter(|l| **l == "### Git").count(), 1);
    assert_eq!(out_lines.iter().filter(|l| l.starts_with("* [")).count(), 1);
}

#[test]
fn counter_scenario_five_to_six() {
    let doc = "Intro\n5 TILs & Counting\n7 TILs & Counting\n";
    let out = updated_readme(doc, "archive", "git", "a.md", "A");
    let out_lines: Vec<&str> = out.lines().collect();
    assert_eq!(out_lines[1], "6 TILs & Counting");
    assert_eq!(out_lines[2], "7 TILs & Counting");
}

#[test]
fn new_category_adds_exactly_three_meaningful_lines() {
    let doc = "# TIL\n5 TILs & Counting\n### Categories\n* [Git](#git)\n---\nprose\n### Git\n- [E](archive/git/e.md)\n";
    let before: Vec<String> = doc.lines().map(|s| s.to_string()).collect();
    let out = updated_readme(doc, "archive", "rust", "o.md", "O");
    let after: Vec<&str> = out.lines().collect();
    assert_eq!(after.iter().filter(|l| **l == "* [Rust](#rust)").count(), 1);
    assert_eq!(after.iter().filter(|l| **l == "### Rust").count(), 1);
    assert_eq!(after.iter().filter(|l| **l == "- [O](archive/rust/o.md)").count(), 1);
    // Every earlier line but the counter is still there, in order.
    let mut pos = 0;
    for line in before.iter().filter(|l| !l.contains("TILs & Counting")) {
        while after[pos] != line.as_str() {
            pos += 1;
        }
        pos += 1;
    }
}

#[test]
fn same_category_twice_keeps_one_section() {
    let doc = "# TIL\n5 TILs & Counting\n### Categories\n* [Git](#git)\n---\n### Git\n- [E](archive/git/e.md)\n";
    let once = updated_readme(doc, "archive", "rust", "a.md", "A");
    let twice = updated_readme(&once, "archive", "rust", "b.md", "B");
    let ls: Vec<&str> = twice.lines().collect();
    assert_eq!(ls.iter().filter(|l| **l == "### Rust").count(), 1);
    assert_eq!(ls.iter().filter(|l| **l == "* [Rust](#rust)").count(), 1);
    assert!(ls.contains(&"- [A](archive/rust/a.md)"));
    assert!(ls.contains(&"- [B](archive/rust/b.md)"));
    assert_eq!(ls[1], "7 TILs & Counting");
    assert_eq!(twice.lines().count(), once.lines().count() + 1);
}

#[test]
fn unrelated_lines_preserved() {
    let doc = "Header\r\n\nSome *prose* here\n5 TILs & Counting\n## Other\ntext\n";
    let out = updated_readme(doc, "archive", "go", "x.md", "X");
    for line in ["Header", "", "Some *prose* here", "## Other", "text"] {
        assert!(out.lines().any(|l| l == line));
    }
    assert!(out.ends_with('\n'));
}

#[test]
fn category_key_lowercases() {
    assert_eq!(category_key("Rust"), "rust");
    assert_eq!(category_key("SQL"), "sql");
}

#[test]
fn filename_is_clean_for_ascii_titles() {
    for title in ["  Hello,   World!! ", "__x__", "A-B_C d", "!!!", "Ünïcode Title"] {
        let name = title_to_filename(title);
        let stem = name.strip_suffix(".md").unwrap();
        assert!(!stem.starts_with('_') && !stem.ends_with('_'));
        assert!(!stem.contains("__"));
        assert!(stem.chars().all(|c| c == '_' || c.is_alphanumeric()));
        if title.is_ascii() {
            assert!(stem.chars().all(|c| c == '_' || c.is_ascii_lowercase() || c.is_ascii_digit()));
        }
    }
    assert_eq!(title_to_filename("  Hello,   World!! "), "hello_world.md");
    assert_eq!(title_to_filename("!!!"), ".md");
    assert_eq!(title_to_filename("Ünïcode Title"), "ünïcode_title.md");
}
