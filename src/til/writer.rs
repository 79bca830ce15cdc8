//! Entry filenames, entry titles, and the catalog document (the index file
//! with a running counter, a categories list and one section per category).
use vstd::prelude::*;
use crate::text::{
    ascii_lower, ascii_lower_char, chars_of, contains, contains_chars, copy_range, decimal,
    decimal_chars, ends_with, first_word, first_word_chars, has_prefix, has_suffix, is_alnum,
    is_alphanumeric, is_ascii_char, is_ascii_digit, is_ascii_lower, is_ascii_text, is_ascii_upper,
    is_blank, is_blank_chars, join_lines, joined, leading_run, lines_of, lower_of, lowercase,
    parse_u32, parse_u32_chars, push_char, push_chars, split_lines, starts_with, string_of,
    strip_char, strip_char_chars, trailing_run, trim, trim_chars, upper_of, uppercase_char, views,
};

verus! {

// ---------------------------------------------------------------------------
// The catalog document, modelled as a sequence of lines
// ---------------------------------------------------------------------------

/// The counter line holds a number followed by this text.
pub open spec fn counter_text() -> Seq<char> {
    "TILs & Counting"@
}

/// A line whose first word is the running count.
pub open spec fn is_counter_line(l: Seq<char>) -> bool {
    contains(l, counter_text()) && parse_u32(first_word(l)) is Some
}

/// The counter line with its count one higher.
pub open spec fn bumped_counter(l: Seq<char>) -> Seq<char> {
    decimal(parse_u32(first_word(l))->0 + 1) + " TILs & Counting"@
}

pub open spec fn is_first_counter(ls: Seq<Seq<char>>, i: int) -> bool {
    &&& 0 <= i < ls.len()
    &&& is_counter_line(ls[i])
    &&& forall|j: int| 0 <= j < i ==> !is_counter_line(#[trigger] ls[j])
}

/// The document with its first counter line (if any) incremented.
pub open spec fn with_counter_bumped(ls: Seq<Seq<char>>) -> Seq<Seq<char>> {
    if exists|i: int| is_first_counter(ls, i) {
        let i = choose|i: int| is_first_counter(ls, i);
        ls.update(i, bumped_counter(ls[i]))
    } else {
        ls
    }
}

pub proof fn lemma_first_counter_unique(ls: Seq<Seq<char>>, i: int, j: int)
    requires
        is_first_counter(ls, i),
        is_first_counter(ls, j),
    ensures
        i == j,
{
    if i < j {
        assert(!is_counter_line(ls[i]));
    } else if j < i {
        assert(!is_counter_line(ls[j]));
    }
}

/// The key with its first character upper-cased.
pub open spec fn capitalized(s: Seq<char>) -> Seq<char> {
    if s.len() == 0 {
        seq![]
    } else {
        upper_of(s[0]) + s.skip(1)
    }
}

/// The header line of a category's section.
pub open spec fn category_header(category: Seq<char>) -> Seq<char> {
    "### "@ + capitalized(category)
}

/// The categories-list item of a category.
pub open spec fn category_link(category: Seq<char>) -> Seq<char> {
    "* ["@ + capitalized(category) + "](#"@ + lower_of(category) + ")"@
}

/// The list item that links to an entry.
pub open spec fn entry_line(
    archive_dir: Seq<char>,
    category: Seq<char>,
    filename: Seq<char>,
    title: Seq<char>,
) -> Seq<char> {
    "- ["@ + title + "]("@ + archive_dir + "/"@ + category + "/"@ + filename + ")"@
}

/// `str::eq_ignore_ascii_case`.
pub open spec fn eq_ignore_ascii_case(a: Seq<char>, b: Seq<char>) -> bool {
    a.len() == b.len() && forall|i: int| 0 <= i < a.len() ==> ascii_lower(#[trigger] a[i]) == ascii_lower(b[i])
}

/// A line that introduces the section of `category`, whose header text is
/// `header`: matched case-insensitively.
pub open spec fn is_section_header(l: Seq<char>, header: Seq<char>, category: Seq<char>) -> bool {
    eq_ignore_ascii_case(trim(l), header) || lower_of(trim(l)) == "### "@ + lower_of(category)
}

pub open spec fn is_first_section(
    ls: Seq<Seq<char>>,
    header: Seq<char>,
    category: Seq<char>,
    i: int,
) -> bool {
    &&& 0 <= i < ls.len()
    &&& is_section_header(ls[i], header, category)
    &&& forall|j: int| 0 <= j < i ==> !is_section_header(#[trigger] ls[j], header, category)
}

pub proof fn lemma_first_section_unique(
    ls: Seq<Seq<char>>,
    header: Seq<char>,
    category: Seq<char>,
    i: int,
    j: int,
)
    requires
        is_first_section(ls, header, category, i),
        is_first_section(ls, header, category, j),
    ensures
        i == j,
{
    if i < j {
        assert(!is_section_header(ls[i], header, category));
    } else if j < i {
        assert(!is_section_header(ls[j], header, category));
    }
}

/// A line that ends the list of entries below a section header.
pub open spec fn ends_entry_list(l: Seq<char>) -> bool {
    starts_with(l, "###"@) || starts_with(l, "---"@) || !(starts_with(l, "- ["@) || is_blank(l))
}

/// `j` is where the scan for entries below the header at `idx` stops.
pub open spec fn is_list_end(ls: Seq<Seq<char>>, idx: int, j: int) -> bool {
    &&& idx < j <= ls.len()
    &&& forall|k: int| idx < k < j ==> !ends_entry_list(#[trigger] ls[k])
    &&& (j == ls.len() || ends_entry_list(ls[j]))
}

pub proof fn lemma_list_end_unique(ls: Seq<Seq<char>>, idx: int, i: int, j: int)
    requires
        is_list_end(ls, idx, i),
        is_list_end(ls, idx, j),
    ensures
        i == j,
{
    if i < j {
        assert(!ends_entry_list(ls[i]));
    } else if j < i {
        assert(!ends_entry_list(ls[j]));
    }
}

/// Where a new entry goes in the section whose header is at `idx`: after the
/// last entry, before the blank line that closes the list if there is one.
pub open spec fn insertion_point(ls: Seq<Seq<char>>, idx: int) -> int {
    let j = choose|j: int| is_list_end(ls, idx, j);
    if is_blank(ls[j - 1]) {
        j - 1
    } else {
        j
    }
}

pub open spec fn is_categories_header(l: Seq<char>) -> bool {
    trim(l) == "### Categories"@
}

/// A line after the categories-list header that closes the list.
pub open spec fn closes_categories(ls: Seq<Seq<char>>, i: int) -> bool {
    &&& exists|k: int| 0 <= k < i && is_categories_header(#[trigger] ls[k])
    &&& !is_categories_header(ls[i])
    &&& (starts_with(ls[i], "---"@) || starts_with(ls[i], "###"@))
}

pub open spec fn is_categories_end(ls: Seq<Seq<char>>, i: int) -> bool {
    &&& 0 <= i < ls.len()
    &&& closes_categories(ls, i)
    &&& forall|j: int| 0 <= j < i ==> !closes_categories(ls, j)
}

pub proof fn lemma_categories_end_unique(ls: Seq<Seq<char>>, i: int, j: int)
    requires
        is_categories_end(ls, i),
        is_categories_end(ls, j),
    ensures
        i == j,
{
}

/// Number of lines before the trailing blank lines.
pub open spec fn content_end(ls: Seq<Seq<char>>) -> nat
    decreases ls.len(),
{
    if ls.len() > 0 && is_blank(ls.last()) {
        content_end(ls.drop_last())
    } else {
        ls.len()
    }
}

pub proof fn lemma_content_end(ls: Seq<Seq<char>>, p: int)
    requires
        0 <= p <= ls.len(),
        forall|k: int| p <= k < ls.len() ==> is_blank(#[trigger] ls[k]),
        p == 0 || !is_blank(ls[p - 1]),
    ensures
        content_end(ls) == p,
    decreases ls.len() - p,
{
    if p < ls.len() {
        lemma_content_end(ls.drop_last(), p);
    }
}

/// The five lines of a new section: a blank line, the header, a blank line,
/// the entry and a blank line.
pub open spec fn new_section(
    archive_dir: Seq<char>,
    category: Seq<char>,
    filename: Seq<char>,
    title: Seq<char>,
) -> Seq<Seq<char>> {
    seq![
        seq![],
        category_header(category),
        seq![],
        entry_line(archive_dir, category, filename, title),
        seq![],
    ]
}

/// The document with the category listed (when it has a categories list
/// that is closed) and a new section for it after the last non-blank line.
pub open spec fn with_new_category(
    ls: Seq<Seq<char>>,
    archive_dir: Seq<char>,
    category: Seq<char>,
    filename: Seq<char>,
    title: Seq<char>,
) -> Seq<Seq<char>> {
    let listed = if exists|e: int| is_categories_end(ls, e) {
        let e = choose|e: int| is_categories_end(ls, e);
        ls.insert(e, category_link(category))
    } else {
        ls
    };
    let p = content_end(listed) as int;
    listed.subrange(0, p) + new_section(archive_dir, category, filename, title) + listed.subrange(
        p,
        listed.len() as int,
    )
}

/// The document with the entry filed under its category.
pub open spec fn with_entry(
    ls: Seq<Seq<char>>,
    archive_dir: Seq<char>,
    category: Seq<char>,
    filename: Seq<char>,
    title: Seq<char>,
) -> Seq<Seq<char>> {
    let header = category_header(category);
    if exists|i: int| is_first_section(ls, header, category, i) {
        let i = choose|i: int| is_first_section(ls, header, category, i);
        ls.insert(insertion_point(ls, i), entry_line(archive_dir, category, filename, title))
    } else {
        with_new_category(ls, archive_dir, category, filename, title)
    }
}

/// The whole edit that registers one entry: bump the counter, then file the
/// entry.
pub open spec fn apply_entry(
    ls: Seq<Seq<char>>,
    archive_dir: Seq<char>,
    category: Seq<char>,
    filename: Seq<char>,
    title: Seq<char>,
) -> Seq<Seq<char>> {
    with_entry(with_counter_bumped(ls), archive_dir, category, filename, title)
}

// ---------------------------------------------------------------------------
// Editing the lines
// ---------------------------------------------------------------------------

fn chars_at(lines: &Vec<String>, i: usize) -> (r: Vec<char>)
    requires
        i < lines@.len(),
    ensures
        r@ == lines@[i as int]@,
{
    chars_of(lines[i].as_str())
}

fn concat_str(a: &str, b: &str) -> (r: String)
    ensures
        r@ == a@ + b@,
{
    let mut r = String::from_str(a);
    r.append(b);
    r
}

/// Increments the count on the first counter line; leaves the lines as they
/// are when there is none.
pub fn update_til_count(lines: &mut Vec<String>)
    ensures
        views(final(lines)@) == with_counter_bumped(views(old(lines)@)),
{
    let ghost ls = views(lines@);
    let marker = chars_of("TILs & Counting");
    let mut i: usize = 0;
    while i < lines.len()
        invariant
            lines@ == old(lines)@,
            ls == views(lines@),
            marker@ == counter_text(),
            i <= lines@.len(),
            forall|k: int| 0 <= k < i ==> !is_counter_line(#[trigger] ls[k]),
        decreases lines@.len() - i,
    {
        let l = chars_at(lines, i);
        if contains_chars(&l, &marker) {
            let w = first_word_chars(&l);
            match parse_u32_chars(&w) {
                Some(n) => {
                    let digits = decimal_chars(n as u64 + 1);
                    let mut s = string_of(&digits);
                    s.append(" TILs & Counting");
                    proof {
                        assert(is_first_counter(ls, i as int));
                        let c = choose|c: int| is_first_counter(ls, c);
                        lemma_first_counter_unique(ls, i as int, c);
                        assert(s@ == bumped_counter(ls[i as int]));
                    }
                    lines.set(i, s);
                    proof {
                        assert(views(lines@) =~= with_counter_bumped(ls));
                    }
                    return;
                },
                None => {},
            }
        }
        i += 1;
    }
    assert(!exists|c: int| is_first_counter(ls, c));
}

/// The index of the first header line of the category's section.
pub fn find_category_index(lines: &Vec<String>, category_header: &str, category: &str) -> (r:
    Option<usize>)
    ensures
        match r {
            Some(i) => is_first_section(views(lines@), category_header@, category@, i as int),
            None => forall|i: int|
                0 <= i < lines@.len() ==> !is_section_header(
                    #[trigger] views(lines@)[i],
                    category_header@,
                    category@,
                ),
        },
{
    let ghost ls = views(lines@);
    let header = chars_of(category_header);
    let target = concat_str("### ", lowercase(category).as_str());
    let mut i: usize = 0;
    while i < lines.len()
        invariant
            ls == views(lines@),
            header@ == category_header@,
            target@ == "### "@ + lower_of(category@),
            i <= lines@.len(),
            forall|k: int| 0 <= k < i ==> !is_section_header(#[trigger] ls[k], category_header@, category@),
        decreases lines@.len() - i,
    {
        let l = chars_at(lines, i);
        let t = trim_chars(&l);
        if eq_ignore_ascii_case_chars(&t, &header) || lowercase(string_of(&t).as_str()) == target {
            return Some(i);
        }
        i += 1;
    }
    None
}

/// `str::eq_ignore_ascii_case`.
pub fn eq_ignore_ascii_case_chars(a: &[char], b: &[char]) -> (r: bool)
    ensures
        r == eq_ignore_ascii_case(a@, b@),
{
    if a.len() != b.len() {
        return false;
    }
    let mut i: usize = 0;
    while i < a.len()
        invariant
            a@.len() == b@.len(),
            i <= a@.len(),
            forall|k: int| 0 <= k < i ==> ascii_lower(#[trigger] a@[k]) == ascii_lower(b@[k]),
        decreases a@.len() - i,
    {
        if ascii_lower_char(a[i]) != ascii_lower_char(b[i]) {
            return false;
        }
        i += 1;
    }
    true
}

fn ends_entry_list_at(lines: &Vec<String>, i: usize) -> (r: bool)
    requires
        i < lines@.len(),
    ensures
        r == ends_entry_list(lines@[i as int]@),
{
    let l = chars_at(lines, i);
    has_prefix(&l, &chars_of("###")) || has_prefix(&l, &chars_of("---")) || !(has_prefix(
        &l,
        &chars_of("- ["),
    ) || is_blank_chars(&l))
}

/// Where a new entry goes below the header at `category_idx`.
pub fn find_insertion_point(lines: &Vec<String>, category_idx: usize) -> (r: usize)
    requires
        category_idx < lines@.len(),
    ensures
        r == insertion_point(views(lines@), category_idx as int),
        category_idx <= r <= lines@.len(),
{
    let ghost ls = views(lines@);
    let n = lines.len();
    let mut insert_idx: usize = category_idx + 1;
    while insert_idx < lines.len() && !ends_entry_list_at(lines, insert_idx)
        invariant
            ls == views(lines@),
            category_idx < insert_idx <= lines@.len(),
            forall|k: int| category_idx < k < insert_idx ==> !ends_entry_list(#[trigger] ls[k]),
        decreases lines@.len() - insert_idx,
    {
        insert_idx += 1;
    }
    proof {
        assert(is_list_end(ls, category_idx as int, insert_idx as int));
        let j = choose|j: int| is_list_end(ls, category_idx as int, j);
        lemma_list_end_unique(ls, category_idx as int, insert_idx as int, j);
    }
    if is_blank_chars(&chars_at(lines, insert_idx - 1)) {
        insert_idx - 1
    } else {
        insert_idx
    }
}

fn is_categories_header_at(lines: &Vec<String>, i: usize) -> (r: bool)
    requires
        i < lines@.len(),
    ensures
        r == is_categories_header(lines@[i as int]@),
{
    let t = trim_chars(&chars_at(lines, i));
    string_of(&t) == String::from_str("### Categories")
}

/// The line that closes the categories list, if the document has one.
pub fn find_categories_end(lines: &Vec<String>) -> (r: Option<usize>)
    ensures
        match r {
            Some(i) => is_categories_end(views(lines@), i as int),
            None => forall|i: int| 0 <= i < lines@.len() ==> !closes_categories(views(lines@), i),
        },
{
    let ghost ls = views(lines@);
    let mut in_categories = false;
    let mut i: usize = 0;
    while i < lines.len()
        invariant
            ls == views(lines@),
            i <= lines@.len(),
            in_categories == exists|k: int| 0 <= k < i && is_categories_header(#[trigger] ls[k]),
            forall|j: int| 0 <= j < i ==> !closes_categories(ls, j),
        decreases lines@.len() - i,
    {
        let l = chars_at(lines, i);
        if is_categories_header_at(lines, i) {
            in_categories = true;
        } else if in_categories && (has_prefix(&l, &chars_of("---")) || has_prefix(&l, &chars_of("###"))) {
            return Some(i);
        }
        proof {
            assert forall|j: int| 0 <= j < i + 1 implies !closes_categories(ls, j) by {
                if j == i {
                    if closes_categories(ls, j) {
                        let k = choose|k: int| 0 <= k < j && is_categories_header(#[trigger] ls[k]);
                        assert(in_categories);
                    }
                }
            }
            if is_categories_header(ls[i as int]) {
                assert(0 <= i < i + 1 && is_categories_header(ls[i as int]));
            }
        }
        i += 1;
    }
    None
}

/// The number of lines before the trailing blank lines.
pub fn find_end_position(lines: &Vec<String>) -> (r: usize)
    ensures
        r == content_end(views(lines@)),
        r <= lines@.len(),
{
    let ghost ls = views(lines@);
    let mut insert_pos: usize = lines.len();
    while insert_pos > 0 && is_blank_chars(&chars_at(lines, insert_pos - 1))
        invariant
            ls == views(lines@),
            insert_pos <= lines@.len(),
            forall|k: int| insert_pos <= k < lines@.len() ==> is_blank(#[trigger] ls[k]),
        decreases insert_pos,
    {
        insert_pos -= 1;
    }
    proof {
        lemma_content_end(ls, insert_pos as int);
    }
    insert_pos
}

/// The string with its first character upper-cased.
pub fn capitalize_first(s: &str) -> (r: String)
    ensures
        r@ == capitalized(s@),
{
    let cs = chars_of(s);
    if cs.len() == 0 {
        return String::new();
    }
    let mut r = uppercase_char(cs[0]);
    let rest = copy_range(&cs, 1, cs.len());
    push_chars(&mut r, &rest);
    assert(rest@ =~= s@.skip(1));
    r
}

/// The list item that links to an entry.
pub fn make_entry_line(archive_dir: &str, category: &str, filename: &str, title: &str) -> (r:
    String)
    ensures
        r@ == entry_line(archive_dir@, category@, filename@, title@),
{
    let mut r = String::from_str("- [");
    r.append(title);
    r.append("](");
    r.append(archive_dir);
    r.append("/");
    r.append(category);
    r.append("/");
    r.append(filename);
    r.append(")");
    r
}

/// Lists the category in the categories list, when the document has one,
/// and appends a new section for it holding the entry.
#[verifier::rlimit(40)]
pub fn add_new_category(
    lines: &mut Vec<String>,
    archive_dir: &str,
    category: &str,
    filename: &str,
    title: &str,
)
    ensures
        views(final(lines)@) == with_new_category(
            views(old(lines)@),
            archive_dir@,
            category@,
            filename@,
            title@,
        ),
{
    let ghost ls = views(lines@);
    let category_display = capitalize_first(category);
    match find_categories_end(lines) {
        Some(end_idx) => {
            let mut cat_link = String::from_str("* [");
            cat_link.append(category_display.as_str());
            cat_link.append("](#");
            cat_link.append(lowercase(category).as_str());
            cat_link.append(")");
            proof {
                let e = choose|e: int| is_categories_end(ls, e);
                lemma_categories_end_unique(ls, end_idx as int, e);
            }
            lines.insert(end_idx, cat_link);
            assert(views(lines@) =~= ls.insert(end_idx as int, category_link(category@)));
        },
        None => {
            assert(!exists|e: int| is_categories_end(ls, e));
        },
    }
    let ghost listed = views(lines@);
    let insert_pos = find_end_position(lines);
    let mut header = String::from_str("### ");
    header.append(category_display.as_str());
    let entry = make_entry_line(archive_dir, category, filename, title);
    lines.insert(insert_pos, String::new());
    let n = lines.len();
    lines.insert(insert_pos + 1, header);
    let n = lines.len();
    lines.insert(insert_pos + 2, String::new());
    let n = lines.len();
    lines.insert(insert_pos + 3, entry);
    let n = lines.len();
    lines.insert(insert_pos + 4, String::new());
    proof {
        assert(views(lines@) =~= listed.subrange(0, insert_pos as int) + new_section(
            archive_dir@,
            category@,
            filename@,
            title@,
        ) + listed.subrange(insert_pos as int, listed.len() as int));
    }
}

/// Files the entry under its category: below the existing section's
/// entries, or in a new section.
pub fn add_entry_to_category(
    lines: &mut Vec<String>,
    archive_dir: &str,
    category: &str,
    filename: &str,
    title: &str,
)
    ensures
        views(final(lines)@) == with_entry(
            views(old(lines)@),
            archive_dir@,
            category@,
            filename@,
            title@,
        ),
{
    let ghost ls = views(lines@);
    let category_header = concat_str("### ", capitalize_first(category).as_str());
    let entry = make_entry_line(archive_dir, category, filename, title);
    match find_category_index(lines, category_header.as_str(), category) {
        Some(idx) => {
            let insert_idx = find_insertion_point(lines, idx);
            proof {
                let i = choose|i: int| is_first_section(ls, category_header@, category@, i);
                lemma_first_section_unique(ls, category_header@, category@, idx as int, i);
            }
            lines.insert(insert_idx, entry);
            assert(views(lines@) =~= ls.insert(insert_idx as int, entry@));
        },
        None => {
            assert(!exists|i: int| is_first_section(ls, category_header@, category@, i));
            add_new_category(lines, archive_dir, category, filename, title);
        },
    }
}

// ---------------------------------------------------------------------------
// The whole catalog update
// ---------------------------------------------------------------------------

/// The catalog text after registering one entry: the counter is
/// incremented and the entry filed under its category; every other line is
/// kept, and the text ends with a line ending.
pub fn updated_readme(
    content: &str,
    archive_dir: &str,
    category: &str,
    filename: &str,
    title: &str,
) -> (r: String)
    ensures
        r@ == joined(apply_entry(lines_of(content@), archive_dir@, category@, filename@, title@))
            + seq!['\n'],
{
    let mut lines = split_lines(&chars_of(content));
    update_til_count(&mut lines);
    add_entry_to_category(&mut lines, archive_dir, category, filename, title);
    join_lines(&lines)
}

/// The directory and section key of a category: its name in lower case.
pub fn category_key(category: &str) -> (r: String)
    ensures
        r@ == lower_of(category@),
{
    lowercase(category)
}

// ---------------------------------------------------------------------------
// Filenames
// ---------------------------------------------------------------------------

/// `s` with every run of `'_'` shortened to one.
pub open spec fn collapse_runs(s: Seq<char>) -> Seq<char>
    decreases s.len(),
{
    if s.len() == 0 {
        seq![]
    } else if s.len() >= 2 && s.last() == '_' && s[s.len() - 2] == '_' {
        collapse_runs(s.drop_last())
    } else {
        collapse_runs(s.drop_last()).push(s.last())
    }
}

/// `s` with runs of `'_'` shortened to one and none left at either end.
pub open spec fn collapsed(s: Seq<char>) -> Seq<char> {
    strip_char(collapse_runs(s), '_')
}

/// A character of a filename: alphanumerics stay, all else is `'_'`.
pub open spec fn slug_char(c: char) -> char {
    if is_alnum(c) {
        c
    } else {
        '_'
    }
}

/// The filename stem made from a title.
pub open spec fn slug(title: Seq<char>) -> Seq<char> {
    collapsed(lower_of(title).map_values(|c: char| slug_char(c)))
}

/// Shortens runs of `'_'` to one and removes those at both ends.
pub fn collapse_underscores(s: &str) -> (r: String)
    ensures
        r@ == collapsed(s@),
{
    let cs = chars_of(s);
    let mut result: Vec<char> = Vec::new();
    let mut last_was_underscore = false;
    let mut i: usize = 0;
    while i < cs.len()
        invariant
            cs@ == s@,
            i <= cs@.len(),
            result@ == collapse_runs(cs@.subrange(0, i as int)),
            last_was_underscore == (i > 0 && cs@[i - 1] == '_'),
        decreases cs@.len() - i,
    {
        let c = cs[i];
        proof {
            let next = cs@.subrange(0, i + 1);
            assert(next.drop_last() =~= cs@.subrange(0, i as int));
        }
        if c == '_' {
            if !last_was_underscore {
                result.push(c);
            }
            last_was_underscore = true;
        } else {
            result.push(c);
            last_was_underscore = false;
        }
        i += 1;
    }
    assert(cs@.subrange(0, cs@.len() as int) =~= cs@);
    string_of(&strip_char_chars(&result, '_'))
}

/// The filename for an entry titled `title`: lower case, every
/// non-alphanumeric character turned into `'_'`, runs of `'_'` collapsed and
/// trimmed, then `".md"`.
pub fn title_to_filename(title: &str) -> (r: String)
    ensures
        r@ == slug(title@) + ".md"@,
{
    let lower = chars_of(lowercase(title).as_str());
    let mut mapped: Vec<char> = Vec::new();
    let mut i: usize = 0;
    while i < lower.len()
        invariant
            i <= lower@.len(),
            mapped@ == lower@.subrange(0, i as int).map_values(|c: char| slug_char(c)),
        decreases lower@.len() - i,
    {
        let c = lower[i];
        if is_alphanumeric(c) {
            mapped.push(c);
        } else {
            mapped.push('_');
        }
        proof {
            assert(lower@.subrange(0, i + 1).map_values(|c: char| slug_char(c)) =~= lower@.subrange(
                0,
                i as int,
            ).map_values(|c: char| slug_char(c)).push(slug_char(c)));
        }
        i += 1;
    }
    assert(lower@.subrange(0, lower@.len() as int) =~= lower@);
    let mut r = collapse_underscores(string_of(&mapped).as_str());
    r.append(".md");
    r
}

pub open spec fn with_md_extension(name: Seq<char>) -> Seq<char> {
    if ends_with(name, ".md"@) {
        name
    } else {
        name + ".md"@
    }
}

pub open spec fn spaces_to_underscores(name: Seq<char>) -> Seq<char> {
    name.map_values(|c: char| if c == ' ' { '_' } else { c })
}

/// A filename with the `".md"` extension (added only when missing), spaces
/// turned into `'_'`, in lower case.
pub fn sanitize_filename(filename: &str) -> (r: String)
    ensures
        r@ == lower_of(spaces_to_underscores(with_md_extension(filename@))),
{
    let name = chars_of(filename);
    let ext = chars_of(".md");
    let mut full = String::from_str(filename);
    if !has_suffix(&name, &ext) {
        full.append(".md");
    }
    let cs = chars_of(full.as_str());
    let mut replaced: Vec<char> = Vec::new();
    let mut i: usize = 0;
    while i < cs.len()
        invariant
            i <= cs@.len(),
            replaced@ == cs@.subrange(0, i as int).map_values(
                |c: char|
                    if c == ' ' {
                        '_'
                    } else {
                        c
                    },
            ),
        decreases cs@.len() - i,
    {
        let c = cs[i];
        if c == ' ' {
            replaced.push('_');
        } else {
            replaced.push(c);
        }
        proof {
            assert(cs@.subrange(0, i + 1).map_values(
                |c: char|
                    if c == ' ' {
                        '_'
                    } else {
                        c
                    },
            ) =~= cs@.subrange(0, i as int).map_values(
                |c: char|
                    if c == ' ' {
                        '_'
                    } else {
                        c
                    },
            ).push(if c == ' ' { '_' } else { c }));
        }
        i += 1;
    }
    assert(cs@.subrange(0, cs@.len() as int) =~= cs@);
    lowercase(string_of(&replaced).as_str())
}

/// `s` ending with exactly the line ending it had, or one added.
pub open spec fn with_trailing_newline(s: Seq<char>) -> Seq<char> {
    if s.len() > 0 && s.last() == '\n' {
        s
    } else {
        s.push('\n')
    }
}

/// The content with a final `'\n'`, added only when missing.
pub fn ensure_trailing_newline(s: &str) -> (r: String)
    ensures
        r@ == with_trailing_newline(s@),
{
    let cs = chars_of(s);
    let mut r = String::from_str(s);
    if !(cs.len() > 0 && cs[cs.len() - 1] == '\n') {
        push_char(&mut r, '\n');
    }
    r
}

// ---------------------------------------------------------------------------
// Titles
// ---------------------------------------------------------------------------

/// A top-level heading line: `"# "` once the line is trimmed.
pub open spec fn is_heading(l: Seq<char>) -> bool {
    starts_with(trim(l), "# "@)
}

/// The text of a heading line.
pub open spec fn heading_text(l: Seq<char>) -> Seq<char> {
    trim(trim(l).skip(2))
}

pub open spec fn is_first_heading(ls: Seq<Seq<char>>, i: int) -> bool {
    &&& 0 <= i < ls.len()
    &&& is_heading(ls[i])
    &&& forall|j: int| 0 <= j < i ==> !is_heading(#[trigger] ls[j])
}

/// The text of the first top-level heading among the lines, if any.
pub open spec fn first_heading(ls: Seq<Seq<char>>) -> Option<Seq<char>> {
    if exists|i: int| is_first_heading(ls, i) {
        Some(heading_text(ls[choose|i: int| is_first_heading(ls, i)]))
    } else {
        None
    }
}

pub proof fn lemma_first_heading_unique(ls: Seq<Seq<char>>, i: int, j: int)
    requires
        is_first_heading(ls, i),
        is_first_heading(ls, j),
    ensures
        i == j,
{
    if i < j {
        assert(!is_heading(ls[i]));
    } else if j < i {
        assert(!is_heading(ls[j]));
    }
}

/// The first top-level heading among `lines`.
pub fn first_heading_of(lines: &Vec<String>) -> (r: Option<String>)
    ensures
        match first_heading(views(lines@)) {
            Some(t) => r is Some && r->0@ == t,
            None => r is None,
        },
{
    let ghost ls = views(lines@);
    let marker = chars_of("# ");
    let mut i: usize = 0;
    while i < lines.len()
        invariant
            ls == views(lines@),
            marker@ == "# "@,
            i <= lines@.len(),
            forall|k: int| 0 <= k < i ==> !is_heading(#[trigger] ls[k]),
        decreases lines@.len() - i,
    {
        let trimmed = trim_chars(&chars_at(lines, i));
        if has_prefix(&trimmed, &marker) {
            proof {
                assert(is_first_heading(ls, i as int));
                let c = choose|c: int| is_first_heading(ls, c);
                lemma_first_heading_unique(ls, i as int, c);
                reveal_strlit("# ");
            }
            let rest = copy_range(&trimmed, 2, trimmed.len());
            assert(rest@ =~= trimmed@.skip(2));
            return Some(string_of(&trim_chars(&rest)));
        }
        i += 1;
    }
    assert(!exists|c: int| is_first_heading(ls, c));
    None
}

/// The title of an entry: the text of its first top-level heading.
pub fn extract_title(content: &str) -> (r: Option<String>)
    ensures
        match first_heading(lines_of(content@)) {
            Some(t) => r is Some && r->0@ == t,
            None => r is None,
        },
{
    let lines = split_lines(&chars_of(content));
    first_heading_of(&lines)
}

// ---------------------------------------------------------------------------
// The shape of filenames
// ---------------------------------------------------------------------------

/// No two consecutive `'_'`.
pub open spec fn no_double_underscore(s: Seq<char>) -> bool {
    forall|k: int| 0 <= k < s.len() - 1 ==> !(#[trigger] s[k] == '_' && s[k + 1] == '_')
}

proof fn lemma_collapse_runs(s: Seq<char>, pred: spec_fn(char) -> bool)
    ensures
        s.len() == 0 ==> collapse_runs(s).len() == 0,
        s.len() > 0 ==> collapse_runs(s).len() > 0 && collapse_runs(s).last() == s.last(),
        no_double_underscore(collapse_runs(s)),
        (forall|j: int| 0 <= j < s.len() ==> pred(#[trigger] s[j])) ==> (forall|k: int|
            0 <= k < collapse_runs(s).len() ==> pred(#[trigger] collapse_runs(s)[k])),
    decreases s.len(),
{
    if s.len() > 0 {
        let p = s.drop_last();
        lemma_collapse_runs(p, pred);
        if (forall|j: int| 0 <= j < s.len() ==> pred(#[trigger] s[j])) {
            assert forall|j: int| 0 <= j < p.len() implies pred(#[trigger] p[j]) by {
                assert(p[j] == s[j]);
            }
        }
        if s.len() >= 2 && s.last() == '_' && s[s.len() - 2] == '_' {
            assert(p.last() == s[s.len() - 2]);
        } else {
            let r = collapse_runs(p).push(s.last());
            assert forall|k: int| 0 <= k < r.len() - 1 implies !(#[trigger] r[k] == '_' && r[k + 1] == '_') by {
                if k == r.len() - 2 {
                    assert(r[k] == collapse_runs(p).last());
                }
            }
        }
    }
}

proof fn lemma_leading_run_stop(s: Seq<char>, c: char)
    ensures
        leading_run(s, c) <= s.len(),
        forall|k: int| 0 <= k < leading_run(s, c) ==> #[trigger] s[k] == c,
        leading_run(s, c) < s.len() ==> s[leading_run(s, c) as int] != c,
    decreases s.len(),
{
    if s.len() > 0 && s[0] == c {
        let t = s.skip(1);
        lemma_leading_run_stop(t, c);
        assert forall|k: int| 0 <= k < leading_run(s, c) implies #[trigger] s[k] == c by {
            if k > 0 {
                assert(s[k] == t[k - 1]);
            }
        }
    }
}

proof fn lemma_trailing_run_stop(s: Seq<char>, c: char)
    ensures
        trailing_run(s, c) <= s.len(),
        forall|k: int| s.len() - trailing_run(s, c) <= k < s.len() ==> #[trigger] s[k] == c,
        trailing_run(s, c) < s.len() ==> s[s.len() - trailing_run(s, c) - 1] != c,
    decreases s.len(),
{
    if s.len() > 0 && s.last() == c {
        let t = s.drop_last();
        lemma_trailing_run_stop(t, c);
        assert forall|k: int| s.len() - trailing_run(s, c) <= k < s.len() implies #[trigger] s[k] == c by {
            if k < s.len() - 1 {
                assert(s[k] == t[k]);
            }
        }
    }
}

proof fn lemma_collapsed(s: Seq<char>, pred: spec_fn(char) -> bool)
    ensures
        ({
            let r = collapsed(s);
            &&& r.len() > 0 ==> r[0] != '_' && r.last() != '_'
            &&& no_double_underscore(r)
            &&& (forall|j: int| 0 <= j < s.len() ==> pred(#[trigger] s[j])) ==> (forall|k: int|
                0 <= k < r.len() ==> pred(#[trigger] r[k]))
        }),
{
    let m = collapse_runs(s);
    lemma_collapse_runs(s, pred);
    lemma_leading_run_stop(m, '_');
    let t = m.subrange(leading_run(m, '_') as int, m.len() as int);
    lemma_trailing_run_stop(t, '_');
    let r = t.subrange(0, t.len() - trailing_run(t, '_'));
    assert(r == collapsed(s));
    let a = leading_run(m, '_') as int;
    assert forall|k: int| 0 <= k < r.len() - 1 implies !(#[trigger] r[k] == '_' && r[k + 1] == '_') by {
        assert(r[k] == m[k + a] && r[k + 1] == m[k + a + 1]);
    }
    if r.len() > 0 {
        assert(r[0] == m[a]);
        assert(r.last() == t[t.len() - trailing_run(t, '_') - 1]);
    }
    if (forall|j: int| 0 <= j < s.len() ==> pred(#[trigger] s[j])) {
        assert forall|k: int| 0 <= k < r.len() implies pred(#[trigger] r[k]) by {
            assert(r[k] == m[k + a]);
        }
    }
}

/// A filename stem made from any title holds only `'_'` and alphanumeric
/// characters, neither starts nor ends with `'_'`, and never has two `'_'`
/// in a row; from an ASCII title it holds only `'_'`, lower-case ASCII
/// letters and digits.
pub proof fn lemma_filename_is_clean(title: Seq<char>)
    ensures
        ({
            let stem = slug(title);
            &&& stem.len() > 0 ==> stem[0] != '_' && stem.last() != '_'
            &&& no_double_underscore(stem)
            &&& forall|k: int| 0 <= k < stem.len() ==> #[trigger] stem[k] == '_' || is_alnum(stem[k])
            &&& is_ascii_text(title) ==> forall|k: int|
                0 <= k < stem.len() ==> #[trigger] stem[k] == '_' || is_ascii_lower(stem[k])
                    || is_ascii_digit(stem[k])
        }),
{
    let mapped = lower_of(title).map_values(|c: char| slug_char(c));
    let any = |c: char| c == '_' || is_alnum(c);
    assert forall|j: int| 0 <= j < mapped.len() implies any(#[trigger] mapped[j]) by {}
    lemma_collapsed(mapped, any);
    if is_ascii_text(title) {
        let clean = |c: char| c == '_' || is_ascii_lower(c) || is_ascii_digit(c);
        assert forall|j: int| 0 <= j < mapped.len() implies clean(#[trigger] mapped[j]) by {
            let c = title[j];
            assert(lower_of(title)[j] == ascii_lower(c));
            assert(is_ascii_char(c));
            if is_ascii_upper(c) {
                assert(ascii_lower(c) as u32 == c as u32 + 32);
            }
        }
        lemma_collapsed(mapped, clean);
    }
}

} // verus!
