//! Note filenames and note titles (from the frontmatter or the first
//! top-level heading).
use vstd::prelude::*;
use crate::text::{
    chars_of, contains, copy_range, find_from, first_occurrence, has_prefix, lemma_leading_run,
    lemma_leading_white, lemma_newline_index, lemma_trailing_run, lemma_trailing_white, lines_of,
    occurs_at, split_lines, starts_with, string_of, strip_char, strip_char_chars, trim, trim_chars,
    trim_start, views,
};
use crate::til::writer::{
    collapsed, first_heading, slug, spaces_to_underscores, with_md_extension, with_trailing_newline,
};
use crate::til::writer as entry;

verus! {

/// The frontmatter of `content`: when it starts with `"---"`, the text from
/// there up to the next `"---"`, or to the end when none follows.
pub open spec fn frontmatter(content: Seq<char>) -> Option<Seq<char>> {
    if starts_with(content, "---"@) {
        if exists|i: int| first_occurrence(content, "---"@, 3, i) {
            let i = choose|i: int| first_occurrence(content, "---"@, 3, i);
            Some(content.subrange(3, i))
        } else {
            Some(content.subrange(3, content.len() as int))
        }
    } else {
        None
    }
}

/// The value of a `title:` line: trimmed, without surrounding double and
/// then single quotes.
pub open spec fn title_value(l: Seq<char>) -> Seq<char> {
    strip_char(strip_char(trim(trim(l).skip(6)), '"'), '\'')
}

/// A frontmatter line that gives a non-empty title.
pub open spec fn is_title_field(l: Seq<char>) -> bool {
    starts_with(trim(l), "title:"@) && title_value(l).len() > 0
}

pub open spec fn is_first_title_field(ls: Seq<Seq<char>>, i: int) -> bool {
    &&& 0 <= i < ls.len()
    &&& is_title_field(ls[i])
    &&& forall|j: int| 0 <= j < i ==> !is_title_field(#[trigger] ls[j])
}

/// The title given by the frontmatter, if it gives a non-empty one.
pub open spec fn frontmatter_title(content: Seq<char>) -> Option<Seq<char>> {
    match frontmatter(content) {
        Some(block) => {
            let ls = lines_of(block);
            if exists|i: int| is_first_title_field(ls, i) {
                Some(title_value(ls[choose|i: int| is_first_title_field(ls, i)]))
            } else {
                None
            }
        },
        None => None,
    }
}

/// The title of a note: from the frontmatter, else from the first
/// top-level heading.
pub open spec fn note_title(content: Seq<char>) -> Option<Seq<char>> {
    match frontmatter_title(content) {
        Some(t) => Some(t),
        None => first_heading(lines_of(content)),
    }
}

proof fn lemma_first_title_field_unique(ls: Seq<Seq<char>>, i: int, j: int)
    requires
        is_first_title_field(ls, i),
        is_first_title_field(ls, j),
    ensures
        i == j,
{
    if i < j {
        assert(!is_title_field(ls[i]));
    } else if j < i {
        assert(!is_title_field(ls[j]));
    }
}

fn find_title_field(lines: &Vec<String>) -> (r: Option<String>)
    ensures
        match (if exists|i: int| is_first_title_field(views(lines@), i) {
            Some(title_value(views(lines@)[choose|i: int| is_first_title_field(views(lines@), i)]))
        } else {
            None
        }) {
            Some(t) => r is Some && r->0@ == t,
            None => r is None,
        },
{
    let ghost ls = views(lines@);
    let marker = chars_of("title:");
    let mut i: usize = 0;
    while i < lines.len()
        invariant
            ls == views(lines@),
            marker@ == "title:"@,
            i <= lines@.len(),
            forall|k: int| 0 <= k < i ==> !is_title_field(#[trigger] ls[k]),
        decreases lines@.len() - i,
    {
        let line = trim_chars(&chars_of(lines[i].as_str()));
        if has_prefix(&line, &marker) {
            proof {
                reveal_strlit("title:");
            }
            let rest = trim_chars(&copy_range(&line, 6, line.len()));
            assert(rest@ == trim(trim(ls[i as int]).skip(6))) by {
                assert(line@.subrange(6, line@.len() as int) =~= line@.skip(6));
            }
            let t = strip_char_chars(&strip_char_chars(&rest, '"'), '\'');
            if t.len() > 0 {
                proof {
                    assert(is_first_title_field(ls, i as int));
                    let c = choose|c: int| is_first_title_field(ls, c);
                    lemma_first_title_field_unique(ls, i as int, c);
                }
                return Some(string_of(&t));
            }
        }
        i += 1;
    }
    assert(!exists|c: int| is_first_title_field(ls, c));
    None
}

/// The title of a note: the `title:` field of its frontmatter when that is
/// non-empty, else the text of its first top-level heading.
pub fn extract_title(content: &str) -> (r: Option<String>)
    ensures
        match note_title(content@) {
            Some(t) => r is Some && r->0@ == t,
            None => r is None,
        },
{
    let cs = chars_of(content);
    let delim = chars_of("---");
    if has_prefix(&cs, &delim) {
        proof {
            reveal_strlit("---");
        }
        let found_end = find_from(&cs, &delim, 3);
        let end = match found_end {
            Some(i) => i,
            None => cs.len(),
        };
        proof {
            match found_end {
                Some(e) => {
                    let i = choose|i: int| first_occurrence(content@, "---"@, 3, i);
                    if i < e {
                        assert(!crate::text::occurs_at(content@, "---"@, i));
                    } else if e < i {
                        assert(!crate::text::occurs_at(content@, "---"@, e as int));
                    }
                    assert(i == e);
                },
                None => {
                    assert(!exists|i: int| first_occurrence(content@, "---"@, 3, i));
                },
            }
            assert(frontmatter(content@) == Some(content@.subrange(3, end as int)));
        }
        let block = copy_range(&cs, 3, end);
        let block_lines = split_lines(&block);
        let found = find_title_field(&block_lines);
        proof {
            let ls = lines_of(block@);
            assert(views(block_lines@) == ls);
            assert(frontmatter_title(content@) == (if exists|i: int| is_first_title_field(ls, i) {
                Some(title_value(ls[choose|i: int| is_first_title_field(ls, i)]))
            } else {
                None
            }));
        }
        if found.is_some() {
            return found;
        }
    }
    entry::extract_title(content)
}

/// The filename for a note titled `title` (the rule entries use).
pub fn title_to_filename(title: &str) -> (r: String)
    ensures
        r@ == slug(title@) + ".md"@,
{
    entry::title_to_filename(title)
}

/// Shortens runs of `'_'` to one and removes those at both ends.
pub fn collapse_underscores(s: &str) -> (r: String)
    ensures
        r@ == collapsed(s@),
{
    entry::collapse_underscores(s)
}

/// A filename with the `".md"` extension (added only when missing), spaces
/// turned into `'_'`, in lower case.
pub fn sanitize_filename(filename: &str) -> (r: String)
    ensures
        r@ == crate::text::lower_of(spaces_to_underscores(with_md_extension(filename@))),
{
    entry::sanitize_filename(filename)
}

/// The content with a final `'\n'`, added only when missing.
pub fn ensure_trailing_newline(s: &str) -> (r: String)
    ensures
        r@ == with_trailing_newline(s@),
{
    entry::ensure_trailing_newline(s)
}

/// A generated note that opens with frontmatter whose first field is the
/// quoted title `x`.
pub open spec fn note_with_title(x: Seq<char>, rest: Seq<char>) -> Seq<char> {
    "---\ntitle: \""@ + x + "\"\n---\n"@ + rest
}

/// The lines of a line ending, a line without line endings and a line
/// ending: an empty line and that line.
proof fn lemma_two_lines(line: Seq<char>)
    requires
        forall|k: int| 0 <= k < line.len() ==> #[trigger] line[k] != '\n',
        line.len() > 0 && line.last() != '\r',
    ensures
        lines_of(seq!['\n'] + line + seq!['\n']) == seq![Seq::<char>::empty(), line],
{
    let block = seq!['\n'] + line + seq!['\n'];
    lemma_newline_index(block, 0);
    let after = block.subrange(1, block.len() as int);
    assert(after =~= line + seq!['\n']);
    lemma_newline_index(after, line.len() as int);
    assert(after.subrange(0, line.len() as int) =~= line);
    let empty = after.subrange(line.len() as int + 1, after.len() as int);
    assert(empty =~= Seq::<char>::empty());
    assert(lines_of(empty) == Seq::<Seq<char>>::empty());
    assert(crate::text::strip_cr(line) == line);
    assert(lines_of(after) =~= seq![line]);
    assert(block.subrange(0, 0) =~= Seq::<char>::empty());
    assert(lines_of(block) =~= seq![Seq::<char>::empty(), line]);
}

/// The line `title: "x"` gives the title `x`.
proof fn lemma_title_line(x: Seq<char>)
    requires
        x.len() > 0,
        x[0] != '"' && x[0] != '\'',
        x.last() != '"' && x.last() != '\'',
    ensures
        is_title_field("title: \""@ + x + "\""@),
        title_value("title: \""@ + x + "\""@) == x,
{
    reveal_strlit("title: \"");
    reveal_strlit("\"");
    reveal_strlit("title:");
    let n = x.len() as int;
    let line = "title: \""@ + x + "\""@;
    lemma_leading_white(line, 0);
    lemma_trailing_white(line, line.len() as int);
    assert(trim_start(line) =~= line);
    assert(trim(line) =~= line);
    assert(line.subrange(0, 6) =~= "title:"@);
    let v = line.skip(6);
    assert(v =~= seq![' ', '"'] + x + seq!['"']);
    lemma_leading_white(v, 1);
    lemma_trailing_white(v, v.len() as int);
    let quoted = seq!['"'] + x + seq!['"'];
    assert(trim_start(v) =~= quoted);
    assert(trim(v) =~= quoted);
    lemma_leading_run(quoted, '"', 1);
    let inner = quoted.subrange(1, quoted.len() as int);
    assert(inner =~= x + seq!['"']);
    lemma_trailing_run(inner, '"', n);
    assert(strip_char(quoted, '"') =~= x);
    lemma_leading_run(x, '\'', 0);
    lemma_trailing_run(x, '\'', n);
    assert(strip_char(x, '\'') =~= x);
}

/// The frontmatter of such a note is a line ending, the title line and a
/// line ending.
proof fn lemma_title_frontmatter(x: Seq<char>, rest: Seq<char>)
    requires
        !contains(x, "---"@),
    ensures
        frontmatter(note_with_title(x, rest)) == Some(seq!['\n'] + ("title: \""@ + x + "\""@) + seq!['\n']),
{
    reveal_strlit("---\ntitle: \"");
    reveal_strlit("\"\n---\n");
    reveal_strlit("---");
    reveal_strlit("title: \"");
    reveal_strlit("\"");
    let dashes = "---"@;
    let c = note_with_title(x, rest);
    let n = x.len() as int;
    let q = 14 + n;
    assert(c.subrange(0, 3) =~= dashes);
    assert(c.subrange(q, q + 3) =~= dashes);
    assert forall|j: int| 3 <= j < q implies !occurs_at(c, dashes, j) by {
        if occurs_at(c, dashes, j) {
            assert(c.subrange(j, j + 3)[0] == c[j]);
            if j < 12 {
                assert(c[j] != '-');
            } else if j + 3 <= 12 + n {
                assert(x.subrange(j - 12, j - 12 + 3) =~= c.subrange(j, j + 3));
                assert(occurs_at(x, dashes, j - 12));
            } else {
                assert(c.subrange(j, j + 3)[12 + n - j] == c[12 + n]);
            }
        }
    }
    assert(first_occurrence(c, dashes, 3, q));
    let i = choose|i: int| first_occurrence(c, dashes, 3, i);
    if i < q {
        assert(!occurs_at(c, dashes, i));
    } else if q < i {
        assert(!occurs_at(c, dashes, q));
    }
    assert(c.subrange(3, q) =~= seq!['\n'] + ("title: \""@ + x + "\""@) + seq!['\n']);
}

/// The title written in the frontmatter is the title read back, for every
/// non-empty one-line title that holds no `"---"` and neither starts nor
/// ends with a quote.
pub proof fn lemma_frontmatter_title_round_trip(x: Seq<char>, rest: Seq<char>)
    requires
        x.len() > 0,
        forall|k: int| 0 <= k < x.len() ==> #[trigger] x[k] != '\n',
        !contains(x, "---"@),
        x[0] != '"' && x[0] != '\'',
        x.last() != '"' && x.last() != '\'',
    ensures
        note_title(note_with_title(x, rest)) == Some(x),
{
    reveal_strlit("title: \"");
    reveal_strlit("\"");
    let line = "title: \""@ + x + "\""@;
    lemma_title_frontmatter(x, rest);
    assert forall|k: int| 0 <= k < line.len() implies #[trigger] line[k] != '\n' by {
        if 8 <= k < 8 + x.len() {
            assert(line[k] == x[k - 8]);
        }
    }
    lemma_two_lines(line);
    lemma_title_line(x);
    let ls = lines_of(seq!['\n'] + line + seq!['\n']);
    assert(!is_title_field(ls[0])) by {
        reveal_strlit("title:");
        assert(ls[0] == Seq::<char>::empty());
        assert(trim(ls[0]).len() == 0);
    }
    assert(is_first_title_field(ls, 1));
    let i = choose|i: int| is_first_title_field(ls, i);
    lemma_first_title_field_unique(ls, i, 1);
    assert(ls[1] == line);
    assert(title_value(ls[i]) == x);
    let block = seq!['\n'] + line + seq!['\n'];
    assert(frontmatter(note_with_title(x, rest)) == Some(block));
    assert(lines_of(block) == ls);
    assert(exists|i: int| is_first_title_field(ls, i));
    let c = note_with_title(x, rest);
    let fm = frontmatter(c);
    assert(fm->0 == block);
    assert(frontmatter_title(c) == Some(x));
}

} // verus!
