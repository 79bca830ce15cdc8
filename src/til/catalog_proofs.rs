//! What the catalog edit guarantees about the document as a whole.
use vstd::prelude::*;
use crate::til::writer::{
    apply_entry, bumped_counter, category_header, category_link, closes_categories, content_end,
    ends_entry_list, entry_line, insertion_point, is_categories_end, is_categories_header,
    is_counter_line, is_first_counter, is_first_section, is_list_end, is_section_header,
    lemma_first_counter_unique, new_section, with_counter_bumped, with_entry,
};
use crate::text::{
    all_digits, ascii_lower, ascii_upper, decimal, first_word, is_ascii_char, is_ascii_digit,
    is_ascii_text, is_white, leading_white, leading_word, lemma_decimal_digits, lemma_leading_white,
    lemma_leading_white_bound, lemma_leading_word_bound, lemma_trailing_white,
    lemma_trailing_white_stop, lower_of, parse_u32, starts_with, trailing_white, trim, trim_start,
    upper_of,
};

verus! {

/// `s` with the lines `xs` put in before position `at`.
pub open spec fn inserted(s: Seq<Seq<char>>, at: int, xs: Seq<Seq<char>>) -> Seq<Seq<char>> {
    s.subrange(0, at) + xs + s.subrange(at, s.len() as int)
}

/// `f` places each line of `small` at a line of `big` holding the same
/// text, keeping their order.
pub open spec fn is_embedding(small: Seq<Seq<char>>, big: Seq<Seq<char>>, f: spec_fn(int) -> int) -> bool {
    &&& forall|i: int, j: int| 0 <= i < j < small.len() ==> #[trigger] f(i) < #[trigger] f(j)
    &&& forall|i: int| 0 <= i < small.len() ==> 0 <= #[trigger] f(i) < big.len() && big[f(i)] == small[i]
}

/// Every line of `small` is in `big`, unchanged and in the same order.
pub open spec fn is_subsequence(small: Seq<Seq<char>>, big: Seq<Seq<char>>) -> bool {
    exists|f: spec_fn(int) -> int| is_embedding(small, big, f)
}

pub proof fn lemma_inserted_keeps_lines(s: Seq<Seq<char>>, at: int, xs: Seq<Seq<char>>)
    requires
        0 <= at <= s.len(),
    ensures
        is_subsequence(s, inserted(s, at, xs)),
        inserted(s, at, xs).len() == s.len() + xs.len(),
{
    let big = inserted(s, at, xs);
    let f = |i: int| if i < at { i } else { i + xs.len() };
    assert forall|i: int| 0 <= i < s.len() implies 0 <= #[trigger] f(i) < big.len() && big[f(i)] == s[i] by {
        if i < at {
            assert(big[i] == s[i]);
        } else {
            assert(big[i + xs.len()] == s.subrange(at, s.len() as int)[i - at]);
        }
    }
    assert(is_embedding(s, big, f));
}

pub proof fn lemma_subsequence_trans(a: Seq<Seq<char>>, b: Seq<Seq<char>>, c: Seq<Seq<char>>)
    requires
        is_subsequence(a, b),
        is_subsequence(b, c),
    ensures
        is_subsequence(a, c),
{
    let f = choose|f: spec_fn(int) -> int| is_embedding(a, b, f);
    let g = choose|g: spec_fn(int) -> int| is_embedding(b, c, g);
    let h = |i: int| g(f(i));
    assert forall|i: int, j: int| 0 <= i < j < a.len() implies #[trigger] h(i) < #[trigger] h(j) by {
        assert(f(i) < f(j));
        assert(g(f(i)) < g(f(j)));
    }
    assert forall|i: int| 0 <= i < a.len() implies 0 <= #[trigger] h(i) < c.len() && c[h(i)] == a[i] by {
        assert(0 <= f(i) < b.len());
        assert(0 <= g(f(i)) < c.len());
    }
    assert(is_embedding(a, c, h));
}

proof fn lemma_list_end_from(ls: Seq<Seq<char>>, idx: int, k: int)
    requires
        0 <= idx < k <= ls.len(),
        forall|m: int| idx < m < k ==> !ends_entry_list(#[trigger] ls[m]),
    ensures
        exists|j: int| is_list_end(ls, idx, j),
    decreases ls.len() - k,
{
    if k == ls.len() || ends_entry_list(ls[k]) {
        assert(is_list_end(ls, idx, k));
    } else {
        lemma_list_end_from(ls, idx, k + 1);
    }
}

pub proof fn lemma_insertion_point_bounds(ls: Seq<Seq<char>>, idx: int)
    requires
        0 <= idx < ls.len(),
    ensures
        idx <= insertion_point(ls, idx) <= ls.len(),
{
    lemma_list_end_from(ls, idx, idx + 1);
}

pub proof fn lemma_content_end_bound(ls: Seq<Seq<char>>)
    ensures
        content_end(ls) <= ls.len(),
    decreases ls.len(),
{
    if ls.len() > 0 && crate::text::is_blank(ls.last()) {
        lemma_content_end_bound(ls.drop_last());
    }
}

/// The three ways an entry is filed: one line into the category's section;
/// or a new section, with the category added to the categories list when
/// the document has one that is closed.
pub proof fn lemma_with_entry_shape(
    ls: Seq<Seq<char>>,
    archive_dir: Seq<char>,
    category: Seq<char>,
    filename: Seq<char>,
    title: Seq<char>,
)
    ensures
        ({
            let r = with_entry(ls, archive_dir, category, filename, title);
            let header = category_header(category);
            let entry = entry_line(archive_dir, category, filename, title);
            let section = new_section(archive_dir, category, filename, title);
            &&& (exists|i: int| is_first_section(ls, header, category, i)) ==> exists|p: int|
                0 <= p <= ls.len() && r == inserted(ls, p, seq![entry])
            &&& ((!exists|i: int| is_first_section(ls, header, category, i)) && (exists|e: int|
                is_categories_end(ls, e))) ==> exists|e: int, p: int|
                0 <= e < ls.len() && 0 <= p <= ls.len() + 1 && r == inserted(
                    inserted(ls, e, seq![category_link(category)]),
                    p,
                    section,
                )
            &&& ((!exists|i: int| is_first_section(ls, header, category, i)) && (!exists|e: int|
                is_categories_end(ls, e))) ==> exists|p: int|
                0 <= p <= ls.len() && r == inserted(ls, p, section)
            &&& is_subsequence(ls, r)
        }),
{
    let header = category_header(category);
    let entry = entry_line(archive_dir, category, filename, title);
    let section = new_section(archive_dir, category, filename, title);
    let r = with_entry(ls, archive_dir, category, filename, title);
    if exists|i: int| is_first_section(ls, header, category, i) {
        let i = choose|i: int| is_first_section(ls, header, category, i);
        let p = insertion_point(ls, i);
        lemma_insertion_point_bounds(ls, i);
        assert(r =~= inserted(ls, p, seq![entry]));
        lemma_inserted_keeps_lines(ls, p, seq![entry]);
        assert(exists|p: int| 0 <= p <= ls.len() && r == inserted(ls, p, seq![entry]));
    } else if exists|e: int| is_categories_end(ls, e) {
        let e = choose|e: int| is_categories_end(ls, e);
        let listed = ls.insert(e, category_link(category));
        assert(listed =~= inserted(ls, e, seq![category_link(category)]));
        let p = content_end(listed) as int;
        lemma_content_end_bound(listed);
        assert(r =~= inserted(listed, p, section));
        lemma_inserted_keeps_lines(ls, e, seq![category_link(category)]);
        lemma_inserted_keeps_lines(listed, p, section);
        lemma_subsequence_trans(ls, listed, r);
        assert(listed.len() == ls.len() + 1);
        assert(0 <= e < ls.len() && 0 <= p <= ls.len() + 1 && r == inserted(
            inserted(ls, e, seq![category_link(category)]),
            p,
            section,
        ));
    } else {
        let p = content_end(ls) as int;
        lemma_content_end_bound(ls);
        assert(r =~= inserted(ls, p, section));
        lemma_inserted_keeps_lines(ls, p, section);
        assert(exists|p: int| 0 <= p <= ls.len() && r == inserted(ls, p, section));
    }
}

/// Registering an entry keeps every line of the document, unchanged and in
/// order, except the first counter line, which only has its count
/// rewritten; everything else the edit does is adding lines.
pub proof fn lemma_entry_keeps_other_lines(
    ls: Seq<Seq<char>>,
    archive_dir: Seq<char>,
    category: Seq<char>,
    filename: Seq<char>,
    title: Seq<char>,
)
    ensures
        is_subsequence(
            with_counter_bumped(ls),
            apply_entry(ls, archive_dir, category, filename, title),
        ),
        with_counter_bumped(ls).len() == ls.len(),
        forall|k: int|
            0 <= k < ls.len() && !is_first_counter(ls, k) ==> #[trigger] with_counter_bumped(ls)[k]
                == ls[k],
{
    lemma_with_entry_shape(with_counter_bumped(ls), archive_dir, category, filename, title);
    if exists|i: int| is_first_counter(ls, i) {
        let i = choose|i: int| is_first_counter(ls, i);
        assert forall|k: int| 0 <= k < ls.len() && !is_first_counter(ls, k) implies #[trigger] with_counter_bumped(ls)[k]
            == ls[k] by {
            assert(k != i);
        }
    }
}

/// Registering an entry in a document whose first counter line is at `i`
/// rewrites that line as the count plus one followed by the counter text,
/// leaves every other line (later counter lines too) as it was, and only
/// adds lines after that.
pub proof fn lemma_counter_incremented(
    ls: Seq<Seq<char>>,
    archive_dir: Seq<char>,
    category: Seq<char>,
    filename: Seq<char>,
    title: Seq<char>,
    i: int,
)
    requires
        is_first_counter(ls, i),
    ensures
        with_counter_bumped(ls) == ls.update(
            i,
            crate::text::decimal(crate::text::parse_u32(crate::text::first_word(ls[i]))->0 + 1)
                + " TILs & Counting"@,
        ),
        is_subsequence(
            with_counter_bumped(ls),
            apply_entry(ls, archive_dir, category, filename, title),
        ),
{
    let c = choose|c: int| is_first_counter(ls, c);
    lemma_first_counter_unique(ls, i, c);
    lemma_entry_keeps_other_lines(ls, archive_dir, category, filename, title);
}

/// How a counter line begins: not with `'-'` or `'#'`, and once trimmed with
/// a digit or `'+'`.
proof fn lemma_counter_line_start(l: Seq<char>)
    requires
        is_counter_line(l),
    ensures
        l.len() > 0,
        l[0] != '-' && l[0] != '#',
        trim(l).len() > 0,
        is_ascii_digit(trim(l)[0]) || trim(l)[0] == '+',
{
    let lw = leading_white(l) as int;
    lemma_leading_white_bound(l);
    let t = trim_start(l);
    lemma_leading_word_bound(t);
    let fw = first_word(l);
    assert(fw.len() > 0);
    assert(fw[0] == t[0]);
    assert(is_ascii_digit(fw[0]) || fw[0] == '+');
    assert(t[0] == l[lw]);
    if lw > 0 {
        assert(is_white(l[0]));
    }
    lemma_trailing_white_stop(t);
    assert(!is_white(t[0]));
    assert(trailing_white(t) < t.len());
    assert(trim(l)[0] == t[0]);
}

/// A rewritten counter line: starts with a digit and is ASCII text that
/// trimming leaves as it is.
proof fn lemma_bumped_line(l: Seq<char>)
    requires
        is_counter_line(l),
    ensures
        ({
            let b = bumped_counter(l);
            &&& b.len() > 0 && is_ascii_digit(b[0])
            &&& is_ascii_text(b)
            &&& trim(b) == b
        }),
{
    let n = parse_u32(first_word(l))->0 + 1;
    let d = decimal(n);
    lemma_decimal_digits(n);
    let b = bumped_counter(l);
    reveal_strlit(" TILs & Counting");
    assert(b == d + " TILs & Counting"@);
    assert(is_ascii_digit(b[0]));
    assert forall|i: int| 0 <= i < b.len() implies is_ascii_char(#[trigger] b[i]) by {
        if i < d.len() {
            assert(is_ascii_digit(d[i]));
        }
    }
    lemma_leading_white(b, 0);
    lemma_trailing_white(b, b.len() as int);
    assert(trim_start(b) =~= b);
    assert(trim(b) =~= b);
}

/// Neither a counter line nor its rewritten form opens a section of a
/// category, names the categories list, or closes a list.
proof fn lemma_counter_lines_inert(l: Seq<char>, category: Seq<char>)
    requires
        is_counter_line(l),
    ensures
        !is_section_header(bumped_counter(l), category_header(category), category),
        !is_categories_header(l),
        !is_categories_header(bumped_counter(l)),
        !starts_with(l, "---"@) && !starts_with(l, "###"@),
        !starts_with(bumped_counter(l), "---"@) && !starts_with(bumped_counter(l), "###"@),
{
    lemma_counter_line_start(l);
    lemma_bumped_line(l);
    let b = bumped_counter(l);
    reveal_strlit("### ");
    reveal_strlit("### Categories");
    reveal_strlit("---");
    reveal_strlit("###");
    let h = category_header(category);
    assert(h[0] == '#');
    if trim(b).len() == h.len() {
        assert(ascii_lower(trim(b)[0]) != ascii_lower(h[0]));
    }
    let target = "### "@ + lower_of(category);
    assert(target[0] == '#');
    assert(lower_of(trim(b))[0] == ascii_lower(b[0]));
    assert(lower_of(trim(b)) != target);
    assert(trim(l) != "### Categories"@) by {
        assert("### Categories"@[0] == '#');
    }
    assert(trim(b) != "### Categories"@) by {
        assert("### Categories"@[0] == '#');
    }
    if starts_with(l, "---"@) {
        assert(l.subrange(0, 3)[0] == l[0]);
    }
    if starts_with(l, "###"@) {
        assert(l.subrange(0, 3)[0] == l[0]);
    }
    if starts_with(b, "---"@) {
        assert(b.subrange(0, 3)[0] == b[0]);
    }
    if starts_with(b, "###"@) {
        assert(b.subrange(0, 3)[0] == b[0]);
    }
}

/// Rewriting the counter changes no line that the categories list or the
/// sections are found by.
proof fn lemma_bump_keeps_structure(ls: Seq<Seq<char>>, category: Seq<char>)
    ensures
        forall|j: int| 0 <= j < ls.len() ==> (closes_categories(with_counter_bumped(ls), j)
            <==> closes_categories(ls, j)),
        forall|j: int| 0 <= j < ls.len() ==> (is_categories_end(with_counter_bumped(ls), j)
            <==> is_categories_end(ls, j)),
        forall|j: int|
            0 <= j < ls.len() && !is_section_header(#[trigger] ls[j], category_header(category), category)
                ==> !is_section_header(with_counter_bumped(ls)[j], category_header(category), category),
        with_counter_bumped(ls).len() == ls.len(),
{
    let c = with_counter_bumped(ls);
    if exists|i: int| is_first_counter(ls, i) {
        let i = choose|i: int| is_first_counter(ls, i);
        lemma_counter_lines_inert(ls[i], category);
        assert forall|j: int| 0 <= j < ls.len() implies (closes_categories(c, j) <==> closes_categories(ls, j)) by {
            if closes_categories(c, j) {
                let k = choose|k: int| 0 <= k < j && is_categories_header(#[trigger] c[k]);
                assert(k != i);
                assert(is_categories_header(ls[k]));
            }
            if closes_categories(ls, j) {
                let k = choose|k: int| 0 <= k < j && is_categories_header(#[trigger] ls[k]);
                assert(k != i);
                assert(is_categories_header(c[k]));
            }
        }
    }
}

/// An entry whose category has no section, filed in a document whose
/// categories list is closed by a later line, adds exactly one item to the
/// list and one block of five lines (blank, the section header, blank, the
/// entry, blank); the document's lines, counter rewritten, all remain in
/// order.
pub proof fn lemma_new_category_adds_item_and_section(
    ls: Seq<Seq<char>>,
    archive_dir: Seq<char>,
    category: Seq<char>,
    filename: Seq<char>,
    title: Seq<char>,
)
    requires
        forall|k: int|
            0 <= k < ls.len() ==> !is_section_header(#[trigger] ls[k], category_header(category), category),
        exists|e: int| is_categories_end(ls, e),
    ensures
        exists|e: int, p: int|
            0 <= e < ls.len() && 0 <= p <= ls.len() + 1 && apply_entry(
                ls,
                archive_dir,
                category,
                filename,
                title,
            ) == inserted(
                inserted(with_counter_bumped(ls), e, seq![category_link(category)]),
                p,
                new_section(archive_dir, category, filename, title),
            ),
        is_subsequence(
            with_counter_bumped(ls),
            apply_entry(ls, archive_dir, category, filename, title),
        ),
{
    let c = with_counter_bumped(ls);
    let header = category_header(category);
    lemma_bump_keeps_structure(ls, category);
    assert(!exists|i: int| is_first_section(c, header, category, i)) by {
        if exists|i: int| is_first_section(c, header, category, i) {
            let i = choose|i: int| is_first_section(c, header, category, i);
            assert(!is_section_header(ls[i], header, category));
        }
    }
    let e = choose|e: int| is_categories_end(ls, e);
    assert(is_categories_end(c, e));
    lemma_with_entry_shape(c, archive_dir, category, filename, title);
}

/// A line that starts with an ASCII character that is neither white space,
/// a digit nor `'+'` is no counter line; neither is an empty line.
proof fn lemma_not_counter_line(x: Seq<char>)
    requires
        x.len() > 0 ==> is_ascii_char(x[0]) && !is_white(x[0]) && !is_ascii_digit(x[0]) && x[0] != '+',
    ensures
        !is_counter_line(x),
{
    if x.len() == 0 {
        assert(leading_white(x) == 0);
        assert(first_word(x).len() == 0);
    } else {
        lemma_leading_white(x, 0);
        assert(trim_start(x) =~= x);
        assert(leading_word(x) >= 1);
        lemma_leading_word_bound(x);
        let fw = first_word(x);
        assert(fw[0] == x[0]);
        assert(!all_digits(fw));
    }
}

/// The lines the edit adds are never counter lines.
proof fn lemma_added_lines_not_counters(
    archive_dir: Seq<char>,
    category: Seq<char>,
    filename: Seq<char>,
    title: Seq<char>,
)
    ensures
        !is_counter_line(entry_line(archive_dir, category, filename, title)),
        !is_counter_line(category_link(category)),
        forall|k: int|
            0 <= k < new_section(archive_dir, category, filename, title).len() ==> !is_counter_line(
                #[trigger] new_section(archive_dir, category, filename, title)[k],
            ),
{
    reveal_strlit("- [");
    reveal_strlit("* [");
    reveal_strlit("### ");
    let entry = entry_line(archive_dir, category, filename, title);
    assert(entry[0] == '-');
    lemma_not_counter_line(entry);
    assert(category_link(category)[0] == '*');
    lemma_not_counter_line(category_link(category));
    assert(category_header(category)[0] == '#');
    lemma_not_counter_line(category_header(category));
    lemma_not_counter_line(seq![]);
}

/// The first counter line after lines are added is one of the original
/// lines, and was the first counter line there.
proof fn lemma_first_counter_after_insert(s: Seq<Seq<char>>, at: int, xs: Seq<Seq<char>>, k: int)
    requires
        0 <= at <= s.len(),
        forall|j: int| 0 <= j < xs.len() ==> !is_counter_line(#[trigger] xs[j]),
        is_first_counter(inserted(s, at, xs), k),
    ensures
        ({
            let m = if k < at { k } else { k - xs.len() };
            &&& (k < at || k >= at + xs.len())
            &&& is_first_counter(s, m)
            &&& inserted(s, at, xs)[k] == s[m]
        }),
{
    let big = inserted(s, at, xs);
    if at <= k < at + xs.len() {
        assert(big[k] == xs[k - at]);
    }
    let m = if k < at { k } else { k - xs.len() };
    assert(big[k] == s[m]);
    assert forall|j: int| 0 <= j < m implies !is_counter_line(#[trigger] s[j]) by {
        let jj = if j < at { j } else { j + xs.len() };
        assert(big[jj] == s[j]);
    }
}

/// An ASCII counter line never opens the section of a category.
proof fn lemma_ascii_counter_not_header(l: Seq<char>, category: Seq<char>)
    requires
        is_counter_line(l),
        is_ascii_text(l),
    ensures
        !is_section_header(l, category_header(category), category),
{
    lemma_counter_line_start(l);
    reveal_strlit("### ");
    let t = trim(l);
    let lw = leading_white(l) as int;
    lemma_leading_white_bound(l);
    lemma_trailing_white_stop(trim_start(l));
    assert forall|k: int| 0 <= k < t.len() implies is_ascii_char(#[trigger] t[k]) by {
        assert(t[k] == l[k + lw]);
    }
    let h = category_header(category);
    assert(h[0] == '#');
    if t.len() == h.len() {
        assert(ascii_lower(t[0]) != ascii_lower(h[0]));
    }
    assert(lower_of(t)[0] == ascii_lower(t[0]));
    assert(("### "@ + lower_of(category))[0] == '#');
}

/// A non-empty ASCII category key that does not end in white space has a
/// header line that is recognised as its section header.
proof fn lemma_header_recognised(category: Seq<char>)
    requires
        category.len() > 0,
        is_ascii_text(category),
        !is_white(category.last()),
    ensures
        is_section_header(category_header(category), category_header(category), category),
{
    reveal_strlit("### ");
    let h = category_header(category);
    assert(is_ascii_char(category[0]));
    assert(upper_of(category[0]) == seq![ascii_upper(category[0])]);
    assert(h.last() != ' ' && !is_white(h.last())) by {
        if category.len() == 1 {
            assert(h.last() == ascii_upper(category[0]));
        } else {
            assert(h.last() == category.last());
        }
    }
    assert(h[0] == '#');
    lemma_leading_white(h, 0);
    lemma_trailing_white(h, h.len() as int);
    assert(trim_start(h) =~= h);
    assert(trim(h) =~= h);
}

proof fn lemma_first_section_exists(ls: Seq<Seq<char>>, header: Seq<char>, category: Seq<char>, h: int)
    requires
        0 <= h < ls.len(),
        is_section_header(ls[h], header, category),
    ensures
        exists|i: int| is_first_section(ls, header, category, i),
    decreases h,
{
    if exists|j: int| 0 <= j < h && is_section_header(#[trigger] ls[j], header, category) {
        let j = choose|j: int| 0 <= j < h && is_section_header(#[trigger] ls[j], header, category);
        lemma_first_section_exists(ls, header, category, j);
    } else {
        assert(is_first_section(ls, header, category, h));
    }
}

/// How many lines open the section of `category`.
pub open spec fn section_count(ls: Seq<Seq<char>>, category: Seq<char>) -> nat
    decreases ls.len(),
{
    if ls.len() == 0 {
        0
    } else {
        section_count(ls.drop_last(), category) + if is_section_header(
            ls.last(),
            category_header(category),
            category,
        ) {
            1nat
        } else {
            0nat
        }
    }
}

proof fn lemma_section_count_concat(a: Seq<Seq<char>>, b: Seq<Seq<char>>, category: Seq<char>)
    ensures
        section_count(a + b, category) == section_count(a, category) + section_count(b, category),
    decreases b.len(),
{
    if b.len() == 0 {
        assert(a + b =~= a);
    } else {
        lemma_section_count_concat(a, b.drop_last(), category);
        assert((a + b).drop_last() =~= a + b.drop_last());
        assert((a + b).last() == b.last());
    }
}

proof fn lemma_section_count_inserted(
    s: Seq<Seq<char>>,
    at: int,
    xs: Seq<Seq<char>>,
    category: Seq<char>,
)
    requires
        0 <= at <= s.len(),
    ensures
        section_count(inserted(s, at, xs), category) == section_count(s, category) + section_count(
            xs,
            category,
        ),
{
    let l = s.subrange(0, at);
    let r = s.subrange(at, s.len() as int);
    assert(s =~= l + r);
    lemma_section_count_concat(l, r, category);
    lemma_section_count_concat(l, xs, category);
    lemma_section_count_concat(l + xs, r, category);
}

proof fn lemma_section_count_single(x: Seq<char>, category: Seq<char>)
    ensures
        section_count(seq![x], category) == if is_section_header(
            x,
            category_header(category),
            category,
        ) {
            1nat
        } else {
            0nat
        },
{
    assert(seq![x].drop_last() =~= Seq::<Seq<char>>::empty());
    assert(section_count(Seq::<Seq<char>>::empty(), category) == 0);
    assert(seq![x].last() == x);
}

proof fn lemma_section_count_update(s: Seq<Seq<char>>, i: int, x: Seq<char>, category: Seq<char>)
    requires
        0 <= i < s.len(),
        !is_section_header(s[i], category_header(category), category),
        !is_section_header(x, category_header(category), category),
    ensures
        section_count(s.update(i, x), category) == section_count(s, category),
{
    let l = s.subrange(0, i);
    let r = s.subrange(i + 1, s.len() as int);
    assert(s =~= l + seq![s[i]] + r);
    assert(s.update(i, x) =~= l + seq![x] + r);
    lemma_section_count_concat(l + seq![s[i]], r, category);
    lemma_section_count_concat(l, seq![s[i]], category);
    lemma_section_count_concat(l + seq![x], r, category);
    lemma_section_count_concat(l, seq![x], category);
    lemma_section_count_single(s[i], category);
    lemma_section_count_single(x, category);
}

pub open spec fn is_ascii_lines(ls: Seq<Seq<char>>) -> bool {
    forall|k: int| 0 <= k < ls.len() ==> is_ascii_text(#[trigger] ls[k])
}

proof fn lemma_ascii_concat(a: Seq<char>, b: Seq<char>)
    requires
        is_ascii_text(a),
        is_ascii_text(b),
    ensures
        is_ascii_text(a + b),
{
    assert forall|k: int| 0 <= k < (a + b).len() implies is_ascii_char(#[trigger] (a + b)[k]) by {
        if k < a.len() {
            assert((a + b)[k] == a[k]);
        } else {
            assert((a + b)[k] == b[k - a.len()]);
        }
    }
}

/// An ASCII line that starts with neither white space nor `'#'`, or an
/// empty line, opens no section.
proof fn lemma_ascii_line_not_header(l: Seq<char>, category: Seq<char>)
    requires
        is_ascii_text(l),
        l.len() > 0 ==> !is_white(l[0]) && l[0] != '#',
    ensures
        !is_section_header(l, category_header(category), category),
{
    reveal_strlit("### ");
    let h = category_header(category);
    assert(h[0] == '#');
    let target = "### "@ + lower_of(category);
    assert(target[0] == '#');
    if l.len() == 0 {
        assert(leading_white(l) == 0);
        assert(trim(l).len() == 0);
        assert(lower_of(trim(l)) =~= Seq::<char>::empty());
    } else {
        lemma_leading_white(l, 0);
        assert(trim_start(l) =~= l);
        lemma_trailing_white_stop(l);
        assert(trailing_white(l) < l.len());
        let t = trim(l);
        assert(t[0] == l[0]);
        assert forall|k: int| 0 <= k < t.len() implies is_ascii_char(#[trigger] t[k]) by {
            assert(t[k] == l[k]);
        }
        if t.len() == h.len() {
            assert(ascii_lower(t[0]) != ascii_lower(h[0]));
        }
        assert(lower_of(t)[0] == ascii_lower(t[0]));
    }
}

/// The entry line of ASCII parts is ASCII and opens no section.
proof fn lemma_entry_line_not_header(
    archive_dir: Seq<char>,
    category: Seq<char>,
    filename: Seq<char>,
    title: Seq<char>,
)
    requires
        is_ascii_text(archive_dir),
        is_ascii_text(category),
        is_ascii_text(filename),
        is_ascii_text(title),
    ensures
        !is_section_header(
            entry_line(archive_dir, category, filename, title),
            category_header(category),
            category,
        ),
{
    reveal_strlit("- [");
    reveal_strlit("](");
    reveal_strlit("/");
    reveal_strlit(")");
    let a = "- ["@;
    let b = "]("@;
    let c = "/"@;
    let d = ")"@;
    assert(is_ascii_text(a) && is_ascii_text(b) && is_ascii_text(c) && is_ascii_text(d));
    lemma_ascii_concat(a, title);
    lemma_ascii_concat(a + title, b);
    lemma_ascii_concat(a + title + b, archive_dir);
    lemma_ascii_concat(a + title + b + archive_dir, c);
    lemma_ascii_concat(a + title + b + archive_dir + c, category);
    lemma_ascii_concat(a + title + b + archive_dir + c + category, c);
    lemma_ascii_concat(a + title + b + archive_dir + c + category + c, filename);
    lemma_ascii_concat(a + title + b + archive_dir + c + category + c + filename, d);
    let e = entry_line(archive_dir, category, filename, title);
    assert(e[0] == '-');
    lemma_ascii_line_not_header(e, category);
}

/// The category-list item of an ASCII key is ASCII and opens no section.
proof fn lemma_link_not_header(category: Seq<char>)
    requires
        category.len() > 0,
        is_ascii_text(category),
    ensures
        !is_section_header(category_link(category), category_header(category), category),
{
    reveal_strlit("* [");
    reveal_strlit("](#");
    reveal_strlit(")");
    assert(is_ascii_char(category[0]));
    let cap = seq![ascii_upper(category[0])] + category.skip(1);
    assert(upper_of(category[0]) == seq![ascii_upper(category[0])]);
    assert(is_ascii_text(cap)) by {
        assert forall|k: int| 0 <= k < cap.len() implies is_ascii_char(#[trigger] cap[k]) by {
            if k > 0 {
                assert(cap[k] == category[k]);
            }
        }
    }
    let low = lower_of(category);
    assert(is_ascii_text(low)) by {
        assert forall|k: int| 0 <= k < low.len() implies is_ascii_char(#[trigger] low[k]) by {
            assert(low[k] == ascii_lower(category[k]));
        }
    }
    let a = "* ["@;
    let b = "](#"@;
    let d = ")"@;
    assert(is_ascii_text(a) && is_ascii_text(b) && is_ascii_text(d));
    lemma_ascii_concat(a, cap);
    lemma_ascii_concat(a + cap, b);
    lemma_ascii_concat(a + cap + b, low);
    lemma_ascii_concat(a + cap + b + low, d);
    let link = category_link(category);
    assert(link =~= a + cap + b + low + d);
    assert(link[0] == '*');
    lemma_ascii_line_not_header(link, category);
}

/// A new section holds exactly one header of its category.
proof fn lemma_new_section_count(
    archive_dir: Seq<char>,
    category: Seq<char>,
    filename: Seq<char>,
    title: Seq<char>,
)
    requires
        category.len() > 0,
        !is_white(category.last()),
        is_ascii_text(archive_dir),
        is_ascii_text(category),
        is_ascii_text(filename),
        is_ascii_text(title),
    ensures
        section_count(new_section(archive_dir, category, filename, title), category) == 1,
{
    let s = new_section(archive_dir, category, filename, title);
    let blank = Seq::<char>::empty();
    lemma_ascii_line_not_header(blank, category);
    lemma_header_recognised(category);
    lemma_entry_line_not_header(archive_dir, category, filename, title);
    assert(s =~= seq![blank] + seq![category_header(category)] + seq![blank] + seq![
        entry_line(archive_dir, category, filename, title),
    ] + seq![blank]);
    let e = entry_line(archive_dir, category, filename, title);
    let h = category_header(category);
    lemma_section_count_concat(seq![blank], seq![h], category);
    lemma_section_count_concat(seq![blank] + seq![h], seq![blank], category);
    lemma_section_count_concat(seq![blank] + seq![h] + seq![blank], seq![e], category);
    lemma_section_count_concat(seq![blank] + seq![h] + seq![blank] + seq![e], seq![blank], category);
    lemma_section_count_single(blank, category);
    lemma_section_count_single(h, category);
    lemma_section_count_single(e, category);
}

/// Rewriting the counter keeps the number of section headers when the
/// counter line is no section header.
proof fn lemma_bump_keeps_count(ls: Seq<Seq<char>>, category: Seq<char>)
    requires
        forall|k: int|
            #[trigger] is_first_counter(ls, k) ==> !is_section_header(
                ls[k],
                category_header(category),
                category,
            ),
    ensures
        section_count(with_counter_bumped(ls), category) == section_count(ls, category),
{
    if exists|i: int| is_first_counter(ls, i) {
        let i = choose|i: int| is_first_counter(ls, i);
        lemma_bumped_line(ls[i]);
        lemma_counter_lines_inert(ls[i], category);
        lemma_section_count_update(ls, i, bumped_counter(ls[i]), category);
    }
}

proof fn lemma_section_count_positive(s: Seq<Seq<char>>, category: Seq<char>)
    ensures
        section_count(s, category) > 0 <==> exists|k: int|
            0 <= k < s.len() && is_section_header(#[trigger] s[k], category_header(category), category),
    decreases s.len(),
{
    if s.len() > 0 {
        let p = s.drop_last();
        lemma_section_count_positive(p, category);
        if exists|k: int|
            0 <= k < s.len() && is_section_header(#[trigger] s[k], category_header(category), category) {
            let k = choose|k: int|
                0 <= k < s.len() && is_section_header(#[trigger] s[k], category_header(category), category);
            if k < s.len() - 1 {
                assert(p[k] == s[k]);
            }
        }
        if exists|k: int|
            0 <= k < p.len() && is_section_header(#[trigger] p[k], category_header(category), category) {
            let k = choose|k: int|
                0 <= k < p.len() && is_section_header(#[trigger] p[k], category_header(category), category);
            assert(s[k] == p[k]);
        }
    }
}

/// Filing two entries of one category, in an ASCII document and with
/// ASCII parts, for a category key that does not end in white space: after
/// the first the category has a section; the second adds nothing but its
/// own entry line to the document with its counter rewritten (no second
/// section, no second item in the categories list); and the category then
/// has exactly one section when the document had at most one.
pub proof fn lemma_same_category_twice(
    ls: Seq<Seq<char>>,
    archive_dir: Seq<char>,
    category: Seq<char>,
    first_file: Seq<char>,
    first_title: Seq<char>,
    second_file: Seq<char>,
    second_title: Seq<char>,
)
    requires
        category.len() > 0,
        !is_white(category.last()),
        is_ascii_lines(ls),
        is_ascii_text(archive_dir),
        is_ascii_text(category),
        is_ascii_text(first_file),
        is_ascii_text(first_title),
        is_ascii_text(second_file),
        is_ascii_text(second_title),
    ensures
        ({
            let once = apply_entry(ls, archive_dir, category, first_file, first_title);
            let twice = apply_entry(once, archive_dir, category, second_file, second_title);
            &&& exists|h: int|
                0 <= h < once.len() && is_section_header(
                    #[trigger] once[h],
                    category_header(category),
                    category,
                )
            &&& exists|p: int|
                0 <= p <= once.len() && twice == inserted(
                    with_counter_bumped(once),
                    p,
                    seq![entry_line(archive_dir, category, second_file, second_title)],
                )
            &&& section_count(twice, category) == if section_count(ls, category) == 0 {
                1
            } else {
                section_count(ls, category)
            }
        }),
{
    let header = category_header(category);
    let c = with_counter_bumped(ls);
    let once = apply_entry(ls, archive_dir, category, first_file, first_title);
    let twice = apply_entry(once, archive_dir, category, second_file, second_title);
    let entry1 = entry_line(archive_dir, category, first_file, first_title);
    let entry2 = entry_line(archive_dir, category, second_file, second_title);
    let section = new_section(archive_dir, category, first_file, first_title);
    let link = category_link(category);
    lemma_added_lines_not_counters(archive_dir, category, first_file, first_title);
    lemma_with_entry_shape(c, archive_dir, category, first_file, first_title);
    lemma_header_recognised(category);
    lemma_entry_line_not_header(archive_dir, category, first_file, first_title);
    lemma_entry_line_not_header(archive_dir, category, second_file, second_title);
    lemma_section_count_single(entry1, category);
    lemma_section_count_single(entry2, category);
    // The counter lines of the document, before and after the counter is
    // rewritten, are ASCII and so open no section.
    assert forall|k: int| #[trigger] is_first_counter(ls, k) implies !is_section_header(
        ls[k],
        header,
        category,
    ) by {
        lemma_ascii_counter_not_header(ls[k], category);
    }
    lemma_bump_keeps_count(ls, category);
    assert forall|m: int| 0 <= m < c.len() && is_counter_line(#[trigger] c[m]) implies !is_section_header(
        c[m],
        header,
        category,
    ) by {
        if exists|i: int| is_first_counter(ls, i) {
            let i = choose|i: int| is_first_counter(ls, i);
            if m == i {
                lemma_bumped_line(ls[i]);
            }
        }
        lemma_ascii_counter_not_header(c[m], category);
    }
    // A section header of `once` that is not its first counter line.
    let mut h: int = 0;
    if exists|i: int| is_first_section(c, header, category, i) {
        let s = choose|i: int| is_first_section(c, header, category, i);
        let p = choose|p: int| 0 <= p <= c.len() && once == inserted(c, p, seq![entry1]);
        h = if s < p { s } else { s + 1 };
        assert(once[h] == c[s]);
        assert forall|k: int| #[trigger] is_first_counter(once, k) implies k != h && !is_section_header(
            once[k],
            header,
            category,
        ) by {
            assert forall|j: int| 0 <= j < 1 implies !is_counter_line(#[trigger] seq![entry1][j]) by {}
            lemma_first_counter_after_insert(c, p, seq![entry1], k);
        }
        lemma_section_count_inserted(c, p, seq![entry1], category);
        lemma_section_count_positive(c, category);
    } else {
        assert forall|k: int| 0 <= k < c.len() implies !is_section_header(#[trigger] c[k], header, category) by {
            if is_section_header(c[k], header, category) {
                lemma_first_section_exists(c, header, category, k);
            }
        }
        lemma_section_count_positive(c, category);
        lemma_new_section_count(archive_dir, category, first_file, first_title);
        let listed = if exists|e: int| is_categories_end(c, e) {
            let e = choose|e: int, p: int|
                0 <= e < c.len() && 0 <= p <= c.len() + 1 && once == inserted(
                    inserted(c, e, seq![link]),
                    p,
                    section,
                );
            lemma_link_not_header(category);
            lemma_section_count_single(link, category);
            lemma_section_count_inserted(c, e.0, seq![link], category);
            assert forall|m: int| 0 <= m < inserted(c, e.0, seq![link]).len() && is_counter_line(
                #[trigger] inserted(c, e.0, seq![link])[m],
            ) implies !is_section_header(inserted(c, e.0, seq![link])[m], header, category) by {
                let big = inserted(c, e.0, seq![link]);
                if m < e.0 {
                    assert(big[m] == c[m]);
                } else if m == e.0 {
                    assert(big[m] == link);
                } else {
                    assert(big[m] == c[m - 1]);
                }
            }
            inserted(c, e.0, seq![link])
        } else {
            c
        };
        let p = choose|p: int| 0 <= p <= listed.len() && once == inserted(listed, p, section);
        h = p + 1;
        assert(once[h] == section[1]);
        assert forall|k: int| #[trigger] is_first_counter(once, k) implies k != h && !is_section_header(
            once[k],
            header,
            category,
        ) by {
            lemma_first_counter_after_insert(listed, p, section, k);
        }
        lemma_section_count_inserted(listed, p, section, category);
    }
    assert(is_section_header(once[h], header, category));
    lemma_entry_keeps_other_lines(once, archive_dir, category, second_file, second_title);
    let c1 = with_counter_bumped(once);
    assert(c1[h] == once[h]);
    lemma_bump_keeps_count(once, category);
    lemma_first_section_exists(c1, header, category, h);
    lemma_with_entry_shape(c1, archive_dir, category, second_file, second_title);
    let q = choose|q: int| 0 <= q <= c1.len() && twice == inserted(c1, q, seq![entry2]);
    lemma_section_count_inserted(c1, q, seq![entry2], category);
}

} // verus!
