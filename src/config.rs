//! The tool's settings: where the entry repository and the notes live, and
//! the notes format.
use vstd::prelude::*;
use crate::text::{
    chars_of, lower_of, lowercase, starts_with,
};

verus! {

/// The flavour of markdown the notes are written for.
#[derive(Debug, Clone, Copy, PartialEq, Eq)]
pub enum NotesFormat {
    Obsidian,
    Logseq,
    Plain,
}

/// The name of a notes format, as configured.
pub open spec fn format_name(f: NotesFormat) -> Seq<char> {
    match f {
        NotesFormat::Obsidian => "obsidian"@,
        NotesFormat::Logseq => "logseq"@,
        NotesFormat::Plain => "plain"@,
    }
}

impl NotesFormat {
    /// The name of the format: `"obsidian"`, `"logseq"` or `"plain"`.
    pub fn to_string(&self) -> (r: String)
        ensures
            r@ == format_name(*self),
    {
        match self {
            NotesFormat::Obsidian => String::from_str("obsidian"),
            NotesFormat::Logseq => String::from_str("logseq"),
            NotesFormat::Plain => String::from_str("plain"),
        }
    }

    /// The format named `name`, in any letter case.
    pub fn parse(name: &str) -> (r: Option<NotesFormat>)
        ensures
            match r {
                Some(f) => format_name(f) == lower_of(name@),
                None => forall|f: NotesFormat| format_name(f) != lower_of(name@),
            },
    {
        let lower = lowercase(name);
        if lower == String::from_str("obsidian") {
            Some(NotesFormat::Obsidian)
        } else if lower == String::from_str("logseq") {
            Some(NotesFormat::Logseq)
        } else if lower == String::from_str("plain") {
            Some(NotesFormat::Plain)
        } else {
            proof {
                assert forall|f: NotesFormat| format_name(f) != lower_of(name@) by {
                    match f {
                        NotesFormat::Obsidian => {},
                        NotesFormat::Logseq => {},
                        NotesFormat::Plain => {},
                    }
                }
            }
            None
        }
    }
}

impl Default for NotesFormat {
    fn default() -> (r: Self)
        ensures
            r == NotesFormat::Obsidian,
    {
        NotesFormat::Obsidian
    }
}

/// The archive directory used when none is configured.
pub fn default_archive_dir() -> (r: String)
    ensures
        r@ == "archive"@,
{
    String::from_str("archive")
}

/// The notes format used when none is configured.
pub fn default_notes_format() -> (r: NotesFormat)
    ensures
        r == NotesFormat::Obsidian,
{
    NotesFormat::Obsidian
}

/// The settings. Paths are kept as text.
#[derive(Debug, Clone)]
pub struct Config {
    /// The entry repository.
    pub til_path: String,
    /// The directory within it that holds the entries.
    pub archive_dir: String,
    /// The notes repository, if there is one.
    pub notes_path: Option<String>,
    pub notes_format: NotesFormat,
}

/// `part` appended to the path `base` as `Path::join` does on Unix: an
/// absolute `part` replaces `base`, and a `'/'` is put between them unless
/// `base` is empty or already ends with one.
pub open spec fn path_join(base: Seq<char>, part: Seq<char>) -> Seq<char> {
    if starts_with(part, "/"@) {
        part
    } else if base.len() > 0 && base.last() != '/' {
        base + "/"@ + part
    } else {
        base + part
    }
}

/// `Path::join` on paths held as text.
pub fn join_path(base: &str, part: &str) -> (r: String)
    ensures
        r@ == path_join(base@, part@),
{
    let p = chars_of(part);
    let b = chars_of(base);
    proof {
        reveal_strlit("/");
    }
    if p.len() > 0 && p[0] == '/' {
        assert(part@.subrange(0, 1) =~= "/"@);
        return String::from_str(part);
    }
    assert(!starts_with(part@, "/"@)) by {
        if starts_with(part@, "/"@) {
            assert(part@.subrange(0, 1)[0] == "/"@[0]);
        }
    }
    let mut r = String::from_str(base);
    if b.len() > 0 && b[b.len() - 1] != '/' {
        r.append("/");
    }
    r.append(part);
    r
}

/// The hidden directory of the generation program `program` inside a
/// repository: a dot, then the program's name.
pub open spec fn tool_dir(program: Seq<char>) -> Seq<char> {
    "."@ + program
}

fn tool_dir_name(program: &str) -> (r: String)
    ensures
        r@ == tool_dir(program@),
{
    let mut r = String::from_str(".");
    r.append(program);
    r
}

impl Config {
    /// Settings for the entry repository at `til_path`, with the default
    /// archive directory and notes format and no notes repository.
    pub fn new(til_path: String) -> (r: Self)
        ensures
            r.til_path == til_path,
            r.archive_dir@ == "archive"@,
            r.notes_path is None,
            r.notes_format == NotesFormat::Obsidian,
    {
        Config {
            til_path,
            archive_dir: default_archive_dir(),
            notes_path: None,
            notes_format: default_notes_format(),
        }
    }

    /// The directory that holds the entries.
    pub fn archive_path(&self) -> (r: String)
        ensures
            r@ == path_join(self.til_path@, self.archive_dir@),
    {
        join_path(self.til_path.as_str(), self.archive_dir.as_str())
    }

    /// Where the entry-generation instructions for the generation program
    /// `program` live in the repository.
    pub fn til_skill_path(&self, program: &str) -> (r: String)
        ensures
            r@ == path_join(path_join(path_join(self.til_path@, tool_dir(program@)), "commands"@), "til.md"@),
    {
        let a = join_path(self.til_path.as_str(), tool_dir_name(program).as_str());
        let b = join_path(a.as_str(), "commands");
        join_path(b.as_str(), "til.md")
    }

    /// Where the note-generation instructions for the generation program
    /// `program` live in the repository.
    pub fn note_skill_path(&self, program: &str) -> (r: String)
        ensures
            r@ == path_join(path_join(path_join(self.til_path@, tool_dir(program@)), "commands"@), "note.md"@),
    {
        let a = join_path(self.til_path.as_str(), tool_dir_name(program).as_str());
        let b = join_path(a.as_str(), "commands");
        join_path(b.as_str(), "note.md")
    }
}

} // verus!
