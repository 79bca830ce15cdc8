//! What a line typed at the interactive prompt asks for.
use vstd::prelude::*;
use crate::text::{
    chars_of, copy_range, has_prefix, starts_with, string_of, trim, trim_chars,
};
use crate::til::writer::{
    eq_ignore_ascii_case, eq_ignore_ascii_case_chars,
};

verus! {

/// A line typed at the prompt.
#[derive(Debug, PartialEq)]
pub enum Command {
    /// Leave the program.
    Exit,
    /// Start a deep dive into a topic.
    Learn { topic: String },
    /// Start the analysis of a resource.
    Link { url: String },
    /// `/learn` with nothing after it.
    MissingTopic,
    /// `/link` with nothing after it.
    MissingUrl,
    /// Generate an entry from the conversation.
    Til,
    /// Generate a note from the conversation.
    Note,
    /// Anything else: a message for the conversation.
    Message { text: String },
}

pub open spec fn is_exit(t: Seq<char>) -> bool {
    eq_ignore_ascii_case(t, "/quit"@) || eq_ignore_ascii_case(t, "/exit"@)
}

/// The argument of a `/learn ` line.
pub open spec fn learn_arg(t: Seq<char>) -> Seq<char> {
    trim(t.skip(7))
}

/// The argument of a `/link ` line.
pub open spec fn link_arg(t: Seq<char>) -> Seq<char> {
    trim(t.skip(6))
}

pub open spec fn is_learn(t: Seq<char>) -> bool {
    !is_exit(t) && starts_with(t, "/learn "@)
}

pub open spec fn is_link(t: Seq<char>) -> bool {
    !is_exit(t) && !starts_with(t, "/learn "@) && starts_with(t, "/link "@)
}

pub open spec fn is_plain(t: Seq<char>) -> bool {
    !is_exit(t) && !starts_with(t, "/learn "@) && !starts_with(t, "/link "@)
}

/// Reads a line typed at the prompt, once trimmed: `/quit` and `/exit`
/// leave, `/learn <topic>` and `/link <url>` start a conversation, `/til`
/// and `/note` generate (all ASCII case-insensitive but the two prefixes),
/// and anything else is a message.
pub fn parse_command(input: &str) -> (r: Command)
    ensures
        match r {
            Command::Exit => is_exit(trim(input@)),
            Command::Learn { topic } => is_learn(trim(input@)) && topic@ == learn_arg(trim(input@))
                && topic@.len() > 0,
            Command::MissingTopic => is_learn(trim(input@)) && learn_arg(trim(input@)).len() == 0,
            Command::Link { url } => is_link(trim(input@)) && url@ == link_arg(trim(input@))
                && url@.len() > 0,
            Command::MissingUrl => is_link(trim(input@)) && link_arg(trim(input@)).len() == 0,
            Command::Til => is_plain(trim(input@)) && eq_ignore_ascii_case(trim(input@), "/til"@),
            Command::Note => is_plain(trim(input@)) && !eq_ignore_ascii_case(trim(input@), "/til"@)
                && eq_ignore_ascii_case(trim(input@), "/note"@),
            Command::Message { text } => is_plain(trim(input@)) && !eq_ignore_ascii_case(
                trim(input@),
                "/til"@,
            ) && !eq_ignore_ascii_case(trim(input@), "/note"@) && text@ == trim(input@),
        },
{
    let t = trim_chars(&chars_of(input));
    if eq_ignore_ascii_case_chars(&t, &chars_of("/quit")) || eq_ignore_ascii_case_chars(
        &t,
        &chars_of("/exit"),
    ) {
        return Command::Exit;
    }
    if has_prefix(&t, &chars_of("/learn ")) {
        proof {
            reveal_strlit("/learn ");
        }
        let rest = copy_range(&t, 7, t.len());
        assert(rest@ =~= t@.skip(7));
        let topic = trim_chars(&rest);
        if topic.len() == 0 {
            return Command::MissingTopic;
        }
        return Command::Learn { topic: string_of(&topic) };
    }
    if has_prefix(&t, &chars_of("/link ")) {
        proof {
            reveal_strlit("/link ");
        }
        let rest = copy_range(&t, 6, t.len());
        assert(rest@ =~= t@.skip(6));
        let url = trim_chars(&rest);
        if url.len() == 0 {
            return Command::MissingUrl;
        }
        return Command::Link { url: string_of(&url) };
    }
    if eq_ignore_ascii_case_chars(&t, &chars_of("/til")) {
        return Command::Til;
    }
    if eq_ignore_ascii_case_chars(&t, &chars_of("/note")) {
        return Command::Note;
    }
    Command::Message { text: string_of(&t) }
}

} // verus!
