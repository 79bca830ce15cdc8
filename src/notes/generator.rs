//! The request that asks the model for a note.
use vstd::prelude::*;
use crate::claude::{
    opt_view, turn_arguments,
};
use crate::session::{
    Session, til_context,
};
use crate::text::views;

verus! {

/// What precedes the conversation summary in the request.
pub const NOTE_REQUEST_HEAD: &'static str = "Based on our learning session, generate a comprehensive knowledge base note.\n\n";

/// What follows the conversation summary in the request.
pub const NOTE_REQUEST_TAIL: &'static str = "\n\nUse /note to generate the markdown content. The note should be thorough and detailed - this is for a personal knowledge base, not a quick reference.\n\nInclude:\n- YAML frontmatter with title, date, tags, and aliases\n- Detailed explanations of concepts\n- Code examples with annotations\n- Key insights from our Q&A\n- Related topics as wiki-links";

pub open spec fn note_request(session: Session) -> Seq<char> {
    NOTE_REQUEST_HEAD@ + til_context(session) + NOTE_REQUEST_TAIL@
}

/// The request for a note: the conversation summary between fixed
/// instructions.
pub fn build_generation_prompt(session: &Session) -> (r: String)
    ensures
        r@ == note_request(*session),
{
    let mut r = String::from_str(NOTE_REQUEST_HEAD);
    r.append(session.build_til_context().as_str());
    r.append(NOTE_REQUEST_TAIL);
    r
}

/// The process arguments that ask for a note: within the conversation when
/// it has a continuation token, else afresh.
pub fn generation_args(session: &Session) -> (r: Vec<String>)
    ensures
        views(r@) == turn_arguments(opt_view(session.claude_session_id), note_request(*session)),
{
    session.turn_args(build_generation_prompt(session).as_str())
}

} // verus!
