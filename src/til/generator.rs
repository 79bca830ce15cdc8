//! The request that asks the model for an entry.
use vstd::prelude::*;
use crate::claude::{
    opt_view, turn_arguments,
};
use crate::session::{
    Session, til_context,
};
use crate::text::views;

verus! {

/// What precedes the conversation summary in the request.
pub const ENTRY_REQUEST_HEAD: &'static str = "Based on our learning session, generate a TIL (Today I Learned) entry.\n\n";

/// What follows the conversation summary in the request.
pub const ENTRY_REQUEST_TAIL: &'static str = "\n\nUse /til to generate the markdown content. The TIL should capture the most important, actionable learning from this session - something someone could quickly reference later.\n\nFocus on the practical \"how to\" aspect with working code examples.";

pub open spec fn entry_request(session: Session) -> Seq<char> {
    ENTRY_REQUEST_HEAD@ + til_context(session) + ENTRY_REQUEST_TAIL@
}

/// The request for an entry: the conversation summary between fixed
/// instructions.
pub fn build_generation_prompt(session: &Session) -> (r: String)
    ensures
        r@ == entry_request(*session),
{
    let mut r = String::from_str(ENTRY_REQUEST_HEAD);
    r.append(session.build_til_context().as_str());
    r.append(ENTRY_REQUEST_TAIL);
    r
}

/// The process arguments that ask for an entry: within the conversation
/// when it has a continuation token, else afresh.
pub fn generation_args(session: &Session) -> (r: Vec<String>)
    ensures
        views(r@) == turn_arguments(opt_view(session.claude_session_id), entry_request(*session)),
{
    session.turn_args(build_generation_prompt(session).as_str())
}

} // verus!
