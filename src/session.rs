//! The record of one learning conversation.
use vstd::prelude::*;
use crate::claude::{
    opt_view, turn_args, turn_arguments,
};
use crate::text::{
    decimal, decimal_chars, push_chars, views,
};

verus! {

/// What a conversation is about: a topic to study, or a resource to read.
#[derive(Debug, Clone, PartialEq)]
pub enum LearningMode {
    DeepDive { topic: String },
    Link { url: String },
}

/// The label of a mode, as shown to the user and to the model.
pub open spec fn mode_label(mode: LearningMode) -> Seq<char> {
    match mode {
        LearningMode::DeepDive { topic } => "Deep Dive: "@ + topic@,
        LearningMode::Link { url } => "Link Analysis: "@ + url@,
    }
}

impl LearningMode {
    /// The label of the mode: `"Deep Dive: <topic>"` or
    /// `"Link Analysis: <url>"`.
    pub fn to_string(&self) -> (r: String)
        ensures
            r@ == mode_label(*self),
    {
        match self {
            LearningMode::DeepDive { topic } => {
                let mut r = String::from_str("Deep Dive: ");
                r.append(topic.as_str());
                r
            },
            LearningMode::Link { url } => {
                let mut r = String::from_str("Link Analysis: ");
                r.append(url.as_str());
                r
            },
        }
    }
}

/// One question of the user and the answer it got.
#[derive(Debug, Clone)]
pub struct Exchange {
    pub user_message: String,
    pub assistant_response: String,
}

/// One conversation: its subject, optional category, the exchanges in the
/// order they happened, and the continuation token of the external process
/// once the first turn has given one.
#[derive(Debug)]
pub struct Session {
    pub mode: LearningMode,
    pub category: Option<String>,
    pub exchanges: Vec<Exchange>,
    pub claude_session_id: Option<String>,
}

/// How many characters of an answer the summary keeps.
pub const CONTEXT_RESPONSE_LIMIT: usize = 500;

/// `s` cut to `max_len` characters, with `"..."` after a cut.
pub open spec fn truncated(s: Seq<char>, max_len: nat) -> Seq<char> {
    if s.len() <= max_len {
        s
    } else {
        s.subrange(0, max_len as int) + "..."@
    }
}

/// The summary block of the exchange at position `i` (counted from zero).
pub open spec fn exchange_block(i: nat, e: Exchange) -> Seq<char> {
    "\n--- Exchange "@ + decimal(i + 1) + " ---\n"@ + "User: "@ + e.user_message@ + "\n"@
        + "Assistant: "@ + truncated(e.assistant_response@, CONTEXT_RESPONSE_LIMIT as nat) + "\n"@
}

/// The summary blocks of all exchanges, in order.
pub open spec fn exchanges_text(es: Seq<Exchange>) -> Seq<char>
    decreases es.len(),
{
    if es.len() == 0 {
        seq![]
    } else {
        exchanges_text(es.drop_last()) + exchange_block((es.len() - 1) as nat, es.last())
    }
}

/// The category line of the summary, when there is a category.
pub open spec fn category_text(category: Option<String>) -> Seq<char> {
    match category {
        Some(c) => "Category: "@ + c@ + "\n\n"@,
        None => seq![],
    }
}

/// The summary of a conversation handed to the generation step.
pub open spec fn til_context(s: Session) -> Seq<char> {
    "Learning Session: "@ + mode_label(s.mode) + "\n\n"@ + category_text(s.category)
        + "Conversation Summary:\n"@ + exchanges_text(s.exchanges@)
}

/// The answer cut to at most `max_len` characters; a cut adds `"..."`.
pub fn truncate_for_context(s: &str, max_len: usize) -> (r: String)
    ensures
        r@ == truncated(s@, max_len as nat),
{
    if s.unicode_len() <= max_len {
        String::from_str(s)
    } else {
        let mut r = String::from_str(s.substring_char(0, max_len));
        r.append("...");
        r
    }
}

impl Session {
    /// A conversation with no exchanges and no continuation token yet.
    pub fn new(mode: LearningMode, category: Option<String>) -> (r: Self)
        ensures
            r.mode == mode,
            r.category == category,
            r.exchanges@.len() == 0,
            r.claude_session_id is None,
    {
        Session { mode, category, exchanges: Vec::new(), claude_session_id: None }
    }

    /// Appends one exchange; nothing else changes.
    pub fn add_exchange(&mut self, user_message: String, assistant_response: String)
        ensures
            final(self).exchanges@ == old(self).exchanges@.push(
                (Exchange { user_message, assistant_response }),
            ),
            final(self).mode == old(self).mode,
            final(self).category == old(self).category,
            final(self).claude_session_id == old(self).claude_session_id,
    {
        self.exchanges.push(Exchange { user_message, assistant_response });
    }

    /// Records the continuation token; nothing else changes.
    pub fn set_session_id(&mut self, session_id: String)
        ensures
            final(self).claude_session_id == Some(session_id),
            final(self).mode == old(self).mode,
            final(self).category == old(self).category,
            final(self).exchanges@ == old(self).exchanges@,
    {
        self.claude_session_id = Some(session_id);
    }

    /// The summary of the conversation: a header naming the mode, the
    /// category line if any, then each exchange in order with the answer
    /// cut to the context limit.
    pub fn build_til_context(&self) -> (r: String)
        ensures
            r@ == til_context(*self),
    {
        let mut context = String::from_str("Learning Session: ");
        context.append(self.mode.to_string().as_str());
        context.append("\n\n");
        match &self.category {
            Some(cat) => {
                context.append("Category: ");
                context.append(cat.as_str());
                context.append("\n\n");
            },
            None => {},
        }
        context.append("Conversation Summary:\n");
        let ghost head = context@;
        let mut i: usize = 0;
        while i < self.exchanges.len()
            invariant
                i <= self.exchanges@.len(),
                context@ == head + exchanges_text(self.exchanges@.subrange(0, i as int)),
            decreases self.exchanges@.len() - i,
        {
            let exchange = &self.exchanges[i];
            context.append("\n--- Exchange ");
            push_chars(&mut context, &decimal_chars(i as u64 + 1));
            context.append(" ---\n");
            context.append("User: ");
            context.append(exchange.user_message.as_str());
            context.append("\n");
            context.append("Assistant: ");
            context.append(
                truncate_for_context(exchange.assistant_response.as_str(), CONTEXT_RESPONSE_LIMIT).as_str(),
            );
            context.append("\n");
            proof {
                let next = self.exchanges@.subrange(0, i + 1);
                assert(next.drop_last() =~= self.exchanges@.subrange(0, i as int));
            }
            i += 1;
        }
        assert(self.exchanges@.subrange(0, self.exchanges@.len() as int) =~= self.exchanges@);
        context
    }

    /// The subject of the conversation: its topic or its URL.
    pub fn topic(&self) -> (r: &str)
        ensures
            r@ == match self.mode {
                LearningMode::DeepDive { topic } => topic@,
                LearningMode::Link { url } => url@,
            },
    {
        match &self.mode {
            LearningMode::DeepDive { topic } => topic.as_str(),
            LearningMode::Link { url } => url.as_str(),
        }
    }

    /// The arguments for the next turn with `message`: a continuation of
    /// this conversation once it has a token, else a fresh start.
    pub fn turn_args(&self, message: &str) -> (r: Vec<String>)
        ensures
            views(r@) == turn_arguments(opt_view(self.claude_session_id), message@),
    {
        turn_args(&self.claude_session_id, message)
    }

    /// Records a finished turn: the exchange is appended, and the token the
    /// turn returned is kept when the conversation had none yet.
    pub fn complete_turn(&mut self, user_message: String, response: String, token: Option<String>)
        ensures
            final(self).exchanges@ == old(self).exchanges@.push(
                (Exchange { user_message, assistant_response: response }),
            ),
            final(self).claude_session_id == match old(self).claude_session_id {
                Some(id) => Some(id),
                None => token,
            },
            final(self).mode == old(self).mode,
            final(self).category == old(self).category,
    {
        if self.claude_session_id.is_none() {
            match token {
                Some(id) => self.set_session_id(id),
                None => {},
            }
        }
        self.add_exchange(user_message, response);
    }
}

} // verus!
