//! The streaming protocol of the external text-generation process: its
//! arguments, and how its events become the response text and the
//! continuation token.
use vstd::prelude::*;
use crate::text::views;

verus! {

/// One block of an assistant message.
#[derive(Debug)]
pub enum ContentBlock {
    Text { text: String },
    Other,
}

/// The content of an assistant event.
#[derive(Debug)]
pub struct AssistantMessage {
    pub content: Vec<ContentBlock>,
}

/// One event of the stream, one per line of output.
#[derive(Debug)]
pub enum StreamMessage {
    /// Start-up information, ignored.
    System {},
    /// A piece of the model's answer.
    Assistant { message: AssistantMessage },
    /// The end of a turn, with the continuation token.
    Result { result: String, session_id: String },
    /// Any other kind of event, ignored.
    Unknown,
}

/// The texts of the text blocks, in order.
pub open spec fn block_texts(blocks: Seq<ContentBlock>) -> Seq<Seq<char>>
    decreases blocks.len(),
{
    if blocks.len() == 0 {
        seq![]
    } else {
        let rest = block_texts(blocks.drop_last());
        match blocks.last() {
            ContentBlock::Text { text } => rest.push(text@),
            ContentBlock::Other => rest,
        }
    }
}

/// The strings one after the other.
pub open spec fn concat(ss: Seq<Seq<char>>) -> Seq<char>
    decreases ss.len(),
{
    if ss.len() == 0 {
        seq![]
    } else {
        concat(ss.drop_last()) + ss.last()
    }
}

/// The text fragments an event carries; `None` stands for a line that is
/// not an event.
pub open spec fn event_fragments(event: Option<StreamMessage>) -> Seq<Seq<char>> {
    match event {
        Some(StreamMessage::Assistant { message }) => block_texts(message.content@),
        _ => seq![],
    }
}

/// The response text of a stream: every text fragment, in order.
pub open spec fn stream_text(events: Seq<Option<StreamMessage>>) -> Seq<char>
    decreases events.len(),
{
    if events.len() == 0 {
        seq![]
    } else {
        stream_text(events.drop_last()) + concat(event_fragments(events.last()))
    }
}

/// The continuation token of a stream: that of its last result event.
pub open spec fn stream_token(events: Seq<Option<StreamMessage>>) -> Option<Seq<char>>
    decreases events.len(),
{
    if events.len() == 0 {
        None
    } else {
        match events.last() {
            Some(StreamMessage::Result { result, session_id }) => Some(session_id@),
            _ => stream_token(events.drop_last()),
        }
    }
}

pub open spec fn opt_view(o: Option<String>) -> Option<Seq<char>> {
    match o {
        Some(s) => Some(s@),
        None => None,
    }
}

/// What has been read of a stream so far.
pub struct StreamState {
    pub full_response: String,
    pub session_id: Option<String>,
}

impl StreamState {
    /// The state before any line is read.
    pub fn new() -> (r: Self)
        ensures
            r.full_response@ == Seq::<char>::empty(),
            r.session_id is None,
    {
        StreamState { full_response: String::new(), session_id: None }
    }

    /// Takes in one line's event (`None` for a line that did not parse,
    /// which changes nothing). Text fragments are appended to the response
    /// and returned in order, for display; a result event's token replaces
    /// any earlier one.
    pub fn apply(&mut self, event: Option<StreamMessage>) -> (fragments: Vec<String>)
        ensures
            views(fragments@) == event_fragments(event),
            final(self).full_response@ == old(self).full_response@ + concat(event_fragments(event)),
            opt_view(final(self).session_id) == match event {
                Some(StreamMessage::Result { result, session_id }) => Some(session_id@),
                _ => opt_view(old(self).session_id),
            },
    {
        let mut fragments: Vec<String> = Vec::new();
        match event {
            Some(StreamMessage::Assistant { message }) => {
                let blocks = message.content;
                let ghost bs = blocks@;
                let ghost start = self.full_response@;
                let mut i: usize = 0;
                while i < blocks.len()
                    invariant
                        bs == blocks@,
                        i <= bs.len(),
                        views(fragments@) == block_texts(bs.subrange(0, i as int)),
                        self.full_response@ == start + concat(block_texts(bs.subrange(0, i as int))),
                        opt_view(self.session_id) == opt_view(old(self).session_id),
                    decreases bs.len() - i,
                {
                    proof {
                        assert(bs.subrange(0, i + 1).drop_last() =~= bs.subrange(0, i as int));
                    }
                    match &blocks[i] {
                        ContentBlock::Text { text } => {
                            self.full_response.append(text.as_str());
                            let ghost before = fragments@;
                            fragments.push(text.clone());
                            proof {
                                assert(views(fragments@) =~= views(before).push(text@));
                                let prev = block_texts(bs.subrange(0, i as int));
                                assert(prev.push(text@).drop_last() =~= prev);
                                assert(concat(prev.push(text@)) == concat(prev) + text@);
                                assert(start + concat(prev) + text@ =~= start + (concat(prev) + text@));
                            }
                        },
                        ContentBlock::Other => {},
                    }
                    i += 1;
                }
                assert(bs.subrange(0, bs.len() as int) =~= bs);
            },
            Some(StreamMessage::Result { result, session_id }) => {
                self.session_id = Some(session_id);
                assert(views(fragments@) =~= seq![]);
            },
            _ => {
                assert(views(fragments@) =~= seq![]);
            },
        }
        fragments
    }
}

/// Reads a whole stream: the response text and the continuation token.
pub fn collect_stream(events: Vec<Option<StreamMessage>>) -> (r: (String, Option<String>))
    ensures
        r.0@ == stream_text(events@),
        opt_view(r.1) == stream_token(events@),
{
    let ghost es = events@;
    let mut state = StreamState::new();
    proof {
        assert(es.subrange(0, 0) =~= seq![]);
        assert(stream_text(es.subrange(0, 0)) == Seq::<char>::empty());
    }
    for event in it: events
        invariant
            it.seq() == es,
            state.full_response@ == stream_text(es.subrange(0, it.index() as int)),
            opt_view(state.session_id) == stream_token(es.subrange(0, it.index() as int)),
    {
        proof {
            assert(es.subrange(0, it.index() + 1).drop_last() =~= es.subrange(0, it.index() as int));
        }
        let _fragments = state.apply(event);
    }
    assert(es.subrange(0, es.len() as int) =~= es);
    (state.full_response, state.session_id)
}

/// The arguments that start a conversation: streamed structured output,
/// full verbosity, then the message.
pub fn start_args(prompt: &str) -> (r: Vec<String>)
    ensures
        views(r@) == seq!["--print"@, "--output-format"@, "stream-json"@, "--verbose"@, prompt@],
{
    let r = vec![
        String::from_str("--print"),
        String::from_str("--output-format"),
        String::from_str("stream-json"),
        String::from_str("--verbose"),
        String::from_str(prompt),
    ];
    assert(views(r@) =~= seq!["--print"@, "--output-format"@, "stream-json"@, "--verbose"@, prompt@]);
    r
}

/// The arguments that continue the conversation of `session_id` with a new
/// message.
pub fn resume_args(session_id: &str, message: &str) -> (r: Vec<String>)
    ensures
        views(r@) == seq![
            "--print"@,
            "--output-format"@,
            "stream-json"@,
            "--verbose"@,
            "--resume"@,
            session_id@,
            message@,
        ],
{
    let r = vec![
        String::from_str("--print"),
        String::from_str("--output-format"),
        String::from_str("stream-json"),
        String::from_str("--verbose"),
        String::from_str("--resume"),
        String::from_str(session_id),
        String::from_str(message),
    ];
    assert(views(r@) =~= seq![
        "--print"@,
        "--output-format"@,
        "stream-json"@,
        "--verbose"@,
        "--resume"@,
        session_id@,
        message@,
    ]);
    r
}

/// The arguments for one turn with `message`: resume the conversation of
/// the continuation token when there is one, else start afresh.
pub open spec fn turn_arguments(session_id: Option<Seq<char>>, message: Seq<char>) -> Seq<Seq<char>> {
    match session_id {
        Some(id) => seq![
            "--print"@,
            "--output-format"@,
            "stream-json"@,
            "--verbose"@,
            "--resume"@,
            id,
            message,
        ],
        None => seq!["--print"@, "--output-format"@, "stream-json"@, "--verbose"@, message],
    }
}

/// The arguments for one turn: resume when a continuation token is known,
/// else start afresh.
pub fn turn_args(session_id: &Option<String>, message: &str) -> (r: Vec<String>)
    ensures
        views(r@) == turn_arguments(opt_view(*session_id), message@),
{
    match session_id {
        Some(id) => resume_args(id.as_str(), message),
        None => start_args(message),
    }
}

/// A stream made of an assistant event, a line that is not an event, and a
/// result event gives the assistant event's text fragments joined as its
/// response, and the result's token: the unreadable line costs nothing.
pub proof fn lemma_stream_skips_unreadable_lines(
    message: AssistantMessage,
    result: String,
    session_id: String,
)
    ensures
        ({
            let events = seq![
                Some(StreamMessage::Assistant { message }),
                None,
                Some(StreamMessage::Result { result, session_id }),
            ];
            &&& stream_text(events) == concat(block_texts(message.content@))
            &&& stream_token(events) == Some(session_id@)
        }),
{
    let m = message;
    let events = seq![
        Some(StreamMessage::Assistant { message: m }),
        None,
        Some(StreamMessage::Result { result, session_id }),
    ];
    let two = events.drop_last();
    let one = two.drop_last();
    assert(one =~= seq![Some(StreamMessage::Assistant { message: m })]);
    assert(one.drop_last() =~= seq![]);
    assert(stream_text(one.drop_last()) == Seq::<char>::empty());
    assert(one.last() == Some(StreamMessage::Assistant { message: m }));
    assert(stream_text(one) =~= concat(block_texts(m.content@)));
    assert(stream_text(two) =~= stream_text(one));
    assert(concat(event_fragments(events.last())) =~= seq![]);
    assert(stream_text(events) =~= stream_text(two));
}

} // verus!
