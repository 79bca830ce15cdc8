use holocron::claude::{
    collect_stream, resume_args, start_args, turn_args, AssistantMessage, ContentBlock,
    StreamMessage, StreamState,
};

fn assistant(texts: &[&str]) -> StreamMessage {
    let mut content = Vec::new();
    for t in texts {
        content.push(ContentBlock::Text { text: t.to_string() });
        content.push(ContentBlock::Other);
    }
    StreamMessage::Assistant {
        message: AssistantMessage { content },
    }
}

#[test]
fn stream_with_unreadable_line() {
    let events = vec![
        Some(assistant(&["Hello, ", "world"])),
        None,
        Some(StreamMessage::Result {
            result: "done".to_string(),
            session_id: "sess-1".to_string(),
        }),
    ];
    let (text, token) = collect_stream(events);
    assert_eq!(text, "Hello, world");
    assert_eq!(token, Some("sess-1".to_string()));
}

#[test]
fn stream_last_result_wins_and_noise_ignored() {
    let events = vec![
        Some(StreamMessage::System {}),
        Some(StreamMessage::Result {
            result: String::new(),
            session_id: "a".to_string(),
        }),
        Some(StreamMessage::Unknown),
        Some(assistant(&["x"])),
        Some(StreamMessage::Result {
            result: String::new(),
            session_id: "b".to_string(),
        }),
    ];
    let (text, token) = collect_stream(events);
    assert_eq!(text, "x");
    assert_eq!(token, Some("b".to_string()));
}

#[test]
fn empty_stream() {
    let (text, token) = collect_stream(Vec::new());
    assert_eq!(text, "");
    assert_eq!(token, None);
}

#[test]
fn apply_returns_fragments_in_order() {
    let mut state = StreamState::new();
    let fragments = state.apply(Some(assistant(&["a", "b"])));
    assert_eq!(fragments, vec!["a".to_string(), "b".to_string()]);
    let none = state.apply(None);
    assert!(none.is_empty());
    assert_eq!(state.full_response, "ab");
    assert_eq!(state.session_id, None);
}

#[test]
fn process_arguments() {
    assert_eq!(
        start_args("hello"),
        vec!["--print", "--output-format", "stream-json", "--verbose", "hello"]
    );
    assert_eq!(
        resume_args("id9", "next"),
        vec!["--print", "--output-format", "stream-json", "--verbose", "--resume", "id9", "next"]
    );
    assert_eq!(turn_args(&None, "m"), start_args("m"));
    assert_eq!(turn_args(&Some("t".to_string()), "m"), resume_args("t", "m"));
}
