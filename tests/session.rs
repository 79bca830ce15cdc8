use holocron::session::{truncate_for_context, LearningMode, Session};

#[test]
fn test_learning_mode_display_deep_dive() {
    let mode = LearningMode::DeepDive {
        topic: "Rust ownership".to_string(),
    };
    assert_eq!(mode.to_string(), "Deep Dive: Rust ownership");
}

#[test]
fn test_learning_mode_display_link() {
    let mode = LearningMode::Link {
        url: "https://example.com".to_string(),
    };
    assert_eq!(mode.to_string(), "Link Analysis: https://example.com");
}

#[test]
fn test_session_new() {
    let mode = LearningMode::DeepDive {
        topic: "test".to_string(),
    };
    let session = Session::new(mode.clone(), Some("rust".to_string()));

    assert_eq!(session.mode, mode);
    assert_eq!(session.category, Some("rust".to_string()));
    assert!(session.exchanges.is_empty());
    assert!(session.claude_session_id.is_none());
}

#[test]
fn test_session_add_exchange() {
    let mode = LearningMode::DeepDive {
        topic: "test".to_string(),
    };
    let mut session = Session::new(mode, None);

    session.add_exchange("Hello".to_string(), "Hi there".to_string());

    assert_eq!(session.exchanges.len(), 1);
    assert_eq!(session.exchanges[0].user_message, "Hello");
    assert_eq!(session.exchanges[0].assistant_response, "Hi there");
}

#[test]
fn test_session_set_session_id() {
    let mode = LearningMode::DeepDive {
        topic: "test".to_string(),
    };
    let mut session = Session::new(mode, None);

    session.set_session_id("abc123".to_string());

    assert_eq!(session.claude_session_id, Some("abc123".to_string()));
}

#[test]
fn test_session_topic_deep_dive() {
    let mode = LearningMode::DeepDive {
        topic: "Rust".to_string(),
    };
    let session = Session::new(mode, None);

    assert_eq!(session.topic(), "Rust");
}

#[test]
fn test_session_topic_link() {
    let mode = LearningMode::Link {
        url: "https://example.com".to_string(),
    };
    let session = Session::new(mode, None);

    assert_eq!(session.topic(), "https://example.com");
}

#[test]
fn test_build_til_context_with_category() {
    let mode = LearningMode::DeepDive {
        topic: "Git".to_string(),
    };
    let mut session = Session::new(mode, Some("git".to_string()));
    session.add_exchange(
        "How does rebase work?".to_string(),
        "Rebase replays commits...".to_string(),
    );

    let context = session.build_til_context();

    assert!(context.contains("Deep Dive: Git"));
    assert!(context.contains("Category: git"));
    assert!(context.contains("How does rebase work?"));
    assert!(context.contains("Rebase replays commits..."));
}

#[test]
fn test_build_til_context_without_category() {
    let mode = LearningMode::Link {
        url: "https://example.com".to_string(),
    };
    let session = Session::new(mode, None);

    let context = session.build_til_context();

    assert!(context.contains("Link Analysis: https://example.com"));
    assert!(!context.contains("Category:"));
}

#[test]
fn test_truncate_for_context_short() {
    let result = truncate_for_context("short", 100);
    assert_eq!(result, "short");
}

#[test]
fn test_truncate_for_context_long() {
    let long_text = "a".repeat(600);
    let result = truncate_for_context(&long_text, 500);

    assert_eq!(result.len(), 503);
    assert!(result.ends_with("..."));
}

#[test]
fn truncate_at_exact_limit_keeps_text() {
    let text = "b".repeat(500);
    assert_eq!(truncate_for_context(&text, 500), text);
    assert_eq!(truncate_for_context("", 0), "");
    assert_eq!(truncate_for_context("xy", 0), "...");
}

#[test]
fn truncate_counts_characters() {
    assert_eq!(truncate_for_context("héllo", 2), "hé...");
}

#[test]
fn context_is_exact_and_numbers_exchanges() {
    let mode = LearningMode::DeepDive {
        topic: "Git".to_string(),
    };
    let mut session = Session::new(mode, Some("git".to_string()));
    session.add_exchange("Q1".to_string(), "A1".to_string());
    session.add_exchange("Q2".to_string(), "x".repeat(501));
    let context = session.build_til_context();
    let expected = format!(
        "Learning Session: Deep Dive: Git\n\nCategory: git\n\nConversation Summary:\n\n--- Exchange 1 ---\nUser: Q1\nAssistant: A1\n\n--- Exchange 2 ---\nUser: Q2\nAssistant: {}...\n",
        "x".repeat(500)
    );
    assert_eq!(context, expected);
}

#[test]
fn turn_args_start_then_resume() {
    let mode = LearningMode::Link {
        url: "https://example.com".to_string(),
    };
    let mut session = Session::new(mode, None);
    assert_eq!(
        session.turn_args("hi"),
        vec!["--print", "--output-format", "stream-json", "--verbose", "hi"]
    );
    session.complete_turn("hi".to_string(), "hello".to_string(), Some("s1".to_string()));
    assert_eq!(session.claude_session_id, Some("s1".to_string()));
    assert_eq!(
        session.turn_args("more"),
        vec!["--print", "--output-format", "stream-json", "--verbose", "--resume", "s1", "more"]
    );
    session.complete_turn("more".to_string(), "ok".to_string(), Some("s2".to_string()));
    assert_eq!(session.claude_session_id, Some("s1".to_string()));
    assert_eq!(session.exchanges.len(), 2);
    assert_eq!(session.exchanges[1].assistant_response, "ok");
}
