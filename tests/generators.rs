use holocron::notes::generator as note_generator;
use holocron::session::{LearningMode, Session};
use holocron::til::generator as entry_generator;

fn session() -> Session {
    let mut s = Session::new(
        LearningMode::DeepDive {
            topic: "Git".to_string(),
        },
        Some("git".to_string()),
    );
    s.add_exchange("Q".to_string(), "A".to_string());
    s
}

#[test]
fn entry_prompt_wraps_context() {
    let s = session();
    let prompt = entry_generator::build_generation_prompt(&s);
    assert!(prompt.starts_with("Based on our learning session, generate a TIL (Today I Learned) entry.\n\n"));
    assert!(prompt.contains(&s.build_til_context()));
    assert!(prompt.ends_with("with working code examples."));
}

#[test]
fn note_prompt_wraps_context() {
    let s = session();
    let prompt = note_generator::build_generation_prompt(&s);
    assert!(prompt.starts_with("Based on our learning session, generate a comprehensive knowledge base note.\n\n"));
    assert!(prompt.contains(&s.build_til_context()));
    assert!(prompt.ends_with("- Related topics as wiki-links"));
}

#[test]
fn generation_args_follow_session_token() {
    let mut s = session();
    let fresh = entry_generator::generation_args(&s);
    assert_eq!(fresh.len(), 5);
    assert_eq!(fresh[4], entry_generator::build_generation_prompt(&s));
    s.set_session_id("tok".to_string());
    let resumed = note_generator::generation_args(&s);
    assert_eq!(resumed.len(), 7);
    assert_eq!(resumed[4], "--resume");
    assert_eq!(resumed[5], "tok");
    assert_eq!(resumed[6], note_generator::build_generation_prompt(&s));
}
