use holocron::command::{parse_command, Command};

#[test]
fn exit_words_any_case() {
    assert_eq!(parse_command("/exit"), Command::Exit);
    assert_eq!(parse_command("  /QUIT "), Command::Exit);
}

#[test]
fn learn_and_link_take_trimmed_argument() {
    assert_eq!(
        parse_command("/learn   Rust ownership  "),
        Command::Learn {
            topic: "Rust ownership".to_string()
        }
    );
    assert_eq!(
        parse_command("/link https://example.com"),
        Command::Link {
            url: "https://example.com".to_string()
        }
    );
}

#[test]
fn bare_prefix_is_a_message_after_trimming() {
    assert_eq!(
        parse_command("/learn   "),
        Command::Message {
            text: "/learn".to_string()
        }
    );
}

#[test]
fn prefixes_are_case_sensitive() {
    assert_eq!(
        parse_command("/LEARN x"),
        Command::Message {
            text: "/LEARN x".to_string()
        }
    );
}

#[test]
fn generation_commands() {
    assert_eq!(parse_command("/til"), Command::Til);
    assert_eq!(parse_command("/Note"), Command::Note);
    assert_eq!(
        parse_command("  what about rebase? "),
        Command::Message {
            text: "what about rebase?".to_string()
        }
    );
}

#[test]
fn unicode_spaces_in_arguments() {
    assert_eq!(parse_command("/learn \u{200B}"), Command::Learn { topic: "\u{200B}".to_string() });
    assert_eq!(parse_command("/link \u{3000}x"), Command::Link { url: "x".to_string() });
}
