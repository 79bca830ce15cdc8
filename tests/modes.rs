use holocron::modes::{build_deep_dive_prompt, build_link_prompt};

#[test]
fn test_build_deep_dive_prompt_contains_topic() {
    let prompt = build_deep_dive_prompt("Rust ownership");
    assert!(prompt.contains("Rust ownership"));
}

#[test]
fn test_build_deep_dive_prompt_contains_sections() {
    let prompt = build_deep_dive_prompt("test");
    assert!(prompt.contains("Core concepts"));
    assert!(prompt.contains("Practical examples"));
    assert!(prompt.contains("Common use cases"));
    assert!(prompt.contains("Common pitfalls"));
}

#[test]
fn test_build_link_prompt_contains_url() {
    let prompt = build_link_prompt("https://example.com/article");
    assert!(prompt.contains("https://example.com/article"));
}

#[test]
fn test_build_link_prompt_contains_sections() {
    let prompt = build_link_prompt("https://test.com");
    assert!(prompt.contains("brief summary"));
    assert!(prompt.contains("Key technical concepts"));
    assert!(prompt.contains("Practical takeaways"));
    assert!(prompt.contains("WebFetch"));
}

#[test]
fn deep_dive_prompt_opens_with_topic() {
    let prompt = build_deep_dive_prompt("lifetimes");
    assert!(prompt.starts_with("I want to learn about: lifetimes\n\nPlease explain"));
    assert!(prompt.ends_with("specific aspects."));
}
