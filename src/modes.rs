//! The opening prompts of the two kinds of conversation.
use vstd::prelude::*;

verus! {

/// What follows the topic in a deep-dive opening prompt.
pub const DEEP_DIVE_REQUEST: &'static str = "\n\nPlease explain this topic in technical detail. Cover:\n1. Core concepts and how they work\n2. Practical examples with code where applicable\n3. Common use cases and best practices\n4. Common pitfalls to avoid\n\nBe thorough but focused. I'll ask follow-up questions to go deeper on specific aspects.";

/// What follows the URL in a link-analysis opening prompt.
pub const LINK_REQUEST: &'static str = "\n\nProvide:\n1. A brief summary of the main points\n2. Key technical concepts explained\n3. Practical takeaways or code examples if applicable\n4. Your assessment of what's most valuable to learn from this\n\nUse WebFetch to access the content, then explain it thoroughly. I'll ask follow-up questions about specific parts.";

/// The opening prompt of a deep dive into `topic`.
pub fn build_deep_dive_prompt(topic: &str) -> (r: String)
    ensures
        r@ == "I want to learn about: "@ + topic@ + DEEP_DIVE_REQUEST@,
{
    let mut r = String::from_str("I want to learn about: ");
    r.append(topic);
    r.append(DEEP_DIVE_REQUEST);
    r
}

/// The opening prompt of an analysis of the resource at `url`.
pub fn build_link_prompt(url: &str) -> (r: String)
    ensures
        r@ == "Please analyze this article/resource: "@ + url@ + LINK_REQUEST@,
{
    let mut r = String::from_str("Please analyze this article/resource: ");
    r.append(url);
    r.append(LINK_REQUEST);
    r
}

} // verus!
