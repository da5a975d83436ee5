//! Chat messages for the `OpenRouter` request that generates seed content.
use vstd::prelude::*;

use crate::seed::config::SeedConfig;
use crate::text::{decimal, string_of, usize_to_decimal};

verus! {

/// A single chat message in the `OpenRouter` request/response.
pub struct ChatMessage {
    pub role: String,
    pub content: String,
}

/// Text of the user prompt before the requested room count.
pub open spec fn spec_prompt_head() -> Seq<char> {
    "Generate exactly "@
}

/// Text of the user prompt after the requested room count.
pub open spec fn spec_prompt_tail() -> Seq<char> {
    " community governance rooms. Each room must have 2-3 polls, and each poll must have 3-5 dimensions.\n\nRespond with ONLY valid JSON matching this schema:\n{\n  \"rooms\": [\n    {\n      \"name\": \"Room Name\",\n      \"description\": \"Room description\",\n      \"polls\": [\n        {\n          \"question\": \"Poll question?\",\n          \"description\": \"Poll description\",\n          \"dimensions\": [\n            {\n              \"name\": \"Dimension Name\",\n              \"description\": \"What this dimension measures\",\n              \"min\": 0.0,\n              \"max\": 10.0\n            }\n          ]\n        }\n      ]\n    }\n  ]\n}"@
}

/// The user prompt asking for `rooms_needed` rooms: the prompt template with
/// its single `{N}` placeholder replaced by the decimal count.
pub open spec fn spec_user_prompt(rooms_needed: nat) -> Seq<char> {
    spec_prompt_head() + decimal(rooms_needed) + spec_prompt_tail()
}

/// Build the system and user messages for the LLM request.
pub fn build_messages(config: &SeedConfig, rooms_needed: usize) -> (messages: Vec<ChatMessage>)
    ensures
        messages.len() == 2,
        messages[0].role@ == "system"@,
        messages[0].content@ == config.system_prompt@,
        messages[1].role@ == "user"@,
        messages[1].content@ == spec_user_prompt(rooms_needed as nat),
{
    let mut user_content = string_of("Generate exactly ");
    let count = usize_to_decimal(rooms_needed);
    user_content.append(count.as_str());
    user_content.append(" community governance rooms. Each room must have 2-3 polls, and each poll must have 3-5 dimensions.\n\nRespond with ONLY valid JSON matching this schema:\n{\n  \"rooms\": [\n    {\n      \"name\": \"Room Name\",\n      \"description\": \"Room description\",\n      \"polls\": [\n        {\n          \"question\": \"Poll question?\",\n          \"description\": \"Poll description\",\n          \"dimensions\": [\n            {\n              \"name\": \"Dimension Name\",\n              \"description\": \"What this dimension measures\",\n              \"min\": 0.0,\n              \"max\": 10.0\n            }\n          ]\n        }\n      ]\n    }\n  ]\n}");
    let mut messages: Vec<ChatMessage> = Vec::new();
    messages.push(ChatMessage { role: string_of("system"), content: config.system_prompt.clone() });
    messages.push(ChatMessage { role: string_of("user"), content: user_content });
    messages
}

} // verus!
