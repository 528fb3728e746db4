//! The chunks of a Chat Completions stream.

use vstd::prelude::*;

verus! {

/// One chunk of a stream.
#[derive(Debug)]
pub struct ChatChunk {
    pub id: Option<String>,
    pub model: Option<String>,
    pub choices: Vec<ChatChoice>,
    pub usage: Option<ChatUsage>,
}

#[derive(Debug)]
pub struct ChatChoice {
    pub index: u32,
    pub delta: ChatDelta,
    pub finish_reason: Option<String>,
}

/// What a chunk adds to the answer.
#[derive(Debug, Default)]
pub struct ChatDelta {
    pub role: Option<String>,
    pub content: Option<String>,
    pub tool_calls: Option<Vec<ChatToolCall>>,
    pub reasoning_content: Option<String>,
}

/// A piece of the tool call number `index`.
#[derive(Debug)]
pub struct ChatToolCall {
    pub index: u32,
    pub id: Option<String>,
    pub function: Option<ChatToolCallFunction>,
}

#[derive(Debug, Default)]
pub struct ChatToolCallFunction {
    pub name: Option<String>,
    pub arguments: Option<String>,
}

#[derive(Debug)]
pub struct ChatUsage {
    pub prompt_tokens: u64,
    pub completion_tokens: u64,
    pub total_tokens: u64,
}

} // verus!
