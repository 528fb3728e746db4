//! Translation between the Responses API and the Chat Completions API.

pub mod balance_laws;
pub mod call_laws;
pub mod calls;
pub mod chat;
pub mod converter;
pub mod cut_laws;
pub mod described_laws;
pub mod event_laws;
pub mod events;
pub mod index_laws;
pub mod item_laws;
pub mod items;
pub mod message_laws;
pub mod request;
pub mod request_laws;
pub mod sent_laws;
pub mod shown_laws;
pub mod stream;
pub mod stream_laws;
pub mod stream_model;
pub mod tool_laws;
pub mod wire_laws;

pub use chat::ChatChoice;
pub use chat::ChatChunk;
pub use chat::ChatDelta;
pub use chat::ChatToolCall;
pub use chat::ChatToolCallFunction;
pub use chat::ChatUsage;
pub use converter::StreamConverter;
pub use events::format_sse_event;
pub use events::CompletedResponseBody;
pub use events::CreatedResponseBody;
pub use events::FailedResponseBody;
pub use events::ResponsesEvent;
pub use events::UsageSummary;
pub use request::translate_request;
pub use stream::ChatToResponsesStream;
