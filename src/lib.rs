//! Client-side logic for an OpenAI-compatible chat-completion API.
//!
//! The core is the streaming decoder: it turns the byte fragments of a
//! server-sent-events response into an ordered sequence of completion chunks,
//! merging tool-call pieces that arrive out of order and keeping the latest
//! token-usage report, with exactly one terminal chunk however the transport
//! ends. Around it stand the request-body builder and the decoder of
//! non-streaming answers, all over the plain JSON value type of `json`.
pub mod completion;
pub mod event;
pub mod json;
pub mod request;
pub mod stream;
pub mod tool_calls;
pub mod usage;
