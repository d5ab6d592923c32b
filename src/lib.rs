//! A translation core between two chat-completion wire dialects: the
//! "Messages" dialect (M), whose responses are typed content blocks and whose
//! streams are named frames, and the "Chat Completions" dialect (C), whose
//! streams are deltas. It holds the JSON documents both speak, the request
//! translator (M to C), the response translator (C to M), the streaming
//! translator with its framing laws, and server-sent-event framing.
pub mod config;
pub mod json;
pub mod sanitize;
pub mod events;
pub mod ids;
pub mod signature;
pub mod stream;
pub mod stream_laws;
pub mod response;
pub mod request;
pub mod sse;
pub mod round_trip;
