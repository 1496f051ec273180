//! An interactive terminal chat client, verified at its core.
//!
//! The library holds the logic of the client: the segment scanner that
//! classifies streamed text into prose, fenced code and reasoning asides,
//! the line composer that turns segments into wrapped styled display
//! lines, the conversation state with its scroll discipline, the stream
//! decoder, and the event-loop transitions. Terminal and network plumbing
//! live outside the library and hand it plain values.

pub mod app_state;
pub mod text;
pub mod scanner;
pub mod aside;
pub mod cancel;
pub mod compose;
pub mod config;
pub mod events;
pub mod stream;
