//! A context-augmented chat session driver: prompt assembly over a fixed
//! verse document, chat-template token layout, a stop-aware answer stream
//! and the session controller's command state machine.

pub mod text;
pub mod context;
pub mod prompt;
pub mod chat;
pub mod stream;
pub mod session;
