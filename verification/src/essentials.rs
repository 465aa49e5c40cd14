//! The modules every bot has: the event handlers and the basic commands.
pub mod on_event;
pub mod on_message;
