//! Optional commands.
pub mod on_message;
