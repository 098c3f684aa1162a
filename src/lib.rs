//! Session-state tracker for tabletop role-playing groups: characters, their
//! stats and effects, the command grammar that edits them, the resolution of
//! formula stats, and the pin-as-pointer protocol that persists the document.

pub mod text;
pub mod stat;
pub mod command;
pub mod character;
pub mod omni;
pub mod resolve;
pub mod dice;
pub mod dispatch;
pub mod store;
pub mod command_words;
