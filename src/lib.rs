//! Tag groups for group chats: a command parser, a chat-scoped directory of
//! groups, hashtag resolution with member fan-out, the texts the bot sends,
//! and the counting of tracked words.

pub mod md_escape;
pub mod args;
pub mod tag;
pub mod directory;
pub mod mention;
pub mod reply;
pub mod words;
