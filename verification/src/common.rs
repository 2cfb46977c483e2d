pub mod bit_set;
pub mod chat;
pub mod chunk;
pub mod command;
pub mod play;
pub mod registry;
