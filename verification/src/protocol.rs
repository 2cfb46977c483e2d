pub mod bit_storage;
pub mod handshake;
pub mod login;
pub mod mappings;
pub mod play;
pub mod status;
