pub mod clientbound;
pub mod auth;
pub mod codec;
pub mod common;
pub mod crypto;
pub mod dump;
pub mod encoding;
pub mod encryption;
pub mod handshaking;
pub mod protocol;
pub mod registry;
pub mod status;
pub mod server_loop;
