//! Encrypted virtual file system: the container format, its chunked
//! authenticated encryption, key derivation, and the browsing logic of the
//! desktop client.
pub mod bytes;
pub mod crypto;
pub mod chunk;
pub mod paths;
pub mod deflate;
pub mod format;
pub mod vault;
pub mod worker;
pub mod gui;
pub mod handler;
pub mod text;
pub mod sorted;
pub mod gif_player;
pub mod ui;
