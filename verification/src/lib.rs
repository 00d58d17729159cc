//! Verified core of envlock: the rules behind encrypting, decrypting and
//! injecting `.env` files, kept apart from the file system and process I/O.

pub mod commands;
pub mod config;
pub mod crypto;
pub mod envfile;
pub mod envmap;
pub mod error;
pub mod gitignore;
pub mod text;
