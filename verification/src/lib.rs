//! Decoder for Silksong save-file containers.
//!
//! A save container carries a fixed 25-byte header, a base64 text region,
//! and a single trailer byte.  The text region decodes to an AES-256-ECB
//! ciphertext with PKCS#7 padding; the plaintext is a JSON document whose
//! `playerData` object is projected into a typed [`parser::PlayerData`]
//! record with permissive per-field defaulting.

pub mod crypto;
pub mod json;
pub mod num;
pub mod parser;

pub use crypto::decrypt_save_file;
pub use parser::{PlayerData, SaveFile, ToolData};
