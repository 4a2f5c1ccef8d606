//! Encrypted storage of credential records under password-derived keys.
//!
//! The crate is built from small layers: byte buffers that can be wiped
//! ([`Data`], [`utils`]), a fixed-layout binary codec ([`PlainBytes`]), an
//! authenticated envelope, a password-driven stream cipher and the encrypted
//! store that ties them together.
pub mod codec;
pub mod data;
pub mod entry;
pub mod errors;
pub mod folder;
pub mod layouts;
pub mod name_map;
pub mod plain_folder;
pub mod primitives;
pub mod secret;
pub mod secret_box;
pub mod tool;
pub mod utils;

pub use codec::{from_deflate_bytes, to_flate_bytes, PlainBytes};
pub use data::{Data, DataIterator, DataSeq, DataSeqIterator};
pub use entry::Entry;
pub use errors::{Error, ErrorKind, Result};
pub use folder::Folder;
pub use name_map::NameMap;
pub use plain_folder::PlainFolder;
pub use secret::Secret;
pub use secret_box::SecretBox;
pub use tool::{Chacha20Tool, CipherText, HashRequest};
pub use utils::{chunk_padded, discharge, drop, rem, rev, scrub_with_byte, xor, xor_ip, zerofill};
