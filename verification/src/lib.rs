//! Decryption of protected HWP documents.
//!
//! Two kinds of protection are covered. A document made for distribution keeps its text in
//! sections that start with a DISTRIBUTE_DOC_DATA record; the record hides an AES-128 key,
//! and the rest of the section is encrypted under it. A document with a password keeps its
//! streams in a cipher feedback mode under a key derived from the password.
pub mod aes;
pub mod aes_mix;
pub mod aes_model;
pub mod bits;
pub mod bytes;
pub mod cfb;
pub mod distribute;
pub mod error;
pub mod gf;
pub mod inflate;
pub mod lcg;
pub mod password;
pub mod record;
pub mod sbox;
pub mod sha1;
pub mod text;
pub mod viewtext;

pub use error::CryptoError;
pub use password::decrypt_password_protected;
pub use viewtext::decrypt_viewtext_section;
