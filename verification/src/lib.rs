//! An authenticated registry of file hashes.
//!
//! Each participant owns one account, which collects the hashes of files that
//! other participants sent to it. Every entry carries a keyed authentication
//! tag (HMAC-SHA256, written as hexadecimal text) that is checked before the
//! entry is marked as verified.

pub mod account;
pub mod encoding;
pub mod error;
pub mod identity;
pub mod mac;
pub mod registry;
pub mod store;

pub use account::{FileInfo, UserAccount};
pub use encoding::{decode_tag, encode_tag};
pub use error::RegistryError;
pub use identity::{AuthenticatedIdentity, Identity};
pub use mac::{check_mac, compute_mac, verify_mac};
pub use registry::{
    create_user_account, initialize, send_file_hash, sign_file_hash, verify_file_hash,
    CreateUserAccount, Initialize, SendFileHash, SignFileHash, VerifyFileHash,
};
pub use store::AccountStore;
