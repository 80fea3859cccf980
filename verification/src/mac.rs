//! The keyed authentication tag of a message.
//!
//! The tag of a message under a key is the HMAC-SHA256 code of the message's
//! UTF-8 bytes, written as hexadecimal text. A candidate tag is checked by
//! reading it back to a code and comparing that code, in constant time, with
//! the code of the message.

use crate::encoding::{decode_tag, encode_tag, hex_text, lemma_hex_text_round_trip, tag_code};
use crate::error::RegistryError;
use hmac::{Hmac, Mac};
use sha2::Sha256;
use vstd::prelude::*;
use vstd::utf8::*;

verus! {

/// The HMAC-SHA256 authentication code of `message` under `key`.
pub uninterp spec fn hmac_sha256(key: Seq<u8>, message: Seq<u8>) -> Seq<u8>;

/// `Mac::finalize` of `Hmac<Sha256>`, on a state made from `key` by
/// `Mac::new_from_slice` and fed `message` by `Mac::update`: the code of the
/// message under the key, which is 32 bytes long. HMAC takes a key of any
/// length, so making the state does not fail.
#[verifier::external_body]
fn mac_code(message: &[u8], key: &[u8]) -> (code: Vec<u8>)
    ensures
        code@ == hmac_sha256(key@, message@),
        code@.len() == 32,
{
    let mut mac = Hmac::<Sha256>::new_from_slice(key).expect("HMAC can take key of any size");
    mac.update(message);
    mac.finalize().into_bytes().to_vec()
}

/// `Mac::verify_slice` of `Hmac<Sha256>`, on a state made as in `mac_code`:
/// whether `candidate` is the code of the message under the key, all of it,
/// compared in constant time.
#[verifier::external_body]
fn mac_code_matches(message: &[u8], key: &[u8], candidate: &[u8]) -> (matches: bool)
    ensures
        matches == (candidate@ == hmac_sha256(key@, message@)),
{
    let mut mac = Hmac::<Sha256>::new_from_slice(key).expect("HMAC can take key of any size");
    mac.update(message);
    mac.verify_slice(candidate).is_ok()
}

/// The tag of `message` under `key`.
pub open spec fn mac_text(message: Seq<char>, key: Seq<u8>) -> Seq<char> {
    hex_text(hmac_sha256(key, encode_utf8(message)))
}

/// What checking the candidate `tag` against `message` under `key` gives:
/// `MalformedTag` where the tag is not hexadecimal text, `InvalidSignature`
/// where it denotes another code than that of the message, and success
/// otherwise.
pub open spec fn mac_check(message: Seq<char>, tag: Seq<char>, key: Seq<u8>) -> Result<
    (),
    RegistryError,
> {
    match tag_code(tag) {
        None => Err(RegistryError::MalformedTag),
        Some(code) => if code == hmac_sha256(key, encode_utf8(message)) {
            Ok(())
        } else {
            Err(RegistryError::InvalidSignature)
        },
    }
}

/// Computes the tag of `message` under `key`: 64 lower-case hexadecimal
/// digits. Any key length is accepted.
pub fn compute_mac(message: &str, key: &[u8]) -> (tag: String)
    ensures
        tag@ == mac_text(message@, key@),
        tag@.len() == 64,
        mac_check(message@, tag@, key@) is Ok,
{
    let code = mac_code(message.as_bytes(), key);
    proof {
        lemma_hex_text_round_trip(code@);
    }
    encode_tag(code.as_slice())
}

/// Checks the candidate tag `signed_hash` against `message` under `key`, and
/// says why it fails where it does.
pub fn check_mac(message: &str, signed_hash: &str, key: &[u8]) -> (checked: Result<
    (),
    RegistryError,
>)
    ensures
        checked == mac_check(message@, signed_hash@, key@),
{
    match decode_tag(signed_hash) {
        Err(e) => Err(e),
        Ok(code) => {
            if mac_code_matches(message.as_bytes(), key, code.as_slice()) {
                Ok(())
            } else {
                Err(RegistryError::InvalidSignature)
            }
        },
    }
}

/// Whether the candidate tag `signed_hash` is the tag of `message` under
/// `key`. A tag that is not hexadecimal text is not: it gives `false`.
pub fn verify_mac(message: &str, signed_hash: &str, key: &[u8]) -> (verified: bool)
    ensures
        verified == (mac_check(message@, signed_hash@, key@) is Ok),
{
    check_mac(message, signed_hash, key).is_ok()
}

/// A tag verifies against the message and the key that it was computed from.
pub proof fn lemma_own_tag_verifies(message: Seq<char>, key: Seq<u8>)
    ensures
        mac_check(message, mac_text(message, key), key) is Ok,
{
    lemma_hex_text_round_trip(hmac_sha256(key, encode_utf8(message)));
}

/// A tag computed under one key verifies under another exactly where the
/// message has the same code under both keys; in every other case the check
/// gives `InvalidSignature`.
pub proof fn lemma_other_key_verifies_only_on_equal_codes(
    message: Seq<char>,
    signing_key: Seq<u8>,
    checking_key: Seq<u8>,
)
    ensures
        mac_check(message, mac_text(message, signing_key), checking_key) is Ok <==> hmac_sha256(
            signing_key,
            encode_utf8(message),
        ) == hmac_sha256(checking_key, encode_utf8(message)),
        mac_check(message, mac_text(message, signing_key), checking_key) is Err ==> mac_check(
            message,
            mac_text(message, signing_key),
            checking_key,
        ) == Err::<(), RegistryError>(RegistryError::InvalidSignature),
{
    lemma_hex_text_round_trip(hmac_sha256(signing_key, encode_utf8(message)));
}

} // verus!
