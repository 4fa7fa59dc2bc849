//! AES-128-GCM, the cipher of the VMess header.

use crate::error::TunlError;
use aes::cipher::KeyInit;
use aes_gcm::aead::{Aead, Payload};
use aes_gcm::Aes128Gcm;
use vstd::prelude::*;

verus! {

/// The key length of AES-128-GCM in bytes.
pub const KEY_LEN: usize = 16;

/// The nonce length of AES-128-GCM in bytes.
pub const NONCE_LEN: usize = 12;

/// The length of the authentication tag at the end of a sealed message.
pub const TAG_LEN: usize = 16;

/// The longest message that AES-GCM seals, and the longest associated data that it takes.
pub const MESSAGE_MAX: u64 = 0x10_0000_0000;

/// The failure that the `aead` crate reports, without any detail.
#[verifier::external_type_specification]
#[verifier::external_body]
pub struct ExAeadError(aes_gcm::Error);

/// What `Aes128Gcm::encrypt` makes of a message and its associated data: the ciphertext with the tag
/// behind it.
pub uninterp spec fn aead_sealed(
    key: Seq<u8>,
    nonce: Seq<u8>,
    associated: Seq<u8>,
    message: Seq<u8>,
) -> Seq<u8>;

/// The message that `Aes128Gcm::decrypt` takes out of a sealed one; none where the tag does not
/// fit.
pub uninterp spec fn aead_opened(
    key: Seq<u8>,
    nonce: Seq<u8>,
    associated: Seq<u8>,
    sealed: Seq<u8>,
) -> Option<Seq<u8>>;

/// Whether a message and its associated data are short enough to be sealed.
pub open spec fn sealable(associated: Seq<u8>, message: Seq<u8>) -> bool {
    associated.len() <= MESSAGE_MAX && message.len() <= MESSAGE_MAX
}

/// Whether `sealed` is what sealing a message with associated data gives.
pub open spec fn is_sealed(
    key: Seq<u8>,
    nonce: Seq<u8>,
    associated: Seq<u8>,
    message: Seq<u8>,
    sealed: Seq<u8>,
) -> bool {
    sealable(associated, message) && sealed == aead_sealed(key, nonce, associated, message)
}

/// `Aes128Gcm::encrypt` with associated data. It fails on a message or associated data over the
/// maximum length only. The result is a function of the arguments, is longer than the message by the
/// tag, and opens to the message under the same key, nonce and associated data.
#[verifier::external_body]
fn encrypt(key: &[u8], nonce: &[u8], associated: &[u8], message: &[u8]) -> (sealed: Result<
    Vec<u8>,
    aes_gcm::Error,
>)
    requires
        key@.len() == KEY_LEN,
        nonce@.len() == NONCE_LEN,
    ensures
        sealed is Ok <==> sealable(associated@, message@),
        sealed matches Ok(bytes) ==> {
            &&& bytes@ == aead_sealed(key@, nonce@, associated@, message@)
            &&& bytes@.len() == message@.len() + TAG_LEN
            &&& aead_opened(key@, nonce@, associated@, bytes@) == Some(message@)
        },
{
    Aes128Gcm::new(key.into()).encrypt(nonce.into(), Payload { msg: message, aad: associated })
}

/// `Aes128Gcm::decrypt` with associated data. Whether it succeeds, and with which message, is a
/// function of the arguments; the message is shorter than the sealed one by the tag. What
/// `Aes128Gcm::encrypt` has made of a message under the same key, nonce and associated data opens to
/// that message.
#[verifier::external_body]
fn decrypt(key: &[u8], nonce: &[u8], associated: &[u8], sealed: &[u8]) -> (message: Result<
    Vec<u8>,
    aes_gcm::Error,
>)
    requires
        key@.len() == KEY_LEN,
        nonce@.len() == NONCE_LEN,
    ensures
        match message {
            Ok(bytes) => {
                &&& aead_opened(key@, nonce@, associated@, sealed@) == Some(bytes@)
                &&& bytes@.len() + TAG_LEN == sealed@.len()
                &&& forall|original: Seq<u8>|
                    is_sealed(key@, nonce@, associated@, original, sealed@) ==> bytes@ == original
            },
            Err(_) => {
                &&& aead_opened(key@, nonce@, associated@, sealed@) is None
                &&& forall|original: Seq<u8>|
                    !is_sealed(key@, nonce@, associated@, original, sealed@)
            },
        },
{
    Aes128Gcm::new(key.into()).decrypt(nonce.into(), Payload { msg: sealed, aad: associated })
}

/// Seals a message with associated data, each of at most [`MESSAGE_MAX`] bytes.
pub fn seal(key: &[u8], nonce: &[u8], associated: &[u8], message: &[u8]) -> (sealed: Result<
    Vec<u8>,
    TunlError,
>)
    requires
        key@.len() == KEY_LEN,
        nonce@.len() == NONCE_LEN,
    ensures
        match sealed {
            Ok(bytes) => {
                &&& sealable(associated@, message@)
                &&& bytes@ == aead_sealed(key@, nonce@, associated@, message@)
                &&& bytes@.len() == message@.len() + TAG_LEN
                &&& aead_opened(key@, nonce@, associated@, bytes@) == Some(message@)
            },
            Err(error) => !sealable(associated@, message@) && error == TunlError::Cipher,
        },
{
    match encrypt(key, nonce, associated, message) {
        Ok(bytes) => Ok(bytes),
        Err(_) => Err(TunlError::Cipher),
    }
}

/// Opens a sealed message. What was sealed under the same key, nonce and associated data opens to
/// what it was before.
pub fn open(key: &[u8], nonce: &[u8], associated: &[u8], sealed: &[u8]) -> (message: Result<
    Vec<u8>,
    TunlError,
>)
    requires
        key@.len() == KEY_LEN,
        nonce@.len() == NONCE_LEN,
    ensures
        match message {
            Ok(bytes) => {
                &&& aead_opened(key@, nonce@, associated@, sealed@) == Some(bytes@)
                &&& bytes@.len() + TAG_LEN == sealed@.len()
            },
            Err(error) => {
                &&& aead_opened(key@, nonce@, associated@, sealed@) is None
                &&& error == TunlError::Cipher
            },
        },
        forall|original: Seq<u8>|
            is_sealed(key@, nonce@, associated@, original, sealed@) ==> (message matches Ok(bytes)
                && bytes@ == original),
{
    match decrypt(key, nonce, associated, sealed) {
        Ok(bytes) => Ok(bytes),
        Err(_) => Err(TunlError::Cipher),
    }
}

/// Sealing takes messages and associated data of up to 64 GiB, and what counts as sealed is what the
/// cipher makes of them.
pub proof fn sealed_is_what_the_cipher_makes(
    key: Seq<u8>,
    nonce: Seq<u8>,
    associated: Seq<u8>,
    message: Seq<u8>,
    sealed: Seq<u8>,
)
    ensures
        sealable(associated, message) <==> associated.len() <= 0x10_0000_0000 && message.len()
            <= 0x10_0000_0000,
        is_sealed(key, nonce, associated, message, sealed) <==> associated.len() <= 0x10_0000_0000
            && message.len() <= 0x10_0000_0000 && sealed == aead_sealed(
            key,
            nonce,
            associated,
            message,
        ),
{
}

} // verus!
