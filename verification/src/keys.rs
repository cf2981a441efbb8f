//! Fresh secret keys, handed out as text.

use base64::engine::general_purpose::URL_SAFE;
use base64::Engine;
use rand::RngCore;
use vstd::prelude::*;

verus! {

/// Number of bytes in a key.
pub const KEY_LEN: usize = 32;

/// The base64 text of a byte string in the URL-safe alphabet, with padding.
pub uninterp spec fn url_safe_base64(bytes: Seq<u8>) -> Seq<char>;

/// `Engine::encode` of the base64 crate on its `URL_SAFE` engine. The text
/// depends on the bytes alone. The call fails only on inputs whose encoded
/// length does not fit a `usize`; a key is far shorter.
#[verifier::external_body]
fn encode_url_safe(key: &[u8; 32]) -> (text: String)
    ensures
        text@ == url_safe_base64(key@),
{
    URL_SAFE.encode(key)
}

/// `RngCore::fill_bytes` of the rand crate on the generator that
/// `rand::thread_rng` hands out, on a buffer of key length. Nothing is
/// claimed of the bytes that come back. The generator is seeded from the
/// operating system on a thread's first call, and that call panics where
/// the system has no randomness to give.
#[verifier::external_body]
fn random_key() -> (key: [u8; 32]) {
    let mut key = [0u8; 32];
    rand::thread_rng().fill_bytes(&mut key);
    key
}

/// The text form of a key.
pub fn encode_key(key: &[u8; 32]) -> (text: String)
    ensures
        text@ == url_safe_base64(key@),
{
    encode_url_safe(key)
}

/// A fresh random key of [`KEY_LEN`] bytes in its text form.
pub fn generate_crypto_key() -> (text: String)
    ensures
        exists|key: Seq<u8>| key.len() == KEY_LEN && text@ == #[trigger] url_safe_base64(key),
{
    let key = random_key();
    let text = encode_key(&key);
    assert(key@.len() == KEY_LEN && text@ == url_safe_base64(key@));
    text
}

} // verus!
