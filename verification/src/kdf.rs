//! Derivation of snapshot key material from a user passphrase.
//!
//! A passphrase is never handed to the engine directly: it is stretched with
//! PBKDF2-HMAC-SHA512 over a fixed salt and the first half of the derived
//! block becomes the 32-byte snapshot key.

use vstd::prelude::*;
use vstd::string::StringSliceAdditionalSpecFns;

verus! {

/// Number of PBKDF2 rounds applied to a passphrase.
pub const KDF_ROUNDS: u32 = 100;

/// Length in bytes of the full PBKDF2 output block.
pub const KDF_BLOCK_LEN: usize = 64;

/// Length in bytes of the snapshot key handed to the engine.
pub const KEY_LEN: usize = 32;

/// The PBKDF2-HMAC-SHA512 key stretch: a pure function of the password, the
/// salt, the round count and the requested output length.
pub uninterp spec fn pbkdf2_hmac_sha512(
    password: Seq<u8>,
    salt: Seq<u8>,
    rounds: u32,
    dk_len: nat,
) -> Seq<u8>;

/// The fixed salt, the ASCII bytes of the string "tauri".
pub open spec fn kdf_salt() -> Seq<u8> {
    seq![116u8, 97u8, 117u8, 114u8, 105u8]
}

/// The key material that [`password_to_key`] derives from a passphrase.
pub open spec fn derived_key(password: Seq<u8>) -> Seq<u8> {
    pbkdf2_hmac_sha512(password, kdf_salt(), KDF_ROUNDS, KDF_BLOCK_LEN as nat).take(KEY_LEN as int)
}

/// Relies on `crypto::keys::pbkdf::PBKDF2_HMAC_SHA512`: fills a buffer of
/// `dk_len` bytes with a value that depends on the password, salt and round
/// count alone.
#[verifier::external_body]
fn pbkdf2_derive(password: &[u8], salt: &Vec<u8>, rounds: u32, dk_len: usize) -> (r: Vec<u8>)
    requires
        rounds >= 1,
    ensures
        r@ == pbkdf2_hmac_sha512(password@, salt@, rounds, dk_len as nat),
        r@.len() == dk_len,
{
    let mut buffer = vec![0u8; dk_len];
    crypto::keys::pbkdf::PBKDF2_HMAC_SHA512(
        password,
        salt.as_slice(),
        core::num::NonZeroU32::new(rounds).unwrap(),
        &mut buffer,
    );
    buffer
}

/// Stretches a passphrase into the 32-byte snapshot key the engine expects.
pub fn password_to_key(password: &str) -> (r: Vec<u8>)
    ensures
        r@ == derived_key(password.spec_bytes()),
        r@.len() == KEY_LEN,
{
    let mut salt: Vec<u8> = Vec::new();
    salt.push(116);
    salt.push(97);
    salt.push(117);
    salt.push(114);
    salt.push(105);
    proof {
        assert(salt@ =~= kdf_salt());
    }
    let mut key = pbkdf2_derive(password.as_bytes(), &salt, KDF_ROUNDS, KDF_BLOCK_LEN);
    key.truncate(KEY_LEN);
    proof {
        assert(key@ =~= derived_key(password.spec_bytes()));
    }
    key
}

} // verus!
