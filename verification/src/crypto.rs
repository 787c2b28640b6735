//! Encryption of the API key at rest: AES-256-GCM under a key derived from
//! a password with Argon2id. The stored text is the Base64 encoding of
//! salt (16 bytes) || nonce (12 bytes) || ciphertext with its tag.
use vstd::prelude::*;
use aes_gcm::aead::{Aead, Generate, KeyInit};
use argon2::password_hash::rand_core::RngCore;
use base64::Engine;
use vstd::utf8::{decode_utf8, encode_utf8, encode_utf8_decode_utf8, encode_utf8_valid_utf8, valid_utf8};

verus! {

pub const NONCE_SIZE: usize = 12;

pub const KEY_SIZE: usize = 32;

pub const SALT_SIZE: usize = 16;

/// Argon2 parameters for key derivation, tuned for interactive use
/// (low latency, reasonable memory): 64 MiB, 3 iterations, 1 lane.
pub const ARGON2_M_COST: u32 = 65536;

pub const ARGON2_T_COST: u32 = 3;

pub const ARGON2_P_COST: u32 = 1;

/// Why sealing or opening an API key failed.
#[derive(Debug, Clone, Copy, PartialEq, Eq, Structural)]
pub enum CryptoError {
    /// Argon2 refused the parameters or the inputs.
    KeyDerivation,
    /// The system's random source failed.
    RandomSource,
    /// AES-GCM refused to encrypt (plaintext too long).
    Encryption,
    /// The stored text is not valid Base64.
    Base64,
    /// The decoded bytes are shorter than salt and nonce together.
    TooShort,
    /// Wrong key or corrupted data: the tag does not verify.
    Decryption,
    /// The decrypted bytes are not UTF-8.
    NotUtf8,
}

impl CryptoError {
    /// The explanation shown to the user.
    pub fn message(&self) -> (r: &'static str)
        ensures
            r@ == crypto_error_text(*self),
    {
        match self {
            CryptoError::KeyDerivation => "argon2 key derivation failed",
            CryptoError::RandomSource => "system random source failed",
            CryptoError::Encryption => "failed to encrypt",
            CryptoError::Base64 => "failed to decode base64",
            CryptoError::TooShort => "ciphertext too short",
            CryptoError::Decryption => "failed to decrypt - wrong key or corrupted data",
            CryptoError::NotUtf8 => "decrypted data is not valid UTF-8",
        }
    }
}

pub open spec fn crypto_error_text(e: CryptoError) -> Seq<char> {
    match e {
        CryptoError::KeyDerivation => "argon2 key derivation failed"@,
        CryptoError::RandomSource => "system random source failed"@,
        CryptoError::Encryption => "failed to encrypt"@,
        CryptoError::Base64 => "failed to decode base64"@,
        CryptoError::TooShort => "ciphertext too short"@,
        CryptoError::Decryption => "failed to decrypt - wrong key or corrupted data"@,
        CryptoError::NotUtf8 => "decrypted data is not valid UTF-8"@,
    }
}

// ── Outside primitives ────────────────────────────────────────────────────

/// The key that Argon2id (version 0x13) derives from a password and salt
/// with the given costs and output length, or `None` when the crate
/// refuses the parameters or inputs.
pub uninterp spec fn argon2id_key(
    password: Seq<u8>,
    salt: Seq<u8>,
    m_cost: u32,
    t_cost: u32,
    p_cost: u32,
    out_len: usize,
) -> Option<Seq<u8>>;

/// The ciphertext (with its 16-byte tag appended) that AES-256-GCM makes
/// of a plaintext under a key and nonce, with no associated data.
pub uninterp spec fn aes256gcm_sealed(key: Seq<u8>, nonce: Seq<u8>, plaintext: Seq<u8>) -> Seq<u8>;

/// The plaintext that AES-256-GCM recovers from a ciphertext under a key
/// and nonce, or `None` when the tag does not verify.
pub uninterp spec fn aes256gcm_opened(key: Seq<u8>, nonce: Seq<u8>, ciphertext: Seq<u8>) -> Option<
    Seq<u8>,
>;

/// The standard Base64 encoding (with padding) of some bytes.
pub uninterp spec fn base64_encoded(bytes: Seq<u8>) -> Seq<char>;

/// The bytes that standard Base64 decodes from a text, or `None` when the
/// text is not valid standard Base64.
pub uninterp spec fn base64_decoded(text: Seq<char>) -> Option<Seq<u8>>;

/// Derives a key with `argon2::Argon2` (algorithm Argon2id, version 0x13):
/// builds `Params::new(m_cost, t_cost, p_cost, Some(out_len))`, then calls
/// `hash_password_into`. Claims that the outcome is a function of the
/// arguments and that a derived key has `out_len` bytes. `Params::new`
/// computes `p_cost * 8` before it bounds `p_cost` (an overflow for
/// `p_cost >= 2^29`), and the memory and output buffers are allocated at
/// the sizes asked, so `p_cost`, `m_cost` and `out_len` are kept to what
/// sealing a key uses.
#[verifier::external_body]
fn argon2id_derive(
    password: &[u8],
    salt: &[u8],
    m_cost: u32,
    t_cost: u32,
    p_cost: u32,
    out_len: usize,
) -> (r: Option<Vec<u8>>)
    requires
        p_cost <= 0x00ff_ffff,
        m_cost <= ARGON2_M_COST,
        out_len <= KEY_SIZE,
    ensures
        match r {
            Some(k) => argon2id_key(password@, salt@, m_cost, t_cost, p_cost, out_len) == Some(k@)
                && k@.len() == out_len,
            None => argon2id_key(password@, salt@, m_cost, t_cost, p_cost, out_len) is None,
        },
{
    let params = argon2::Params::new(m_cost, t_cost, p_cost, Some(out_len)).ok()?;
    let argon = argon2::Argon2::new(argon2::Algorithm::Argon2id, argon2::Version::V0x13, params);
    let mut key = vec![0u8; out_len];
    argon.hash_password_into(password, salt, &mut key).ok()?;
    Some(key)
}

/// Encrypts with `aes_gcm::Aes256Gcm` (`KeyInit::new_from_slice`, the nonce
/// taken with `Nonce::try_from`, then `Aead::encrypt`). The source refuses
/// only plaintexts longer than `P_MAX` = 2^36 - 32 bytes. Claims, as the
/// AEAD contract documents, that decrypting the result under the same key
/// and nonce gives the plaintext back.
#[verifier::external_body]
fn aes256gcm_seal(key: &[u8], nonce: &[u8], plaintext: &[u8]) -> (r: Option<Vec<u8>>)
    requires
        key@.len() == 32,
        nonce@.len() == 12,
    ensures
        r is Some <==> plaintext@.len() <= 68719476704,
        r matches Some(c) ==> c@ == aes256gcm_sealed(key@, nonce@, plaintext@)
            && aes256gcm_opened(key@, nonce@, c@) == Some(plaintext@),
{
    let cipher = aes_gcm::Aes256Gcm::new_from_slice(key).ok()?;
    let nonce = aes_gcm::aead::Nonce::<aes_gcm::Aes256Gcm>::try_from(nonce).ok()?;
    cipher.encrypt(&nonce, plaintext).ok()
}

/// Decrypts with `aes_gcm::Aes256Gcm` (`KeyInit::new_from_slice`,
/// `Nonce::try_from`, then `Aead::decrypt`); the result is named by
/// `aes256gcm_opened`.
#[verifier::external_body]
fn aes256gcm_open(key: &[u8], nonce: &[u8], ciphertext: &[u8]) -> (r: Option<Vec<u8>>)
    requires
        key@.len() == 32,
        nonce@.len() == 12,
    ensures
        match r {
            Some(p) => aes256gcm_opened(key@, nonce@, ciphertext@) == Some(p@),
            None => aes256gcm_opened(key@, nonce@, ciphertext@) is None,
        },
{
    let cipher = aes_gcm::Aes256Gcm::new_from_slice(key).ok()?;
    let nonce = aes_gcm::aead::Nonce::<aes_gcm::Aes256Gcm>::try_from(nonce).ok()?;
    cipher.decrypt(&nonce, ciphertext).ok()
}

/// Fills `len` bytes from the operating system's random source
/// (`rand_core::OsRng::try_fill_bytes`, as re-exported by `argon2`). The
/// bytes are random: only their number is claimed.
#[verifier::external_body]
fn os_random_bytes(len: usize) -> (r: Option<Vec<u8>>)
    ensures
        r matches Some(b) ==> b@.len() == len,
{
    let mut bytes = vec![0u8; len];
    argon2::password_hash::rand_core::OsRng.try_fill_bytes(&mut bytes).ok()?;
    Some(bytes)
}

/// Draws a fresh AES-256-GCM nonce (`aead::Generate::try_generate`). The
/// nonce is random: only its length, 12 bytes, is claimed.
#[verifier::external_body]
fn fresh_nonce() -> (r: Option<Vec<u8>>)
    ensures
        r matches Some(n) ==> n@.len() == 12,
{
    let nonce = aes_gcm::aead::Nonce::<aes_gcm::Aes256Gcm>::try_generate().ok()?;
    Some(nonce.to_vec())
}

/// Encodes with `base64::engine::general_purpose::STANDARD`. Claims, as
/// the crate documents for its engines, that decoding the result gives the
/// bytes back.
#[verifier::external_body]
fn base64_encode(bytes: &[u8]) -> (r: String)
    ensures
        r@ == base64_encoded(bytes@),
        base64_decoded(r@) == Some(bytes@),
{
    base64::engine::general_purpose::STANDARD.encode(bytes)
}

/// Decodes with `base64::engine::general_purpose::STANDARD`; the result
/// is named by `base64_decoded`.
#[verifier::external_body]
fn base64_decode(text: &str) -> (r: Option<Vec<u8>>)
    ensures
        match r {
            Some(b) => base64_decoded(text@) == Some(b@),
            None => base64_decoded(text@) is None,
        },
{
    base64::engine::general_purpose::STANDARD.decode(text).ok()
}

/// `String::from_utf8`: succeeds exactly on valid UTF-8, and then holds the
/// characters those bytes encode.
#[verifier::external_body]
fn string_from_utf8(bytes: Vec<u8>) -> (r: Option<String>)
    ensures
        match r {
            Some(s) => valid_utf8(bytes@) && s@ == decode_utf8(bytes@),
            None => !valid_utf8(bytes@),
        },
{
    String::from_utf8(bytes).ok()
}

// ── Sealing and opening ───────────────────────────────────────────────────

/// The key derived from a password (its UTF-8 bytes) and a salt.
pub open spec fn derived_key(password: Seq<char>, salt: Seq<u8>) -> Option<Seq<u8>> {
    argon2id_key(
        encode_utf8(password),
        salt,
        ARGON2_M_COST,
        ARGON2_T_COST,
        ARGON2_P_COST,
        KEY_SIZE,
    )
}

/// The stored text for a plaintext sealed under a password with a given
/// salt and nonce.
pub open spec fn sealed_text(
    password: Seq<char>,
    salt: Seq<u8>,
    nonce: Seq<u8>,
    plaintext: Seq<char>,
) -> Seq<char> {
    base64_encoded(
        salt + nonce + aes256gcm_sealed(
            derived_key(password, salt)->0,
            nonce,
            encode_utf8(plaintext),
        ),
    )
}

/// What opening a stored text under a password gives.
pub open spec fn opened(password: Seq<char>, text: Seq<char>) -> Result<Seq<char>, CryptoError> {
    match base64_decoded(text) {
        None => Err(CryptoError::Base64),
        Some(bytes) => if bytes.len() < SALT_SIZE + NONCE_SIZE {
            Err(CryptoError::TooShort)
        } else {
            let salt = bytes.take(SALT_SIZE as int);
            let nonce = bytes.subrange(SALT_SIZE as int, (SALT_SIZE + NONCE_SIZE) as int);
            let ciphertext = bytes.skip((SALT_SIZE + NONCE_SIZE) as int);
            match derived_key(password, salt) {
                None => Err(CryptoError::KeyDerivation),
                Some(key) => match aes256gcm_opened(key, nonce, ciphertext) {
                    None => Err(CryptoError::Decryption),
                    Some(plain) => if valid_utf8(plain) {
                        Ok(decode_utf8(plain))
                    } else {
                        Err(CryptoError::NotUtf8)
                    },
                },
            }
        },
    }
}

fn append_bytes(v: &mut Vec<u8>, s: &[u8])
    ensures
        final(v)@ == old(v)@ + s@,
{
    let n = s.len();
    for i in 0..n
        invariant
            n == s@.len(),
            v@ == old(v)@ + s@.take(i as int),
    {
        v.push(s[i]);
        assert(old(v)@ + s@.take(i + 1) =~= (old(v)@ + s@.take(i as int)).push(s@[i as int]));
    }
    assert(s@.take(n as int) =~= s@);
}

fn byte_range(s: &[u8], from: usize, to: usize) -> (r: Vec<u8>)
    requires
        from <= to <= s@.len(),
    ensures
        r@ == s@.subrange(from as int, to as int),
{
    let mut r: Vec<u8> = Vec::new();
    let mut i = from;
    while i < to
        invariant
            from <= i <= to <= s@.len(),
            r@ == s@.subrange(from as int, i as int),
        decreases to - i,
    {
        r.push(s[i]);
        assert(s@.subrange(from as int, i + 1) =~= s@.subrange(from as int, i as int).push(
            s@[i as int],
        ));
        i = i + 1;
    }
    r
}

/// Derives the AES key for `password` and `salt`.
fn derive_key(password: &str, salt: &[u8]) -> (r: Option<Vec<u8>>)
    ensures
        match r {
            Some(k) => derived_key(password@, salt@) == Some(k@) && k@.len() == KEY_SIZE,
            None => derived_key(password@, salt@) is None,
        },
{
    argon2id_derive(
        password.as_bytes(),
        salt,
        ARGON2_M_COST,
        ARGON2_T_COST,
        ARGON2_P_COST,
        KEY_SIZE,
    )
}

/// Seals a plaintext under a password with the given salt and nonce:
/// derives the key with Argon2id, encrypts with AES-256-GCM and returns
/// Base64 of salt (16 bytes) || nonce (12 bytes) || ciphertext+tag.
/// Fails only when the key cannot be derived or the plaintext is longer
/// than AES-GCM accepts.
pub fn seal_text(password: &str, plaintext: &str, salt: &[u8], nonce: &[u8]) -> (r: Result<
    String,
    CryptoError,
>)
    requires
        salt@.len() == SALT_SIZE,
        nonce@.len() == NONCE_SIZE,
    ensures
        r is Ok <==> derived_key(password@, salt@) is Some && encode_utf8(plaintext@).len()
            <= 68719476704,
        r matches Ok(text) ==> text@ == sealed_text(password@, salt@, nonce@, plaintext@)
            && opened(password@, text@) == Ok::<Seq<char>, CryptoError>(plaintext@),
        derived_key(password@, salt@) is None ==> r == Err::<String, CryptoError>(
            CryptoError::KeyDerivation,
        ),
        derived_key(password@, salt@) is Some && encode_utf8(plaintext@).len() > 68719476704
            ==> r == Err::<String, CryptoError>(CryptoError::Encryption),
{
    let key = match derive_key(password, salt) {
        Some(k) => k,
        None => {
            return Err(CryptoError::KeyDerivation);
        },
    };
    let pt = plaintext.as_bytes();
    let ciphertext = match aes256gcm_seal(key.as_slice(), nonce, pt) {
        Some(c) => c,
        None => {
            return Err(CryptoError::Encryption);
        },
    };
    let mut combined: Vec<u8> = Vec::new();
    append_bytes(&mut combined, salt);
    append_bytes(&mut combined, nonce);
    append_bytes(&mut combined, ciphertext.as_slice());
    let text = base64_encode(combined.as_slice());
    proof {
        let bytes = combined@;
        assert(bytes.take(SALT_SIZE as int) =~= salt@);
        assert(bytes.subrange(SALT_SIZE as int, (SALT_SIZE + NONCE_SIZE) as int) =~= nonce@);
        assert(bytes.skip((SALT_SIZE + NONCE_SIZE) as int) =~= ciphertext@);
        encode_utf8_valid_utf8(plaintext@);
        encode_utf8_decode_utf8(plaintext@);
        assert(text@ == sealed_text(password@, salt@, nonce@, plaintext@));
    }
    Ok(text)
}

/// Encrypt a plaintext string using AES-256-GCM with Argon2id key
/// derivation from `password`, under a fresh random salt and nonce drawn
/// from the operating system (see [`seal_text`]). Returns Base64 of salt
/// (16 bytes) || nonce (12 bytes) || ciphertext+tag; opening that text
/// with the same password gives the plaintext back.
pub fn encrypt(password: &str, plaintext: &str) -> (r: Result<String, CryptoError>)
    ensures
        r matches Ok(text) ==> opened(password@, text@) == Ok::<Seq<char>, CryptoError>(
            plaintext@,
        ),
        r matches Ok(text) ==> exists|salt: Seq<u8>, nonce: Seq<u8>|
            salt.len() == SALT_SIZE && nonce.len() == NONCE_SIZE && derived_key(password@, salt)
                is Some && text@ == #[trigger] sealed_text(password@, salt, nonce, plaintext@),
        r == Err::<String, CryptoError>(CryptoError::KeyDerivation) ==> exists|salt: Seq<u8>|
            salt.len() == SALT_SIZE && #[trigger] derived_key(password@, salt) is None,
        r == Err::<String, CryptoError>(CryptoError::Encryption) ==> encode_utf8(plaintext@).len()
            > 68719476704,
        encode_utf8(plaintext@).len() > 68719476704 ==> r is Err,
        r matches Err(e) ==> e == CryptoError::RandomSource || e == CryptoError::KeyDerivation
            || e == CryptoError::Encryption,
{
    let salt = match os_random_bytes(SALT_SIZE) {
        Some(s) => s,
        None => {
            return Err(CryptoError::RandomSource);
        },
    };
    let nonce = match fresh_nonce() {
        Some(n) => n,
        None => {
            return Err(CryptoError::RandomSource);
        },
    };
    seal_text(password, plaintext, salt.as_slice(), nonce.as_slice())
}

/// Decrypt a Base64 string that was encrypted with [`encrypt`] under the
/// same password: salt (16 bytes) || nonce (12 bytes) || ciphertext+tag,
/// the salt re-deriving the key.
pub fn decrypt(password: &str, encrypted: &str) -> (r: Result<String, CryptoError>)
    ensures
        match r {
            Ok(s) => opened(password@, encrypted@) == Ok::<Seq<char>, CryptoError>(s@),
            Err(e) => opened(password@, encrypted@) == Err::<Seq<char>, CryptoError>(e),
        },
{
    let combined = match base64_decode(encrypted) {
        Some(b) => b,
        None => {
            return Err(CryptoError::Base64);
        },
    };
    if combined.len() < SALT_SIZE + NONCE_SIZE {
        return Err(CryptoError::TooShort);
    }
    let salt = byte_range(combined.as_slice(), 0, SALT_SIZE);
    let nonce = byte_range(combined.as_slice(), SALT_SIZE, SALT_SIZE + NONCE_SIZE);
    let ciphertext = byte_range(combined.as_slice(), SALT_SIZE + NONCE_SIZE, combined.len());
    assert(salt@ =~= combined@.take(SALT_SIZE as int));
    assert(ciphertext@ =~= combined@.skip((SALT_SIZE + NONCE_SIZE) as int));
    let key = match derive_key(password, salt.as_slice()) {
        Some(k) => k,
        None => {
            return Err(CryptoError::KeyDerivation);
        },
    };
    let plain = match aes256gcm_open(key.as_slice(), nonce.as_slice(), ciphertext.as_slice()) {
        Some(p) => p,
        None => {
            return Err(CryptoError::Decryption);
        },
    };
    match string_from_utf8(plain) {
        Some(s) => Ok(s),
        None => Err(CryptoError::NotUtf8),
    }
}

} // verus!
