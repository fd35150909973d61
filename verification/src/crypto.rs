//! Container decryption: framing, base64 decoding, AES-256-ECB block
//! decryption and PKCS#7 padding removal.

use vstd::prelude::*;

use base64::Engine;
use cipher::BlockDecryptMut;
use cipher::KeyInit;

verus! {

/// Number of opaque header bytes at the front of a container.
pub const HEADER_SIZE: usize = 25;

/// Width in bytes of one cipher block.
pub const BLOCK_SIZE: usize = 16;

/// Errors of the decryption stage.
#[derive(Clone, Copy, Debug, PartialEq, Eq, Structural)]
pub enum DecryptError {
    /// The container is too short to hold the fixed framing.
    FileTooSmall,
    /// The framed region is not valid base64 text.
    InvalidEncoding,
    /// The decoded bytes are not block-aligned or carry invalid padding.
    DecryptionFailed,
}

impl DecryptError {
    /// A human-readable cause for this error.
    pub fn message(&self) -> (m: &'static str)
        ensures
            match self {
                DecryptError::FileTooSmall => m@ == "save file too small"@,
                DecryptError::InvalidEncoding => m@ == "framed region is not valid base64 text"@,
                DecryptError::DecryptionFailed => m@
                    == "AES decryption failed: invalid length or padding"@,
            },
    {
        match self {
            DecryptError::FileTooSmall => "save file too small",
            DecryptError::InvalidEncoding => "framed region is not valid base64 text",
            DecryptError::DecryptionFailed => "AES decryption failed: invalid length or padding",
        }
    }
}

/// The framed region of a container: everything between the fixed header
/// and the single trailer byte.
pub open spec fn spec_framed_region(raw: Seq<u8>) -> Seq<u8> {
    raw.subrange(HEADER_SIZE as int, raw.len() - 1)
}

/// What base64's `STANDARD` engine makes of a byte string: the decoded
/// bytes, or nothing when the input is not canonical padded base64.
pub uninterp spec fn base64_decode_of(text: Seq<u8>) -> Option<Seq<u8>>;

/// The AES-256-ECB decryption of a block-aligned ciphertext under the
/// fixed save-file key, before padding removal.
pub uninterp spec fn save_cipher_decrypt_of(ct: Seq<u8>) -> Seq<u8>;

/// PKCS#7 padding removal over one decrypted buffer: the last byte `n`
/// must lie in `1..=BLOCK_SIZE` and the last `n` bytes must all equal `n`;
/// those `n` bytes are dropped.
pub open spec fn spec_pkcs7_unpad(s: Seq<u8>) -> Option<Seq<u8>> {
    if s.len() == 0 {
        None
    } else {
        let n = s.last() as int;
        if 1 <= n <= BLOCK_SIZE && n <= s.len() && (forall|i: int|
            s.len() - n <= i < s.len() ==> s[i] == s.last()) {
            Some(s.take(s.len() - n))
        } else {
            None
        }
    }
}

/// The whole decryption stage as a function of the container bytes.
pub open spec fn spec_decrypt_save_file(raw: Seq<u8>) -> Result<Seq<u8>, DecryptError> {
    if raw.len() <= HEADER_SIZE + 1 {
        Err(DecryptError::FileTooSmall)
    } else {
        match base64_decode_of(spec_framed_region(raw)) {
            None => Err(DecryptError::InvalidEncoding),
            Some(ct) => {
                if ct.len() == 0 || ct.len() as int % (BLOCK_SIZE as int) != 0 {
                    Err(DecryptError::DecryptionFailed)
                } else {
                    match spec_pkcs7_unpad(save_cipher_decrypt_of(ct)) {
                        None => Err(DecryptError::DecryptionFailed),
                        Some(p) => Ok(p),
                    }
                }
            },
        }
    }
}

/// How an executable outcome of the decryption stage relates to
/// [`spec_decrypt_save_file`].
pub open spec fn decrypt_result_matches(raw: Seq<u8>, r: Result<Vec<u8>, DecryptError>) -> bool {
    match (r, spec_decrypt_save_file(raw)) {
        (Ok(p), Ok(sp)) => p@ == sp,
        (Err(e), Err(se)) => e == se,
        _ => false,
    }
}

/// Relies on base64's `engine::general_purpose::STANDARD` decode: the
/// standard alphabet with canonical padding required, rejecting set
/// trailing bits.
#[verifier::external_body]
fn base64_decode(text: &[u8]) -> (r: Option<Vec<u8>>)
    ensures
        r matches Some(v) ==> base64_decode_of(text@) == Some(v@),
        r is None ==> base64_decode_of(text@) is None,
{
    base64::engine::general_purpose::STANDARD.decode(text).ok()
}

/// Relies on `ecb::Decryptor::<aes::Aes256>::decrypt_padded_mut` with
/// `Pkcs7`: it decrypts each block under the fixed key and strips strict
/// PKCS#7 padding, failing exactly when the input is empty, not
/// block-aligned, or the decrypted padding is malformed.
#[verifier::external_body]
fn aes_decrypt_padded(data: Vec<u8>) -> (r: Option<Vec<u8>>)
    ensures
        r matches Some(p) ==> data@.len() > 0 && data@.len() as int % (BLOCK_SIZE as int) == 0
            && spec_pkcs7_unpad(save_cipher_decrypt_of(data@)) == Some(p@),
        r is None ==> data@.len() == 0 || data@.len() as int % (BLOCK_SIZE as int) != 0
            || spec_pkcs7_unpad(save_cipher_decrypt_of(data@)) is None,
{
    let mut buf = data;
    let cipher = ecb::Decryptor::<aes::Aes256>::new(b"UKu52ePUBwetZ9wNX88o54dnfKRu0T1l".into());
    match cipher.decrypt_padded_mut::<cipher::block_padding::Pkcs7>(&mut buf) {
        Ok(p) => Some(p.to_vec()),
        Err(_) => None,
    }
}

/// Decrypt a raw save container to plaintext JSON bytes.
///
/// The first `HEADER_SIZE` bytes and the final byte are dropped by
/// position; the rest is base64-decoded and block-decrypted, and the
/// PKCS#7 padding is removed.
pub fn decrypt_save_file(raw_bytes: &[u8]) -> (r: Result<Vec<u8>, DecryptError>)
    ensures
        decrypt_result_matches(raw_bytes@, r),
{
    if raw_bytes.len() <= HEADER_SIZE + 1 {
        return Err(DecryptError::FileTooSmall);
    }
    let end = raw_bytes.len() - 1;
    let mut trimmed: Vec<u8> = Vec::new();
    let mut i: usize = HEADER_SIZE;
    while i < end
        invariant
            HEADER_SIZE <= i <= end,
            end == raw_bytes@.len() - 1,
            HEADER_SIZE + 1 < raw_bytes@.len(),
            trimmed@ == raw_bytes@.subrange(HEADER_SIZE as int, i as int),
        decreases end - i,
    {
        trimmed.push(raw_bytes[i]);
        assert(trimmed@ == raw_bytes@.subrange(HEADER_SIZE as int, i + 1));
        i = i + 1;
    }
    assert(trimmed@ == spec_framed_region(raw_bytes@));
    let decoded = match base64_decode(trimmed.as_slice()) {
        None => {
            return Err(DecryptError::InvalidEncoding);
        },
        Some(d) => d,
    };
    match aes_decrypt_padded(decoded) {
        Some(p) => Ok(p),
        None => Err(DecryptError::DecryptionFailed),
    }
}

/// Every container of at most `HEADER_SIZE + 1` bytes is rejected as too
/// small, before any of its bytes are interpreted.
pub proof fn lemma_small_file_rejected(raw: Seq<u8>)
    requires
        raw.len() <= HEADER_SIZE + 1,
    ensures
        spec_decrypt_save_file(raw) == Err::<Seq<u8>, DecryptError>(DecryptError::FileTooSmall),
{
}

/// The decryption stage is deterministic: two outcomes for the same
/// container bytes agree, both in the plaintext and in the error kind.
pub proof fn lemma_decrypt_deterministic(
    raw: Seq<u8>,
    r1: Result<Vec<u8>, DecryptError>,
    r2: Result<Vec<u8>, DecryptError>,
)
    requires
        decrypt_result_matches(raw, r1),
        decrypt_result_matches(raw, r2),
    ensures
        match (r1, r2) {
            (Ok(p1), Ok(p2)) => p1@ == p2@,
            (Err(e1), Err(e2)) => e1 == e2,
            _ => false,
        },
{
}

} // verus!
