//! End-to-end message encryption: a key per target (channel or nick), used
//! with Blowfish-CBC or AES-256-GCM, the result carried over IRC as base64.
use vstd::prelude::*;
use vstd::string::*;
use vstd::utf8::{decode_utf8, encode_utf8, valid_utf8};

use aes_gcm::aead::{Aead, AeadCore, KeyInit, OsRng};
use base64::Engine;
use cbc::cipher::block_padding::NoPadding;
use cbc::cipher::{BlockDecryptMut, BlockEncryptMut, KeyIvInit};
use sha2::Digest;

use crate::collections::AssocList;
use crate::error::{encryption_error, BitchYError};
use crate::text::{ascii_lower, owned, to_ascii_lower};

verus! {

// ---------------------------------------------------------------------------
// PKCS#7 padding
// ---------------------------------------------------------------------------

/// How many padding bytes PKCS#7 adds to `len` bytes in blocks of `bs`:
/// between 1 and `bs`, so that a whole block is added to an exact fit.
pub open spec fn pkcs7_pad_len(len: int, bs: int) -> int {
    bs - len % bs
}

/// `data` padded PKCS#7 style: `n` bytes of value `n` (as a byte).
pub open spec fn spec_pkcs7_pad(data: Seq<u8>, bs: int) -> Seq<u8> {
    let n = pkcs7_pad_len(data.len() as int, bs);
    data + Seq::new(n as nat, |i: int| (n % 256) as u8)
}

/// Taking PKCS#7 padding off (padding of at most 8 bytes): the data, or
/// the reason it is refused.
pub open spec fn spec_pkcs7_unpad(data: Seq<u8>) -> Result<Seq<u8>, Seq<char>> {
    if data.len() == 0 {
        Err("Empty data"@)
    } else {
        let n = data.last() as int;
        if n == 0 || n > 8 || n > data.len() {
            Err("Invalid padding"@)
        } else if exists|i: int| data.len() - n <= i < data.len() && #[trigger] data[i] != n as u8 {
            Err("Invalid padding"@)
        } else {
            Ok(data.subrange(0, data.len() - n))
        }
    }
}

/// The bytes `r` are what `s` describes, or `r` is the encryption error
/// with the text `s` gives.
pub open spec fn bytes_outcome(r: Result<Vec<u8>, BitchYError>, s: Result<Seq<u8>, Seq<char>>) -> bool {
    match s {
        Ok(b) => r matches Ok(v) && v@ == b,
        Err(m) => r matches Err(e) && encryption_error(e, m),
    }
}

/// Pads `data` to whole blocks of `block_size` bytes, PKCS#7 style.
pub fn pkcs7_pad(data: &[u8], block_size: usize) -> (r: Vec<u8>)
    requires
        block_size > 0,
        data@.len() + block_size <= usize::MAX,
    ensures
        r@ == spec_pkcs7_pad(data@, block_size as int),
{
    let pad_len = block_size - data.len() % block_size;
    let byte: u8 = (pad_len % 256) as u8;
    let mut padded = vstd::slice::slice_to_vec(data);
    let ghost n = pad_len as int;
    let mut i: usize = 0;
    while i < pad_len
        invariant
            i <= pad_len,
            n == pad_len,
            byte == (n % 256) as u8,
            padded@ == data@ + Seq::new(i as nat, |j: int| (n % 256) as u8),
        decreases pad_len - i,
    {
        padded.push(byte);
        i += 1;
        assert(padded@ =~= data@ + Seq::new(i as nat, |j: int| (n % 256) as u8));
    }
    padded
}

/// Takes PKCS#7 padding (of at most 8 bytes) off `data`.
pub fn pkcs7_unpad(data: &[u8]) -> (r: Result<Vec<u8>, BitchYError>)
    ensures
        bytes_outcome(r, spec_pkcs7_unpad(data@)),
{
    let len = data.len();
    if len == 0 {
        return Err(BitchYError::Encryption(owned("Empty data")));
    }
    let pad_len = data[len - 1] as usize;
    if pad_len == 0 || pad_len > 8 || pad_len > len {
        return Err(BitchYError::Encryption(owned("Invalid padding")));
    }
    let mut i: usize = len - pad_len;
    while i < len
        invariant
            len == data@.len(),
            0 < pad_len <= len,
            len - pad_len <= i <= len,
            pad_len == data@.last() as int,
            forall|j: int| len - pad_len <= j < i ==> data@[j] == pad_len as u8,
        decreases len - i,
    {
        if data[i] != pad_len as u8 {
            return Err(BitchYError::Encryption(owned("Invalid padding")));
        }
        i += 1;
    }
    let mut out: Vec<u8> = Vec::new();
    let mut k: usize = 0;
    while k < len - pad_len
        invariant
            len == data@.len(),
            pad_len <= len,
            k <= len - pad_len,
            out@ == data@.subrange(0, k as int),
        decreases len - pad_len - k,
    {
        out.push(data[k]);
        k += 1;
        assert(out@ =~= data@.subrange(0, k as int));
    }
    Ok(out)
}

/// Taking off the padding that [`pkcs7_pad`] puts on 8-byte blocks gives
/// the data back.
pub proof fn lemma_pkcs7_round_trip(data: Seq<u8>)
    ensures
        spec_pkcs7_unpad(spec_pkcs7_pad(data, 8)) == Ok::<Seq<u8>, Seq<char>>(data),
{
    let p = spec_pkcs7_pad(data, 8);
    let n = pkcs7_pad_len(data.len() as int, 8);
    assert(1 <= n <= 8);
    assert(p.len() == data.len() + n);
    assert(p.last() == n as u8);
    assert(!exists|i: int| p.len() - n <= i < p.len() && #[trigger] p[i] != n as u8);
    assert(p.subrange(0, p.len() - n) =~= data);
}

// ---------------------------------------------------------------------------
// The ciphers
// ---------------------------------------------------------------------------

/// Which step of a cipher call refused its input: the key, or the data.
enum CipherFailure {
    Key,
    Data,
}

/// Blowfish accepts keys of 4 to 56 bytes.
pub open spec fn blowfish_key_ok(key: Seq<u8>) -> bool {
    4 <= key.len() <= 56
}

/// The longest plaintext AES-GCM encrypts: 2^36 bytes.
pub open spec fn aes_gcm_max_len() -> int {
    0x10_0000_0000
}

/// Blowfish-CBC under `key` with an all-zero IV, over whole 8-byte blocks.
pub uninterp spec fn blowfish_cbc_ciphertext(key: Seq<u8>, data: Seq<u8>) -> Seq<u8>;

/// Blowfish-CBC decryption under `key` with an all-zero IV.
pub uninterp spec fn blowfish_cbc_plaintext(key: Seq<u8>, data: Seq<u8>) -> Seq<u8>;

/// The SHA-256 digest of `data`.
pub uninterp spec fn sha256(data: Seq<u8>) -> Seq<u8>;

/// AES-256-GCM under `key` and `nonce`, with no associated data: the
/// ciphertext followed by the 16-byte tag.
pub uninterp spec fn aes256_gcm_sealed(key: Seq<u8>, nonce: Seq<u8>, data: Seq<u8>) -> Seq<u8>;

/// AES-256-GCM decryption under `key` and `nonce`: the plaintext when the
/// tag checks out.
pub uninterp spec fn aes256_gcm_opened(key: Seq<u8>, nonce: Seq<u8>, data: Seq<u8>) -> Option<Seq<u8>>;

/// The standard, padded base64 text of `data`.
pub uninterp spec fn base64_text(data: Seq<u8>) -> Seq<char>;

/// The bytes a standard base64 text stands for, when it is one.
pub uninterp spec fn base64_bytes(text: Seq<char>) -> Option<Seq<u8>>;

/// Blowfish-CBC encryption with an all-zero IV of data made of whole
/// 8-byte blocks: `cbc::Encryptor::<Blowfish>::new_from_slices`, then
/// `encrypt_padded_mut::<NoPadding>`. Blowfish's `new_from_slice` refuses a
/// key shorter than 4 or longer than 56 bytes; otherwise the ciphertext is
/// as long as the data, and its bytes are what `blowfish_cbc_ciphertext`
/// names.
#[verifier::external_body]
fn blowfish_cbc_seal(key: &[u8], data: &[u8]) -> (r: Result<Vec<u8>, CipherFailure>)
    requires
        data@.len() % 8 == 0,
    ensures
        r is Ok <==> blowfish_key_ok(key@),
        r matches Ok(c) ==> c@ == blowfish_cbc_ciphertext(key@, data@) && c@.len() == data@.len(),
{
    let enc = match cbc::Encryptor::<blowfish::Blowfish>::new_from_slices(key, &[0u8; 8]) {
        Ok(enc) => enc,
        Err(_) => return Err(CipherFailure::Key),
    };
    let mut buf = data.to_vec();
    let n = buf.len();
    match enc.encrypt_padded_mut::<NoPadding>(&mut buf, n) {
        Ok(c) => Ok(c.to_vec()),
        Err(_) => Err(CipherFailure::Data),
    }
}

/// Blowfish-CBC decryption with an all-zero IV:
/// `cbc::Decryptor::<Blowfish>::new_from_slices`, then
/// `decrypt_padded_mut::<NoPadding>`. The key is refused as above; data that
/// is not made of whole 8-byte blocks is refused (`UnpadError`); otherwise
/// the plaintext is as long as the data. CBC decryption undoes CBC
/// encryption under the same key and IV.
#[verifier::external_body]
fn blowfish_cbc_open(key: &[u8], data: &[u8]) -> (r: Result<Vec<u8>, CipherFailure>)
    ensures
        match r {
            Ok(p) => {
                &&& blowfish_key_ok(key@) && data@.len() % 8 == 0
                &&& p@ == blowfish_cbc_plaintext(key@, data@) && p@.len() == data@.len()
                &&& forall|m: Seq<u8>|
                    m.len() % 8 == 0 && #[trigger] blowfish_cbc_ciphertext(key@, m) == data@ ==> p@
                        == m
            },
            Err(f) => {
                &&& f is Key <==> !blowfish_key_ok(key@)
                &&& f is Data <==> blowfish_key_ok(key@) && data@.len() % 8 != 0
                &&& blowfish_key_ok(key@) ==> forall|m: Seq<u8>|
                    m.len() % 8 == 0 ==> #[trigger] blowfish_cbc_ciphertext(key@, m) != data@
            },
        },
{
    let dec = match cbc::Decryptor::<blowfish::Blowfish>::new_from_slices(key, &[0u8; 8]) {
        Ok(dec) => dec,
        Err(_) => return Err(CipherFailure::Key),
    };
    let mut buf = data.to_vec();
    match dec.decrypt_padded_mut::<NoPadding>(&mut buf) {
        Ok(p) => Ok(p.to_vec()),
        Err(_) => Err(CipherFailure::Data),
    }
}

/// The SHA-256 digest of `data`: `Sha256::digest`. It is 32 bytes long;
/// its bytes are what `sha256` names.
#[verifier::external_body]
fn sha256_digest(data: &[u8]) -> (r: Vec<u8>)
    ensures
        r@ == sha256(data@),
        r@.len() == 32,
{
    sha2::Sha256::digest(data).to_vec()
}

/// A fresh AES-GCM nonce from the operating system's random source:
/// `Aes256Gcm::generate_nonce(&mut OsRng)`. It is 12 bytes long; nothing is
/// stated of its bytes, which are random. (`OsRng` panics when the system
/// cannot supply randomness.)
#[verifier::external_body]
fn random_nonce() -> (r: Vec<u8>)
    ensures
        r@.len() == 12,
{
    aes_gcm::Aes256Gcm::generate_nonce(&mut OsRng).to_vec()
}

/// AES-256-GCM encryption with no associated data:
/// `Aes256Gcm::new_from_slice` on a 32-byte key, then `Aead::encrypt`. It
/// refuses a plaintext longer than 2^36 bytes (`aead::Error`); otherwise the
/// result is the ciphertext and its 16-byte tag, named by
/// `aes256_gcm_sealed`.
#[verifier::external_body]
fn aes256_gcm_seal(key: &[u8], nonce: &[u8], data: &[u8]) -> (r: Result<Vec<u8>, CipherFailure>)
    requires
        key@.len() == 32,
        nonce@.len() == 12,
    ensures
        r is Ok <==> data@.len() <= aes_gcm_max_len(),
        r matches Err(f) ==> f is Data,
        r matches Ok(c) ==> c@ == aes256_gcm_sealed(key@, nonce@, data@) && c@.len() == data@.len()
            + 16,
{
    let cipher = match aes_gcm::Aes256Gcm::new_from_slice(key) {
        Ok(c) => c,
        Err(_) => return Err(CipherFailure::Key),
    };
    match cipher.encrypt(aes_gcm::Nonce::from_slice(nonce), data) {
        Ok(c) => Ok(c),
        Err(_) => Err(CipherFailure::Data),
    }
}

/// AES-256-GCM decryption with no associated data:
/// `Aes256Gcm::new_from_slice` on a 32-byte key, then `Aead::decrypt`. It
/// gives the plaintext when the tag checks out and `aead::Error` when not;
/// what it gives is named by `aes256_gcm_opened`. Decryption undoes
/// encryption under the same key and nonce.
#[verifier::external_body]
fn aes256_gcm_open(key: &[u8], nonce: &[u8], data: &[u8]) -> (r: Result<Vec<u8>, CipherFailure>)
    requires
        key@.len() == 32,
        nonce@.len() == 12,
    ensures
        match r {
            Ok(p) => {
                &&& aes256_gcm_opened(key@, nonce@, data@) == Some(p@)
                &&& forall|m: Seq<u8>|
                    m.len() <= aes_gcm_max_len() && #[trigger] aes256_gcm_sealed(key@, nonce@, m)
                        == data@ ==> p@ == m
            },
            Err(f) => {
                &&& aes256_gcm_opened(key@, nonce@, data@) is None && f is Data
                &&& forall|m: Seq<u8>|
                    m.len() <= aes_gcm_max_len() ==> #[trigger] aes256_gcm_sealed(key@, nonce@, m)
                        != data@
            },
        },
{
    let cipher = match aes_gcm::Aes256Gcm::new_from_slice(key) {
        Ok(c) => c,
        Err(_) => return Err(CipherFailure::Key),
    };
    match cipher.decrypt(aes_gcm::Nonce::from_slice(nonce), data) {
        Ok(p) => Ok(p),
        Err(_) => Err(CipherFailure::Data),
    }
}

/// The standard, padded base64 text of `data`:
/// `general_purpose::STANDARD.encode`, named by `base64_text`.
#[verifier::external_body]
pub(crate) fn base64_encode(data: &[u8]) -> (r: String)
    ensures
        r@ == base64_text(data@),
{
    base64::engine::general_purpose::STANDARD.encode(data)
}

/// Reads standard base64: `general_purpose::STANDARD.decode`, the error
/// given by its `Display` text. This engine requires canonical padding and
/// zero trailing bits, so it accepts exactly the texts its `encode` writes,
/// and gives back the bytes they were written from.
#[verifier::external_body]
fn base64_decode(text: &str) -> (r: Result<Vec<u8>, String>)
    ensures
        match r {
            Ok(v) => {
                &&& base64_bytes(text@) == Some(v@) && text@ == base64_text(v@)
                &&& forall|d: Seq<u8>| #[trigger] base64_text(d) == text@ ==> v@ == d
            },
            Err(_) => {
                &&& base64_bytes(text@) is None
                &&& forall|d: Seq<u8>| #[trigger] base64_text(d) != text@
            },
        },
{
    match base64::engine::general_purpose::STANDARD.decode(text) {
        Ok(v) => Ok(v),
        Err(e) => Err(e.to_string()),
    }
}

/// `String::from_utf8`: the text that `bytes` encode in UTF-8, or nothing
/// when they are not valid UTF-8.
#[verifier::external_body]
fn string_from_utf8(bytes: Vec<u8>) -> (r: Option<String>)
    ensures
        match r {
            Some(s) => valid_utf8(bytes@) && s@ == decode_utf8(bytes@),
            None => !valid_utf8(bytes@),
        },
{
    String::from_utf8(bytes).ok()
}

// ---------------------------------------------------------------------------
// Encrypting and decrypting bytes
// ---------------------------------------------------------------------------

/// What [`blowfish_encrypt`] gives: the PKCS#7-padded plaintext under
/// Blowfish-CBC, or the refusal of the key.
pub open spec fn spec_blowfish_encrypt(key: Seq<u8>, plaintext: Seq<u8>) -> Result<Seq<u8>, Seq<char>> {
    if blowfish_key_ok(key) {
        Ok(blowfish_cbc_ciphertext(key, spec_pkcs7_pad(plaintext, 8)))
    } else {
        Err("Blowfish init error: Invalid Length"@)
    }
}

/// What [`blowfish_decrypt`] gives: the Blowfish-CBC plaintext with its
/// PKCS#7 padding taken off, or why it is refused.
pub open spec fn spec_blowfish_decrypt(key: Seq<u8>, ciphertext: Seq<u8>) -> Result<Seq<u8>, Seq<char>> {
    if !blowfish_key_ok(key) {
        Err("Blowfish init error: Invalid Length"@)
    } else if ciphertext.len() % 8 != 0 {
        Err("Blowfish decrypt error"@)
    } else {
        spec_pkcs7_unpad(blowfish_cbc_plaintext(key, ciphertext))
    }
}

/// What AES-GCM encryption under the passphrase `key` with `nonce` sends:
/// the nonce, then the plaintext sealed under the SHA-256 of the passphrase.
pub open spec fn aes_gcm_message(key: Seq<u8>, nonce: Seq<u8>, plaintext: Seq<u8>) -> Seq<u8> {
    nonce + aes256_gcm_sealed(sha256(key), nonce, plaintext)
}

/// What [`aes_gcm_decrypt`] gives: the first 12 bytes are the nonce, the
/// rest is opened under the SHA-256 of the passphrase.
pub open spec fn spec_aes_gcm_decrypt(key: Seq<u8>, ciphertext: Seq<u8>) -> Result<Seq<u8>, Seq<char>> {
    if ciphertext.len() < 12 {
        Err("Ciphertext too short for AES-GCM"@)
    } else {
        match aes256_gcm_opened(
            sha256(key),
            ciphertext.subrange(0, 12),
            ciphertext.subrange(12, ciphertext.len() as int),
        ) {
            Some(p) => Ok(p),
            None => Err("AES-GCM decrypt error: aead::Error"@),
        }
    }
}

fn encryption_failure(msg: &str) -> (e: BitchYError)
    ensures
        encryption_error(e, msg@),
{
    BitchYError::Encryption(owned(msg))
}

/// Encrypts with Blowfish-CBC (all-zero IV) after PKCS#7 padding.
pub fn blowfish_encrypt(key: &[u8], plaintext: &[u8]) -> (r: Result<Vec<u8>, BitchYError>)
    requires
        plaintext@.len() + 8 <= usize::MAX,
    ensures
        bytes_outcome(r, spec_blowfish_encrypt(key@, plaintext@)),
{
    let padded = pkcs7_pad(plaintext, 8);
    match blowfish_cbc_seal(key, padded.as_slice()) {
        Ok(c) => Ok(c),
        Err(_) => Err(encryption_failure("Blowfish init error: Invalid Length")),
    }
}

/// Decrypts Blowfish-CBC (all-zero IV) and takes the PKCS#7 padding off.
/// What [`blowfish_encrypt`] wrote under the same key comes back as it was.
pub fn blowfish_decrypt(key: &[u8], ciphertext: &[u8]) -> (r: Result<Vec<u8>, BitchYError>)
    ensures
        bytes_outcome(r, spec_blowfish_decrypt(key@, ciphertext@)),
        forall|m: Seq<u8>|
            #[trigger] spec_blowfish_encrypt(key@, m) == Ok::<Seq<u8>, Seq<char>>(ciphertext@) ==> (r matches Ok(
                v,
            ) && v@ == m),
{
    let r = match blowfish_cbc_open(key, ciphertext) {
        Ok(p) => pkcs7_unpad(p.as_slice()),
        Err(CipherFailure::Key) => Err(encryption_failure("Blowfish init error: Invalid Length")),
        Err(CipherFailure::Data) => Err(encryption_failure("Blowfish decrypt error")),
    };
    proof {
        assert forall|m: Seq<u8>|
            #[trigger] spec_blowfish_encrypt(key@, m) == Ok::<Seq<u8>, Seq<char>>(ciphertext@) implies (r matches Ok(
                v,
            ) && v@ == m) by {
            let padded = spec_pkcs7_pad(m, 8);
            assert(padded.len() % 8 == 0);
            assert(blowfish_cbc_ciphertext(key@, padded) == ciphertext@);
            lemma_pkcs7_round_trip(m);
        }
    }
    r
}

/// Encrypts with AES-256-GCM under the SHA-256 of `key` and a fresh random
/// nonce; the result is the nonce followed by the sealed plaintext.
pub fn aes_gcm_encrypt(key: &[u8], plaintext: &[u8]) -> (r: Result<Vec<u8>, BitchYError>)
    ensures
        plaintext@.len() <= aes_gcm_max_len() ==> (r matches Ok(c) && c@.len() == plaintext@.len()
            + 28 && c@ == aes_gcm_message(key@, c@.subrange(0, 12), plaintext@)),
        plaintext@.len() > aes_gcm_max_len() ==> (r matches Err(e) && encryption_error(
            e,
            "AES-GCM encrypt error: aead::Error"@,
        )),
{
    let key_bytes = sha256_digest(key);
    let nonce = random_nonce();
    match aes256_gcm_seal(key_bytes.as_slice(), nonce.as_slice(), plaintext) {
        Ok(sealed) => {
            let mut result = nonce.clone();
            let mut i: usize = 0;
            while i < sealed.len()
                invariant
                    i <= sealed@.len(),
                    nonce@.len() == 12,
                    result@ == nonce@ + sealed@.subrange(0, i as int),
                decreases sealed@.len() - i,
            {
                result.push(sealed[i]);
                i += 1;
                assert(result@ =~= nonce@ + sealed@.subrange(0, i as int));
            }
            assert(sealed@.subrange(0, sealed@.len() as int) =~= sealed@);
            assert(result@.subrange(0, 12) =~= nonce@);
            Ok(result)
        },
        Err(_) => Err(encryption_failure("AES-GCM encrypt error: aead::Error")),
    }
}

/// Decrypts what [`aes_gcm_encrypt`] writes: a 12-byte nonce, then the
/// sealed plaintext. What was encrypted under the same passphrase comes
/// back as it was.
pub fn aes_gcm_decrypt(key: &[u8], ciphertext: &[u8]) -> (r: Result<Vec<u8>, BitchYError>)
    ensures
        bytes_outcome(r, spec_aes_gcm_decrypt(key@, ciphertext@)),
        forall|nonce: Seq<u8>, m: Seq<u8>|
            nonce.len() == 12 && m.len() <= aes_gcm_max_len() && #[trigger] aes_gcm_message(
                key@,
                nonce,
                m,
            ) == ciphertext@ ==> (r matches Ok(v) && v@ == m),
{
    if ciphertext.len() < 12 {
        return Err(encryption_failure("Ciphertext too short for AES-GCM"));
    }
    let key_bytes = sha256_digest(key);
    let nonce = vstd::slice::slice_subrange(ciphertext, 0, 12);
    let body = vstd::slice::slice_subrange(ciphertext, 12, ciphertext.len());
    let r = match aes256_gcm_open(key_bytes.as_slice(), nonce, body) {
        Ok(p) => Ok(p),
        Err(_) => Err(encryption_failure("AES-GCM decrypt error: aead::Error")),
    };
    proof {
        assert forall|n: Seq<u8>, m: Seq<u8>|
            n.len() == 12 && m.len() <= aes_gcm_max_len() && #[trigger] aes_gcm_message(key@, n, m)
                == ciphertext@ implies (r matches Ok(v) && v@ == m) by {
            let s = aes256_gcm_sealed(sha256(key@), n, m);
            assert(ciphertext@.subrange(0, 12) =~= n);
            assert(ciphertext@.subrange(12, ciphertext@.len() as int) =~= s);
        }
    }
    r
}

/// The base64 text sent for `data`.
pub fn encode_for_irc(data: &[u8]) -> (r: String)
    ensures
        r@ == base64_text(data@),
{
    base64_encode(data)
}

/// The bytes a received base64 text stands for. What [`encode_for_irc`]
/// wrote comes back as it was.
pub fn decode_from_irc(data: &str) -> (r: Result<Vec<u8>, BitchYError>)
    ensures
        match base64_bytes(data@) {
            Some(b) => r matches Ok(v) && v@ == b,
            None => r matches Err(e) && e is Encryption,
        },
        forall|d: Seq<u8>| #[trigger] base64_text(d) == data@ ==> (r matches Ok(v) && v@ == d),
{
    match base64_decode(data) {
        Ok(v) => Ok(v),
        Err(e) => {
            let mut msg = owned("Base64 decode error: ");
            msg.append(e.as_str());
            Err(BitchYError::Encryption(msg))
        },
    }
}

// ---------------------------------------------------------------------------
// Keys per target
// ---------------------------------------------------------------------------

/// The cipher a key is used with.
#[derive(Debug, Clone, Copy, PartialEq, Eq, Structural)]
pub enum CipherType {
    Blowfish,
    AesGcm,
}

/// A key for one target: the target as it was given, the key bytes and
/// the cipher.
#[derive(Debug)]
pub struct EncryptionKey {
    pub target: String,
    pub key: Vec<u8>,
    pub cipher: CipherType,
}

impl View for EncryptionKey {
    type V = (Seq<char>, Seq<u8>, CipherType);

    open spec fn view(&self) -> (Seq<char>, Seq<u8>, CipherType) {
        (self.target@, self.key@, self.cipher)
    }
}

/// The keys in use, by target; targets are matched without regard to
/// ASCII case.
#[derive(Debug)]
pub struct KeyStore {
    keys: AssocList<EncryptionKey>,
}

/// `text` is something [`KeyStore::encrypt_message`] may send for
/// `plaintext` under the key `k`: for Blowfish the one ciphertext, for
/// AES-GCM the ciphertext under some 12-byte nonce, in base64.
pub open spec fn sealed_text(k: (Seq<char>, Seq<u8>, CipherType), plaintext: Seq<char>, text: Seq<char>) -> bool {
    let bytes = encode_utf8(plaintext);
    match k.2 {
        CipherType::Blowfish => spec_blowfish_encrypt(k.1, bytes) matches Ok(c) && text
            == base64_text(c),
        CipherType::AesGcm => bytes.len() <= aes_gcm_max_len() && exists|n: Seq<u8>|
            n.len() == 12 && text == base64_text(#[trigger] aes_gcm_message(k.1, n, bytes)),
    }
}

/// Whether the key `k` can encrypt `plaintext`: Blowfish needs a key of 4
/// to 56 bytes, AES-GCM a plaintext of at most 2^36 bytes.
pub open spec fn can_seal(k: (Seq<char>, Seq<u8>, CipherType), plaintext: Seq<char>) -> bool {
    match k.2 {
        CipherType::Blowfish => blowfish_key_ok(k.1),
        CipherType::AesGcm => encode_utf8(plaintext).len() <= aes_gcm_max_len(),
    }
}

/// What [`KeyStore::decrypt_message`] gives for `text` under the key `k`:
/// the base64 is read, decrypted, and read as UTF-8.
pub open spec fn opened_text(k: (Seq<char>, Seq<u8>, CipherType), text: Seq<char>) -> Option<Seq<char>> {
    match base64_bytes(text) {
        None => None,
        Some(d) => match (match k.2 {
            CipherType::Blowfish => spec_blowfish_decrypt(k.1, d),
            CipherType::AesGcm => spec_aes_gcm_decrypt(k.1, d),
        }) {
            Ok(b) => if valid_utf8(b) {
                Some(decode_utf8(b))
            } else {
                None
            },
            Err(_) => None,
        },
    }
}

impl View for KeyStore {
    type V = Map<Seq<char>, (Seq<char>, Seq<u8>, CipherType)>;

    closed spec fn view(&self) -> Map<Seq<char>, (Seq<char>, Seq<u8>, CipherType)> {
        self.keys@.map_values(|k: EncryptionKey| k@)
    }
}

impl KeyStore {
    /// The store's table is well formed.
    pub closed spec fn wf(&self) -> bool {
        self.keys.wf()
    }

    proof fn lemma_view(&self)
        ensures
            self@.dom() == self.keys@.dom(),
            forall|k: Seq<char>| self.keys@.contains_key(k) ==> #[trigger] self@[k] == self.keys@[k]@,
    {
        assert(self@.dom() =~= self.keys@.dom());
    }

    /// The lower-cased targets, in the order their keys were first added.
    pub closed spec fn target_order(&self) -> Seq<Seq<char>> {
        self.keys.key_seq()
    }

    /// An empty store.
    pub fn new() -> (r: KeyStore)
        ensures
            r.wf(),
            r@ == Map::<Seq<char>, (Seq<char>, Seq<u8>, CipherType)>::empty(),
    {
        let r = KeyStore { keys: AssocList::new() };
        assert(r@ =~= Map::<Seq<char>, (Seq<char>, Seq<u8>, CipherType)>::empty());
        r
    }

    /// Sets the key for `target`, replacing any it had.
    pub fn add_key(&mut self, target: &str, key: &[u8], cipher: CipherType)
        requires
            old(self).wf(),
        ensures
            final(self).wf(),
            final(self)@ == old(self)@.insert(ascii_lower(target@), (target@, key@, cipher)),
    {
        let lower = to_ascii_lower(target);
        let ek = EncryptionKey { target: owned(target), key: vstd::slice::slice_to_vec(key), cipher };
        let ghost old_keys = self.keys@;
        self.keys.insert(lower, ek);
        assert(self@ =~= old(self)@.insert(ascii_lower(target@), (target@, key@, cipher)));
    }

    /// Forgets the key for `target`; returns it if there was one.
    pub fn remove_key(&mut self, target: &str) -> (r: Option<EncryptionKey>)
        requires
            old(self).wf(),
        ensures
            final(self).wf(),
            final(self)@ == old(self)@.remove(ascii_lower(target@)),
            match r {
                Some(k) => old(self)@.get(ascii_lower(target@)) == Some(k@),
                None => !old(self)@.contains_key(ascii_lower(target@)),
            },
    {
        let lower = to_ascii_lower(target);
        let r = self.keys.remove(lower.as_str());
        assert(self@ =~= old(self)@.remove(ascii_lower(target@)));
        r
    }

    /// The key for `target`, if there is one.
    pub fn get_key(&self, target: &str) -> (r: Option<&EncryptionKey>)
        requires
            self.wf(),
        ensures
            match r {
                Some(k) => self@.get(ascii_lower(target@)) == Some(k@),
                None => !self@.contains_key(ascii_lower(target@)),
            },
    {
        let lower = to_ascii_lower(target);
        self.keys.get(lower.as_str())
    }

    /// Whether `target` has a key.
    pub fn is_encrypted(&self, target: &str) -> (r: bool)
        requires
            self.wf(),
        ensures
            r == self@.contains_key(ascii_lower(target@)),
    {
        let lower = to_ascii_lower(target);
        self.keys.contains_key(lower.as_str())
    }

    /// Encrypts `plaintext` for `target` with its key, as base64 text;
    /// nothing when `target` has no key or the cipher refuses.
    pub fn encrypt_message(&self, target: &str, plaintext: &str) -> (r: Option<String>)
        requires
            self.wf(),
            encode_utf8(plaintext@).len() + 8 <= usize::MAX,
        ensures
            match self@.get(ascii_lower(target@)) {
                None => r is None,
                Some(k) => {
                    &&& r is Some <==> can_seal(k, plaintext@)
                    &&& r matches Some(c) ==> sealed_text(k, plaintext@, c@)
                },
            },
    {
        proof {
            self.lemma_view();
        }
        let lower = to_ascii_lower(target);
        let ek = match self.keys.get(lower.as_str()) {
            Some(ek) => ek,
            None => return None,
        };
        let bytes = plaintext.as_bytes_vec();
        let encrypted = match ek.cipher {
            CipherType::Blowfish => match blowfish_encrypt(ek.key.as_slice(), bytes.as_slice()) {
                Ok(c) => c,
                Err(_) => return None,
            },
            CipherType::AesGcm => match aes_gcm_encrypt(ek.key.as_slice(), bytes.as_slice()) {
                Ok(c) => {
                    proof {
                        let n = c@.subrange(0, 12);
                        assert(aes_gcm_message(ek.key@, n, bytes@) == c@);
                    }
                    c
                },
                Err(_) => return None,
            },
        };
        Some(encode_for_irc(encrypted.as_slice()))
    }

    /// Decrypts base64 text received from `target` with its key; nothing
    /// when `target` has no key or the text does not decrypt to UTF-8.
    /// What [`KeyStore::encrypt_message`] sent under the same key comes
    /// back as it was.
    pub fn decrypt_message(&self, target: &str, ciphertext: &str) -> (r: Option<String>)
        requires
            self.wf(),
        ensures
            match self@.get(ascii_lower(target@)) {
                None => r is None,
                Some(k) => match opened_text(k, ciphertext@) {
                    Some(t) => r matches Some(s) && s@ == t,
                    None => r is None,
                },
            },
            forall|m: Seq<char>|
                self@.contains_key(ascii_lower(target@)) && #[trigger] sealed_text(
                    self@[ascii_lower(target@)],
                    m,
                    ciphertext@,
                ) ==> (r matches Some(s) && s@ == m),
    {
        proof {
            self.lemma_view();
        }
        let lower = to_ascii_lower(target);
        let ek = match self.keys.get(lower.as_str()) {
            Some(ek) => ek,
            None => return None,
        };
        let decoded = base64_decode(ciphertext);
        let r = match decoded {
            Err(_) => None,
            Ok(data) => {
                let opened = match ek.cipher {
                    CipherType::Blowfish => blowfish_decrypt(ek.key.as_slice(), data.as_slice()),
                    CipherType::AesGcm => aes_gcm_decrypt(ek.key.as_slice(), data.as_slice()),
                };
                let r = match opened {
                    Ok(b) => string_from_utf8(b),
                    Err(_) => None,
                };
                proof {
                    assert forall|m: Seq<char>| #[trigger]
                        sealed_text(ek@, m, ciphertext@) implies (r matches Some(s) && s@ == m) by {
                        let bytes = encode_utf8(m);
                        vstd::utf8::encode_utf8_valid_utf8(m);
                        vstd::utf8::encode_utf8_decode_utf8(m);
                        match ek.cipher {
                            CipherType::Blowfish => {
                                let c = blowfish_cbc_ciphertext(ek.key@, spec_pkcs7_pad(bytes, 8));
                                assert(spec_blowfish_encrypt(ek.key@, bytes) == Ok::<Seq<u8>, Seq<char>>(c));
                                assert(base64_text(c) == ciphertext@);
                                assert(data@ == c);
                            },
                            CipherType::AesGcm => {
                                let n = choose|n: Seq<u8>|
                                    n.len() == 12 && ciphertext@ == base64_text(
                                        #[trigger] aes_gcm_message(ek.key@, n, bytes),
                                    );
                                assert(base64_text(aes_gcm_message(ek.key@, n, bytes)) == ciphertext@);
                                assert(data@ == aes_gcm_message(ek.key@, n, bytes));
                            },
                        }
                    }
                }
                r
            },
        };
        proof {
            assert forall|m: Seq<char>| #[trigger] sealed_text(ek@, m, ciphertext@) implies (r matches Some(
                s,
            ) && s@ == m) by {
                if decoded is Err {
                    let bytes = encode_utf8(m);
                    match ek.cipher {
                        CipherType::Blowfish => {
                            let c = blowfish_cbc_ciphertext(ek.key@, spec_pkcs7_pad(bytes, 8));
                            assert(base64_text(c) == ciphertext@);
                        },
                        CipherType::AesGcm => {
                            let n = choose|n: Seq<u8>|
                                n.len() == 12 && ciphertext@ == base64_text(
                                    #[trigger] aes_gcm_message(ek.key@, n, bytes),
                                );
                            assert(base64_text(aes_gcm_message(ek.key@, n, bytes)) == ciphertext@);
                        },
                    }
                }
            }
        }
        r
    }

    /// The targets that have keys, as they were given, one per key.
    pub fn list_keys(&self) -> (r: Vec<&str>)
        requires
            self.wf(),
        ensures
            r@.len() == self@.len(),
            r@.len() == self.target_order().len(),
            forall|i: int|
                0 <= i < r@.len() ==> self@.contains_key(self.target_order()[i]) && (#[trigger] r@[i])@
                    == self@[self.target_order()[i]].0,
    {
        proof {
            self.keys.lemma_order();
            self.lemma_view();
        }
        let n = self.keys.len();
        let mut out: Vec<&str> = Vec::new();
        let mut i: usize = 0;
        while i < n
            invariant
                self.wf(),
                n == self.target_order().len(),
                i <= n,
                out@.len() == i,
                forall|j: int|
                    0 <= j < i ==> (#[trigger] out@[j])@ == self@[self.target_order()[j]].0,
            decreases n - i,
        {
            proof {
                self.keys.lemma_order();
                self.lemma_view();
            }
            let ek = self.keys.value_at(i);
            let t = ek.target.as_str();
            proof {
                let k = self.keys.key_seq()[i as int];
                assert(self.keys.key_seq().contains(k));
                assert(self@[k] == ek@);
            }
            out.push(t);
            i += 1;
        }
        proof {
            self.keys.lemma_order();
            self.lemma_view();
            assert forall|i: int| 0 <= i < out@.len() implies self@.contains_key(
                self.target_order()[i],
            ) by {
                assert(self.keys.key_seq().contains(self.keys.key_seq()[i]));
            }
        }
        out
    }
}

impl Default for KeyStore {
    fn default() -> (r: KeyStore)
        ensures
            r.wf(),
            r@ == Map::<Seq<char>, (Seq<char>, Seq<u8>, CipherType)>::empty(),
    {
        KeyStore::new()
    }
}

/// A key is found under any spelling of its target that differs only in
/// ASCII case.
pub proof fn lemma_key_case_insensitive(
    keys: Map<Seq<char>, (Seq<char>, Seq<u8>, CipherType)>,
    target: Seq<char>,
    other: Seq<char>,
    key: Seq<u8>,
    cipher: CipherType,
)
    requires
        ascii_lower(target) == ascii_lower(other),
    ensures
        keys.insert(ascii_lower(target), (target, key, cipher)).get(ascii_lower(other)) == Some(
            (target, key, cipher),
        ),
{
}

/// Removing a key that was just added for a target that had none leaves
/// the store as it was.
pub proof fn lemma_key_add_then_remove(
    keys: Map<Seq<char>, (Seq<char>, Seq<u8>, CipherType)>,
    target: Seq<char>,
    key: Seq<u8>,
    cipher: CipherType,
)
    requires
        !keys.contains_key(ascii_lower(target)),
    ensures
        keys.insert(ascii_lower(target), (target, key, cipher)).remove(ascii_lower(target)) == keys,
{
    assert(keys.insert(ascii_lower(target), (target, key, cipher)).remove(ascii_lower(target)) =~= keys);
}

} // verus!
