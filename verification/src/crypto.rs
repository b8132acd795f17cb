//! The cryptographic service: authenticated encryption of byte blobs,
//! keyed-hash signing and verification, salted digests, and secure random
//! generation.
//!
//! The outside cipher, digest and encoding calls sit behind small trusted
//! wrappers. What each call returns is given a name (an uninterpreted spec
//! function of the inputs); everything built on top — blob layout, error
//! taxonomy, sign/verify agreement — is verified against those names.

use vstd::prelude::*;

use crate::config::Config;
use crate::strutil::str_eq;

verus! {

use vstd::utf8::encode_utf8;
use vstd::utf8::is_ascii_chars;
use base64::Engine;
use hmac::{KeyInit, Mac};
use ring::aead::{Aad, LessSafeKey, Nonce, UnboundKey, AES_256_GCM};
use sha2::Digest;

/// What the SHA-256 digest of `data` is. The digest is a function of the
/// bytes alone; its 32-byte length is stated at the call site.
pub uninterp spec fn sha256_of(data: Seq<u8>) -> Seq<u8>;

/// What the HMAC-SHA-256 tag over `data` under `secret` is.
pub uninterp spec fn hmac_sha256_of(secret: Seq<u8>, data: Seq<u8>) -> Seq<u8>;

/// What the standard (padded) base64 rendering of `data` is.
pub uninterp spec fn b64_of(data: Seq<u8>) -> Seq<char>;

/// What standard base64 decoding yields for `text`: the bytes, or nothing
/// when `text` is not valid base64.
pub uninterp spec fn b64_decode_of(text: Seq<char>) -> Option<Seq<u8>>;

/// What AES-256-GCM sealing of `data` under `key` and `nonce` produces:
/// the ciphertext with the 16-byte tag appended.
pub uninterp spec fn aead_seal_of(key: Seq<u8>, nonce: Seq<u8>, data: Seq<u8>) -> Seq<u8>;

/// What AES-256-GCM opening of `data` under `key` and `nonce` yields: the
/// plaintext when the tag verifies, nothing otherwise.
pub uninterp spec fn aead_open_of(key: Seq<u8>, nonce: Seq<u8>, data: Seq<u8>) -> Option<Seq<u8>>;

/// Relies on ring's `SystemRandom::fill`: cryptographically secure random
/// bytes. Nothing is stated about the values; the length is the caller's.
#[verifier::external_body]
fn random_bytes(n: usize) -> (r: Option<Vec<u8>>)
    ensures
        match r {
            Some(v) => v@.len() == n as nat,
            None => true,
        },
{
    let mut buf = vec![0u8; n];
    ring::rand::SecureRandom::fill(&ring::rand::SystemRandom::new(), &mut buf).ok()?;
    Some(buf)
}

/// Relies on ring's `LessSafeKey::seal_in_place_append_tag` with
/// `AES_256_GCM`: appends the 16-byte tag, and what it seals, opening
/// under the same key and nonce gives back.
#[verifier::external_body]
fn aead_seal(key: &[u8], nonce: &[u8], data: &[u8]) -> (r: Option<Vec<u8>>)
    requires
        key@.len() == 32,
        nonce@.len() == 12,
    ensures
        match r {
            Some(ct) => {
                &&& ct@ == aead_seal_of(key@, nonce@, data@)
                &&& ct@.len() == data@.len() + 16
                &&& aead_open_of(key@, nonce@, ct@) == Some(data@)
            },
            None => true,
        },
{
    let sealing = LessSafeKey::new(UnboundKey::new(&AES_256_GCM, key).ok()?);
    let n = Nonce::try_assume_unique_for_key(nonce).ok()?;
    let mut buf = data.to_vec();
    sealing.seal_in_place_append_tag(n, Aad::empty(), &mut buf).ok()?;
    Some(buf)
}

/// Relies on ring's `LessSafeKey::open_in_place` with `AES_256_GCM`:
/// returns the plaintext exactly when the tag verifies.
#[verifier::external_body]
fn aead_open(key: &[u8], nonce: &[u8], data: &[u8]) -> (r: Option<Vec<u8>>)
    requires
        key@.len() == 32,
        nonce@.len() == 12,
    ensures
        match r {
            Some(pt) => aead_open_of(key@, nonce@, data@) == Some(pt@),
            None => aead_open_of(key@, nonce@, data@) is None,
        },
{
    let opening = LessSafeKey::new(UnboundKey::new(&AES_256_GCM, key).ok()?);
    let n = Nonce::try_assume_unique_for_key(nonce).ok()?;
    let mut buf = data.to_vec();
    let pt_len = opening.open_in_place(n, Aad::empty(), &mut buf).ok()?.len();
    buf.truncate(pt_len);
    Some(buf)
}

/// Relies on sha2's `Sha256::digest`: a 32-byte digest of the input bytes
/// alone.
#[verifier::external_body]
fn sha256_bytes(data: &[u8]) -> (r: Vec<u8>)
    ensures
        r@ == sha256_of(data@),
        r@.len() == 32,
{
    sha2::Sha256::digest(data).to_vec()
}

/// Relies on hmac's `Hmac<Sha256>`: a 32-byte tag over the data under the
/// secret; `new_from_slice` accepts keys of any length.
#[verifier::external_body]
fn hmac_sha256_bytes(secret: &[u8], data: &[u8]) -> (r: Vec<u8>)
    ensures
        r@ == hmac_sha256_of(secret@, data@),
        r@.len() == 32,
{
    let mut mac = <hmac::Hmac<sha2::Sha256> as KeyInit>::new_from_slice(secret).unwrap();
    Mac::update(&mut mac, data);
    mac.finalize().into_bytes().to_vec()
}

/// A character of the padded standard base64 alphabet: letters, digits,
/// `+`, `/` and the `=` padding. In particular never a dot.
pub open spec fn is_b64_char(c: char) -> bool {
    let u = c as u32;
    (65 <= u <= 90) || (97 <= u <= 122) || (48 <= u <= 57) || u == 43 || u == 47 || u == 61
}

/// Relies on base64's `STANDARD.encode`: padded standard-alphabet base64,
/// four ASCII characters for every three input bytes begun, every one of
/// them from the base64 alphabet, and what it encodes, decoding gives
/// back.
#[verifier::external_body]
fn b64_encode_bytes(data: &[u8]) -> (r: String)
    ensures
        r@ == b64_of(data@),
        r@.len() == 4 * ((data@.len() + 2) / 3),
        is_ascii_chars(r@),
        forall|i: int| 0 <= i < r@.len() ==> is_b64_char(#[trigger] r@[i]),
        b64_decode_of(r@) == Some(data@),
{
    base64::engine::general_purpose::STANDARD.encode(data)
}

/// Relies on base64's `STANDARD.decode`: the bytes the text encodes, or an
/// error when it is not valid padded base64.
#[verifier::external_body]
fn b64_decode_str(text: &str) -> (r: Option<Vec<u8>>)
    ensures
        match r {
            Some(v) => b64_decode_of(text@) == Some(v@),
            None => b64_decode_of(text@) is None,
        },
{
    base64::engine::general_purpose::STANDARD.decode(text).ok()
}

/// The ways a cryptographic operation can fail.
#[derive(Debug, Clone, Copy, PartialEq, Eq, Structural)]
pub enum CryptoError {
    /// Encryption or decryption was asked for before a key existed.
    KeyNotInitialized,
    /// A blob handed to decryption is too short to even hold a nonce and a
    /// tag.
    MalformedCiphertext,
    /// The authentication tag did not verify: the blob was tampered with
    /// or sealed under another key.
    AuthenticationFailure,
    /// The platform's random source or the cipher backend refused the
    /// operation.
    BackendFailure,
}

impl CryptoError {
    /// A human-readable rendering of the failure.
    pub fn message(&self) -> (r: &'static str)
        ensures
            r@ == self.message_spec(),
    {
        match self {
            CryptoError::KeyNotInitialized => "Encryption key not initialized",
            CryptoError::MalformedCiphertext => "Encrypted data too short",
            CryptoError::AuthenticationFailure => "Ciphertext failed authentication",
            CryptoError::BackendFailure => "Cryptographic backend failure",
        }
    }

    pub open spec fn message_spec(&self) -> Seq<char> {
        match self {
            CryptoError::KeyNotInitialized => "Encryption key not initialized"@,
            CryptoError::MalformedCiphertext => "Encrypted data too short"@,
            CryptoError::AuthenticationFailure => "Ciphertext failed authentication"@,
            CryptoError::BackendFailure => "Cryptographic backend failure"@,
        }
    }
}

/// What decrypting an encrypted blob under `key` yields: the blob carries
/// its nonce in the first 12 bytes and the sealed payload after them.
pub open spec fn decrypt_blob_spec(key: Seq<u8>, blob: Seq<u8>) -> Option<Seq<u8>> {
    aead_open_of(key, blob.take(12), blob.skip(12))
}

/// The salted one-way digest used for password-style verification,
/// rendered in base64.
pub open spec fn password_hash_spec(password: Seq<char>, salt: Seq<u8>) -> Seq<char> {
    b64_of(sha256_of(encode_utf8(password) + salt))
}

/// The base64 HMAC-SHA-256 signature of `data` under `secret`.
pub open spec fn hmac_signature_spec(data: Seq<char>, secret: Seq<char>) -> Seq<char> {
    b64_of(hmac_sha256_of(encode_utf8(secret), encode_utf8(data)))
}

/// Whether `signature` is accepted for `data` under `secret`: exactly
/// when it is the recomputed HMAC signature of that pair.
pub open spec fn hmac_verifies(data: Seq<char>, secret: Seq<char>, signature: Seq<char>) -> bool {
    signature == hmac_signature_spec(data, secret)
}

/// Law: for every payload and secret, the signature that signing produces
/// is accepted by verification for exactly that pair.
pub proof fn lemma_sign_verify_round_trip(data: Seq<char>, secret: Seq<char>)
    ensures
        hmac_verifies(data, secret, hmac_signature_spec(data, secret)),
{
}

/// A snapshot of the security-relevant switches, for status reporting. In
/// particular it surfaces an absent shared secret, so skipping signature
/// checks is an explicit opt-out, never a silent bypass.
#[derive(Debug, Clone, Copy, PartialEq, Eq, Structural)]
pub struct SecurityStatus {
    pub encryption_initialized: bool,
    pub hmac_secret_configured: bool,
    pub remote_commands_enabled: bool,
    pub audit_logging_enabled: bool,
}

/// Owner of the process-lifetime symmetric key and front door to every
/// cryptographic operation.
pub struct SecurityManager {
    config: Config,
    encryption_key: Option<Vec<u8>>,
}

impl SecurityManager {
    /// The 256-bit key, once one exists.
    pub closed spec fn key_spec(&self) -> Option<Seq<u8>> {
        match self.encryption_key {
            Some(k) => Some(k@),
            None => None,
        }
    }

    /// The configuration this service was built with.
    pub closed spec fn cfg_spec(&self) -> Config {
        self.config
    }

    /// Any key held is exactly 32 bytes.
    pub closed spec fn wf(&self) -> bool {
        match self.encryption_key {
            Some(k) => k@.len() == 32,
            None => true,
        }
    }

    pub fn new(config: Config) -> (r: SecurityManager)
        ensures
            r.wf(),
            r.key_spec() is None,
            r.cfg_spec() == config,
    {
        SecurityManager { config, encryption_key: None }
    }

    /// Creates the key on first use. Once a key exists the call is a
    /// no-op: the key is immutable for the process lifetime.
    pub fn initialize_encryption(&mut self) -> (r: Result<(), CryptoError>)
        requires
            old(self).wf(),
        ensures
            final(self).wf(),
            final(self).cfg_spec() == old(self).cfg_spec(),
            old(self).key_spec() is Some ==> *final(self) == *old(self) && r is Ok,
            r is Ok ==> final(self).key_spec() is Some,
            match r {
                Ok(_) => true,
                Err(e) => e == CryptoError::BackendFailure && *final(self) == *old(self),
            },
    {
        if self.encryption_key.is_none() {
            match random_bytes(32) {
                Some(key) => {
                    self.encryption_key = Some(key);
                },
                None => {
                    return Err(CryptoError::BackendFailure);
                },
            }
        }
        Ok(())
    }

    /// Seals `data` under the in-memory key with a fresh random 96-bit
    /// nonce. The blob layout is `nonce(12B) ‖ ciphertext ‖ tag(16B)`, so
    /// decrypting the blob under the same key yields `data` again.
    pub fn encrypt_data(&self, data: &[u8]) -> (r: Result<Vec<u8>, CryptoError>)
        requires
            self.wf(),
        ensures
            match r {
                Ok(blob) => {
                    &&& self.key_spec() is Some
                    &&& blob@.len() == data@.len() + 28
                    &&& decrypt_blob_spec(self.key_spec().unwrap(), blob@) == Some(data@)
                },
                Err(CryptoError::KeyNotInitialized) => self.key_spec() is None,
                Err(CryptoError::BackendFailure) => self.key_spec() is Some,
                Err(_) => false,
            },
    {
        let key = match &self.encryption_key {
            Some(k) => k,
            None => {
                return Err(CryptoError::KeyNotInitialized);
            },
        };
        let nonce = match random_bytes(12) {
            Some(n) => n,
            None => {
                return Err(CryptoError::BackendFailure);
            },
        };
        let sealed = match aead_seal(key.as_slice(), nonce.as_slice(), data) {
            Some(ct) => ct,
            None => {
                return Err(CryptoError::BackendFailure);
            },
        };
        let mut blob = nonce;
        let mut tail = sealed;
        blob.append(&mut tail);
        proof {
            assert(blob@.take(12) =~= nonce@);
            assert(blob@.skip(12) =~= sealed@);
        }
        Ok(blob)
    }

    /// Opens a blob produced by `encrypt_data`. Too-short blobs are
    /// malformed; a failed tag check never returns partial data.
    pub fn decrypt_data(&self, encrypted_data: &[u8]) -> (r: Result<Vec<u8>, CryptoError>)
        requires
            self.wf(),
        ensures
            encrypted_data@.len() < 28 ==> r == Err::<Vec<u8>, CryptoError>(
                CryptoError::MalformedCiphertext,
            ),
            encrypted_data@.len() >= 28 && self.key_spec() is None ==> r == Err::<
                Vec<u8>,
                CryptoError,
            >(CryptoError::KeyNotInitialized),
            encrypted_data@.len() >= 28 && self.key_spec() is Some ==> match decrypt_blob_spec(
                self.key_spec().unwrap(),
                encrypted_data@,
            ) {
                Some(pt) => r is Ok && r.unwrap()@ == pt,
                None => r == Err::<Vec<u8>, CryptoError>(CryptoError::AuthenticationFailure),
            },
    {
        if encrypted_data.len() < 28 {
            return Err(CryptoError::MalformedCiphertext);
        }
        let key = match &self.encryption_key {
            Some(k) => k,
            None => {
                return Err(CryptoError::KeyNotInitialized);
            },
        };
        let nonce = &encrypted_data[0..12];
        let payload = &encrypted_data[12..encrypted_data.len()];
        proof {
            assert(nonce@ =~= encrypted_data@.take(12));
            assert(payload@ =~= encrypted_data@.skip(12));
        }
        match aead_open(key.as_slice(), nonce, payload) {
            Some(pt) => Ok(pt),
            None => Err(CryptoError::AuthenticationFailure),
        }
    }

    /// Base64 digest of `password ‖ salt`; used for password-style
    /// verification, never for signatures.
    pub fn hash_password(&self, password: &str, salt: &[u8]) -> (r: String)
        ensures
            r@ == password_hash_spec(password@, salt@),
    {
        let mut data: Vec<u8> = Vec::new();
        data.extend_from_slice(password.as_bytes());
        data.extend_from_slice(salt);
        proof {
            assert(data@ =~= encode_utf8(password@) + salt@);
        }
        let digest = sha256_bytes(data.as_slice());
        b64_encode_bytes(digest.as_slice())
    }

    /// Recomputes the salted digest and compares it with the expected one.
    pub fn verify_password(&self, password: &str, salt: &[u8], expected_hash: &str) -> (r: bool)
        ensures
            r == (expected_hash@ == password_hash_spec(password@, salt@)),
    {
        let computed = self.hash_password(password, salt);
        str_eq(computed.as_str(), expected_hash)
    }

    /// A fresh 32-byte random salt.
    pub fn generate_salt(&self) -> (r: Result<Vec<u8>, CryptoError>)
        ensures
            match r {
                Ok(salt) => salt@.len() == 32,
                Err(e) => e == CryptoError::BackendFailure,
            },
    {
        match random_bytes(32) {
            Some(salt) => Ok(salt),
            None => Err(CryptoError::BackendFailure),
        }
    }

    /// Base64 HMAC-SHA-256 signature of `data` under `secret`;
    /// deterministic for a given pair, and base64 text through and
    /// through.
    pub fn generate_hmac(&self, data: &str, secret: &str) -> (r: String)
        ensures
            r@ == hmac_signature_spec(data@, secret@),
            forall|i: int| 0 <= i < r@.len() ==> is_b64_char(#[trigger] r@[i]),
    {
        let tag = hmac_sha256_bytes(secret.as_bytes(), data.as_bytes());
        b64_encode_bytes(tag.as_slice())
    }

    /// Recomputes the signature and compares; never trusts a comparison
    /// done by the caller.
    pub fn verify_hmac(&self, data: &str, secret: &str, expected_hmac: &str) -> (r: bool)
        ensures
            r == hmac_verifies(data@, secret@, expected_hmac@),
    {
        let computed = self.generate_hmac(data, secret);
        str_eq(computed.as_str(), expected_hmac)
    }

    /// A random string of the requested length, drawn from the base64
    /// alphabet.
    pub fn generate_secure_random_string(&self, length: usize) -> (r: Result<
        String,
        CryptoError,
    >)
        ensures
            match r {
                Ok(s) => s@.len() == length as nat,
                Err(e) => e == CryptoError::BackendFailure,
            },
    {
        let bytes = match random_bytes(length) {
            Some(b) => b,
            None => {
                return Err(CryptoError::BackendFailure);
            },
        };
        let encoded = b64_encode_bytes(bytes.as_slice());
        proof {
            assert(encoded@.len() >= length as nat) by (nonlinear_arith)
                requires
                    encoded@.len() == 4 * ((bytes@.len() + 2) / 3),
                    bytes@.len() == length as nat,
            ;
        }
        let prefix = encoded.as_str().substring_ascii(0, length);
        Ok(prefix.to_owned())
    }

    /// Recomputes the digest of the given file contents and compares it to
    /// the expected base64 digest. Reading the file is the caller's job.
    pub fn validate_file_integrity(&self, contents: &[u8], expected_hash: &str) -> (r: bool)
        ensures
            r == (expected_hash@ == b64_of(sha256_of(contents@))),
    {
        let digest = sha256_bytes(contents);
        let computed = b64_encode_bytes(digest.as_slice());
        str_eq(computed.as_str(), expected_hash)
    }

    /// The current security posture, drawn from the configuration and the
    /// key state.
    pub fn get_security_status(&self) -> (r: SecurityStatus)
        ensures
            r.encryption_initialized == (self.key_spec() is Some),
            r.hmac_secret_configured == (self.cfg_spec().security.hmac_secret is Some),
            r.remote_commands_enabled == self.cfg_spec().user_consent.remote_commands_enabled,
            r.audit_logging_enabled == self.cfg_spec().features.audit_logging,
    {
        SecurityStatus {
            encryption_initialized: self.encryption_key.is_some(),
            hmac_secret_configured: self.config.security.hmac_secret.is_some(),
            remote_commands_enabled: self.config.user_consent.remote_commands_enabled,
            audit_logging_enabled: self.config.features.audit_logging,
        }
    }
}


/// Why a token fails verification.
#[derive(Debug, Clone, Copy, PartialEq, Eq, Structural)]
pub enum JwtError {
    /// The token is not three dot-separated parts.
    InvalidFormat,
    /// The signature over `header.payload` does not verify.
    InvalidSignature,
    /// The payload is not base64-encoded UTF-8 text.
    InvalidPayload,
}

/// The fixed token header.
pub open spec fn jwt_header_chars() -> Seq<char> {
    "{\"alg\":\"HS256\",\"typ\":\"JWT\"}"@
}

/// The `header.payload` text a token's signature covers.
pub open spec fn jwt_signing_input(payload: Seq<char>) -> Seq<char> {
    b64_of(encode_utf8(jwt_header_chars())) + seq!['.'] + b64_of(encode_utf8(payload))
}

/// A whole signed token.
pub open spec fn jwt_token_spec(payload: Seq<char>, secret: Seq<char>) -> Seq<char> {
    jwt_signing_input(payload) + seq!['.'] + hmac_signature_spec(jwt_signing_input(payload), secret)
}

/// No dot anywhere in `s`.
pub open spec fn dot_free(s: Seq<char>) -> bool {
    forall|i: int| 0 <= i < s.len() ==> s[i] != '.'
}

/// `token` is exactly the three dot-free parts joined by dots.
pub open spec fn jwt_parts(token: Seq<char>, a: Seq<char>, b: Seq<char>, c: Seq<char>) -> bool {
    &&& token == a + seq!['.'] + b + seq!['.'] + c
    &&& dot_free(a)
    &&& dot_free(b)
    &&& dot_free(c)
}

/// A token has at most one three-part decomposition: the two dot
/// positions are forced, so the parts are too.
proof fn lemma_jwt_parts_unique(
    token: Seq<char>,
    a: Seq<char>,
    b: Seq<char>,
    c: Seq<char>,
    a2: Seq<char>,
    b2: Seq<char>,
    c2: Seq<char>,
)
    requires
        jwt_parts(token, a, b, c),
        jwt_parts(token, a2, b2, c2),
    ensures
        a == a2,
        b == b2,
        c == c2,
{
    let p1: int = a.len() as int;
    let q1: int = a2.len() as int;
    assert(token[p1] == '.');
    assert(token[q1] == '.');
    if p1 < q1 {
        assert(token[p1] == a2[p1]);
        assert(false);
    }
    if q1 < p1 {
        assert(token[q1] == a[q1]);
        assert(false);
    }
    assert(a =~= a2) by {
        assert(forall|k: int| 0 <= k < p1 ==> token[k] == a[k] && token[k] == a2[k]);
    }
    let p2: int = a.len() as int + b.len() as int + 1;
    let q2: int = a2.len() as int + b2.len() as int + 1;
    assert(token[p2] == '.');
    assert(token[q2] == '.');
    if p2 < q2 {
        assert(token[p2] == b2[p2 - q1 - 1]);
        assert(false);
    }
    if q2 < p2 {
        assert(token[q2] == b[q2 - p1 - 1]);
        assert(false);
    }
    assert(b =~= b2) by {
        assert(forall|k: int|
            0 <= k < b.len() ==> token[p1 + 1 + k] == b[k] && token[p1 + 1 + k] == b2[k]);
    }
    assert(token.len() == a.len() + b.len() + c.len() + 2);
    assert(token.len() == a2.len() + b2.len() + c2.len() + 2);
    assert(c.len() == c2.len());
    assert(c =~= c2) by {
        assert(forall|k: int|
            0 <= k < c.len() ==> token[p2 + 1 + k] == c[k] && token[p2 + 1 + k] == c2[k]);
    }
}

/// Law: a token generated for a payload under a secret verifies under the
/// same secret back to exactly that payload. Any decomposition of the
/// generated token carries the generated signature — so the verifier's
/// signature check passes — and its middle part decodes to the payload.
pub proof fn lemma_jwt_round_trip(
    payload: Seq<char>,
    secret: Seq<char>,
    a: Seq<char>,
    b: Seq<char>,
    c: Seq<char>,
    p: Seq<char>,
)
    requires
        // the shape generate_jwt_token guarantees of its token
        jwt_parts(
            jwt_token_spec(payload, secret),
            b64_of(encode_utf8(jwt_header_chars())),
            b64_of(encode_utf8(payload)),
            hmac_signature_spec(jwt_signing_input(payload), secret),
        ),
        b64_decode_of(b64_of(encode_utf8(payload))) == Some(encode_utf8(payload)),
        // an arbitrary decomposition of that token, as the verifier finds it
        jwt_parts(jwt_token_spec(payload, secret), a, b, c),
        // what the verifier reports of the payload part it accepted
        p == vstd::utf8::decode_utf8(b64_decode_of(b).unwrap()),
    ensures
        c == hmac_signature_spec(a + seq!['.'] + b, secret),
        b64_decode_of(b) is Some,
        vstd::utf8::valid_utf8(b64_decode_of(b).unwrap()),
        p == payload,
{
    broadcast use vstd::utf8::encode_utf8_valid_utf8;
    broadcast use vstd::utf8::encode_utf8_decode_utf8;

    lemma_jwt_parts_unique(
        jwt_token_spec(payload, secret),
        a,
        b,
        c,
        b64_of(encode_utf8(jwt_header_chars())),
        b64_of(encode_utf8(payload)),
        hmac_signature_spec(jwt_signing_input(payload), secret),
    );
    assert(a + seq!['.'] + b =~= jwt_signing_input(payload));
}

/// The position of the first dot at or after `from`, if any.
fn find_dot(s: &str, from: usize) -> (r: Option<usize>)
    requires
        from <= s@.len(),
    ensures
        match r {
            Some(d) => {
                &&& from <= d < s@.len()
                &&& s@[d as int] == '.'
                &&& forall|k: int| from <= k < d ==> s@[k] != '.'
            },
            None => forall|k: int| from <= k < s@.len() ==> s@[k] != '.',
        },
{
    let n = s.unicode_len();
    let mut i = from;
    while i < n
        invariant
            from <= i <= n,
            n == s@.len(),
            forall|k: int| from <= k < i ==> s@[k] != '.',
        decreases n - i,
    {
        if s.get_char(i) == '.' {
            return Some(i);
        }
        i += 1;
    }
    None
}

/// Splits a token into its three dot-separated parts, when it has exactly
/// that shape.
fn split3_dots(token: &str) -> (r: Option<(String, String, String)>)
    ensures
        match r {
            Some((a, b, c)) => jwt_parts(token@, a@, b@, c@),
            None => forall|a: Seq<char>, b: Seq<char>, c: Seq<char>|
                !#[trigger] jwt_parts(token@, a, b, c),
        },
{
    let n = token.unicode_len();
    let d1 = match find_dot(token, 0) {
        Some(d) => d,
        None => {
            proof {
                assert forall|a: Seq<char>, b: Seq<char>, c: Seq<char>| !#[trigger] jwt_parts(
                    token@,
                    a,
                    b,
                    c,
                ) by {
                    if jwt_parts(token@, a, b, c) {
                        assert(token@[a.len() as int] == '.');
                    }
                }
            }
            return None;
        },
    };
    let d2 = match find_dot(token, d1 + 1) {
        Some(d) => d,
        None => {
            proof {
                assert forall|a: Seq<char>, b: Seq<char>, c: Seq<char>| !#[trigger] jwt_parts(
                    token@,
                    a,
                    b,
                    c,
                ) by {
                    if jwt_parts(token@, a, b, c) {
                        let p1 = a.len() as int;
                        let p2: int = a.len() as int + b.len() as int + 1;
                        assert(token@[p1] == '.');
                        assert(token@[p2] == '.');
                        assert(p1 < p2);
                        assert(p1 == d1);
                    }
                }
            }
            return None;
        },
    };
    match find_dot(token, d2 + 1) {
        Some(d3) => {
            proof {
                assert forall|a: Seq<char>, b: Seq<char>, c: Seq<char>| !#[trigger] jwt_parts(
                    token@,
                    a,
                    b,
                    c,
                ) by {
                    if jwt_parts(token@, a, b, c) {
                        let p1 = a.len() as int;
                        let p2: int = a.len() as int + b.len() as int + 1;
                        assert(token@[p1] == '.');
                        assert(token@[p2] == '.');
                        assert(p1 == d1);
                        assert(p2 == d2);
                        assert(token@[d3 as int] != '.');
                    }
                }
            }
            None
        },
        None => {
            let a = token.substring_char(0, d1).to_owned();
            let b = token.substring_char(d1 + 1, d2).to_owned();
            let c = token.substring_char(d2 + 1, n).to_owned();
            proof {
                assert(token@ =~= a@ + seq!['.'] + b@ + seq!['.'] + c@);
            }
            Some((a, b, c))
        },
    }
}

impl SecurityManager {
    /// A signed token `header.payload.signature`: the fixed header and the
    /// given payload text base64-encoded, and an HMAC signature over the
    /// first two parts under `secret`.
    pub fn generate_jwt_token(&self, payload: &str, secret: &str) -> (r: String)
        ensures
            r@ == jwt_token_spec(payload@, secret@),
            jwt_parts(
                r@,
                b64_of(encode_utf8(jwt_header_chars())),
                b64_of(encode_utf8(payload@)),
                hmac_signature_spec(jwt_signing_input(payload@), secret@),
            ),
            b64_decode_of(b64_of(encode_utf8(payload@))) == Some(encode_utf8(payload@)),
    {
        let header = "{\"alg\":\"HS256\",\"typ\":\"JWT\"}";
        let header_b64 = b64_encode_bytes(header.as_bytes());
        let payload_b64 = b64_encode_bytes(payload.as_bytes());
        let ghost ga = header_b64@;
        let ghost gb = payload_b64@;
        let mut signing_input = header_b64;
        proof {
            reveal_strlit(".");
        }
        signing_input.append(".");
        signing_input.append(payload_b64.as_str());
        proof {
            reveal_strlit(".");
            assert(signing_input@ =~= jwt_signing_input(payload@));
        }
        let signature = self.generate_hmac(signing_input.as_str(), secret);
        let ghost gc = signature@;
        let mut token = signing_input;
        token.append(".");
        token.append(signature.as_str());
        proof {
            reveal_strlit(".");
            assert(token@ =~= jwt_token_spec(payload@, secret@));
            assert(dot_free(ga)) by {
                assert forall|i: int| 0 <= i < ga.len() implies ga[i] != '.' by {
                    assert(is_b64_char(ga[i]));
                }
            }
            assert(dot_free(gb)) by {
                assert forall|i: int| 0 <= i < gb.len() implies gb[i] != '.' by {
                    assert(is_b64_char(gb[i]));
                }
            }
            assert(dot_free(gc)) by {
                assert forall|i: int| 0 <= i < gc.len() implies gc[i] != '.' by {
                    assert(is_b64_char(gc[i]));
                }
            }
            assert(token@ =~= ga + seq!['.'] + gb + seq!['.'] + gc);
            assert(jwt_parts(token@, ga, gb, gc));
        }
        token
    }

    /// Checks a token's shape and signature and returns the decoded
    /// payload text. The signature is recomputed over the token's own
    /// first two parts.
    pub fn verify_jwt_token(&self, token: &str, secret: &str) -> (r: Result<String, JwtError>)
        ensures
            match r {
                Ok(p) => exists|a: Seq<char>, b: Seq<char>, c: Seq<char>|
                    {
                        &&& #[trigger] jwt_parts(token@, a, b, c)
                        &&& c == hmac_signature_spec(a + seq!['.'] + b, secret@)
                        &&& b64_decode_of(b) is Some
                        &&& vstd::utf8::valid_utf8(b64_decode_of(b).unwrap())
                        &&& p@ == vstd::utf8::decode_utf8(b64_decode_of(b).unwrap())
                    },
                Err(JwtError::InvalidFormat) => forall|a: Seq<char>, b: Seq<char>, c: Seq<char>|
                    !#[trigger] jwt_parts(token@, a, b, c),
                Err(JwtError::InvalidSignature) => exists|
                    a: Seq<char>,
                    b: Seq<char>,
                    c: Seq<char>,
                |
                    #[trigger] jwt_parts(token@, a, b, c) && c != hmac_signature_spec(
                        a + seq!['.'] + b,
                        secret@,
                    ),
                Err(JwtError::InvalidPayload) => exists|
                    a: Seq<char>,
                    b: Seq<char>,
                    c: Seq<char>,
                |
                    {
                        &&& #[trigger] jwt_parts(token@, a, b, c)
                        &&& c == hmac_signature_spec(a + seq!['.'] + b, secret@)
                        &&& (b64_decode_of(b) is None || !vstd::utf8::valid_utf8(
                            b64_decode_of(b).unwrap(),
                        ))
                    },
            },
    {
        let (header_b64, payload_b64, signature_b64) = match split3_dots(token) {
            Some(parts) => parts,
            None => {
                return Err(JwtError::InvalidFormat);
            },
        };
        let ghost ga = header_b64@;
        let ghost gb = payload_b64@;
        let ghost gc = signature_b64@;
        let mut data_to_verify = header_b64;
        proof {
            reveal_strlit(".");
        }
        data_to_verify.append(".");
        data_to_verify.append(payload_b64.as_str());
        proof {
            reveal_strlit(".");
            assert(data_to_verify@ =~= ga + seq!['.'] + gb);
        }
        if !self.verify_hmac(data_to_verify.as_str(), secret, signature_b64.as_str()) {
            proof {
                assert(jwt_parts(token@, ga, gb, gc) && gc != hmac_signature_spec(
                    ga + seq!['.'] + gb,
                    secret@,
                ));
            }
            return Err(JwtError::InvalidSignature);
        }
        let payload_bytes = match b64_decode_str(payload_b64.as_str()) {
            Some(bytes) => bytes,
            None => {
                proof {
                    assert(jwt_parts(token@, ga, gb, gc) && gc == hmac_signature_spec(
                        ga + seq!['.'] + gb,
                        secret@,
                    ) && b64_decode_of(gb) is None);
                }
                return Err(JwtError::InvalidPayload);
            },
        };
        match crate::strutil::bytes_to_string(payload_bytes) {
            Some(p) => {
                proof {
                    assert(jwt_parts(token@, ga, gb, gc) && gc == hmac_signature_spec(
                        ga + seq!['.'] + gb,
                        secret@,
                    ) && b64_decode_of(gb) is Some && vstd::utf8::valid_utf8(
                        b64_decode_of(gb).unwrap(),
                    ) && p@ == vstd::utf8::decode_utf8(b64_decode_of(gb).unwrap()));
                }
                Ok(p)
            },
            None => {
                proof {
                    assert(jwt_parts(token@, ga, gb, gc) && gc == hmac_signature_spec(
                        ga + seq!['.'] + gb,
                        secret@,
                    ) && !vstd::utf8::valid_utf8(b64_decode_of(gb).unwrap()));
                }
                Err(JwtError::InvalidPayload)
            },
        }
    }
}

/// The hexadecimal digest of a device identifier: SHA-256, lowercase hex.
pub open spec fn device_id_hash_spec(device_id: Seq<char>) -> Seq<char> {
    crate::textfmt::hex_of_bytes(sha256_of(encode_utf8(device_id)))
}

/// Hashes a device identifier for inclusion in outward notifications, so
/// the raw identifier never leaves the machine.
pub fn hash_device_id(device_id: &str) -> (r: String)
    ensures
        r@ == device_id_hash_spec(device_id@),
{
    let digest = sha256_bytes(device_id.as_bytes());
    let mut out = String::new();
    crate::textfmt::append_hex_bytes(&mut out, digest.as_slice());
    out
}

} // verus!
