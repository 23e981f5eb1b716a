//! Post-quantum key management: ML-KEM-768 key encapsulation and ML-DSA-65
//! signatures, and signed token claims carried in base64.
//!
//! The cryptography is done by the `ml-kem` and `pqcrypto-mldsa` crates and
//! the base64 coding by the `base64` crate; this module holds the keys as
//! bytes and decides what is accepted, what is refused and with which error.

use vstd::prelude::*;
use crate::text::{decimal, push_decimal, push_signed_decimal, signed_decimal};
use ml_kem::kem::{Decapsulate, Encapsulate};
use ml_kem::{EncodedSizeUser, KemCore, MlKem768};
use pqcrypto_mldsa::mldsa65;
use pqcrypto_traits::sign::{PublicKey, SecretKey, SignedMessage};
use vstd::utf8::encode_utf8;

verus! {

// ---------------------------------------------------------------------------
// Sizes fixed by the ML-KEM-768 and ML-DSA-65 standards.

/// Bytes in an ML-KEM-768 ciphertext.
pub const MLKEM768_CIPHERTEXT_SIZE: usize = 1088;
/// Bytes in an ML-KEM-768 shared secret.
pub const MLKEM768_SHARED_SECRET_SIZE: usize = 32;
/// Bytes in an ML-KEM-768 encapsulation (public) key.
pub const MLKEM768_ENCAPSULATION_KEY_SIZE: usize = 1184;
/// Bytes in an ML-KEM-768 decapsulation (secret) key.
pub const MLKEM768_DECAPSULATION_KEY_SIZE: usize = 2400;
/// Bytes in an ML-DSA-65 public key.
pub const MLDSA65_PUBLIC_KEY_SIZE: usize = 1952;
/// Bytes in an ML-DSA-65 secret key.
pub const MLDSA65_SECRET_KEY_SIZE: usize = 4032;
/// Bytes in an ML-DSA-65 signature.
pub const MLDSA65_SIGNATURE_SIZE: usize = 3309;

// ---------------------------------------------------------------------------
// Base64 with the standard alphabet and canonical padding.

/// The base64 digit for a six-bit value.
pub open spec fn b64_digit(v: int) -> char {
    if v < 26 {
        (65 + v) as char
    } else if v < 52 {
        (71 + v) as char
    } else if v < 62 {
        (v - 4) as char
    } else if v == 62 {
        '+'
    } else {
        '/'
    }
}

/// The base64 encoding of `bytes` (standard alphabet, `=` padding).
pub open spec fn b64_encode(bytes: Seq<u8>) -> Seq<char>
    decreases bytes.len(),
{
    if bytes.len() == 0 {
        Seq::empty()
    } else {
        let x = bytes[0] as int;
        let y = if bytes.len() > 1 { bytes[1] as int } else { 0 };
        let z = if bytes.len() > 2 { bytes[2] as int } else { 0 };
        let quad = seq![
            b64_digit(x / 4),
            b64_digit((x % 4) * 16 + y / 16),
            if bytes.len() > 1 { b64_digit((y % 16) * 4 + z / 64) } else { '=' },
            if bytes.len() > 2 { b64_digit(z % 64) } else { '=' },
        ];
        if bytes.len() <= 3 {
            quad
        } else {
            quad + b64_encode(bytes.subrange(3, bytes.len() as int))
        }
    }
}

proof fn lemma_b64_digit(v: int, w: int)
    requires
        0 <= v < 64,
        0 <= w < 64,
    ensures
        b64_digit(v) != '=',
        b64_digit(v) == b64_digit(w) ==> v == w,
{
}

proof fn lemma_b64_len(bytes: Seq<u8>)
    ensures
        b64_encode(bytes).len() == 4 * ((bytes.len() + 2) / 3),
    decreases bytes.len(),
{
    if bytes.len() > 3 {
        lemma_b64_len(bytes.subrange(3, bytes.len() as int));
    }
}

proof fn lemma_split(x: int, y: int, u: int, v: int, m: int)
    requires
        0 <= y < m,
        0 <= v < m,
        x * m + y == u * m + v,
    ensures
        x == u,
        y == v,
{
    assert(x == u) by (nonlinear_arith)
        requires
            0 <= y < m,
            0 <= v < m,
            x * m + y == u * m + v,
    ;
}

proof fn lemma_byte(x: int, y: int, m: int)
    requires
        0 < m,
        x / m == y / m,
        x % m == y % m,
    ensures
        x == y,
{
    assert(x == y) by (nonlinear_arith)
        requires
            0 < m,
            x / m == y / m,
            x % m == y % m,
    ;
}

/// Different byte strings have different base64 encodings.
pub proof fn lemma_b64_injective(a: Seq<u8>, b: Seq<u8>)
    requires
        b64_encode(a) == b64_encode(b),
    ensures
        a == b,
    decreases a.len(),
{
    lemma_b64_len(a);
    lemma_b64_len(b);
    let ea = b64_encode(a);
    let eb = b64_encode(b);
    if a.len() == 0 || b.len() == 0 {
        assert(a.len() == b.len());
        assert(a =~= b);
        return;
    }
    let a0 = a[0] as int;
    let b0 = b[0] as int;
    assert(ea[0] == eb[0]);
    lemma_b64_digit(a0 / 4, b0 / 4);
    if a.len() == 1 || b.len() == 1 {
        assert(a.len() == 1 && b.len() == 1) by {
            if a.len() == 1 && b.len() >= 2 {
                assert(ea[2] == '=');
                lemma_b64_digit((b[1] as int % 16) * 4 + (if b.len() >= 3 { b[2] as int / 64 } else { 0 }), 0);
            } else if b.len() == 1 && a.len() >= 2 {
                assert(eb[2] == '=');
                lemma_b64_digit((a[1] as int % 16) * 4 + (if a.len() >= 3 { a[2] as int / 64 } else { 0 }), 0);
            }
        }
        assert(ea[1] == eb[1]);
        lemma_b64_digit((a0 % 4) * 16, (b0 % 4) * 16);
        lemma_byte(a0, b0, 4);
        assert(a =~= b);
        return;
    }
    let a1 = a[1] as int;
    let b1 = b[1] as int;
    if a.len() == 2 || b.len() == 2 {
        assert(a.len() == 2 && b.len() == 2) by {
            if a.len() == 2 && b.len() >= 3 {
                assert(ea[3] == '=');
                lemma_b64_digit(b[2] as int % 64, 0);
            } else if b.len() == 2 && a.len() >= 3 {
                assert(eb[3] == '=');
                lemma_b64_digit(a[2] as int % 64, 0);
            }
        }
        assert(ea[1] == eb[1]);
        assert(ea[2] == eb[2]);
        lemma_b64_digit((a0 % 4) * 16 + a1 / 16, (b0 % 4) * 16 + b1 / 16);
        lemma_b64_digit((a1 % 16) * 4, (b1 % 16) * 4);
        lemma_split(a0 % 4, a1 / 16, b0 % 4, b1 / 16, 16);
        lemma_byte(a0, b0, 4);
        lemma_byte(a1, b1, 16);
        assert(a =~= b);
        return;
    }
    let a2 = a[2] as int;
    let b2 = b[2] as int;
    assert(ea[1] == eb[1]);
    assert(ea[2] == eb[2]);
    assert(ea[3] == eb[3]);
    lemma_b64_digit((a0 % 4) * 16 + a1 / 16, (b0 % 4) * 16 + b1 / 16);
    lemma_b64_digit((a1 % 16) * 4 + a2 / 64, (b1 % 16) * 4 + b2 / 64);
    lemma_b64_digit(a2 % 64, b2 % 64);
    lemma_split(a0 % 4, a1 / 16, b0 % 4, b1 / 16, 16);
    lemma_split(a1 % 16, a2 / 64, b1 % 16, b2 / 64, 4);
    lemma_byte(a0, b0, 4);
    lemma_byte(a1, b1, 16);
    lemma_byte(a2, b2, 64);
    let ra = a.subrange(3, a.len() as int);
    let rb = b.subrange(3, b.len() as int);
    assert(b64_encode(ra) =~= ea.subrange(4, ea.len() as int));
    assert(b64_encode(rb) =~= eb.subrange(4, eb.len() as int));
    lemma_b64_injective(ra, rb);
    assert forall|i: int| 0 <= i < a.len() implies a[i] == b[i] by {
        if i >= 3 {
            assert(a[i] == ra[i - 3]);
            assert(b[i] == rb[i - 3]);
        }
    }
    assert(a =~= b);
}

/// What `base64`'s decoder reports for a string that is no canonical
/// encoding, as its message text.
pub uninterp spec fn base64_decode_error(text: Seq<char>) -> Seq<char>;

/// `base64::Engine::encode` with `general_purpose::STANDARD`: the standard
/// alphabet with `=` padding, exactly as `b64_encode` states it.
#[verifier::external_body]
fn base64_encode(bytes: &[u8]) -> (s: String)
    ensures
        s@ == b64_encode(bytes@),
{
    base64::Engine::encode(&base64::engine::general_purpose::STANDARD, bytes)
}

/// `base64::Engine::decode` with `general_purpose::STANDARD`. That engine
/// requires canonical padding and rejects non-zero trailing bits, so it
/// accepts exactly the strings that `b64_encode` produces and gives back
/// the bytes encoded; a refusal is returned as the decoder's error text.
#[verifier::external_body]
fn base64_decode(text: &str) -> (r: Result<Vec<u8>, String>)
    ensures
        match r {
            Ok(bytes) => b64_encode(bytes@) == text@,
            Err(msg) => msg@ == base64_decode_error(text@) && forall|b: Seq<u8>| b64_encode(b) != text@,
        },
{
    match base64::Engine::decode(&base64::engine::general_purpose::STANDARD, text) {
        Ok(bytes) => Ok(bytes),
        Err(e) => Err(e.to_string()),
    }
}

// ---------------------------------------------------------------------------
// ML-KEM-768 and ML-DSA-65, the clock.

/// The shared secret that ML-KEM-768 decapsulation derives from a
/// decapsulation key and a ciphertext.
pub uninterp spec fn mlkem768_shared_secret(decapsulation_key: Seq<u8>, ciphertext: Seq<u8>) -> Seq<u8>;

/// What ML-DSA-65 verification of a signed message under a public key
/// gives: the message when the signature is valid, nothing otherwise.
pub uninterp spec fn mldsa65_opened(signed_message: Seq<u8>, public_key: Seq<u8>) -> Option<Seq<u8>>;

/// Whether a ciphertext and shared secret are an outcome of ML-KEM-768
/// encapsulation to an encapsulation key: the pair that encapsulating some
/// random message to that key produces.
pub uninterp spec fn mlkem768_encapsulates(encapsulation_key: Seq<u8>, ciphertext: Seq<u8>, shared_secret: Seq<u8>) -> bool;

/// Whether an ML-DSA-65 public key and secret key were generated together
/// by `mldsa65::keypair`.
pub uninterp spec fn mldsa65_key_pair(public_key: Seq<u8>, secret_key: Seq<u8>) -> bool;

/// `<MlKem768 as KemCore>::generate` with the thread-local random number
/// generator, both keys in their encoded form. The decapsulation key is
/// 2400 bytes and holds the 1184-byte encapsulation key at offset 1152
/// (`concat_dk` puts the decryption key, then the encapsulation key, then
/// its hash and the implicit-rejection seed); the keys themselves are random.
#[verifier::external_body]
fn mlkem768_generate() -> (keys: (Vec<u8>, Vec<u8>))
    ensures
        keys.0.len() == MLKEM768_DECAPSULATION_KEY_SIZE,
        keys.1.len() == MLKEM768_ENCAPSULATION_KEY_SIZE,
        keys.1@ == keys.0@.subrange(1152, 2336),
{
    let (dk, ek) = MlKem768::generate(&mut rand::thread_rng());
    (dk.as_bytes().to_vec(), ek.as_bytes().to_vec())
}

/// `Encapsulate::encapsulate` of an ML-KEM-768 encapsulation key (parsed
/// with `EncodedSizeUser::from_bytes`) with the thread-local random number
/// generator. The crate's encapsulation always succeeds; the result is a
/// 1088-byte ciphertext and a 32-byte shared secret, an outcome of
/// encapsulation to that key (`mlkem768_encapsulates`), drawn at random.
/// Nothing is said of how the secret relates to `mlkem768_shared_secret` of
/// the matching decapsulation key and the ciphertext: ML-KEM gives it back
/// except with a small failure probability of the scheme, which the crate
/// does not report.
#[verifier::external_body]
fn mlkem768_encapsulate(encapsulation_key: &[u8]) -> (out: (Vec<u8>, Vec<u8>))
    requires
        encapsulation_key.len() == MLKEM768_ENCAPSULATION_KEY_SIZE,
    ensures
        out.0.len() == MLKEM768_CIPHERTEXT_SIZE,
        out.1.len() == MLKEM768_SHARED_SECRET_SIZE,
        mlkem768_encapsulates(encapsulation_key@, out.0@, out.1@),
{
    let ek = <MlKem768 as KemCore>::EncapsulationKey::from_bytes(encapsulation_key.try_into().expect("key length"));
    let (ct, ss) = ek.encapsulate(&mut rand::thread_rng()).expect("infallible");
    (ct.to_vec(), ss.to_vec())
}

/// `Decapsulate::decapsulate` of an ML-KEM-768 decapsulation key (parsed
/// with `EncodedSizeUser::from_bytes`) on a ciphertext (parsed with
/// `TryFrom<&[u8]>`). The crate's decapsulation never fails: with implicit
/// rejection a malformed ciphertext still yields a pseudorandom secret. The
/// 32 bytes returned are `mlkem768_shared_secret` of key and ciphertext.
#[verifier::external_body]
fn mlkem768_decapsulate(decapsulation_key: &[u8], ciphertext: &[u8]) -> (secret: Vec<u8>)
    requires
        decapsulation_key.len() == MLKEM768_DECAPSULATION_KEY_SIZE,
        ciphertext.len() == MLKEM768_CIPHERTEXT_SIZE,
    ensures
        secret.len() == MLKEM768_SHARED_SECRET_SIZE,
        secret@ == mlkem768_shared_secret(decapsulation_key@, ciphertext@),
{
    let dk = <MlKem768 as KemCore>::DecapsulationKey::from_bytes(decapsulation_key.try_into().expect("key length"));
    let ct: ml_kem::Ciphertext<MlKem768> = ciphertext.try_into().expect("ciphertext length");
    dk.decapsulate(&ct).expect("infallible").to_vec()
}

/// `pqcrypto_mldsa::mldsa65::keypair`, both keys as bytes: a 1952-byte
/// public key and a 4032-byte secret key, random, generated together.
#[verifier::external_body]
fn mldsa65_keypair() -> (keys: (Vec<u8>, Vec<u8>))
    ensures
        keys.0.len() == MLDSA65_PUBLIC_KEY_SIZE,
        keys.1.len() == MLDSA65_SECRET_KEY_SIZE,
        mldsa65_key_pair(keys.0@, keys.1@),
{
    let (pk, sk) = mldsa65::keypair();
    (pk.as_bytes().to_vec(), sk.as_bytes().to_vec())
}

/// `pqcrypto_mldsa::mldsa65::sign` with a secret key parsed by
/// `SecretKey::from_bytes`, the signed message as bytes. The signed message
/// is the 3309-byte signature followed by the message itself; the signature
/// is randomised. The crate computes `message.len() + 3309` as its buffer
/// size, which must not overflow. Under the public key generated with the
/// secret key, verification gives the message back: the crate's own test
/// `test_sign` (signing with a fresh key pair, then `open`) asserts this.
#[verifier::external_body]
fn mldsa65_sign(message: &[u8], secret_key: &[u8]) -> (signed: Vec<u8>)
    requires
        secret_key.len() == MLDSA65_SECRET_KEY_SIZE,
        message.len() + MLDSA65_SIGNATURE_SIZE <= usize::MAX,
    ensures
        signed.len() == message.len() + MLDSA65_SIGNATURE_SIZE,
        signed@.subrange(3309, signed.len() as int) == message@,
        forall|pk: Seq<u8>| mldsa65_key_pair(pk, secret_key@) ==> mldsa65_opened(signed@, pk) == Some(message@),
{
    let sk = mldsa65::SecretKey::from_bytes(secret_key).expect("key length");
    mldsa65::sign(message, &sk).as_bytes().to_vec()
}

/// `pqcrypto_mldsa::mldsa65::open` of a signed message (wrapped by
/// `SignedMessage::from_bytes`, which takes any bytes) under a public key
/// parsed by `PublicKey::from_bytes`. Either verification error becomes
/// `None`. The outcome is `mldsa65_opened` of the two byte strings, and an
/// opened message is what follows the 3309-byte signature.
#[verifier::external_body]
fn mldsa65_open(signed: &[u8], public_key: &[u8]) -> (opened: Option<Vec<u8>>)
    requires
        public_key.len() == MLDSA65_PUBLIC_KEY_SIZE,
    ensures
        match opened {
            Some(m) => mldsa65_opened(signed@, public_key@) == Some(m@) && signed.len() >= 3309
                && m@ == signed@.subrange(3309, signed.len() as int),
            None => mldsa65_opened(signed@, public_key@) is None,
        },
{
    let pk = mldsa65::PublicKey::from_bytes(public_key).expect("key length");
    let sm = mldsa65::SignedMessage::from_bytes(signed).expect("infallible");
    mldsa65::open(&sm, &pk).ok()
}

/// `chrono::Utc::now().timestamp()`: the current time in seconds since the
/// Unix epoch; nothing is known of its value.
#[verifier::external_body]
fn unix_timestamp_now() -> (t: i64) {
    chrono::Utc::now().timestamp()
}

// ---------------------------------------------------------------------------
// Errors and token claims.

/// Why a post-quantum operation failed.
#[derive(Debug)]
pub enum PQCryptoError {
    /// A signature did not verify.
    SignatureVerificationFailed,
    /// A ciphertext was malformed; the text says how.
    InvalidCiphertext(String),
    /// Key generation failed.
    KeyGenerationFailed(String),
    /// A value was not valid base64; the text says why.
    EncodingError(String),
    /// Decapsulation failed.
    DecapsulationFailed(String),
    /// A key had the wrong format.
    InvalidKeyFormat(String),
}

/// The message of an error.
pub open spec fn pq_error_text(e: PQCryptoError) -> Seq<char> {
    match e {
        PQCryptoError::SignatureVerificationFailed => "Signature verification failed"@,
        PQCryptoError::InvalidCiphertext(m) => "Invalid ciphertext: "@ + m@,
        PQCryptoError::KeyGenerationFailed(m) => "Key generation failed: "@ + m@,
        PQCryptoError::EncodingError(m) => "Encoding error: "@ + m@,
        PQCryptoError::DecapsulationFailed(m) => "Decapsulation failed: "@ + m@,
        PQCryptoError::InvalidKeyFormat(m) => "Invalid key format: "@ + m@,
    }
}

impl PQCryptoError {
    /// The message of this error, as it is shown to a user.
    pub fn to_display_string(&self) -> (s: String)
        ensures
            s@ == pq_error_text(*self),
    {
        let mut s = String::new();
        match self {
            PQCryptoError::SignatureVerificationFailed => {
                s.append("Signature verification failed");
            },
            PQCryptoError::InvalidCiphertext(m) => {
                s.append("Invalid ciphertext: ");
                s.append(m.as_str());
            },
            PQCryptoError::KeyGenerationFailed(m) => {
                s.append("Key generation failed: ");
                s.append(m.as_str());
            },
            PQCryptoError::EncodingError(m) => {
                s.append("Encoding error: ");
                s.append(m.as_str());
            },
            PQCryptoError::DecapsulationFailed(m) => {
                s.append("Decapsulation failed: ");
                s.append(m.as_str());
            },
            PQCryptoError::InvalidKeyFormat(m) => {
                s.append("Invalid key format: ");
                s.append(m.as_str());
            },
        }
        s
    }
}

/// Claims of a quantum-resistant session token.
#[derive(Debug)]
pub struct QuantumTokenClaims {
    /// The user.
    pub user_id: String,
    /// The session.
    pub session_id: String,
    /// Seconds since the Unix epoch when the claims were made.
    pub timestamp: i64,
    /// Base64 of the ML-DSA signed message over the claims text.
    pub quantum_signature: String,
    /// Base64 of an ML-KEM ciphertext.
    pub kem_ciphertext: String,
}

impl Clone for QuantumTokenClaims {
    fn clone(&self) -> (c: Self)
        ensures
            c == *self,
    {
        QuantumTokenClaims {
            user_id: self.user_id.clone(),
            session_id: self.session_id.clone(),
            timestamp: self.timestamp,
            quantum_signature: self.quantum_signature.clone(),
            kem_ciphertext: self.kem_ciphertext.clone(),
        }
    }
}

/// The text that token claims sign: `user:session:timestamp`.
pub open spec fn claims_text(user_id: Seq<char>, session_id: Seq<char>, timestamp: i64) -> Seq<char> {
    user_id + seq![':'] + session_id + seq![':'] + signed_decimal(timestamp as int)
}

/// The bytes that token claims sign: the UTF-8 encoding of the claims text.
pub open spec fn claims_message(user_id: Seq<char>, session_id: Seq<char>, timestamp: i64) -> Seq<u8> {
    encode_utf8(claims_text(user_id, session_id, timestamp))
}

fn claims_string(user_id: &str, session_id: &str, timestamp: i64) -> (s: String)
    ensures
        s@ == claims_text(user_id@, session_id@, timestamp),
{
    let mut s = String::new();
    s.append(user_id);
    s.append(":");
    s.append(session_id);
    s.append(":");
    proof { reveal_strlit(":"); }
    push_signed_decimal(&mut s, timestamp);
    assert(s@ =~= claims_text(user_id@, session_id@, timestamp));
    s
}

proof fn lemma_utf8_concat(a: Seq<char>, b: Seq<char>)
    ensures
        encode_utf8(a + b) == encode_utf8(a) + encode_utf8(b),
    decreases a.len(),
{
    if a.len() == 0 {
        assert(a + b =~= b);
        assert(encode_utf8(a) + encode_utf8(b) =~= encode_utf8(b));
    } else {
        lemma_utf8_concat(a.drop_first(), b);
        assert((a + b).drop_first() =~= a.drop_first() + b);
        assert(encode_utf8(a + b) =~= encode_utf8(a) + encode_utf8(b));
    }
}

proof fn lemma_utf8_len(a: Seq<char>)
    ensures
        encode_utf8(a).len() <= 4 * a.len(),
    decreases a.len(),
{
    if a.len() > 0 {
        lemma_utf8_len(a.drop_first());
    }
}

spec fn pow10(k: nat) -> nat
    decreases k,
{
    if k == 0 { 1 } else { 10 * pow10((k - 1) as nat) }
}

proof fn lemma_decimal_len(n: nat, k: nat)
    requires
        n < pow10(k),
        k >= 1,
    ensures
        decimal(n).len() <= k,
    decreases k,
{
    if n >= 10 {
        assert(pow10(1) == 10) by {
            reveal_with_fuel(pow10, 2);
        }
        assert(k >= 2);
        assert(n / 10 < pow10((k - 1) as nat));
        lemma_decimal_len(n / 10, (k - 1) as nat);
    }
}

proof fn lemma_claims_message_len(user_id: Seq<char>, session_id: Seq<char>, timestamp: i64)
    ensures
        claims_message(user_id, session_id, timestamp).len()
            <= encode_utf8(user_id).len() + encode_utf8(session_id).len() + 88,
{
    let rest = seq![':'] + signed_decimal(timestamp as int);
    assert(claims_text(user_id, session_id, timestamp) =~= user_id + (seq![':'] + (session_id + rest)));
    lemma_utf8_concat(user_id, seq![':'] + (session_id + rest));
    lemma_utf8_concat(seq![':'], session_id + rest);
    lemma_utf8_concat(session_id, rest);
    lemma_utf8_len(seq![':']);
    lemma_utf8_len(rest);
    let m: nat = if timestamp < 0 { (-(timestamp as int)) as nat } else { timestamp as nat };
    assert(pow10(19) == 10000000000000000000nat) by {
        reveal_with_fuel(pow10, 20);
    }
    lemma_decimal_len(m, 19);
}

// ---------------------------------------------------------------------------
// The key manager.

/// Holds an ML-KEM-768 key pair and an ML-DSA-65 key pair, in encoded form.
pub struct PQCryptoManager {
    mlkem_encapsulation_key: Vec<u8>,
    mlkem_decapsulation_key: Vec<u8>,
    mldsa_public_key: Vec<u8>,
    mldsa_secret_key: Vec<u8>,
}

impl PQCryptoManager {
    #[verifier::type_invariant]
    spec fn keys_well_formed(&self) -> bool {
        &&& self.mlkem_encapsulation_key.len() == MLKEM768_ENCAPSULATION_KEY_SIZE
        &&& self.mlkem_decapsulation_key.len() == MLKEM768_DECAPSULATION_KEY_SIZE
        &&& self.mlkem_encapsulation_key@ == self.mlkem_decapsulation_key@.subrange(1152, 2336)
        &&& self.mldsa_public_key.len() == MLDSA65_PUBLIC_KEY_SIZE
        &&& self.mldsa_secret_key.len() == MLDSA65_SECRET_KEY_SIZE
        &&& mldsa65_key_pair(self.mldsa_public_key@, self.mldsa_secret_key@)
    }

    /// The ML-KEM-768 encapsulation (public) key.
    pub closed spec fn kem_public_key(&self) -> Seq<u8> {
        self.mlkem_encapsulation_key@
    }

    /// The ML-KEM-768 decapsulation (secret) key.
    pub closed spec fn kem_secret_key(&self) -> Seq<u8> {
        self.mlkem_decapsulation_key@
    }

    /// The ML-DSA-65 public key.
    pub closed spec fn signing_public_key(&self) -> Seq<u8> {
        self.mldsa_public_key@
    }

    /// The ML-DSA-65 secret key.
    pub closed spec fn signing_secret_key(&self) -> Seq<u8> {
        self.mldsa_secret_key@
    }

    /// A manager with freshly generated key pairs.
    pub fn new() -> (m: Self)
        ensures
            m.kem_public_key().len() == MLKEM768_ENCAPSULATION_KEY_SIZE,
            m.kem_secret_key().len() == MLKEM768_DECAPSULATION_KEY_SIZE,
            m.kem_public_key() == m.kem_secret_key().subrange(1152, 2336),
            m.signing_public_key().len() == MLDSA65_PUBLIC_KEY_SIZE,
            m.signing_secret_key().len() == MLDSA65_SECRET_KEY_SIZE,
            mldsa65_key_pair(m.signing_public_key(), m.signing_secret_key()),
    {
        let (dk, ek) = mlkem768_generate();
        let (pk, sk) = mldsa65_keypair();
        PQCryptoManager {
            mlkem_encapsulation_key: ek,
            mlkem_decapsulation_key: dk,
            mldsa_public_key: pk,
            mldsa_secret_key: sk,
        }
    }

    /// The ML-KEM encapsulation key in base64.
    pub fn get_mlkem_public_key_base64(&self) -> (s: String)
        ensures
            s@ == b64_encode(self.kem_public_key()),
    {
        base64_encode(self.mlkem_encapsulation_key.as_slice())
    }

    /// The ML-DSA public key in base64.
    pub fn get_mldsa_public_key_base64(&self) -> (s: String)
        ensures
            s@ == b64_encode(self.signing_public_key()),
    {
        base64_encode(self.mldsa_public_key.as_slice())
    }

    /// Signs `message` with ML-DSA: the signed message is a 3309-byte
    /// signature followed by the message, and verifying it under this
    /// manager's public key gives the message back.
    pub fn sign_message(&self, message: &[u8]) -> (signed: Vec<u8>)
        requires
            message.len() + MLDSA65_SIGNATURE_SIZE <= usize::MAX,
        ensures
            signed.len() == message.len() + MLDSA65_SIGNATURE_SIZE,
            signed@.subrange(3309, signed.len() as int) == message@,
            mldsa65_opened(signed@, self.signing_public_key()) == Some(message@),
    {
        proof { use_type_invariant(self); }
        mldsa65_sign(message, self.mldsa_secret_key.as_slice())
    }

    /// Verifies an ML-DSA signed message under this manager's public key
    /// and returns the message it carries.
    pub fn verify_signature(&self, signed_message_bytes: &[u8]) -> (r: Result<Vec<u8>, PQCryptoError>)
        ensures
            match mldsa65_opened(signed_message_bytes@, self.signing_public_key()) {
                Some(m) => r matches Ok(v) && v@ == m,
                None => r matches Err(PQCryptoError::SignatureVerificationFailed),
            },
            r matches Ok(v) ==> signed_message_bytes.len() >= 3309
                && v@ == signed_message_bytes@.subrange(3309, signed_message_bytes.len() as int),
    {
        proof { use_type_invariant(self); }
        match mldsa65_open(signed_message_bytes, self.mldsa_public_key.as_slice()) {
            Some(m) => Ok(m),
            None => Err(PQCryptoError::SignatureVerificationFailed),
        }
    }

    /// Encapsulates a fresh shared secret to this manager's ML-KEM key:
    /// a 1088-byte ciphertext and the 32-byte secret.
    pub fn encapsulate(&self) -> (out: (Vec<u8>, Vec<u8>))
        ensures
            out.0.len() == MLKEM768_CIPHERTEXT_SIZE,
            out.1.len() == MLKEM768_SHARED_SECRET_SIZE,
            mlkem768_encapsulates(self.kem_public_key(), out.0@, out.1@),
    {
        proof { use_type_invariant(self); }
        mlkem768_encapsulate(self.mlkem_encapsulation_key.as_slice())
    }

    /// Recovers the shared secret from a ciphertext. A ciphertext that is
    /// not 1088 bytes long is refused.
    pub fn decapsulate(&self, ciphertext_bytes: &[u8]) -> (r: Result<Vec<u8>, PQCryptoError>)
        ensures
            ciphertext_bytes.len() != MLKEM768_CIPHERTEXT_SIZE ==> (r matches Err(PQCryptoError::InvalidCiphertext(msg))
                && msg@ == ciphertext_length_message(ciphertext_bytes.len())),
            ciphertext_bytes.len() == MLKEM768_CIPHERTEXT_SIZE ==> (r matches Ok(secret)
                && secret@ == mlkem768_shared_secret(self.kem_secret_key(), ciphertext_bytes@)
                && secret.len() == MLKEM768_SHARED_SECRET_SIZE),
    {
        proof { use_type_invariant(self); }
        if ciphertext_bytes.len() != MLKEM768_CIPHERTEXT_SIZE {
            let mut msg = String::new();
            msg.append("Invalid ciphertext length: expected ");
            push_decimal(&mut msg, MLKEM768_CIPHERTEXT_SIZE as u64);
            msg.append(" bytes, got ");
            push_decimal(&mut msg, ciphertext_bytes.len() as u64);
            msg.append(" bytes");
            assert(msg@ =~= ciphertext_length_message(ciphertext_bytes.len()));
            return Err(PQCryptoError::InvalidCiphertext(msg));
        }
        Ok(mlkem768_decapsulate(self.mlkem_decapsulation_key.as_slice(), ciphertext_bytes))
    }

    /// Signed claims for a user session, stamped with the current time: the
    /// signature covers `user:session:timestamp`, and a fresh ML-KEM
    /// ciphertext is attached; both are carried in base64.
    pub fn generate_quantum_claims(&self, user_id: &str, session_id: &str) -> (r: Result<QuantumTokenClaims, PQCryptoError>)
        requires
            encode_utf8(user_id@).len() + encode_utf8(session_id@).len() + 88 + MLDSA65_SIGNATURE_SIZE <= usize::MAX,
        ensures
            r matches Ok(claims) && {
                &&& claims.user_id@ == user_id@
                &&& claims.session_id@ == session_id@
                &&& exists|signed: Seq<u8>| {
                    &&& claims.quantum_signature@ == b64_encode(signed)
                    &&& signed.len() == claims_message(user_id@, session_id@, claims.timestamp).len() + MLDSA65_SIGNATURE_SIZE
                    &&& signed.subrange(3309, signed.len() as int) == claims_message(user_id@, session_id@, claims.timestamp)
                }
                &&& exists|ciphertext: Seq<u8>, secret: Seq<u8>| {
                    &&& claims.kem_ciphertext@ == b64_encode(ciphertext)
                    &&& ciphertext.len() == MLKEM768_CIPHERTEXT_SIZE
                    &&& mlkem768_encapsulates(self.kem_public_key(), ciphertext, secret)
                }
                &&& self.claims_accepted(claims)
            },
    {
        let timestamp = unix_timestamp_now();
        let message = claims_string(user_id, session_id, timestamp);
        proof { lemma_claims_message_len(user_id@, session_id@, timestamp); }
        let signed = self.sign_message(message.as_str().as_bytes());
        let quantum_signature = base64_encode(signed.as_slice());
        let (ciphertext, _shared_secret) = self.encapsulate();
        let kem_ciphertext = base64_encode(ciphertext.as_slice());
        Ok(QuantumTokenClaims {
            user_id: user_id.to_owned(),
            session_id: session_id.to_owned(),
            timestamp,
            quantum_signature,
            kem_ciphertext,
        })
    }

    /// Claims this manager accepts: the signature is base64 of an ML-DSA
    /// signed message that verifies under the manager's public key and
    /// carries exactly `user:session:timestamp`.
    pub open spec fn claims_accepted(&self, claims: QuantumTokenClaims) -> bool {
        exists|b: Seq<u8>| b64_encode(b) == claims.quantum_signature@
            && mldsa65_opened(b, self.signing_public_key())
                == Some(claims_message(claims.user_id@, claims.session_id@, claims.timestamp))
    }

    /// Checks token claims: the signature must be base64 of an ML-DSA signed
    /// message that verifies under this manager's key and carries exactly
    /// `user:session:timestamp`.
    pub fn verify_quantum_claims(&self, claims: &QuantumTokenClaims) -> (r: Result<(), PQCryptoError>)
        ensures
            r is Ok <==> self.claims_accepted(*claims),
            (forall|b: Seq<u8>| b64_encode(b) != claims.quantum_signature@) ==> (r matches Err(PQCryptoError::EncodingError(msg))
                && msg@ == "Invalid base64: "@ + base64_decode_error(claims.quantum_signature@)),
            forall|b: Seq<u8>| b64_encode(b) == claims.quantum_signature@ ==> {
                &&& (r is Ok <==> mldsa65_opened(b, self.signing_public_key())
                    == Some(claims_message(claims.user_id@, claims.session_id@, claims.timestamp)))
                &&& (r is Err ==> r matches Err(PQCryptoError::SignatureVerificationFailed))
            },
    {
        let message = claims_string(claims.user_id.as_str(), claims.session_id.as_str(), claims.timestamp);
        let signed = match base64_decode(claims.quantum_signature.as_str()) {
            Ok(bytes) => bytes,
            Err(e) => {
                let mut msg = String::new();
                msg.append("Invalid base64: ");
                msg.append(e.as_str());
                return Err(PQCryptoError::EncodingError(msg));
            },
        };
        proof {
            assert forall|b: Seq<u8>| b64_encode(b) == claims.quantum_signature@ implies b == signed@ by {
                lemma_b64_injective(b, signed@);
            }
        }
        let verified = self.verify_signature(signed.as_slice())?;
        if !bytes_equal(verified.as_slice(), message.as_str().as_bytes()) {
            return Err(PQCryptoError::SignatureVerificationFailed);
        }
        Ok(())
    }
}

/// The message for a ciphertext of the wrong length.
pub open spec fn ciphertext_length_message(len: usize) -> Seq<char> {
    "Invalid ciphertext length: expected "@ + decimal(1088) + " bytes, got "@ + decimal(len as nat) + " bytes"@
}

fn bytes_equal(a: &[u8], b: &[u8]) -> (r: bool)
    ensures
        r == (a@ == b@),
{
    if a.len() != b.len() {
        return false;
    }
    let mut i: usize = 0;
    while i < a.len()
        invariant
            a.len() == b.len(),
            i <= a.len(),
            forall|j: int| 0 <= j < i ==> a@[j] == b@[j],
        decreases a.len() - i,
    {
        if a[i] != b[i] {
            return false;
        }
        i = i + 1;
    }
    assert(a@ =~= b@);
    true
}

impl Clone for PQCryptoManager {
    fn clone(&self) -> (c: Self)
        ensures
            c.kem_public_key() == self.kem_public_key(),
            c.kem_secret_key() == self.kem_secret_key(),
            c.signing_public_key() == self.signing_public_key(),
            c.signing_secret_key() == self.signing_secret_key(),
            mldsa65_key_pair(c.signing_public_key(), c.signing_secret_key()),
    {
        proof { use_type_invariant(self); }
        PQCryptoManager {
            mlkem_encapsulation_key: self.mlkem_encapsulation_key.clone(),
            mlkem_decapsulation_key: self.mlkem_decapsulation_key.clone(),
            mldsa_public_key: self.mldsa_public_key.clone(),
            mldsa_secret_key: self.mldsa_secret_key.clone(),
        }
    }
}

impl Default for PQCryptoManager {
    fn default() -> (m: Self)
        ensures
            m.kem_public_key().len() == MLKEM768_ENCAPSULATION_KEY_SIZE,
            m.kem_secret_key().len() == MLKEM768_DECAPSULATION_KEY_SIZE,
            m.signing_public_key().len() == MLDSA65_PUBLIC_KEY_SIZE,
            m.signing_secret_key().len() == MLDSA65_SECRET_KEY_SIZE,
            mldsa65_key_pair(m.signing_public_key(), m.signing_secret_key()),
    {
        Self::new()
    }
}

} // verus!
