//! Key pairs for X25519 and ML-KEM-768, as plain bytes.
use crate::base64url;
use crate::base64url::Base64Error;
use ml_kem::kem::{Decapsulate, Encapsulate, Kem, KeyExport};
use ml_kem::{DecapsulationKey, EncapsulationKey, MlKem768};
use vstd::prelude::*;
use vstd::string::*;

verus! {

/// Bytes of an X25519 key.
pub const X25519_KEY_LEN: usize = 32;

/// Characters of an X25519 key as text.
pub const X25519_B64_LEN: usize = 43;

/// Bytes of an ML-KEM-768 encapsulation key.
pub const MLKEM_KEY_LEN: usize = 1184;

/// Bytes of an ML-KEM-768 ciphertext.
pub const MLKEM_CT_LEN: usize = 1088;

/// Why a key could not be read.
#[derive(Debug, Clone, Copy, PartialEq, Eq, Structural)]
pub enum KeyError {
    /// The text is not Base64.
    Encoding(Base64Error),
    /// An X25519 key has the wrong length.
    Length,
    /// An encapsulation key has the wrong length.
    KemLength,
    /// The bytes are no encapsulation key.
    Invalid,
}

impl KeyError {
    /// The error in words.
    pub open spec fn text(self) -> Seq<char> {
        match self {
            KeyError::Encoding(e) => e.text(),
            KeyError::Length => "invalid key length"@,
            KeyError::KemLength => "invalid encapsulation key length"@,
            KeyError::Invalid => "invalid encapsulation key"@,
        }
    }

    /// The error in words.
    pub fn message(&self) -> (r: String)
        ensures
            r@ == self.text(),
    {
        match self {
            KeyError::Encoding(e) => base64url::error_words(*e),
            KeyError::Length => String::from_str("invalid key length"),
            KeyError::KemLength => String::from_str("invalid encapsulation key length"),
            KeyError::Invalid => String::from_str("invalid encapsulation key"),
        }
    }
}

/// The X25519 public key of a secret.
pub uninterp spec fn x25519_public(secret: Seq<u8>) -> Seq<u8>;

/// What a secret and a public key share.
pub uninterp spec fn x25519_shared(secret: Seq<u8>, public: Seq<u8>) -> Seq<u8>;

/// `StaticSecret::random`: thirty-two bytes, whatever they are.
#[verifier::external_body]
fn random_secret() -> (r: [u8; 32]) {
    x25519_dalek::StaticSecret::random().to_bytes()
}

/// `PublicKey::from(&StaticSecret)`.
#[verifier::external_body]
fn public_of(secret: &[u8; 32]) -> (r: [u8; 32])
    ensures
        r@ == x25519_public(secret@),
{
    x25519_dalek::PublicKey::from(&x25519_dalek::StaticSecret::from(*secret)).to_bytes()
}

/// `StaticSecret::diffie_hellman`. Either of two parties computes the same
/// from its own secret and the other's public key.
#[verifier::external_body]
fn shared_of(secret: &[u8; 32], public: &[u8; 32]) -> (r: [u8; 32])
    ensures
        r@ == x25519_shared(secret@, public@),
        forall|other: Seq<u8>|
            other.len() == 32 && public@ == #[trigger] x25519_public(other) ==> r@ == x25519_shared(
                other,
                x25519_public(secret@),
            ),
{
    let key = x25519_dalek::StaticSecret::from(*secret);
    key.diffie_hellman(&x25519_dalek::PublicKey::from(*public)).to_bytes()
}

/// A fresh secret with its public key.
pub fn generate_keypair() -> (r: ([u8; 32], [u8; 32]))
    ensures
        r.1@ == x25519_public(r.0@),
{
    let secret: [u8; 32] = random_secret();
    let public: [u8; 32] = public_of(&secret);
    (secret, public)
}

/// What our secret and their public key share: the other party gets the same
/// from its secret and our public key.
pub fn diffie_hellman(our_sk: &[u8; 32], their_pk: &[u8; 32]) -> (r: [u8; 32])
    ensures
        r@ == x25519_shared(our_sk@, their_pk@),
        forall|their_sk: Seq<u8>|
            their_sk.len() == 32 && their_pk@ == #[trigger] x25519_public(their_sk) ==> r@
                == x25519_shared(their_sk, x25519_public(our_sk@)),
{
    shared_of(our_sk, their_pk)
}

/// The first thirty-two bytes of a slice.
pub(crate) fn array_32(s: &[u8]) -> (r: [u8; 32])
    requires
        s@.len() == 32,
    ensures
        r@ == s@,
{
    let mut out: [u8; 32] = [0u8; 32];
    let mut i: usize = 0;
    while i < 32
        invariant
            i <= 32,
            s@.len() == 32,
            forall|j: int| 0 <= j < i ==> out@[j] == s@[j],
        decreases 32 - i,
    {
        out[i] = s[i];
        i = i + 1;
    }
    proof {
        assert(out@ =~= s@);
    }
    out
}

/// The key that forty-three characters of Base64 write.
pub open spec fn decoded_32(text: Seq<char>) -> Result<Seq<u8>, KeyError> {
    match base64url::base64_decoded(text) {
        Err(e) => Err(KeyError::Encoding(e)),
        Ok(d) => if d.len() != X25519_KEY_LEN {
            Err(KeyError::Length)
        } else {
            Ok(d)
        },
    }
}

fn encode_fixed_32(bytes: &[u8; 32]) -> (r: String)
    ensures
        r@ == base64url::base64_text(bytes@),
        r@.len() == X25519_B64_LEN,
        decoded_32(r@) == Ok::<Seq<u8>, KeyError>(bytes@),
        forall|i: int| 0 <= i < r@.len() ==> base64url::is_alphabet(#[trigger] r@[i]),
{
    base64url::encode(bytes)
}

/// Reads a key of thirty-two bytes from Base64.
pub fn decode_fixed_32(s: &str) -> (r: Result<[u8; 32], KeyError>)
    ensures
        match r {
            Ok(k) => decoded_32(s@) == Ok::<Seq<u8>, KeyError>(k@),
            Err(e) => decoded_32(s@) == Err::<Seq<u8>, KeyError>(e),
        },
{
    match base64url::decode(s) {
        Err(e) => Err(KeyError::Encoding(e)),
        Ok(decoded) => {
            if decoded.len() != X25519_KEY_LEN {
                return Err(KeyError::Length);
            }
            Ok(array_32(&decoded))
        },
    }
}

/// A public key as text, which reads back as the key.
pub fn public_key_to_b64(pk: &[u8; 32]) -> (r: String)
    ensures
        r@ == base64url::base64_text(pk@),
        r@.len() == X25519_B64_LEN,
        decoded_32(r@) == Ok::<Seq<u8>, KeyError>(pk@),
        forall|i: int| 0 <= i < r@.len() ==> base64url::is_alphabet(#[trigger] r@[i]),
{
    encode_fixed_32(pk)
}

/// A secret as text, which reads back as the secret.
pub fn private_key_to_b64(sk: &[u8; 32]) -> (r: String)
    ensures
        r@ == base64url::base64_text(sk@),
        r@.len() == X25519_B64_LEN,
        decoded_32(r@) == Ok::<Seq<u8>, KeyError>(sk@),
{
    encode_fixed_32(sk)
}

/// Reads a public key.
pub fn b64_to_public_key(s: &str) -> (r: Result<[u8; 32], KeyError>)
    ensures
        match r {
            Ok(k) => decoded_32(s@) == Ok::<Seq<u8>, KeyError>(k@),
            Err(e) => decoded_32(s@) == Err::<Seq<u8>, KeyError>(e),
        },
{
    decode_fixed_32(s)
}

/// Reads a secret.
pub fn b64_to_private_key(s: &str) -> (r: Result<[u8; 32], KeyError>)
    ensures
        match r {
            Ok(k) => decoded_32(s@) == Ok::<Seq<u8>, KeyError>(k@),
            Err(e) => decoded_32(s@) == Err::<Seq<u8>, KeyError>(e),
        },
{
    decode_fixed_32(s)
}

/// The ML-KEM-768 encapsulation key that belongs to a seed.
pub uninterp spec fn mlkem_public(seed: Seq<u8>) -> Seq<u8>;

/// Whether bytes of the right length are an ML-KEM-768 encapsulation key.
pub uninterp spec fn mlkem_key_valid(key: Seq<u8>) -> bool;

/// Ciphertext and shared secret for an encapsulation key and thirty-two random bytes.
pub uninterp spec fn mlkem_encapsulated(key: Seq<u8>, random: Seq<u8>) -> (Seq<u8>, Seq<u8>);

/// The shared secret that a seed takes out of a ciphertext.
pub uninterp spec fn mlkem_decapsulated(seed: Seq<u8>, ciphertext: Seq<u8>) -> Seq<u8>;

/// `MlKem768::generate_keypair_from_rng` on the thread's generator: a seed and the
/// encapsulation key that belongs to it.
#[verifier::external_body]
pub fn generate_mlkem_keypair() -> (r: (Vec<u8>, Vec<u8>))
    ensures
        r.0@.len() == 64,
        r.1@.len() == MLKEM_KEY_LEN,
        r.1@ == mlkem_public(r.0@),
        mlkem_key_valid(r.1@),
{
    let (dk, ek) = <MlKem768 as Kem>::generate_keypair_from_rng(&mut rand::rng());
    (dk.to_bytes().to_vec(), ek.to_bytes().to_vec())
}

/// `EncapsulationKey::new` on bytes of the right length: whether it accepts them.
#[verifier::external_body]
fn mlkem_accepts(key: &[u8]) -> (r: bool)
    requires
        key@.len() == MLKEM_KEY_LEN,
    ensures
        r == mlkem_key_valid(key@),
{
    EncapsulationKey::<MlKem768>::new(key.try_into().unwrap()).is_ok()
}

/// `Encapsulate::encapsulate_with_rng` on the thread's generator: ciphertext and shared
/// secret for the key and some random bytes.
#[verifier::external_body]
fn mlkem_encapsulate_to(key: &[u8]) -> (r: (Vec<u8>, Vec<u8>))
    requires
        key@.len() == MLKEM_KEY_LEN,
        mlkem_key_valid(key@),
    ensures
        r.0@.len() == MLKEM_CT_LEN,
        r.1@.len() == 32,
        exists|random: Seq<u8>| (r.0@, r.1@) == #[trigger] mlkem_encapsulated(key@, random),
{
    let ek = EncapsulationKey::<MlKem768>::new(key.try_into().unwrap()).unwrap();
    let (ct, ss) = ek.encapsulate_with_rng(&mut rand::rng());
    (ct.to_vec(), ss.to_vec())
}

/// `Decapsulate::decapsulate` with the key that belongs to a seed.
#[verifier::external_body]
fn mlkem_open(seed: &[u8], ciphertext: &[u8]) -> (r: Vec<u8>)
    requires
        seed@.len() == 64,
        ciphertext@.len() == MLKEM_CT_LEN,
    ensures
        r@ == mlkem_decapsulated(seed@, ciphertext@),
        r@.len() == 32,
{
    let dk = DecapsulationKey::<MlKem768>::from_seed(seed.try_into().unwrap());
    let ss = dk.decapsulate(ciphertext.try_into().unwrap());
    ss.to_vec()
}

/// Whether `bytes` are an encapsulation key.
pub open spec fn key_check(bytes: Seq<u8>) -> Result<(), KeyError> {
    if bytes.len() != MLKEM_KEY_LEN {
        Err(KeyError::KemLength)
    } else if !mlkem_key_valid(bytes) {
        Err(KeyError::Invalid)
    } else {
        Ok(())
    }
}

/// Accepts the bytes of an encapsulation key.
pub fn bytes_to_encapsulation_key(bytes: &[u8]) -> (r: Result<Vec<u8>, KeyError>)
    ensures
        match key_check(bytes@) {
            Ok(_) => r matches Ok(k) && k@ == bytes@,
            Err(e) => r == Err::<Vec<u8>, KeyError>(e),
        },
{
    if bytes.len() != MLKEM_KEY_LEN {
        return Err(KeyError::KemLength);
    }
    if !mlkem_accepts(bytes) {
        return Err(KeyError::Invalid);
    }
    Ok(vstd::slice::slice_to_vec(bytes))
}

/// Makes a ciphertext for the holder of the key, and the secret that it carries.
pub fn mlkem_encapsulate(pk: &[u8]) -> (r: Result<(Vec<u8>, Vec<u8>), KeyError>)
    ensures
        match key_check(pk@) {
            Ok(_) => r matches Ok((ct, ss)) && ct@.len() == MLKEM_CT_LEN && ss@.len() == 32
                && exists|random: Seq<u8>| (ct@, ss@) == #[trigger] mlkem_encapsulated(pk@, random),
            Err(e) => r == Err::<(Vec<u8>, Vec<u8>), KeyError>(e),
        },
{
    match bytes_to_encapsulation_key(pk) {
        Ok(_) => Ok(mlkem_encapsulate_to(pk)),
        Err(e) => Err(e),
    }
}

/// Takes the secret out of a ciphertext.
pub fn mlkem_decapsulate(seed: &[u8], ct: &[u8]) -> (r: Vec<u8>)
    requires
        seed@.len() == 64,
        ct@.len() == MLKEM_CT_LEN,
    ensures
        r@ == mlkem_decapsulated(seed@, ct@),
        r@.len() == 32,
{
    mlkem_open(seed, ct)
}

} // verus!
