use bytes::BytesMut;
use httproxy::crypto::{
    b64_to_private_key, b64_to_public_key, bytes_to_encapsulation_key, decrypt_bytes,
    derive_connection_keys, derive_cookie_stream_key, derive_handshake_key, derive_initial_master,
    diffie_hellman, encrypt_bytes, generate_keypair, generate_mlkem_keypair, mlkem_decapsulate,
    mlkem_encapsulate, private_key_to_b64, public_key_to_b64, AesFrameCipher,
};
use httproxy::crypto::cipher::encrypt_with_nonce;
use httproxy::base64url::Base64Error;
use httproxy::crypto::keys::{KeyError, X25519_B64_LEN};
use httproxy::shaper::{FrameCipher, FrameError};

fn random_key() -> [u8; 32] {
    generate_keypair().0
}

#[test]
fn encrypt_decrypt_roundtrip() {
    let key = random_key();
    let plain = b"hello world test frame data";
    let ct = encrypt_bytes(&key, plain).unwrap();
    let pt = decrypt_bytes(&key, &ct).unwrap();
    assert_eq!(pt, plain);
    assert_ne!(&ct[12..12 + plain.len()], plain);
}

#[test]
fn frame_cipher_roundtrip() {
    let key = random_key();
    let cipher = AesFrameCipher::new(&key);
    let data = b"frame data for cipher test";
    let ct = cipher.encrypt(data).unwrap();
    let pt = cipher.decrypt(&ct).unwrap();
    assert_eq!(pt, data);
}

#[test]
fn decrypt_garbage_fails() {
    let key = random_key();
    assert!(decrypt_bytes(&key, b"too-short").is_err());
    assert!(matches!(
        decrypt_bytes(&key, b"too-short"),
        Err(FrameError::CiphertextTooShort)
    ));
}

#[test]
fn tampered_ciphertext_fails_decryption() {
    let key = random_key();
    let cipher = AesFrameCipher::new(&key);
    let ct = cipher.encrypt(b"authenticated data").unwrap();
    let mut tampered = ct.clone();
    let mid = tampered.len() / 2;
    tampered[mid] ^= 0xFF;
    assert!(cipher.decrypt(&tampered).is_err());
    assert!(matches!(
        cipher.decrypt(&tampered),
        Err(FrameError::DecryptionFailed)
    ));
    assert_eq!(
        cipher.decrypt(&tampered).unwrap_err().message(),
        "decryption error: aead::Error"
    );
    assert_eq!(
        FrameError::EncryptionFailed.message(),
        "encryption error: aead::Error"
    );
}

#[test]
fn wrong_key_fails_decryption() {
    let key1 = random_key();
    let key2 = random_key();
    let c1 = AesFrameCipher::new(&key1);
    let c2 = AesFrameCipher::new(&key2);
    let ct = c1.encrypt(b"secret data").unwrap();
    assert!(c2.decrypt(&ct).is_err());
}

#[test]
fn sealing_puts_the_nonce_in_front() {
    let sealed = encrypt_with_nonce(&[0u8; 32], [7u8; 12], b"abc").unwrap();
    assert_eq!(sealed.len(), 12 + 3 + 16);
    assert_eq!(&sealed[..12], &[7u8; 12]);
    assert_eq!(decrypt_bytes(&[0u8; 32], &sealed).unwrap(), b"abc");
}

#[test]
fn derive_handshake_key_domain_separated() {
    let mut shared = [0xAAu8; 32];
    let k1 = derive_handshake_key(&shared);
    shared[0] ^= 0x01;
    let k2 = derive_handshake_key(&shared);
    assert_ne!(
        k1, k2,
        "different shared secrets must derive different keys"
    );
    assert_ne!(k2, shared);
}

#[test]
fn derive_initial_master_domain_separated() {
    let mut ml = [0x11u8; 32];
    let x2 = [0x22u8; 32];
    let m1 = derive_initial_master(&ml, &x2);
    ml[0] ^= 0x01;
    let m2 = derive_initial_master(&ml, &x2);
    assert_ne!(
        m1, m2,
        "different ML-KEM secrets must derive different masters"
    );
}

#[test]
fn connection_keys_domain_separated() {
    let mut master = [0xBBu8; 32];
    let nonce = [0xCCu8; 16];
    let (up1, dn1, tg1) = derive_connection_keys(&master, &nonce);
    master[0] ^= 0x01;
    let (up2, dn2, tg2) = derive_connection_keys(&master, &nonce);
    assert_ne!(up1, up2);
    assert_ne!(dn1, dn2);
    assert_ne!(tg1, tg2);
}

#[test]
fn connection_keys_different_for_different_nonces() {
    let master = [0xBBu8; 32];
    let n1 = [0xCCu8; 16];
    let n2 = [0xDDu8; 16];
    let (up1, _, _) = derive_connection_keys(&master, &n1);
    let (up2, _, _) = derive_connection_keys(&master, &n2);
    assert_ne!(up1, up2);
}

#[test]
fn derived_keys_differ_from_each_other() {
    let master = [0xBBu8; 32];
    let (up, down, target) = derive_connection_keys(&master, &[1u8; 16]);
    let stream = derive_cookie_stream_key(&master);
    assert_ne!(up, down);
    assert_ne!(down, target);
    assert_ne!(stream, up);
    assert_ne!(stream, master);
}

#[test]
fn keypair_roundtrip() {
    let (sk, pk) = generate_keypair();
    let b64_pk = public_key_to_b64(&pk);
    let b64_sk = private_key_to_b64(&sk);
    assert_eq!(b64_pk.len(), X25519_B64_LEN);
    assert_eq!(b64_sk.len(), X25519_B64_LEN);

    let pk2 = b64_to_public_key(&b64_pk).unwrap();
    assert_eq!(pk, pk2);

    let sk2 = b64_to_private_key(&b64_sk).unwrap();
    assert_eq!(sk, sk2);
}

#[test]
fn diffie_hellman_agreement() {
    let (a_sk, a_pk) = generate_keypair();
    let (b_sk, b_pk) = generate_keypair();
    let ss_a = diffie_hellman(&a_sk, &b_pk);
    let ss_b = diffie_hellman(&b_sk, &a_pk);
    assert_eq!(ss_a, ss_b);
}

#[test]
fn mlkem_roundtrip() {
    let (sk, pk) = generate_mlkem_keypair();
    let (ct, ss_enc) = mlkem_encapsulate(&pk).unwrap();
    let ss_dec = mlkem_decapsulate(&sk, &ct);
    assert_eq!(ss_enc, ss_dec);
}

#[test]
fn b64_invalid_length_rejected() {
    assert!(b64_to_public_key("abc").is_err());
    assert!(b64_to_private_key("abc").is_err());
    assert_eq!(b64_to_public_key("AAAA"), Err(KeyError::Length));
    let bad = Base64Error::InvalidByte { offset: 0, byte: b'!' };
    assert_eq!(b64_to_public_key("!!!!"), Err(KeyError::Encoding(bad)));
}

#[test]
fn key_errors_in_words() {
    let words = |text: &str| b64_to_public_key(text).unwrap_err().message();
    assert_eq!(words("AA!A"), "Invalid symbol 33, offset 2.");
    assert_eq!(words("A"), "Invalid input length: 1");
    assert_eq!(words("AB"), "Invalid last symbol 66, offset 1.");
    assert_eq!(words("AA=="), "Invalid padding");
    assert_eq!(words("AAAA"), "invalid key length");
    let short = bytes_to_encapsulation_key(&[]).unwrap_err();
    assert_eq!(short.message(), "invalid encapsulation key length");
    assert_eq!(KeyError::Invalid.message(), "invalid encapsulation key");
}

#[test]
fn encapsulation_keys_are_checked() {
    let (_, pk) = generate_mlkem_keypair();
    assert_eq!(bytes_to_encapsulation_key(&pk).unwrap(), pk);
    assert_eq!(bytes_to_encapsulation_key(&pk[1..]), Err(KeyError::KemLength));
    assert_eq!(
        bytes_to_encapsulation_key(&[0xff; 1184]),
        Err(KeyError::Invalid)
    );
}

#[test]
fn refused_ciphertexts_are_left_behind() {
    let cipher = AesFrameCipher::new(&random_key());
    let mut sealed = cipher.encrypt(b"data").unwrap();
    let mut out = BytesMut::from(&b"old"[..]);
    cipher.decrypt_into(&sealed, &mut out).unwrap();
    assert_eq!(&out[..], b"olddata");
    let last = sealed.len() - 1;
    sealed[last] ^= 1;
    out.truncate(3);
    assert!(cipher.decrypt_into(&sealed, &mut out).is_err());
    assert_eq!(&out[..3], b"old");
    assert_eq!(&out[3..], &sealed[12..sealed.len() - 16]);
    out.truncate(3);
    assert!(cipher.decrypt_into(&sealed[..27], &mut out).is_err());
    assert_eq!(&out[..], b"old");
}
