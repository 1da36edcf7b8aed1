//! Payload encryption and key agreement.
pub mod cipher;
pub mod handshake;
pub mod keys;
pub mod laws;

pub use cipher::{decrypt_bytes, encrypt_bytes, AesFrameCipher, NONCE_LEN, TAG_LEN};
pub use handshake::{
    derive_connection_keys, derive_cookie_stream_key, derive_handshake_key, derive_initial_master,
};
pub use keys::{
    b64_to_private_key, b64_to_public_key, bytes_to_encapsulation_key, diffie_hellman,
    generate_keypair, generate_mlkem_keypair, mlkem_decapsulate, mlkem_encapsulate,
    private_key_to_b64, public_key_to_b64,
};
