use cloudone::crypto::{
    check_password, decrypt_opt, encrypt, encrypt_with, hash_password, master_key, open_data,
    random_secret, EncryptFailed,
};

#[test]
fn secrets_come_back() {
    let key = [7u8; 32];
    for text in ["", "x", "a longer secret", "\u{6587}\u{4ef6}"] {
        let enc = encrypt(&key, text).unwrap();
        assert_ne!(enc, text);
        let engine = &base64::engine::general_purpose::STANDARD;
        assert_eq!(base64::Engine::decode(engine, &enc).unwrap().len(), text.len() + 28);
        assert_eq!(decrypt_opt(&key, &enc).unwrap(), text);
    }
}

#[test]
fn encryption_under_a_nonce_is_fixed() {
    let key = [0u8; 32];
    let a = encrypt_with(&key, vec![0u8; 12], "secret").unwrap();
    assert_eq!(a, encrypt_with(&key, vec![0u8; 12], "secret").unwrap());
    assert_ne!(a, encrypt_with(&key, vec![1u8; 12], "secret").unwrap());
    assert_eq!(a.len(), 48);
    assert!(a.starts_with("AAAAAAAAAAAAAAAA"));
    let b = encrypt_with(&key, vec![0u8; 12], "").unwrap();
    assert_eq!(b, "AAAAAAAAAAAAAAAAUw+K+8dFNrmpY7TxxMtziw==");
}

#[test]
fn wrong_keys_and_texts_give_nothing() {
    let enc = encrypt(&[1u8; 32], "secret").unwrap();
    assert_eq!(decrypt_opt(&[2u8; 32], &enc), None);
    assert_eq!(EncryptFailed {}.message(), "encrypt failed");
    assert_eq!(decrypt_opt(&[1u8; 32], "not base 64!"), None);
    assert_eq!(decrypt_opt(&[1u8; 32], "AAAA"), None);
    assert_eq!(decrypt_opt(&[1u8; 32], ""), Some(String::new()));
    assert_eq!(open_data(&[1u8; 32], vec![0u8; 11]), None);
    assert_eq!(open_data(&[1u8; 32], vec![0u8; 30]), None);
}

#[test]
fn the_master_key_is_a_digest() {
    let expected = [
        0xba, 0x78, 0x16, 0xbf, 0x8f, 0x01, 0xcf, 0xea, 0x41, 0x41, 0x40, 0xde, 0x5d, 0xae, 0x22,
        0x23, 0xb0, 0x03, 0x61, 0xa3, 0x96, 0x17, 0x7a, 0x9c, 0xb4, 0x10, 0xff, 0x61, 0xf2, 0x00,
        0x15, 0xad,
    ];
    assert_eq!(master_key("abc"), expected);
}

#[test]
fn random_secrets_are_hexadecimal() {
    let a = random_secret();
    assert_eq!(a.len(), 64);
    assert!(a.bytes().all(|b| b.is_ascii_digit() || (b'a'..=b'f').contains(&b)));
    assert_ne!(a, random_secret());
}

#[test]
fn passwords_match_their_hashes() {
    let h = hash_password("hunter2").unwrap();
    assert_eq!(h.len(), 60);
    assert!(h.starts_with("$2"));
    assert!(check_password("hunter2", &h));
}

#[test]
fn other_passwords_do_not_match() {
    let h = bcrypt::hash("hunter2", 4).unwrap();
    assert!(check_password("hunter2", &h));
    assert!(!check_password("hunter3", &h));
    assert!(!check_password("hunter2", "no hash"));
    assert!(!check_password("", ""));
}
