use rcfakeclient::encryption::{dh_prime, Encryption};

#[test]
fn test_enc_dec() {
    let mut c1 = Encryption::new();
    let mut c2 = Encryption::new();
    c1.make_shared_key(&c2.public_key);
    c2.make_shared_key(&c1.public_key);
    assert_eq!(
        &[0x1u8, 0x1, 0x1],
        &c2.decrypt(&c1.encrypt(&[0x1, 0x1, 0x1]).unwrap()).unwrap() as &[u8]
    );
}

#[test]
fn public_key_is_the_generator_to_the_power_of_the_secret() {
    assert_eq!(Encryption::with_secret(vec![0]).public_key, vec![1]);
    assert_eq!(Encryption::with_secret(vec![]).public_key, vec![1]);
    assert_eq!(Encryption::with_secret(vec![1]).public_key, vec![22]);
    assert_eq!(Encryption::with_secret(vec![2]).public_key, vec![1, 228]);
    assert_eq!(Encryption::with_secret(vec![0, 3]).public_key, vec![0x29, 0x98]);
    let side = Encryption::with_secret(vec![1, 0]);
    assert_eq!(side.prime, dh_prime());
    assert_eq!(side.prime.len(), 96);
    assert_eq!(side.secret, vec![1, 0]);
    assert!(side.cipher.is_none());
    assert!(side.public_key.len() <= 96);
    assert_ne!(side.public_key[0], 0);
}

#[test]
fn fresh_secrets_have_at_most_1280_bits() {
    for _ in 0..8 {
        let side = Encryption::new();
        assert!(side.secret.len() <= 160);
        assert!(!side.secret.is_empty());
        assert!(side.secret.len() == 1 || side.secret[0] != 0);
    }
}

#[test]
fn both_sides_make_the_same_key() {
    let mut a = Encryption::with_secret(vec![0x12, 0x34, 0x56]);
    let mut b = Encryption::with_secret(vec![0x0F, 0xED, 0xCB, 0xA9]);
    a.make_shared_key(&b.public_key);
    b.make_shared_key(&a.public_key);
    let key = a.cipher.as_ref().unwrap();
    assert_eq!(key.len(), 32);
    assert_eq!(a.cipher, b.cipher);
    let mut c = Encryption::with_secret(vec![0x12, 0x34, 0x57]);
    c.make_shared_key(&b.public_key);
    assert_ne!(a.cipher, c.cipher);
}

#[test]
fn shared_key_is_the_digest_of_the_shared_number() {
    let mut side = Encryption::with_secret(vec![1]);
    side.make_shared_key(&[0x61, 0x62, 0x63]);
    let expected: Vec<u8> = vec![
        0xba, 0x78, 0x16, 0xbf, 0x8f, 0x01, 0xcf, 0xea, 0x41, 0x41, 0x40, 0xde, 0x5d, 0xae, 0x22,
        0x23, 0xb0, 0x03, 0x61, 0xa3, 0x96, 0x17, 0x7a, 0x9c, 0xb4, 0x10, 0xff, 0x61, 0xf2, 0x00,
        0x15, 0xad,
    ];
    assert_eq!(side.cipher, Some(expected));
}

#[test]
fn ciphertext_is_padded_to_whole_blocks() {
    let mut side = Encryption::with_secret(vec![5]);
    side.make_shared_key(&[7]);
    for len in [0usize, 1, 15, 16, 17, 31, 32, 100] {
        let message: Vec<u8> = (0..len).map(|i| i as u8).collect();
        let sealed = side.encrypt(&message).unwrap();
        assert_eq!(sealed.len(), (len / 16 + 1) * 16);
        if len > 0 {
            assert_ne!(&sealed[..len], &message[..]);
        }
        assert_eq!(side.decrypt(&sealed), Some(message));
    }
}

#[test]
fn encryption_follows_the_standard_cipher() {
    let mut side = Encryption::with_secret(vec![1]);
    side.cipher = Some(vec![0u8; 32]);
    let sealed = side.encrypt(&[]).unwrap();
    let expected: Vec<u8> = vec![
        0x1f, 0x78, 0x8f, 0xe6, 0xd8, 0x6c, 0x31, 0x75, 0x49, 0x69, 0x7f, 0xbf, 0x0c, 0x07, 0xfa,
        0x43,
    ];
    assert_eq!(sealed, expected);
    assert_eq!(side.decrypt(&expected), Some(vec![]));
}

#[test]
fn nothing_is_encrypted_without_a_key() {
    let side = Encryption::with_secret(vec![9]);
    assert_eq!(side.encrypt(&[1, 2, 3]), None);
    assert_eq!(side.decrypt(&[0u8; 16]), None);
    let mut odd = Encryption::with_secret(vec![9]);
    odd.cipher = Some(vec![1, 2, 3]);
    assert_eq!(odd.encrypt(&[1, 2, 3]), None);
    assert_eq!(odd.decrypt(&[0u8; 16]), None);
}

#[test]
fn malformed_ciphertext_is_not_decrypted() {
    let mut side = Encryption::with_secret(vec![5]);
    side.make_shared_key(&[7]);
    assert_eq!(side.decrypt(&[]), None);
    assert_eq!(side.decrypt(&[1, 2, 3]), None);
    let mut sealed = side.encrypt(&[1, 2, 3]).unwrap();
    let last = sealed.len() - 1;
    sealed[last] ^= 0xFF;
    assert_ne!(side.decrypt(&sealed), Some(vec![1, 2, 3]));
}
