use pw_vault::cryptography::{
    decrypt, decrypt_key, encrypt, encrypt_key, generate_password, pbkdf2_hmac, random_bytes,
    EncryptedBlob,
};

#[test]
fn test_encrypt_decrypt_lob() {
    let data = b"This is some serious data right here";
    let key = random_bytes(32);
    let blob1 = encrypt(&key, data).expect("this should encrypt");
    let blob2 = encrypt(&key, data).expect("this should encrypt");
    assert_eq!(blob1.data().len(), data.len());

    // encrypted with two random ivs
    assert_ne!(blob1.iv(), blob2.iv());
    assert_ne!(blob1.data(), blob2.data());
    assert_ne!(blob1.tag(), blob2.tag());

    let decrypted_data1 = decrypt(&key, &blob1).expect("this should decrypt");
    let decrypted_data2 = decrypt(&key, &blob2).expect("this should decrypt");
    assert_eq!(decrypted_data1.as_slice(), &data[..]);
    assert_eq!(decrypted_data2.as_slice(), &data[..]);
}

#[test]
fn cryptography_test_encrypt_decrypt_lob() {
    let data = "This is some serious data right here".to_string();
    let key = random_bytes(32);
    let blob1 = encrypt(&key, data.as_bytes()).expect("this should encrypt");
    let blob2 = encrypt(&key, data.as_bytes()).expect("this should encrypt");

    // encrypted with two random ivs
    assert_ne!(blob1.iv(), blob2.iv());
    assert_ne!(blob1.data(), blob2.data());
    assert_ne!(blob1.tag(), blob2.tag());

    let decrypted_data1 = decrypt(&key, &blob1).expect("this should decrypt");
    let decrypted_data2 = decrypt(&key, &blob2).expect("this should decrypt");
    assert_eq!(decrypted_data1.as_slice(), data.as_bytes());
    assert_eq!(decrypted_data2.as_slice(), data.as_bytes());

    // a single bit flip should mean failure
    let blob = encrypt(&key, data.as_bytes()).expect("this should encrypt");
    let mut wire = blob.bytes();
    wire[28 + 4] = wire[28 + 4].wrapping_add(1);
    let tampered = EncryptedBlob::from_bytes(&wire).expect("still parses");
    assert!(decrypt(&key, &tampered).is_err());
}

#[test]
fn test_blob_to_from_vec() {
    let bytes = random_bytes(128);
    let blob = EncryptedBlob::from_bytes(&bytes).expect("should be convertable");
    assert_eq!(bytes, blob.bytes());

    let too_few_bytes = [0u8; 28];
    assert!(EncryptedBlob::from_bytes(&too_few_bytes).is_err());
}

#[test]
fn cryptography_test_blob_to_from_vec() {
    let bytes = random_bytes(128);
    let blob = EncryptedBlob::from_bytes(&bytes).expect("should be convertable");
    assert_eq!(bytes, blob.bytes());

    let too_few_bytes = [0u8; 28];
    assert!(EncryptedBlob::from_bytes(&too_few_bytes).is_err());
}

#[test]
fn test_generate_password() {
    assert_eq!(generate_password(b"a", 5), "aaaaa");

    const ASCII_PRINTABLE: &[u8] = b"0123456789abcdefghijklmnopqrstuvwxyzABCDEFGHIJKLMNOPQRSTUVWXYZ!\"#$%&\'()*+,-./:;<=>?@[\\]^_`{|}~";
    let pw = generate_password(ASCII_PRINTABLE, 2000);
    for c in pw.bytes() {
        assert!(ASCII_PRINTABLE.contains(&c));
    }
    assert_eq!(pw.len(), 2000);
}

#[test]
fn cryptography_test_generate_password() {
    assert_eq!(generate_password(b"a", 5), "aaaaa");

    const ASCII_PRINTABLE: &[u8] = b"0123456789abcdefghijklmnopqrstuvwxyzABCDEFGHIJKLMNOPQRSTUVWXYZ!\"#$%&\'()*+,-./:;<=>?@[\\]^_`{|}~";
    let pw = generate_password(ASCII_PRINTABLE, 2000);
    for c in pw.bytes() {
        assert!(ASCII_PRINTABLE.contains(&c));
    }
    assert_eq!(pw.len(), 2000);
}

#[test]
fn blob_parse_boundary() {
    // 29 bytes is the least parsable input: IV(12) + TAG(16) + 1
    assert!(EncryptedBlob::from_bytes(&[0u8; 29]).is_ok());
    assert!(EncryptedBlob::from_bytes(&[0u8; 28]).is_err());
    assert!(EncryptedBlob::from_bytes(&[]).is_err());
    let blob = EncryptedBlob::from_bytes(&[7u8; 29]).unwrap();
    assert_eq!(blob.iv().as_slice(), &[7u8; 12]);
    assert_eq!(blob.tag().as_slice(), &[7u8; 16]);
    assert_eq!(blob.data().as_slice(), &[7u8; 1]);
}

#[test]
fn every_bit_flip_is_detected() {
    let data = b"tamper detection coverage";
    let key = random_bytes(32);
    let blob = encrypt(&key, data).expect("this should encrypt");
    let wire = blob.bytes();
    // flip every single bit of the tag and of the ciphertext in turn
    for byte in 12..wire.len() {
        for bit in 0..8 {
            let mut tampered = wire.clone();
            tampered[byte] ^= 1 << bit;
            let parsed = EncryptedBlob::from_bytes(&tampered).expect("still parses");
            assert!(decrypt(&key, &parsed).is_err());
        }
    }
}

#[test]
fn wrong_key_is_rejected() {
    let data = b"locked away";
    let key_a = random_bytes(32);
    let key_b = random_bytes(32);
    let blob = encrypt(&key_a, data).expect("this should encrypt");
    assert!(decrypt(&key_b, &blob).is_err());
}

#[test]
fn key_wrap_round_trip() {
    let master_key = pbkdf2_hmac(b"a strong passphrase", b"bob");
    let data_key = random_bytes(32);
    let (wrapped, nonce) = encrypt_key(&master_key, &data_key).expect("wrapping succeeds");
    assert_eq!(wrapped.len(), 32);
    assert_eq!(nonce.len(), 16);
    // the wrapped form really is a transformation of the key
    assert_ne!(wrapped, data_key);
    let unwrapped = decrypt_key(&master_key, &wrapped, &nonce).expect("unwrapping succeeds");
    assert_eq!(unwrapped, data_key);
}

#[test]
fn pbkdf2_is_deterministic_and_keyed() {
    let k1 = pbkdf2_hmac(b"password", b"alice");
    let k2 = pbkdf2_hmac(b"password", b"alice");
    let k3 = pbkdf2_hmac(b"password", b"bob");
    let k4 = pbkdf2_hmac(b"other", b"alice");
    assert_eq!(k1.len(), 32);
    assert_eq!(k1, k2);
    assert_ne!(k1, k3);
    assert_ne!(k1, k4);
    assert_ne!(k1.as_slice(), b"password".as_slice());
}

#[test]
fn random_bytes_length_and_freshness() {
    let a = random_bytes(16);
    let b = random_bytes(16);
    assert_eq!(a.len(), 16);
    assert_eq!(b.len(), 16);
    // two 16-byte draws colliding is beyond unlikely
    assert_ne!(a, b);
    assert_eq!(random_bytes(0).len(), 0);
}
