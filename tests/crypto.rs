use boringvpn::crypto::{inc_nonce, Crypto, CryptoMethod};

#[test]
fn encrypt_decrypt_aes256() {
    let mut sender = Crypto::from_shared_key(CryptoMethod::AES256, "test");
    let receiver = Crypto::from_shared_key(CryptoMethod::AES256, "test");
    let msg = "HelloWorld0123456789";
    let msg_bytes = msg.as_bytes();
    let mut buffer = [0u8; 1024];
    let header = [0u8; 8];
    for i in 0..msg_bytes.len() {
        buffer[i] = msg_bytes[i];
    }
    let mut nonce1 = [0u8; 12];
    let size = sender.encrypt(&mut buffer, msg_bytes.len(), &mut nonce1, &header);
    assert_eq!(size, msg_bytes.len() + sender.additional_bytes());
    assert!(msg_bytes != &buffer[..msg_bytes.len()] as &[u8]);
    receiver.decrypt(&mut buffer[..size], &nonce1, &header).unwrap();
    assert_eq!(msg_bytes, &buffer[..msg_bytes.len()] as &[u8]);
    let mut nonce2 = [1u8; 12];
    let size = sender.encrypt(&mut buffer, msg_bytes.len(), &mut nonce2, &header);
    assert!(nonce1 != nonce2);
    receiver.decrypt(&mut buffer[..size], &nonce2, &header).unwrap();
    assert_eq!(msg_bytes, &buffer[..msg_bytes.len()] as &[u8]);
}

fn sealed(sender: &mut Crypto, plain: &[u8], header: &[u8]) -> (Vec<u8>, [u8; 12]) {
    let mut buf = plain.to_vec();
    buf.resize(plain.len() + sender.additional_bytes(), 0);
    let mut nonce = [0u8; 12];
    let n = sender.encrypt(&mut buf, plain.len(), &mut nonce, header);
    buf.truncate(n);
    (buf, nonce)
}

#[test]
fn chacha20_round_trip() {
    let mut sender = Crypto::from_shared_key(CryptoMethod::ChaCha20, "secret");
    let receiver = Crypto::from_shared_key(CryptoMethod::ChaCha20, "secret");
    assert_eq!(sender.method(), 1);
    let (mut frame, nonce) = sealed(&mut sender, b"payload bytes", &[0u8; 8]);
    assert_eq!(frame.len(), 13 + 16);
    let n = receiver.decrypt(&mut frame, &nonce, &[0u8; 8]).unwrap();
    assert_eq!(&frame[..n], b"payload bytes");
}

#[test]
fn flipped_bits_fail_to_decrypt() {
    let mut sender = Crypto::from_shared_key(CryptoMethod::AES256, "k");
    let receiver = Crypto::from_shared_key(CryptoMethod::AES256, "k");
    let (frame, nonce) = sealed(&mut sender, b"0123456789", &[0u8; 8]);
    for byte in 0..frame.len() {
        for bit in 0..8 {
            let mut tampered = frame.clone();
            tampered[byte] ^= 1 << bit;
            let r = receiver.decrypt(&mut tampered, &nonce, &[0u8; 8]);
            assert!(matches!(r, Err(boringvpn::error::Error::Crypto(_))));
        }
    }
}

#[test]
fn mismatched_header_fails_to_decrypt() {
    let mut sender = Crypto::from_shared_key(CryptoMethod::AES256, "k");
    let receiver = Crypto::from_shared_key(CryptoMethod::AES256, "k");
    let (mut frame, nonce) = sealed(&mut sender, b"data", &[0u8; 8]);
    assert!(receiver.decrypt(&mut frame, &nonce, &[1u8; 8]).is_err());
}

#[test]
fn other_passphrase_fails_to_decrypt() {
    let mut sender = Crypto::from_shared_key(CryptoMethod::AES256, "one");
    let receiver = Crypto::from_shared_key(CryptoMethod::AES256, "two");
    assert_ne!(sender.get_key(), receiver.get_key());
    let (mut frame, nonce) = sealed(&mut sender, b"data", &[0u8; 8]);
    assert!(receiver.decrypt(&mut frame, &nonce, &[0u8; 8]).is_err());
}

#[test]
fn same_plaintext_twice_gives_new_nonce_and_ciphertext() {
    let mut sender = Crypto::from_shared_key(CryptoMethod::AES256, "k");
    let (c1, n1) = sealed(&mut sender, b"same", &[0u8; 8]);
    let (c2, n2) = sealed(&mut sender, b"same", &[0u8; 8]);
    assert_ne!(n1, n2);
    assert_ne!(c1, c2);
    let mut expected = n1;
    inc_nonce(&mut expected);
    assert_eq!(expected, n2);
}

#[test]
fn derived_key_is_deterministic_and_not_the_passphrase() {
    let a = Crypto::from_shared_key(CryptoMethod::AES256, "passphrase");
    let b = Crypto::from_shared_key(CryptoMethod::ChaCha20, "passphrase");
    assert_eq!(a.get_key().len(), 32);
    assert_eq!(a.get_key(), b.get_key());
    assert_ne!(&a.get_key()[..10], b"passphrase");
    assert_eq!(a.nonce_byte(), 12);
    assert_eq!(a.additional_bytes(), 16);
    assert_eq!(a.method(), 2);
}

#[test]
fn plain_context_passes_through() {
    let mut c = Crypto::Plain;
    let mut buf = *b"abc";
    let mut nonce = [7u8; 12];
    assert_eq!(c.encrypt(&mut buf, 3, &mut nonce, &[]), 3);
    assert_eq!(&buf, b"abc");
    assert_eq!(nonce, [7u8; 12]);
    assert_eq!(c.decrypt(&mut buf, &[], &[]), Ok(3));
    assert_eq!(c.method(), 0);
    assert_eq!(c.nonce_byte(), 0);
    assert_eq!(c.additional_bytes(), 0);
    assert!(c.get_key().is_empty());
}

#[test]
fn nonce_increments_big_endian() {
    let mut n = [0u8, 0, 255];
    inc_nonce(&mut n);
    assert_eq!(n, [0, 1, 0]);
    let mut n = [0u8, 5];
    inc_nonce(&mut n);
    assert_eq!(n, [0, 6]);
    let mut n = [255u8, 255];
    inc_nonce(&mut n);
    assert_eq!(n, [0, 0]);
    let mut n: [u8; 0] = [];
    inc_nonce(&mut n);
}

#[test]
fn fresh_nonce_leads_with_zero() {
    let mut c = Crypto::from_shared_key(CryptoMethod::AES256, "k");
    let mut buf = [0u8; 16];
    let mut nonce = [9u8; 12];
    c.encrypt(&mut buf, 0, &mut nonce, &[]);
    assert_eq!(nonce[0], 0);
}
