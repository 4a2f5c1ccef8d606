use password_kvstore::tool::{
    HASH_ITERATIONS, HASH_LENGTH, HASH_MEMORY_KIB, HASH_SALT_LENGTH, HASH_THREADS,
};
use password_kvstore::{Chacha20Tool, CipherText, Data, Error, PlainBytes, SecretBox};
use chacha20::cipher::{KeyIvInit, StreamCipher, StreamCipherSeek};
use sha3::Digest;

const HASH: [u8; 42] = [7; 42];
const SALT: [u8; 12] = [9; 12];

#[test]
fn test_secretbox() -> Result<(), Error> {
    let secret = SecretBox::close(b"secret")?;
    assert_eq!(secret.open()?.to_bytes(), b"secret".to_vec());
    Ok(())
}

#[test]
fn a_box_gives_back_what_was_closed() -> Result<(), Error> {
    for plaintext in [vec![], vec![0u8], vec![0xABu8; 1000]] {
        let sealed = SecretBox::close(&plaintext)?;
        assert_eq!(sealed.ciphertext.len(), plaintext.len() + 16);
        assert_eq!(sealed.open()?.to_vec(), plaintext);
    }
    Ok(())
}

#[test]
fn a_box_does_not_hold_the_plaintext_in_the_clear() -> Result<(), Error> {
    let plaintext = vec![0x55u8; 64];
    let first = SecretBox::close(&plaintext)?;
    let second = SecretBox::close(&plaintext)?;
    assert_ne!(first.ciphertext.to_vec()[..64], plaintext[..]);
    assert_ne!(first.key, second.key);
    assert_ne!(first.nonce, second.nonce);
    assert_ne!(first.ciphertext, second.ciphertext);
    Ok(())
}

#[test]
fn a_changed_byte_makes_a_box_fail() -> Result<(), Error> {
    let sealed = SecretBox::close(b"tamper with me")?;
    for at in 0..sealed.ciphertext.len() {
        let mut bytes = sealed.ciphertext.to_vec();
        bytes[at] ^= 0x01;
        let changed = SecretBox { ciphertext: Data::new(bytes), key: sealed.key, nonce: sealed.nonce };
        assert!(matches!(changed.open(), Err(Error::DecryptionError(_))));
    }
    let mut short = sealed.ciphertext.to_vec();
    short.pop();
    let cut = SecretBox { ciphertext: Data::new(short), key: sealed.key, nonce: sealed.nonce };
    assert!(matches!(cut.open(), Err(Error::DecryptionError(_))));
    let mut key = sealed.key;
    key[0] ^= 1;
    let other = SecretBox { ciphertext: sealed.ciphertext.clone(), key, nonce: sealed.nonce };
    assert!(matches!(other.open(), Err(Error::DecryptionError(_))));
    let empty = SecretBox { ciphertext: Data::new(vec![]), key: sealed.key, nonce: sealed.nonce };
    assert!(matches!(empty.open(), Err(Error::DecryptionError(_))));
    Ok(())
}

#[test]
fn a_box_has_a_layout() -> Result<(), Error> {
    let sealed = SecretBox::close(b"abc")?;
    let plain = sealed.to_plain_bytes();
    assert_eq!(plain.len(), 8 + 19 + 32 + 12);
    assert_eq!(
        plain,
        bincode::serialize(&(sealed.ciphertext.to_vec(), sealed.key, sealed.nonce)).unwrap()
    );
    assert_eq!(SecretBox::from_plain_bytes(&plain)?, sealed);
    assert_eq!(SecretBox::from_deflate_bytes(&sealed.to_flate_bytes()?)?, sealed);
    assert!(matches!(
        SecretBox::from_plain_bytes(&plain[..plain.len() - 1]),
        Err(Error::DeserializationError(_))
    ));
    Ok(())
}

#[test]
fn test_chacha20tool() -> Result<(), Error> {
    let tool = Chacha20Tool::new("password", 600)?;
    let secret = (0..137)
        .map(|h| format!("{}-secret-{}-", h, h))
        .collect::<String>()
        .as_bytes()
        .to_vec();
    let ciphertext = tool.encrypt(&secret, &HASH, &SALT)?;
    let plaintext = tool.decrypt(&ciphertext)?;
    assert_eq!(secret, plaintext);
    Ok(())
}

fn expected_key(password: &[u8], rounds: u32) -> [u8; 32] {
    let encoded = bincode::serialize(&password.to_vec()).unwrap();
    let salt = {
        let mut hasher = sha3::Sha3_384::new();
        hasher.update(&encoded);
        hasher.finalize().to_vec()
    };
    let mut key = [0u8; 32];
    pbkdf2::pbkdf2_hmac::<sha2::Sha256>(&encoded, &salt, rounds, &mut key);
    key
}

#[test]
fn the_key_is_stretched_from_the_encoded_password() -> Result<(), Error> {
    let tool = Chacha20Tool::new("password", 600)?;
    assert_eq!(tool.key()?, expected_key(b"password", 600));
    assert_eq!(tool.key()?, tool.key()?);
    assert_ne!(tool.key()?, Chacha20Tool::new("password", 601)?.key()?);
    assert_ne!(tool.key()?, Chacha20Tool::new("passwore", 600)?.key()?);
    assert_eq!(Chacha20Tool::new("", 1)?.key()?, expected_key(b"", 1));
    assert_ne!(tool.key()?, [0u8; 32]);
    Ok(())
}

#[test]
fn the_nonce_is_stretched_from_the_hash() -> Result<(), Error> {
    let tool = Chacha20Tool::new("password", 600)?;
    let mut expected = [0u8; 12];
    pbkdf2::pbkdf2_hmac::<sha2::Sha256>(&HASH, &SALT, 600, &mut expected);
    assert_eq!(tool.nonce(&HASH, &SALT)?, expected);
    assert_ne!(tool.nonce(&HASH, &[8; 12])?, expected);
    assert!(matches!(tool.nonce(&HASH[..41], &SALT), Err(Error::PasswordHashingError(_))));
    assert!(matches!(tool.nonce(&HASH, &SALT[..11]), Err(Error::PasswordHashingError(_))));
    assert!(matches!(tool.nonce(&[], &[]), Err(Error::PasswordHashingError(_))));
    Ok(())
}

#[test]
fn the_hash_is_asked_for_with_fixed_parameters() -> Result<(), Error> {
    let tool = Chacha20Tool::new("password", 600)?;
    let request = tool.hash_request()?;
    assert_eq!(request.password, b"password".to_vec());
    assert_eq!(request.salt_length, 12);
    assert_eq!(request.hash_length, 42);
    assert_eq!(request.iterations, 12);
    assert_eq!(request.memory_cost_kib, 125000);
    assert_eq!(request.threads, 2);
    assert_eq!(
        (HASH_SALT_LENGTH, HASH_LENGTH, HASH_ITERATIONS, HASH_MEMORY_KIB, HASH_THREADS),
        (12, 42, 12, 125000, 2)
    );
    assert_eq!(tool.password()?.to_vec(), b"password".to_vec());
    Ok(())
}

#[test]
fn the_keystream_starts_behind_the_rounds_and_the_password() -> Result<(), Error> {
    let tool = Chacha20Tool::new("password", 600)?;
    let plaintext = vec![0u8; 100];
    let enciphered = tool.encrypt(&plaintext, &HASH, &SALT)?;
    assert_eq!(enciphered.nonce(), tool.nonce(&HASH, &SALT)?);
    let key = expected_key(b"password", 600);
    let mut cipher = chacha20::ChaCha20::new(&key.into(), &enciphered.nonce().into());
    // 600 rounds, then the 8 bytes of the password
    cipher.seek(608u32);
    let mut expected = plaintext.clone();
    cipher.apply_keystream(&mut expected);
    assert_eq!(enciphered.ciphertext().to_vec(), expected);
    assert_ne!(expected, plaintext);

    // neither the rounds alone nor the password alone give the position
    for other in [0u32, 8, 600] {
        let mut cipher = chacha20::ChaCha20::new(&key.into(), &enciphered.nonce().into());
        cipher.seek(other);
        let mut elsewhere = plaintext.clone();
        cipher.apply_keystream(&mut elsewhere);
        assert_ne!(enciphered.ciphertext().to_vec(), elsewhere);
    }

    // without rounds the stream starts behind the password alone
    let plain = Chacha20Tool::new("password", 0)?;
    let enciphered = plain.encrypt(&plaintext, &HASH, &SALT)?;
    let key = expected_key(b"password", 0);
    let mut cipher = chacha20::ChaCha20::new(&key.into(), &enciphered.nonce().into());
    cipher.seek(8u32);
    let mut expected = plaintext.clone();
    cipher.apply_keystream(&mut expected);
    assert_eq!(enciphered.ciphertext().to_vec(), expected);
    Ok(())
}

#[test]
fn deciphering_inverts_enciphering_under_any_nonce() -> Result<(), Error> {
    let tool = Chacha20Tool::new("password", 3)?;
    for plaintext in [vec![], vec![1u8], (0..=255u8).collect::<Vec<u8>>()] {
        for nonce in [[0u8; 12], [0xFF; 12], [1, 2, 3, 4, 5, 6, 7, 8, 9, 10, 11, 12]] {
            // deciphering is the same function as enciphering
            let once = tool.decrypt(&CipherText::new(Data::new(plaintext.clone()), nonce))?;
            assert_eq!(once.len(), plaintext.len());
            let twice = tool.decrypt(&CipherText::new(Data::new(once.clone()), nonce))?;
            assert_eq!(twice, plaintext);
            if plaintext.len() > 16 {
                assert_ne!(once, plaintext);
            }
        }
    }
    Ok(())
}

#[test]
fn a_changed_ciphertext_deciphers_to_a_changed_plaintext() -> Result<(), Error> {
    let tool = Chacha20Tool::new("password", 3)?;
    let enciphered = tool.encrypt(b"no integrity here", &HASH, &SALT)?;
    let mut bytes = enciphered.ciphertext().to_vec();
    bytes[0] ^= 0x20;
    let changed = CipherText::new(Data::new(bytes), enciphered.nonce());
    let plaintext = tool.decrypt(&changed)?;
    assert_eq!(plaintext, b"No integrity here".to_vec());
    Ok(())
}

#[test]
fn a_ciphertext_has_a_layout() -> Result<(), Error> {
    let ciphertext = CipherText::new(Data::new(vec![1, 2, 3]), [4; 12]);
    let plain = ciphertext.to_plain_bytes();
    assert_eq!(plain, bincode::serialize(&(vec![1u8, 2, 3], [4u8; 12])).unwrap());
    assert_eq!(CipherText::from_plain_bytes(&plain)?, ciphertext);
    assert_eq!(ciphertext.ciphertext(), Data::new(vec![1, 2, 3]));
    assert_eq!(ciphertext.nonce(), [4; 12]);
    Ok(())
}
