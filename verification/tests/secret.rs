use password_kvstore::{Error, PlainBytes, Secret};

#[test]
fn test_secret() {
    let secret = Secret::from("secret");
    assert_eq!(secret.to_string(), "******");
}

#[test]
fn a_secret_prints_as_asterisks() {
    assert_eq!(Secret::from_plaintext("entry").to_string(), "*****");
    assert_eq!(Secret::from_plaintext("entry").to_string().len(), 5);
    assert_eq!(Secret::from_plaintext("").to_string(), "");
    assert_eq!(Secret::default().to_string(), "");
    // two bytes in UTF-8
    assert_eq!(Secret::from(String::from("é")).to_string(), "**");
}

#[test]
fn the_content_comes_out_only_when_asked_for() {
    let secret = Secret::from_plaintext("pässword");
    assert_eq!(secret.plaintext(), "pässword");
    assert_eq!(secret.try_plaintext(), Ok("pässword".to_string()));
    assert_eq!(secret.as_bytes(), "pässword".as_bytes().to_vec());
    assert_eq!(secret.len(), 9);
    assert_eq!(Secret::default().plaintext(), "");
}

#[test]
fn bytes_that_are_no_text_lose_what_is_invalid() {
    // a secret with the bytes 'a', 0xFF, 'b' and a shown length of 3
    let mut layout = vec![3u8, 0, 0, 0, 0, 0, 0, 0, b'a', 0xFF, b'b'];
    layout.extend_from_slice(&[3, 0, 0, 0, 0, 0, 0, 0]);
    let secret = Secret::from_plain_bytes(&layout).unwrap();
    assert_eq!(secret.as_bytes(), vec![b'a', 0xFF, b'b']);
    assert_eq!(secret.plaintext(), "ab");
    assert!(matches!(secret.try_plaintext(), Err(Error::InvalidUtf8(_))));
    assert_eq!(secret.to_string(), "***");
}

#[test]
fn secret_layout() {
    let secret = Secret::from("ab");
    assert_eq!(
        secret.to_plain_bytes(),
        vec![2, 0, 0, 0, 0, 0, 0, 0, b'a', b'b', 2, 0, 0, 0, 0, 0, 0, 0]
    );
    assert_eq!(Secret::from_plain_bytes(&secret.to_plain_bytes()).unwrap(), secret);
    assert_eq!(Secret::default().to_plain_bytes(), vec![0u8; 16]);
    assert_eq!(Secret::from_plain_bytes(&[0u8; 16]).unwrap(), Secret::default());
    assert!(matches!(Secret::from_plain_bytes(&[0u8; 15]), Err(Error::DeserializationError(_))));
}
