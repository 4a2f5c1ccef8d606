use password_kvstore::Error;

#[test]
fn an_error_names_its_variant() {
    let all = vec![
        (Error::AlreadyExists("m".into()), "AlreadyExists"),
        (Error::NotFound("m".into()), "NotFound"),
        (Error::DecodingError("m".into()), "DecodingError"),
        (Error::DecryptionError("m".into()), "DecryptionError"),
        (Error::DeserializationError("m".into()), "DeserializationError"),
        (Error::EncodingError("m".into()), "EncodingError"),
        (Error::EncryptionError("m".into()), "EncryptionError"),
        (Error::HexDecodeError("m".into()), "HexDecodeError"),
        (Error::IOError("m".into()), "IOError"),
        (Error::InvalidKeyError("m".into()), "InvalidKeyError"),
        (Error::InvalidUtf8("m".into()), "InvalidUtf8"),
        (Error::PKCS1Error("m".into()), "PKCS1Error"),
        (Error::PKCS8Error("m".into()), "PKCS8Error"),
        (Error::ParseIntError("m".into()), "ParseIntError"),
        (Error::RSAError("m".into()), "RSAError"),
        (Error::StorageError("m".into()), "StorageError"),
        (Error::PasswordHashingError("m".into()), "PasswordHashingError"),
    ];
    for (error, name) in all {
        assert_eq!(error.variant(), name);
        assert_eq!(error.message(), "m");
        assert_eq!(error.to_string(), format!("{}: m", name));
    }
    assert_eq!(Error::NotFound(String::new()).to_string(), "NotFound: ");
}
