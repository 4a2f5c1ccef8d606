//! The failures that the library reports.
use vstd::prelude::*;
use crate::primitives::{debug_quoted, quoted};

verus! {

/// A failure, tagged with its kind and carrying a message for people.
#[derive(Debug, Clone, PartialEq, Eq)]
pub enum Error {
    /// An entry of that name is already stored.
    AlreadyExists(String),
    /// No entry of that name is stored.
    NotFound(String),
    /// Compressed bytes could not be expanded.
    DecodingError(String),
    /// A sealed box did not authenticate, or a ciphertext could not be processed.
    DecryptionError(String),
    /// Bytes are not the binary layout of the value asked for.
    DeserializationError(String),
    /// A value could not be compressed.
    EncodingError(String),
    /// A plaintext could not be sealed or enciphered.
    EncryptionError(String),
    /// A text is not a hexadecimal encoding.
    HexDecodeError(String),
    /// A failure raised by a transport around the library.
    IOError(String),
    InvalidKeyError(String),
    /// Bytes that had to be text are not valid UTF-8.
    InvalidUtf8(String),
    PKCS1Error(String),
    PKCS8Error(String),
    ParseIntError(String),
    RSAError(String),
    StorageError(String),
    /// The password hash could not be computed.
    PasswordHashingError(String),
}

impl Error {
    /// The name of the variant of `self`.
    pub open spec fn variant_name(self) -> Seq<char> {
        match self {
            Error::AlreadyExists(_) => "AlreadyExists"@,
            Error::NotFound(_) => "NotFound"@,
            Error::DecodingError(_) => "DecodingError"@,
            Error::DecryptionError(_) => "DecryptionError"@,
            Error::DeserializationError(_) => "DeserializationError"@,
            Error::EncodingError(_) => "EncodingError"@,
            Error::EncryptionError(_) => "EncryptionError"@,
            Error::HexDecodeError(_) => "HexDecodeError"@,
            Error::IOError(_) => "IOError"@,
            Error::InvalidKeyError(_) => "InvalidKeyError"@,
            Error::InvalidUtf8(_) => "InvalidUtf8"@,
            Error::PKCS1Error(_) => "PKCS1Error"@,
            Error::PKCS8Error(_) => "PKCS8Error"@,
            Error::ParseIntError(_) => "ParseIntError"@,
            Error::RSAError(_) => "RSAError"@,
            Error::StorageError(_) => "StorageError"@,
            Error::PasswordHashingError(_) => "PasswordHashingError"@,
        }
    }

    /// The message that `self` carries.
    pub open spec fn message_text(self) -> Seq<char> {
        match self {
            Error::AlreadyExists(m) => m@,
            Error::NotFound(m) => m@,
            Error::DecodingError(m) => m@,
            Error::DecryptionError(m) => m@,
            Error::DeserializationError(m) => m@,
            Error::EncodingError(m) => m@,
            Error::EncryptionError(m) => m@,
            Error::HexDecodeError(m) => m@,
            Error::IOError(m) => m@,
            Error::InvalidKeyError(m) => m@,
            Error::InvalidUtf8(m) => m@,
            Error::PKCS1Error(m) => m@,
            Error::PKCS8Error(m) => m@,
            Error::ParseIntError(m) => m@,
            Error::RSAError(m) => m@,
            Error::StorageError(m) => m@,
            Error::PasswordHashingError(m) => m@,
        }
    }

    /// The name of the variant, as text.
    pub fn variant(&self) -> (r: String)
        ensures
            r@ == self.variant_name(),
    {
        let name: &str = match self {
            Error::AlreadyExists(_) => "AlreadyExists",
            Error::NotFound(_) => "NotFound",
            Error::DecodingError(_) => "DecodingError",
            Error::DecryptionError(_) => "DecryptionError",
            Error::DeserializationError(_) => "DeserializationError",
            Error::EncodingError(_) => "EncodingError",
            Error::EncryptionError(_) => "EncryptionError",
            Error::HexDecodeError(_) => "HexDecodeError",
            Error::IOError(_) => "IOError",
            Error::InvalidKeyError(_) => "InvalidKeyError",
            Error::InvalidUtf8(_) => "InvalidUtf8",
            Error::PKCS1Error(_) => "PKCS1Error",
            Error::PKCS8Error(_) => "PKCS8Error",
            Error::ParseIntError(_) => "ParseIntError",
            Error::RSAError(_) => "RSAError",
            Error::StorageError(_) => "StorageError",
            Error::PasswordHashingError(_) => "PasswordHashingError",
        };
        name.to_owned()
    }

    /// The message that the error carries.
    pub fn message(&self) -> (r: &String)
        ensures
            r@ == self.message_text(),
    {
        match self {
            Error::AlreadyExists(m) => m,
            Error::NotFound(m) => m,
            Error::DecodingError(m) => m,
            Error::DecryptionError(m) => m,
            Error::DeserializationError(m) => m,
            Error::EncodingError(m) => m,
            Error::EncryptionError(m) => m,
            Error::HexDecodeError(m) => m,
            Error::IOError(m) => m,
            Error::InvalidKeyError(m) => m,
            Error::InvalidUtf8(m) => m,
            Error::PKCS1Error(m) => m,
            Error::PKCS8Error(m) => m,
            Error::ParseIntError(m) => m,
            Error::RSAError(m) => m,
            Error::StorageError(m) => m,
            Error::PasswordHashingError(m) => m,
        }
    }

    /// The error as a line of text: the variant's name, a colon and a space, the message.
    pub fn to_string(&self) -> (r: String)
        ensures
            r@ == self.variant_name() + ": "@ + self.message_text(),
    {
        let mut text: String = self.variant();
        text.append(": ");
        text.append(self.message().as_str());
        text
    }
}

/// What a fallible operation of the library returns.
pub type Result<T> = std::result::Result<T, Error>;

/// The text of a failure that names an entry: `before`, the name between
/// quotes, `after`.
pub(crate) fn naming(before: &str, name: &str, after: &str) -> (r: String)
    ensures
        r@ == before@ + debug_quoted(name@) + after@,
{
    let mut text: String = before.to_owned();
    text.append(quoted(name).as_str());
    text.append(after);
    text
}

/// The kind of a failure: its variant without the message.
#[derive(Debug, Clone, Copy, PartialEq, Eq)]
pub enum ErrorKind {
    AlreadyExists,
    NotFound,
    DecodingError,
    DecryptionError,
    DeserializationError,
    EncodingError,
    EncryptionError,
    HexDecodeError,
    IOError,
    InvalidKeyError,
    InvalidUtf8,
    PKCS1Error,
    PKCS8Error,
    ParseIntError,
    RSAError,
    StorageError,
    PasswordHashingError,
}

impl Error {
    /// The kind of `self`.
    pub open spec fn kind(self) -> ErrorKind {
        match self {
            Error::AlreadyExists(_) => ErrorKind::AlreadyExists,
            Error::NotFound(_) => ErrorKind::NotFound,
            Error::DecodingError(_) => ErrorKind::DecodingError,
            Error::DecryptionError(_) => ErrorKind::DecryptionError,
            Error::DeserializationError(_) => ErrorKind::DeserializationError,
            Error::EncodingError(_) => ErrorKind::EncodingError,
            Error::EncryptionError(_) => ErrorKind::EncryptionError,
            Error::HexDecodeError(_) => ErrorKind::HexDecodeError,
            Error::IOError(_) => ErrorKind::IOError,
            Error::InvalidKeyError(_) => ErrorKind::InvalidKeyError,
            Error::InvalidUtf8(_) => ErrorKind::InvalidUtf8,
            Error::PKCS1Error(_) => ErrorKind::PKCS1Error,
            Error::PKCS8Error(_) => ErrorKind::PKCS8Error,
            Error::ParseIntError(_) => ErrorKind::ParseIntError,
            Error::RSAError(_) => ErrorKind::RSAError,
            Error::StorageError(_) => ErrorKind::StorageError,
            Error::PasswordHashingError(_) => ErrorKind::PasswordHashingError,
        }
    }
}

/// The message of the failure to find an entry: a fixed text, then the
/// name between quotes.
pub open spec fn not_found_text(name: Seq<char>) -> Seq<char> {
    "no entry found with name "@ + debug_quoted(name)
}

/// The message of the failure to find the nonce of an entry.
pub open spec fn nonce_not_found_text(name: Seq<char>) -> Seq<char> {
    "no entry (nonce) found with name "@ + debug_quoted(name)
}

/// The message of the failure to add an entry whose name is taken.
pub open spec fn already_exists_text(name: Seq<char>) -> Seq<char> {
    "entry "@ + debug_quoted(name) + " already exists"@
}

/// The failure to find an entry of that name.
pub(crate) fn not_found(name: &str) -> (e: Error)
    ensures
        e is NotFound,
        e.message_text() == not_found_text(name@),
{
    proof {
        reveal_strlit("");
    }
    let text: String = naming("no entry found with name ", name, "");
    assert(text@ =~= not_found_text(name@));
    Error::NotFound(text)
}

/// The failure to find the nonce of an entry of that name.
pub(crate) fn nonce_not_found(name: &str) -> (e: Error)
    ensures
        e is NotFound,
        e.message_text() == nonce_not_found_text(name@),
{
    proof {
        reveal_strlit("");
    }
    let text: String = naming("no entry (nonce) found with name ", name, "");
    assert(text@ =~= nonce_not_found_text(name@));
    Error::NotFound(text)
}

/// The failure to add an entry whose name is taken.
pub(crate) fn already_exists(name: &str) -> (e: Error)
    ensures
        e is AlreadyExists,
        e.message_text() == already_exists_text(name@),
{
    Error::AlreadyExists(naming("entry ", name, " already exists"))
}

} // verus!
