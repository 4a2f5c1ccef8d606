//! A stream cipher that is driven by a password.
//!
//! The key is stretched from the password on every call and never kept. The
//! nonce of a ciphertext is stretched from the output of a memory-hard hash
//! of the password under a random salt; the hash itself is computed by the
//! caller, to the parameters of [`Chacha20Tool::hash_request`]. A nonce
//! cannot be derived again: it travels with its ciphertext.
use vstd::prelude::*;
use vstd::utf8::encode_utf8;
use crate::codec::{bytes_layout, write_bytes, PlainBytes};
use crate::data::buffer::Data;
use crate::errors::Error;
use crate::primitives::{apply_keystream, chacha20_keystream_byte, pbkdf2_hmac_sha256, sha3_384, sha3_384_digest, sealable, stretch, STREAM_LIMIT};
use crate::secret_box::SecretBox;

verus! {

/// Length of the random salt of the password hash, in bytes.
pub const HASH_SALT_LENGTH: u32 = 12;

/// Length of the output of the password hash, in bytes.
pub const HASH_LENGTH: u32 = 42;

/// Number of passes of the password hash.
pub const HASH_ITERATIONS: u32 = 12;

/// Memory that the password hash fills, in KiB.
pub const HASH_MEMORY_KIB: u32 = 125000;

/// Number of lanes of the password hash.
pub const HASH_THREADS: u32 = 2;

/// The key that is stretched from a password in `rounds` rounds: the
/// password is written down in its layout, the SHA3-384 digest of that is
/// the salt, and PBKDF2 with HMAC-SHA-256 makes 32 bytes of both.
pub open spec fn derived_key(password: Seq<u8>, rounds: u32) -> Seq<u8> {
    pbkdf2_hmac_sha256(bytes_layout(password), sha3_384_digest(bytes_layout(password)), rounds, 32)
}

/// The nonce that is stretched from the output of the password hash: 12
/// bytes that PBKDF2 with HMAC-SHA-256 makes of the hash and its salt.
pub open spec fn derived_nonce(hash: Seq<u8>, salt: Seq<u8>, rounds: u32) -> Seq<u8> {
    pbkdf2_hmac_sha256(hash, salt, rounds, 12)
}

/// `data` XORed with the keystream of `key` and `nonce` from `start` on.
pub open spec fn enciphered(data: Seq<u8>, key: Seq<u8>, nonce: Seq<u8>, start: int) -> Seq<u8> {
    Seq::new(data.len(), |i: int| data[i] ^ chacha20_keystream_byte(key, nonce, start + i))
}

/// Whether a hash and its salt have the lengths that the password hash is
/// asked for.
pub open spec fn well_sized(hash: Seq<u8>, salt: Seq<u8>) -> bool {
    hash.len() == HASH_LENGTH && salt.len() == HASH_SALT_LENGTH
}

/// A ciphertext with the nonce that it was made under.
#[derive(Debug, Clone, PartialEq, Eq)]
pub struct CipherText {
    ciphertext: Data,
    nonce: [u8; 12],
}

impl CipherText {
    /// The enciphered bytes.
    pub closed spec fn bytes(&self) -> Seq<u8> {
        self.ciphertext@
    }

    /// The nonce.
    pub closed spec fn nonce_bytes(&self) -> Seq<u8> {
        self.nonce@
    }

    /// Puts a ciphertext and its nonce together.
    pub fn new(ciphertext: Data, nonce: [u8; 12]) -> (r: CipherText)
        ensures
            r.bytes() == ciphertext@,
            r.nonce_bytes() == nonce@,
    {
        CipherText { ciphertext, nonce }
    }

    /// A copy of the enciphered bytes.
    pub fn ciphertext(&self) -> (r: Data)
        ensures
            r@ == self.bytes(),
    {
        Data::new(self.ciphertext.to_vec())
    }

    /// The nonce.
    pub fn nonce(&self) -> (r: [u8; 12])
        ensures
            r@ == self.nonce_bytes(),
    {
        self.nonce
    }
}

impl PlainBytes for CipherText {
    /// The enciphered bytes, then the nonce.
    type Plain = (Seq<u8>, Seq<u8>);

    closed spec fn plain(&self) -> (Seq<u8>, Seq<u8>) {
        (self.ciphertext@, self.nonce@)
    }

    open spec fn canonical(value: (Seq<u8>, Seq<u8>)) -> bool {
        <(Data, [u8; 12]) as PlainBytes>::canonical(value)
    }

    open spec fn layout(value: (Seq<u8>, Seq<u8>)) -> Seq<u8> {
        <(Data, [u8; 12]) as PlainBytes>::layout(value)
    }

    open spec fn parsed(bytes: Seq<u8>) -> Option<((Seq<u8>, Seq<u8>), int)> {
        <(Data, [u8; 12]) as PlainBytes>::parsed(bytes)
    }

    proof fn lemma_parsed_layout(value: (Seq<u8>, Seq<u8>), rest: Seq<u8>) {
        <(Data, [u8; 12]) as PlainBytes>::lemma_parsed_layout(value, rest);
    }

    proof fn lemma_parsed_bounds(bytes: Seq<u8>) {
        <(Data, [u8; 12]) as PlainBytes>::lemma_parsed_bounds(bytes);
    }

    fn write_plain(&self, out: &mut Vec<u8>) {
        self.ciphertext.write_plain(out);
        self.nonce.write_plain(out);
    }

    fn read_plain(bytes: &[u8], start: usize) -> (r: Option<(Self, usize)>) {
        match <(Data, [u8; 12]) as PlainBytes>::read_plain(bytes, start) {
            Some(((ciphertext, nonce), end)) => Some((CipherText { ciphertext, nonce }, end)),
            None => None,
        }
    }
}

impl CipherText {
    /// The value of a ciphertext is its bytes with its nonce.
    pub proof fn lemma_plain(&self)
        ensures
            self.plain() == (self.bytes(), self.nonce_bytes()),
    {
    }
}

/// What the memory-hard hash of the password is to be computed from and to.
pub struct HashRequest {
    /// The password, unwrapped.
    pub password: Vec<u8>,
    /// Length of the random salt, in bytes.
    pub salt_length: u32,
    /// Length of the hash, in bytes.
    pub hash_length: u32,
    /// Number of passes.
    pub iterations: u32,
    /// Memory to fill, in KiB.
    pub memory_cost_kib: u32,
    /// Number of lanes.
    pub threads: u32,
}

/// A password and a number of rounds, from which keys and nonces are made.
/// The password is held in a sealed box, never as it is.
pub struct Chacha20Tool {
    password: SecretBox,
    iterations: u32,
    held: Ghost<Seq<u8>>,
}

impl Chacha20Tool {
    #[verifier::type_invariant]
    spec fn holds_password(&self) -> bool {
        self.password.seals(self.held@)
    }

    /// The bytes of the password.
    pub closed spec fn password_bytes(&self) -> Seq<u8> {
        self.held@
    }

    /// The number of rounds of every stretching.
    pub closed spec fn rounds(&self) -> u32 {
        self.iterations
    }

    /// The key of the cipher.
    pub open spec fn key_bytes(&self) -> Seq<u8> {
        derived_key(self.password_bytes(), self.rounds())
    }

    /// The position of the keystream at which every ciphertext starts: the
    /// stream is advanced by the number of rounds and then by the length of
    /// the password in bytes, so no ciphertext starts at position 0 unless
    /// both are 0.
    pub open spec fn stream_start(&self) -> int {
        self.rounds() + self.password_bytes().len()
    }

    /// Whether `len` bytes from the start position on lie inside the keystream.
    pub open spec fn within_stream(&self, len: nat) -> bool {
        self.stream_start() + len <= STREAM_LIMIT
    }

    /// `data` XORed with the keystream of the key and `nonce`, from the
    /// start position on. Enciphering and deciphering are this one function.
    pub open spec fn enciphered(&self, data: Seq<u8>, nonce: Seq<u8>) -> Seq<u8> {
        enciphered(data, self.key_bytes(), nonce, self.stream_start())
    }

    /// A tool for `password`, which is sealed at once. Fails with
    /// `EncryptionError` exactly where the password is too long to seal.
    pub fn new(password: &str, iterations: u32) -> (r: Result<Chacha20Tool, Error>)
        ensures
            sealable(encode_utf8(password@).len()) <==> r is Ok,
            r matches Ok(tool) ==> tool.password_bytes() == encode_utf8(password@) && tool.rounds()
                == iterations,
            r matches Err(e) ==> e is EncryptionError,
    {
        match SecretBox::close(password.as_bytes()) {
            Ok(sealed) => Ok(
                Chacha20Tool {
                    password: sealed,
                    iterations: iterations,
                    held: Ghost(encode_utf8(password@)),
                },
            ),
            Err(e) => Err(e),
        }
    }

    /// The password, unwrapped. The caller wipes it after use.
    pub fn password(&self) -> (r: Result<Data, Error>)
        ensures
            r matches Ok(d) && d@ == self.password_bytes(),
    {
        proof {
            use_type_invariant(self);
        }
        self.password.open()
    }

    /// What the memory-hard hash of the password is to be computed from and
    /// to: Argon2id over the password, with a random salt of 12 bytes, an
    /// output of 42 bytes, 12 passes, 125,000 KiB of memory and 2 lanes.
    pub fn hash_request(&self) -> (r: Result<HashRequest, Error>)
        ensures
            r matches Ok(q) && q.password@ == self.password_bytes() && q.salt_length
                == HASH_SALT_LENGTH && q.hash_length == HASH_LENGTH && q.iterations
                == HASH_ITERATIONS && q.memory_cost_kib == HASH_MEMORY_KIB && q.threads
                == HASH_THREADS,
    {
        match self.password() {
            Ok(unwrapped) => {
                let mut unwrapped: Data = unwrapped;
                let password: Vec<u8> = unwrapped.to_vec();
                unwrapped.destroy();
                Ok(
                    HashRequest {
                        password,
                        salt_length: HASH_SALT_LENGTH,
                        hash_length: HASH_LENGTH,
                        iterations: HASH_ITERATIONS,
                        memory_cost_kib: HASH_MEMORY_KIB,
                        threads: HASH_THREADS,
                    },
                )
            },
            Err(e) => Err(e),
        }
    }

    /// The key of the cipher, stretched anew from the password.
    pub fn key(&self) -> (r: Result<[u8; 32], Error>)
        ensures
            r matches Ok(k) && k@ == self.key_bytes(),
    {
        match self.password() {
            Ok(unwrapped) => {
                let mut unwrapped: Data = unwrapped;
                let mut password: Vec<u8> = Vec::new();
                write_bytes(unwrapped.bytes.as_slice(), &mut password);
                let salt: Vec<u8> = sha3_384(password.as_slice());
                let key: [u8; 32] = stretch::<32>(
                    password.as_slice(),
                    salt.as_slice(),
                    self.iterations,
                );
                unwrapped.destroy();
                crate::utils::drop(&mut password);
                Ok(key)
            },
            Err(e) => Err(e),
        }
    }

    /// The nonce that belongs to one output of the password hash. Fails with
    /// `PasswordHashingError` exactly where the hash or its salt does not
    /// have the length that [`Chacha20Tool::hash_request`] asks for.
    pub fn nonce(&self, hash_bytes: &[u8], salt_bytes: &[u8]) -> (r: Result<[u8; 12], Error>)
        ensures
            well_sized(hash_bytes@, salt_bytes@) <==> r is Ok,
            r matches Ok(n) ==> n@ == derived_nonce(hash_bytes@, salt_bytes@, self.rounds()),
            r matches Err(e) ==> e is PasswordHashingError,
    {
        if hash_bytes.len() != HASH_LENGTH as usize || salt_bytes.len() != HASH_SALT_LENGTH as usize {
            return Err(
                Error::PasswordHashingError(
                    "the password hash or its salt has an unexpected length".to_owned(),
                ),
            );
        }
        Ok(stretch::<12>(hash_bytes, salt_bytes, self.iterations))
    }

    /// XORs `data` with the keystream under `nonce`, from the start position
    /// on; `None` exactly where that would leave the keystream.
    fn chacha20(&self, nonce: &[u8; 12], data: Vec<u8>) -> (r: Option<Vec<u8>>)
        ensures
            self.within_stream(data@.len()) <==> r is Some,
            r matches Some(out) ==> out@ == self.enciphered(data@, nonce@),
    {
        let key: [u8; 32] = match self.key() {
            Ok(key) => key,
            Err(_) => {
                return None;
            },
        };
        let password_len: usize = match self.password() {
            Ok(unwrapped) => {
                let mut unwrapped: Data = unwrapped;
                let len: usize = unwrapped.len();
                unwrapped.destroy();
                len
            },
            Err(_) => {
                return None;
            },
        };
        if password_len as u64 > STREAM_LIMIT {
            return None;
        }
        let start: u64 = self.iterations as u64 + password_len as u64;
        if start > STREAM_LIMIT || data.len() as u64 > STREAM_LIMIT - start {
            return None;
        }
        let mut out: Vec<u8> = data;
        apply_keystream(&key, nonce, start, &mut out);
        Some(out)
    }

    /// Enciphers `data` under the nonce that belongs to one fresh output of
    /// the password hash, and returns the ciphertext with that nonce. Fails
    /// with `PasswordHashingError` where the hash or its salt has a wrong
    /// length, else with `EncryptionError` where `data` would leave the keystream.
    pub fn encrypt(&self, data: &[u8], hash_bytes: &[u8], salt_bytes: &[u8]) -> (r: Result<
        CipherText,
        Error,
    >)
        ensures
            (well_sized(hash_bytes@, salt_bytes@) && self.within_stream(data@.len())) <==> r is Ok,
            r matches Ok(ct) ==> ct.nonce_bytes() == derived_nonce(
                hash_bytes@,
                salt_bytes@,
                self.rounds(),
            ) && ct.bytes() == self.enciphered(data@, ct.nonce_bytes()),
            r matches Err(e) ==> if well_sized(hash_bytes@, salt_bytes@) {
                e is EncryptionError
            } else {
                e is PasswordHashingError
            },
    {
        let nonce: [u8; 12] = match self.nonce(hash_bytes, salt_bytes) {
            Ok(nonce) => nonce,
            Err(e) => {
                return Err(e);
            },
        };
        let mut plaintext: Vec<u8> = Vec::new();
        plaintext.extend_from_slice(data);
        match self.chacha20(&nonce, plaintext) {
            Some(ciphertext) => Ok(CipherText { ciphertext: Data::new(ciphertext), nonce }),
            None => Err(
                Error::EncryptionError("the plaintext is longer than the keystream".to_owned()),
            ),
        }
    }

    /// Deciphers `data` under the nonce that comes with it. Nothing is
    /// authenticated: changed bytes decipher to changed bytes. Fails with
    /// `DecryptionError` exactly where `data` would leave the keystream.
    pub fn decrypt(&self, data: &CipherText) -> (r: Result<Vec<u8>, Error>)
        ensures
            self.within_stream(data.bytes().len()) <==> r is Ok,
            r matches Ok(plaintext) ==> plaintext@ == self.enciphered(
                data.bytes(),
                data.nonce_bytes(),
            ),
            r matches Err(e) ==> e is DecryptionError,
    {
        match self.chacha20(&data.nonce, data.ciphertext.to_vec()) {
            Some(plaintext) => Ok(plaintext),
            None => Err(
                Error::DecryptionError("the ciphertext is longer than the keystream".to_owned()),
            ),
        }
    }
}

/// Deciphering inverts enciphering: for every plaintext and every nonce,
/// what [`Chacha20Tool::decrypt`] makes of what [`Chacha20Tool::encrypt`]
/// made of the plaintext under that nonce is the plaintext.
pub proof fn lemma_decrypt_inverts_encrypt(tool: Chacha20Tool, plaintext: Seq<u8>, nonce: Seq<u8>)
    ensures
        tool.enciphered(tool.enciphered(plaintext, nonce), nonce) == plaintext,
{
    let once = tool.enciphered(plaintext, nonce);
    let twice = tool.enciphered(once, nonce);
    assert forall|i: int| 0 <= i < plaintext.len() implies twice[i] == plaintext[i] by {
        let a: u8 = plaintext[i];
        let k: u8 = chacha20_keystream_byte(tool.key_bytes(), nonce, tool.stream_start() + i);
        assert((a ^ k) ^ k == a) by (bit_vector);
    }
}

} // verus!
