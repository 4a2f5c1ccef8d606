//! The calls that the library makes into other crates and into parts of the
//! standard library that the verifier has no specification for. Each function
//! here is believed, not proved: its contract restates what the called code
//! documents, and the rest of the library is verified against these contracts.
use vstd::prelude::*;
use vstd::utf8::{decode_utf8, encode_utf8, valid_utf8};
use crate::data::buffer::hex_text;

verus! {

/// The raw DEFLATE stream that `flate2` produces for `data` at a compression
/// level; `None` where it reports an error.
pub uninterp spec fn deflated(data: Seq<u8>, level: u32) -> Option<Seq<u8>>;

/// What `flate2` reads out of a raw DEFLATE stream; `None` where it reports an error.
pub uninterp spec fn inflated(stream: Seq<u8>) -> Option<Seq<u8>>;

/// The text that `sanitation` keeps of bytes: what their valid UTF-8
/// stretches encode, one after the other.
pub uninterp spec fn salvaged_text(bytes: Seq<u8>) -> Seq<char>;

/// The `Debug` form of a text: the text between double quotes, with the
/// escapes of Rust's string literals.
pub uninterp spec fn debug_quoted(text: Seq<char>) -> Seq<char>;

/// The ChaCha20-Poly1305 ciphertext with its tag for a plaintext under a key
/// and a nonce, without associated data.
pub uninterp spec fn aead_sealed(key: Seq<u8>, nonce: Seq<u8>, plaintext: Seq<u8>) -> Seq<u8>;

/// The byte at `position` of the ChaCha20 keystream of a key and a nonce.
pub uninterp spec fn chacha20_keystream_byte(key: Seq<u8>, nonce: Seq<u8>, position: int) -> u8;

/// The SHA3-384 digest of `data`.
pub uninterp spec fn sha3_384_digest(data: Seq<u8>) -> Seq<u8>;

/// The `len` bytes that PBKDF2 with HMAC-SHA-256 derives from a password and
/// a salt in `rounds` rounds.
pub uninterp spec fn pbkdf2_hmac_sha256(password: Seq<u8>, salt: Seq<u8>, rounds: u32, len: nat) -> Seq<u8>;

/// The length of the longest plaintext that is sealed: `u32::MAX - 1` blocks
/// of 64 bytes, which is what the keystream holds behind the block that
/// keys the authenticator.
pub const SEAL_LIMIT: u64 = 274877906816;

/// The length of the tag that sealing appends.
pub const TAG_LENGTH: u64 = 16;

/// Whether a plaintext of `len` bytes can be sealed.
pub open spec fn sealable(len: nat) -> bool {
    len <= SEAL_LIMIT
}

/// The number of bytes of one ChaCha20 keystream that this library reads:
/// `u32::MAX` blocks of 64 bytes.
pub const STREAM_LIMIT: u64 = 274877906880;

/// The value of a hexadecimal digit, upper or lower case.
pub open spec fn hex_value(c: u8) -> Option<u8> {
    if 48 <= c <= 57 {
        Some((c - 48) as u8)
    } else if 65 <= c <= 70 {
        Some((c - 55) as u8)
    } else if 97 <= c <= 102 {
        Some((c - 87) as u8)
    } else {
        None
    }
}

/// The bytes that a text of hexadecimal digits stands for, two digits per
/// byte; `None` for a text of odd length or with another character in it.
pub open spec fn hex_decoded(text: Seq<u8>) -> Option<Seq<u8>> {
    if text.len() % 2 == 0 && forall|i: int| 0 <= i < text.len() ==> hex_value(#[trigger] text[i]) is Some {
        Some(
            Seq::new(
                text.len() / 2,
                |i: int| (hex_value(text[2 * i])->Some_0 * 16 + hex_value(text[2 * i + 1])->Some_0) as u8,
            ),
        )
    } else {
        None
    }
}

/// `flate2::write::DeflateEncoder` over a `Vec`, fed with `data` and finished.
/// Claims that the outcome depends on `data` and the level alone and is the
/// one named [`deflated`], stream or failure; promises no success. The error
/// is handed on as its message.
#[verifier::external_body]
pub(crate) fn deflate(data: &[u8], level: u32) -> (r: Result<Vec<u8>, String>)
    requires
        level <= 9,
    ensures
        match r {
            Ok(stream) => deflated(data@, level) == Some(stream@),
            Err(_) => deflated(data@, level) is None,
        },
{
    let mut encoder = flate2::write::DeflateEncoder::new(
        Vec::with_capacity(data.len()),
        flate2::Compression::new(level),
    );
    let written = std::io::Write::write_all(&mut encoder, data);
    written.and_then(|()| encoder.finish()).map_err(|e| format!("{}", e))
}

/// `flate2::read::DeflateDecoder` over `stream`, read to its end. Claims that
/// the outcome is the one named [`inflated`], and that the decoder gives back
/// the data of any stream that the encoder produced at levels 0 to 9.
#[verifier::external_body]
pub(crate) fn inflate(stream: &[u8]) -> (r: Result<Vec<u8>, String>)
    ensures
        r matches Ok(data) ==> inflated(stream@) == Some(data@),
        r is Err ==> inflated(stream@) is None,
        forall|data: Seq<u8>, level: u32|
            level <= 9 && #[trigger] deflated(data, level) == Some(stream@) ==> r is Ok
                && r->Ok_0@ == data,
{
    let mut decoder = flate2::read::DeflateDecoder::new(stream);
    let mut data = Vec::<u8>::with_capacity(stream.len());
    match std::io::Read::read_to_end(&mut decoder, &mut data) {
        Ok(_) => Ok(data),
        Err(e) => Err(format!("{}", e)),
    }
}

/// `String::from_utf8`: the text that `bytes` encode, `None` where they are
/// not valid UTF-8.
#[verifier::external_body]
pub(crate) fn text_of(bytes: Vec<u8>) -> (r: Option<String>)
    ensures
        valid_utf8(bytes@) ==> r is Some && r->Some_0@ == decode_utf8(bytes@),
        !valid_utf8(bytes@) ==> r is None,
{
    String::from_utf8(bytes).ok()
}

/// `sanitation::SString::new` on `bytes`, then `unchecked_safe`: the text of
/// the valid UTF-8 stretches of `bytes`. Bytes that are valid UTF-8 as a
/// whole give the text that they encode.
#[verifier::external_body]
pub(crate) fn salvage_text(bytes: &[u8]) -> (r: String)
    ensures
        r@ == salvaged_text(bytes@),
        valid_utf8(bytes@) ==> r@ == decode_utf8(bytes@),
{
    sanitation::SString::new(bytes).unchecked_safe()
}

/// `hex::decode` on the bytes of `text`: two hexadecimal digits per byte,
/// upper and lower case alike. An error is handed on as its message.
#[verifier::external_body]
pub(crate) fn hex_decode(text: &str) -> (r: Result<Vec<u8>, String>)
    ensures
        match r {
            Ok(bytes) => hex_decoded(encode_utf8(text@)) == Some(bytes@),
            Err(_) => hex_decoded(encode_utf8(text@)) is None,
        },
{
    hex::decode(text).map_err(|e| format!("{}", e))
}

/// `ChaCha20Poly1305::generate_key` with the operating system's generator:
/// 32 random bytes, of which nothing is claimed.
#[verifier::external_body]
pub(crate) fn fresh_key() -> (r: [u8; 32]) {
    <chacha20poly1305::ChaCha20Poly1305 as chacha20poly1305::KeyInit>::generate_key(
        &mut chacha20poly1305::aead::OsRng,
    ).into()
}

/// `ChaCha20Poly1305::generate_nonce` with the operating system's generator:
/// 12 random bytes, of which nothing is claimed.
#[verifier::external_body]
pub(crate) fn fresh_nonce() -> (r: [u8; 12]) {
    <chacha20poly1305::ChaCha20Poly1305 as chacha20poly1305::AeadCore>::generate_nonce(
        &mut chacha20poly1305::aead::OsRng,
    ).into()
}

/// `ChaCha20Poly1305::new` with `key`, then `encrypt` of `plaintext` under
/// `nonce`. Claims that a [`sealable`] plaintext is sealed, that what comes
/// back is what is named [`aead_sealed`], and that it is the plaintext's
/// length and a tag long. A longer plaintext is kept out: the cipher would
/// run out of keystream on it. An error is handed on as its message.
#[verifier::external_body]
pub(crate) fn seal(key: &[u8; 32], nonce: &[u8; 12], plaintext: &[u8]) -> (r: Result<
    Vec<u8>,
    String,
>)
    requires
        sealable(plaintext@.len()),
    ensures
        r is Ok,
        r matches Ok(sealed) ==> sealed@ == aead_sealed(key@, nonce@, plaintext@) && sealed@.len()
            == plaintext@.len() + TAG_LENGTH,
{
    let cipher = <chacha20poly1305::ChaCha20Poly1305 as chacha20poly1305::KeyInit>::new(key.into());
    chacha20poly1305::aead::Aead::encrypt(&cipher, nonce.into(), plaintext).map_err(
        |e| format!("{}", e),
    )
}

/// `ChaCha20Poly1305::new` with `key`, then `decrypt` of `sealed` under
/// `nonce`. Claims that it gives a plaintext only for what [`aead_sealed`]
/// makes of that plaintext, a tag longer than it, and that it gives the
/// plaintext back for everything that was sealed under this key and nonce.
/// Longer input is kept out: the cipher would run out of keystream on it.
#[verifier::external_body]
pub(crate) fn unseal(key: &[u8; 32], nonce: &[u8; 12], sealed: &[u8]) -> (r: Result<
    Vec<u8>,
    String,
>)
    requires
        sealed@.len() <= SEAL_LIMIT + TAG_LENGTH,
    ensures
        r matches Ok(plaintext) ==> sealed@ == aead_sealed(key@, nonce@, plaintext@) && sealed@.len()
            == plaintext@.len() + TAG_LENGTH,
        forall|plaintext: Seq<u8>|
            sealable(plaintext.len()) && sealed@ == #[trigger] aead_sealed(key@, nonce@, plaintext)
                ==> r is Ok && r->Ok_0@ == plaintext,
{
    let cipher = <chacha20poly1305::ChaCha20Poly1305 as chacha20poly1305::KeyInit>::new(key.into());
    chacha20poly1305::aead::Aead::decrypt(&cipher, nonce.into(), sealed).map_err(
        |e| format!("{}", e),
    )
}

/// `ChaCha20::new` with `key` and `nonce`, `seek` to `start`, and
/// `apply_keystream` on `data`. A seek counts from the start of the
/// keystream: `data` is XORed with the keystream from position `start` on.
/// The bound keeps the seek and the read inside the keystream, past which
/// both would panic.
#[verifier::external_body]
pub(crate) fn apply_keystream(key: &[u8; 32], nonce: &[u8; 12], start: u64, data: &mut Vec<u8>)
    requires
        start + old(data)@.len() <= STREAM_LIMIT,
    ensures
        final(data)@.len() == old(data)@.len(),
        forall|i: int|
            0 <= i < old(data)@.len() ==> #[trigger] final(data)@[i] == old(data)@[i]
                ^ chacha20_keystream_byte(key@, nonce@, start + i),
{
    let mut cipher = <chacha20::ChaCha20 as chacha20::cipher::KeyIvInit>::new(
        key.into(),
        nonce.into(),
    );
    chacha20::cipher::StreamCipherSeek::seek(&mut cipher, start);
    chacha20::cipher::StreamCipher::apply_keystream(&mut cipher, data);
}

/// `Sha3_384::new`, `update` with `data`, `finalize`: the digest of `data`.
#[verifier::external_body]
pub(crate) fn sha3_384(data: &[u8]) -> (r: Vec<u8>)
    ensures
        r@ == sha3_384_digest(data@),
{
    let mut hasher = <sha3::Sha3_384 as sha3::Digest>::new();
    sha3::Digest::update(&mut hasher, data);
    sha3::Digest::finalize(hasher).to_vec()
}

/// `pbkdf2::pbkdf2_hmac` with SHA-256 into an array of `N` zero bytes.
#[verifier::external_body]
pub(crate) fn stretch<const N: usize>(password: &[u8], salt: &[u8], rounds: u32) -> (r: [u8; N])
    ensures
        r@ == pbkdf2_hmac_sha256(password@, salt@, rounds, N as nat),
{
    let mut out = [0u8; N];
    pbkdf2::pbkdf2_hmac::<sha2::Sha256>(password, salt, rounds, &mut out);
    out
}

/// `format!` with `{:#?}` on a text: what its `Debug` form is, the text
/// between double quotes with the escapes of Rust's string literals. The
/// form depends on the text alone and is named [`debug_quoted`].
#[verifier::external_body]
pub(crate) fn quoted(name: &str) -> (r: String)
    ensures
        r@ == debug_quoted(name@),
{
    format!("{:#?}", name)
}

/// `rand::RngCore::fill_bytes`: overwrites `buf` with bytes drawn from
/// `random`. Nothing is claimed of the bytes; the length stays. A generator
/// that cannot fill the bytes may panic instead of returning.
#[verifier::external_body]
pub(crate) fn fill_random<R: rand::RngCore>(random: &mut R, buf: &mut Vec<u8>)
    ensures
        final(buf)@.len() == old(buf)@.len(),
{
    random.fill_bytes(buf);
}

/// `sanitation::to_hex`: `0x`, then two lower-case hexadecimal digits per byte.
#[verifier::external_body]
pub(crate) fn prefixed_hex(bytes: &[u8]) -> (r: String)
    ensures
        r@ == seq!['0', 'x'] + hex_text(bytes@, Seq::empty(), false),
{
    sanitation::to_hex(bytes)
}

} // verus!
