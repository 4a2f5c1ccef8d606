//! A short-lived authenticated envelope.
use vstd::prelude::*;
use crate::codec::PlainBytes;
use crate::data::buffer::Data;
use crate::errors::Error;
use crate::primitives::{aead_sealed, fresh_key, fresh_nonce, seal, sealable, unseal, SEAL_LIMIT, TAG_LENGTH};

verus! {

/// A sealed plaintext together with the key and the nonce that sealed it.
///
/// The box detects tampering. It keeps nothing secret from whoever reads
/// all three fields: it is an envelope inside one process, under an outer
/// layer that holds its own key elsewhere.
#[derive(Debug, Clone, PartialEq, Eq)]
pub struct SecretBox {
    pub ciphertext: Data,
    pub key: [u8; 32],
    pub nonce: [u8; 12],
}

/// The fields of a box in the order of its layout.
pub type BoxRow = (Data, ([u8; 32], [u8; 12]));

impl SecretBox {
    /// Whether the box opens: whether it seals any plaintext.
    pub open spec fn opens(&self) -> bool {
        exists|plaintext: Seq<u8>| self.seals(plaintext)
    }

    /// What the box gives when it opens.
    pub open spec fn content(&self) -> Seq<u8> {
        choose|plaintext: Seq<u8>| self.seals(plaintext)
    }

    /// Whether the box holds `plaintext`, sealed under its own key and
    /// nonce: its bytes are the sealed plaintext, a tag longer than it.
    pub open spec fn seals(&self, plaintext: Seq<u8>) -> bool {
        &&& sealable(plaintext.len())
        &&& self.ciphertext@.len() == plaintext.len() + TAG_LENGTH
        &&& self.ciphertext@ == aead_sealed(self.key@, self.nonce@, plaintext)
    }

    /// Seals `data` under a fresh random key and a fresh random nonce.
    /// Fails with `EncryptionError` exactly where `data` is too long to seal.
    pub fn close(data: &[u8]) -> (r: Result<SecretBox, Error>)
        ensures
            sealable(data@.len()) <==> r is Ok,
            r matches Ok(b) ==> b.seals(data@),
            r matches Err(e) ==> e is EncryptionError,
    {
        if data.len() as u64 > SEAL_LIMIT {
            return Err(Error::EncryptionError("the plaintext is too long to seal".to_owned()));
        }
        let key: [u8; 32] = fresh_key();
        let nonce: [u8; 12] = fresh_nonce();
        match seal(&key, &nonce, data) {
            Ok(sealed) => Ok(SecretBox { ciphertext: Data::new(sealed), key, nonce }),
            Err(message) => Err(Error::EncryptionError(message)),
        }
    }

    /// Opens the box with its own key and nonce. What [`SecretBox::close`]
    /// sealed comes back as it was, for every plaintext, the empty one
    /// among them; a box that gives a plaintext seals that plaintext; a box
    /// that seals nothing, such as one with a changed byte, fails with
    /// `DecryptionError`.
    pub fn open(&self) -> (r: Result<Data, Error>)
        ensures
            forall|plaintext: Seq<u8>| #[trigger]
                self.seals(plaintext) ==> r is Ok && r->Ok_0@ == plaintext,
            self.opens() <==> r is Ok,
            r matches Ok(d) ==> self.seals(d@) && d@ == self.content(),
            r matches Err(e) ==> e is DecryptionError,
    {
        if self.ciphertext.len() as u64 > SEAL_LIMIT + TAG_LENGTH {
            assert(!self.opens()) by {
                if self.opens() {
                    assert(self.seals(self.content()));
                }
            }
            return Err(Error::DecryptionError("the box is too long to hold a plaintext".to_owned()));
        }
        let r = match unseal(&self.key, &self.nonce, self.ciphertext.bytes.as_slice()) {
            Ok(plaintext) => Ok(Data::new(plaintext)),
            Err(message) => Err(Error::DecryptionError(message)),
        };
        assert forall|plaintext: Seq<u8>| #[trigger] self.seals(plaintext) implies r is Ok
            && r->Ok_0@ == plaintext by {
            assert(self.ciphertext@ == aead_sealed(self.key@, self.nonce@, plaintext));
        }
        proof {
            if r is Ok {
                assert(self.seals(r->Ok_0@));
                assert(self.seals(self.content()));
            } else {
                assert(!self.opens()) by {
                    if self.opens() {
                        assert(self.seals(self.content()));
                    }
                }
            }
        }
        r
    }
}

impl PlainBytes for SecretBox {
    /// The sealed bytes, then the key and the nonce.
    type Plain = (Seq<u8>, (Seq<u8>, Seq<u8>));

    open spec fn plain(&self) -> (Seq<u8>, (Seq<u8>, Seq<u8>)) {
        (self.ciphertext@, (self.key@, self.nonce@))
    }

    open spec fn canonical(value: (Seq<u8>, (Seq<u8>, Seq<u8>))) -> bool {
        <BoxRow as PlainBytes>::canonical(value)
    }

    open spec fn layout(value: (Seq<u8>, (Seq<u8>, Seq<u8>))) -> Seq<u8> {
        <BoxRow as PlainBytes>::layout(value)
    }

    open spec fn parsed(bytes: Seq<u8>) -> Option<((Seq<u8>, (Seq<u8>, Seq<u8>)), int)> {
        <BoxRow as PlainBytes>::parsed(bytes)
    }

    proof fn lemma_parsed_layout(value: (Seq<u8>, (Seq<u8>, Seq<u8>)), rest: Seq<u8>) {
        <BoxRow as PlainBytes>::lemma_parsed_layout(value, rest);
    }

    proof fn lemma_parsed_bounds(bytes: Seq<u8>) {
        <BoxRow as PlainBytes>::lemma_parsed_bounds(bytes);
    }

    fn write_plain(&self, out: &mut Vec<u8>) {
        self.ciphertext.write_plain(out);
        self.key.write_plain(out);
        self.nonce.write_plain(out);
        assert(out@ =~= old(out)@ + Self::layout(self.plain()));
    }

    fn read_plain(bytes: &[u8], start: usize) -> (r: Option<(Self, usize)>) {
        match <BoxRow as PlainBytes>::read_plain(bytes, start) {
            Some(((ciphertext, (key, nonce)), end)) => Some(
                (SecretBox { ciphertext, key, nonce }, end),
            ),
            None => None,
        }
    }
}

} // verus!
