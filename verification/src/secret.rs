//! A secret text that does not show itself.
use vstd::prelude::*;
use vstd::utf8::{decode_utf8, encode_utf8, valid_utf8, encode_utf8_decode_utf8, encode_utf8_valid_utf8};
use vstd::std_specs::convert::FromSpecImpl;
use crate::codec::PlainBytes;
use crate::data::buffer::Data;
use crate::errors::Error;
use crate::primitives::{salvage_text, salvaged_text, text_of};

verus! {

/// The bytes of a secret and the number of characters that stand for it in
/// print. Printing a secret shows that many asterisks and nothing else.
#[derive(Debug, Clone, PartialEq, Eq)]
pub struct Secret {
    data: Vec<u8>,
    len: usize,
}

/// `len` asterisks.
pub open spec fn redacted(len: nat) -> Seq<char> {
    Seq::new(len, |i: int| '*')
}

impl Secret {
    /// The bytes of the secret.
    pub closed spec fn bytes(&self) -> Seq<u8> {
        self.data@
    }

    /// The number of asterisks that stand for the secret in print.
    pub closed spec fn shown_len(&self) -> usize {
        self.len
    }

    /// The secret that holds the UTF-8 bytes of `plaintext`, shown with one
    /// asterisk per byte. Its text is `plaintext` again.
    pub fn from_plaintext(plaintext: &str) -> (r: Secret)
        ensures
            r.bytes() == encode_utf8(plaintext@),
            r.shown_len() == encode_utf8(plaintext@).len(),
            valid_utf8(r.bytes()),
            decode_utf8(r.bytes()) == plaintext@,
    {
        let data: Vec<u8> = plaintext.as_bytes_vec();
        let len: usize = data.len();
        proof {
            encode_utf8_valid_utf8(plaintext@);
            encode_utf8_decode_utf8(plaintext@);
        }
        Secret { data, len }
    }

    /// The text of the secret. Bytes that are valid UTF-8 give the text they
    /// encode; of other bytes the valid stretches are kept.
    pub fn plaintext(&self) -> (r: String)
        ensures
            r@ == salvaged_text(self.bytes()),
            valid_utf8(self.bytes()) ==> r@ == decode_utf8(self.bytes()),
    {
        salvage_text(self.data.as_slice())
    }

    /// The text of the secret where text is required: fails with
    /// `InvalidUtf8` exactly where the bytes are not valid UTF-8.
    pub fn try_plaintext(&self) -> (r: Result<String, Error>)
        ensures
            match r {
                Ok(text) => valid_utf8(self.bytes()) && text@ == decode_utf8(self.bytes()),
                Err(e) => !valid_utf8(self.bytes()) && e is InvalidUtf8,
            },
    {
        match text_of(self.data.clone()) {
            Some(text) => Ok(text),
            None => Err(Error::InvalidUtf8("the bytes of the secret are no text".to_owned())),
        }
    }

    /// A copy of the bytes of the secret.
    pub fn as_bytes(&self) -> (r: Vec<u8>)
        ensures
            r@ == self.bytes(),
    {
        self.data.clone()
    }

    /// The number of asterisks that stand for the secret in print.
    pub fn len(&self) -> (r: usize)
        ensures
            r == self.shown_len(),
    {
        self.len
    }

    /// The secret in print: asterisks, never its content.
    pub fn to_string(&self) -> (r: String)
        ensures
            r@ == redacted(self.shown_len() as nat),
    {
        let mut text: String = String::new();
        let mut i: usize = 0;
        proof {
            reveal_strlit("*");
        }
        while i < self.len
            invariant
                i <= self.len,
                text@ == redacted(i as nat),
                "*"@ == seq!['*'],
            decreases self.len - i,
        {
            text.append("*");
            i = i + 1;
        }
        text
    }
}

impl Default for Secret {
    /// The empty secret.
    fn default() -> (r: Secret)
        ensures
            r.bytes() == Seq::<u8>::empty(),
            r.shown_len() == 0,
    {
        Secret { data: Vec::new(), len: 0 }
    }
}

impl From<&str> for Secret {
    fn from(t: &str) -> (r: Secret)
        ensures
            r.bytes() == encode_utf8(t@),
            r.shown_len() == encode_utf8(t@).len(),
    {
        Secret::from_plaintext(t)
    }
}

impl FromSpecImpl<&str> for Secret {
    open spec fn obeys_from_spec() -> bool {
        false
    }

    open spec fn from_spec(t: &str) -> Secret {
        arbitrary()
    }
}

impl From<String> for Secret {
    fn from(t: String) -> (r: Secret)
        ensures
            r.bytes() == encode_utf8(t@),
            r.shown_len() == encode_utf8(t@).len(),
    {
        Secret::from_plaintext(t.as_str())
    }
}

impl FromSpecImpl<String> for Secret {
    open spec fn obeys_from_spec() -> bool {
        false
    }

    open spec fn from_spec(t: String) -> Secret {
        arbitrary()
    }
}

impl PlainBytes for Secret {
    /// The bytes and the shown length.
    type Plain = (Seq<u8>, usize);

    closed spec fn plain(&self) -> (Seq<u8>, usize) {
        (self.data@, self.len)
    }

    open spec fn canonical(value: (Seq<u8>, usize)) -> bool {
        <(Data, usize) as PlainBytes>::canonical(value)
    }

    open spec fn layout(value: (Seq<u8>, usize)) -> Seq<u8> {
        <(Data, usize) as PlainBytes>::layout(value)
    }

    open spec fn parsed(bytes: Seq<u8>) -> Option<((Seq<u8>, usize), int)> {
        <(Data, usize) as PlainBytes>::parsed(bytes)
    }

    proof fn lemma_parsed_layout(value: (Seq<u8>, usize), rest: Seq<u8>) {
        <(Data, usize) as PlainBytes>::lemma_parsed_layout(value, rest);
    }

    proof fn lemma_parsed_bounds(bytes: Seq<u8>) {
        <(Data, usize) as PlainBytes>::lemma_parsed_bounds(bytes);
    }

    fn write_plain(&self, out: &mut Vec<u8>) {
        crate::codec::write_bytes(self.data.as_slice(), out);
        self.len.write_plain(out);
    }

    fn read_plain(bytes: &[u8], start: usize) -> (r: Option<(Self, usize)>) {
        match <(Data, usize) as PlainBytes>::read_plain(bytes, start) {
            Some(((data, len), end)) => Some((Secret { data: data.bytes, len }, end)),
            None => None,
        }
    }
}

impl Secret {
    /// The value of a secret is its bytes with its shown length.
    pub proof fn lemma_plain(&self)
        ensures
            self.plain() == (self.bytes(), self.shown_len()),
    {
    }
}

} // verus!
