//! The fixed-layout binary encoding of every value that is stored.
//!
//! Fields follow each other in declaration order. An integer is eight bytes,
//! least significant first. A byte string, a text, a sequence and a map start
//! with their length as such an integer. A parser reads a value from the front
//! of its input and ignores what follows.
use vstd::prelude::*;
use vstd::bytes::{spec_u64_from_le_bytes, spec_u64_to_le_bytes, u64_from_le_bytes, u64_to_le_bytes, lemma_auto_spec_u64_to_from_le_bytes};
use vstd::slice::slice_subrange;
use vstd::utf8::{decode_utf8, encode_utf8, valid_utf8, encode_utf8_decode_utf8, encode_utf8_valid_utf8};
use crate::errors::Error;
use crate::primitives::{deflate, deflated, inflate, inflated, prefixed_hex, text_of};
use crate::data::buffer::hex_text;

verus! {

/// The compression level of stored values: the strongest.
pub const BEST_COMPRESSION: u32 = 9;

/// The layout of an integer: eight bytes, least significant first.
pub open spec fn u64_layout(n: u64) -> Seq<u8> {
    spec_u64_to_le_bytes(n)
}

/// The integer at the front of `bytes`, with the eight bytes it takes.
pub open spec fn u64_parsed(bytes: Seq<u8>) -> Option<(u64, int)> {
    if bytes.len() < 8 {
        None
    } else {
        Some((spec_u64_from_le_bytes(bytes.take(8)), 8))
    }
}

/// The layout of a byte string: its length, then the bytes.
pub open spec fn bytes_layout(b: Seq<u8>) -> Seq<u8> {
    u64_layout(b.len() as u64) + b
}

/// The byte string at the front of `bytes`, with the number of bytes it takes.
pub open spec fn bytes_parsed(bytes: Seq<u8>) -> Option<(Seq<u8>, int)> {
    match u64_parsed(bytes) {
        Some((len, _)) => if bytes.len() - 8 < len {
            None
        } else {
            Some((bytes.subrange(8, 8 + len), 8 + len))
        },
        None => None,
    }
}

/// Parsing the layout of an integer gives the integer back.
pub proof fn lemma_u64_parsed_layout(n: u64, rest: Seq<u8>)
    ensures
        u64_layout(n).len() == 8,
        u64_parsed(u64_layout(n) + rest) == Some((n, 8int)),
{
    lemma_auto_spec_u64_to_from_le_bytes();
    assert((u64_layout(n) + rest).take(8) =~= u64_layout(n));
}

/// Parsing the layout of a byte string gives the byte string back.
pub proof fn lemma_bytes_parsed_layout(b: Seq<u8>, rest: Seq<u8>)
    requires
        b.len() <= u64::MAX,
    ensures
        bytes_layout(b).len() == 8 + b.len(),
        bytes_parsed(bytes_layout(b) + rest) == Some((b, 8 + b.len() as int)),
{
    lemma_u64_parsed_layout(b.len() as u64, b + rest);
    assert(bytes_layout(b) + rest =~= u64_layout(b.len() as u64) + (b + rest));
}

/// Appends the layout of `n` to `out`.
pub fn write_u64(n: u64, out: &mut Vec<u8>)
    ensures
        final(out)@ == old(out)@ + u64_layout(n),
{
    let mut bytes: Vec<u8> = u64_to_le_bytes(n);
    out.append(&mut bytes);
}

/// Reads the integer that starts at `start`; `None` where fewer than eight
/// bytes are left. With the integer comes the position behind it.
pub fn read_u64(bytes: &[u8], start: usize) -> (r: Option<(u64, usize)>)
    requires
        start <= bytes@.len(),
    ensures
        match u64_parsed(bytes@.skip(start as int)) {
            Some((n, used)) => r matches Some((m, end)) && m == n && end == start + used && end
                <= bytes@.len(),
            None => r is None,
        },
{
    if bytes.len() - start < 8 {
        return None;
    }
    let field: &[u8] = slice_subrange(bytes, start, start + 8);
    assert(field@ =~= bytes@.skip(start as int).take(8));
    Some((u64_from_le_bytes(field), start + 8))
}

/// Appends the layout of the byte string `b` to `out`.
pub fn write_bytes(b: &[u8], out: &mut Vec<u8>)
    ensures
        final(out)@ == old(out)@ + bytes_layout(b@),
        b@.len() <= u64::MAX,
{
    write_u64(b.len() as u64, out);
    out.extend_from_slice(b);
}

/// Reads the byte string that starts at `start`; `None` where the input ends
/// before the string does.
pub fn read_bytes(bytes: &[u8], start: usize) -> (r: Option<(Vec<u8>, usize)>)
    requires
        start <= bytes@.len(),
    ensures
        match bytes_parsed(bytes@.skip(start as int)) {
            Some((b, used)) => r matches Some((v, end)) && v@ == b && end == start + used && end
                <= bytes@.len(),
            None => r is None,
        },
{
    match read_u64(bytes, start) {
        None => None,
        Some((len, at)) => {
            if ((bytes.len() - at) as u64) < len {
                return None;
            }
            let end: usize = at + (len as usize);
            let field: &[u8] = slice_subrange(bytes, at, end);
            let mut v: Vec<u8> = Vec::new();
            v.extend_from_slice(field);
            Some((v, end))
        },
    }
}

/// A type of value with a binary layout.
///
/// `Plain` is the mathematical value that the layout speaks of. `layout`
/// writes a value down, `parsed` reads one from the front of some bytes, and
/// reading a layout gives the value back whatever follows it.
pub trait PlainBytes: Sized {
    /// The mathematical value of an instance.
    type Plain;

    /// The value that `self` holds.
    spec fn plain(&self) -> Self::Plain;

    /// Whether `value` can be held by an instance: lengths fit their integer,
    /// the names of a map ascend.
    spec fn canonical(value: Self::Plain) -> bool;

    /// The bytes that stand for `value`.
    spec fn layout(value: Self::Plain) -> Seq<u8>;

    /// The value at the front of `bytes` and the number of bytes it takes;
    /// `None` where `bytes` does not start with a layout.
    spec fn parsed(bytes: Seq<u8>) -> Option<(Self::Plain, int)>;

    /// Reading a layout gives the value back, and consumes the layout alone.
    proof fn lemma_parsed_layout(value: Self::Plain, rest: Seq<u8>)
        requires
            Self::canonical(value),
        ensures
            Self::parsed(Self::layout(value) + rest) == Some(
                (value, Self::layout(value).len() as int),
            ),
    ;

    /// A parser consumes no more than it is given, and at least nothing.
    proof fn lemma_parsed_bounds(bytes: Seq<u8>)
        ensures
            Self::parsed(bytes) matches Some((_, used)) ==> 0 <= used <= bytes.len(),
    ;

    /// Appends the layout of `self` to `out`. The value of an instance is
    /// always canonical.
    fn write_plain(&self, out: &mut Vec<u8>)
        ensures
            final(out)@ == old(out)@ + Self::layout(self.plain()),
            Self::canonical(self.plain()),
    ;

    /// Reads the value that starts at `start`, and gives the position behind
    /// it; `None` where `bytes` holds no layout there.
    fn read_plain(bytes: &[u8], start: usize) -> (r: Option<(Self, usize)>)
        requires
            start <= bytes@.len(),
        ensures
            match Self::parsed(bytes@.skip(start as int)) {
                Some((value, used)) => r matches Some((x, end)) && x.plain() == value && end
                    == start + used,
                None => r is None,
            },
    ;

    /// The layout of `self`.
    fn to_plain_bytes(&self) -> (r: Vec<u8>)
        ensures
            r@ == Self::layout(self.plain()),
            Self::canonical(self.plain()),
    {
        let mut out: Vec<u8> = Vec::new();
        self.write_plain(&mut out);
        out
    }

    /// The value that `bytes` start with; bytes behind it are ignored.
    /// Fails with `DeserializationError` where `bytes` start with no layout.
    fn from_plain_bytes(bytes: &[u8]) -> (r: Result<Self, Error>)
        ensures
            match Self::parsed(bytes@) {
                Some((value, _)) => r matches Ok(x) && x.plain() == value,
                None => r matches Err(e) && e is DeserializationError,
            },
    {
        assert(bytes@.skip(0) =~= bytes@);
        match Self::read_plain(bytes, 0) {
            Some((x, _)) => Ok(x),
            None => Err(Error::DeserializationError("the bytes hold no value of this type".to_owned())),
        }
    }

    /// The layout of `self`.
    fn to_bytes(&self) -> (r: Vec<u8>)
        ensures
            r@ == Self::layout(self.plain()),
            Self::canonical(self.plain()),
    {
        self.to_plain_bytes()
    }

    /// The value that `bytes` start with, for bytes that are known to hold one.
    fn from_bytes(bytes: &[u8]) -> (r: Self)
        requires
            Self::parsed(bytes@) is Some,
        ensures
            r.plain() == Self::parsed(bytes@)->Some_0.0,
    {
        assert(bytes@.skip(0) =~= bytes@);
        match Self::read_plain(bytes, 0) {
            Some((x, _)) => x,
            None => vstd::pervasive::unreached(),
        }
    }

    /// The layout of `self`, compressed at the strongest level: the stream
    /// that the compressor makes of the layout, and `EncodingError` exactly
    /// where it makes none.
    fn to_flate_bytes(&self) -> (r: Result<Vec<u8>, Error>)
        ensures
            match deflated(Self::layout(self.plain()), BEST_COMPRESSION) {
                Some(stream) => r matches Ok(packed) && packed@ == stream,
                None => r matches Err(e) && e is EncodingError,
            },
            Self::canonical(self.plain()),
    {
        let mut plain: Vec<u8> = self.to_plain_bytes();
        let packed = deflate(plain.as_slice(), BEST_COMPRESSION);
        crate::utils::drop(&mut plain);
        match packed {
            Ok(stream) => Ok(stream),
            Err(message) => Err(Error::EncodingError(message)),
        }
    }

    /// The value whose compressed layout `bytes` hold. Fails with
    /// `DecodingError` where `bytes` cannot be expanded and with
    /// `DeserializationError` where the expanded bytes start with no layout.
    /// What [`PlainBytes::to_flate_bytes`] made of a value gives that value.
    fn from_deflate_bytes(bytes: &[u8]) -> (r: Result<Self, Error>)
        ensures
            match inflated(bytes@) {
                Some(raw) => match Self::parsed(raw) {
                    Some((value, _)) => r matches Ok(x) && x.plain() == value,
                    None => r matches Err(e) && e is DeserializationError,
                },
                None => r matches Err(e) && e is DecodingError,
            },
            forall|value: Self::Plain|
                Self::canonical(value) && #[trigger] deflated(
                    Self::layout(value),
                    BEST_COMPRESSION,
                ) == Some(bytes@) ==> (r matches Ok(x) && x.plain() == value),
    {
        match inflate(bytes) {
            Ok(raw) => {
                let mut raw: Vec<u8> = raw;
                proof {
                    assert forall|value: Self::Plain|
                        Self::canonical(value) && #[trigger] deflated(
                            Self::layout(value),
                            BEST_COMPRESSION,
                        ) == Some(bytes@) implies Self::parsed(raw@) == Some(
                        (value, Self::layout(value).len() as int),
                    ) by {
                        Self::lemma_parsed_layout(value, Seq::empty());
                    }
                }
                let r = Self::from_plain_bytes(raw.as_slice());
                crate::utils::drop(&mut raw);
                r
            },
            Err(message) => Err(Error::DecodingError(message)),
        }
    }

    /// The layout of `self` as text: `0x`, then two hexadecimal digits per byte.
    fn to_hex(&self) -> (r: String)
        ensures
            r@ == seq!['0', 'x'] + hex_text(Self::layout(self.plain()), Seq::empty(), false),
    {
        let bytes: Vec<u8> = self.to_bytes();
        prefixed_hex(bytes.as_slice())
    }
}

/// The value that `bytes` start with in the layout of `T`, whatever follows it.
pub open spec fn decoded<T: PlainBytes>(bytes: Seq<u8>) -> Option<T::Plain> {
    match T::parsed(bytes) {
        Some((value, _)) => Some(value),
        None => None,
    }
}

/// Decoding the encoding of a value gives the value back: for every
/// canonical `value`, empty texts and empty maps among them.
pub proof fn lemma_decode_inverts_encode<T: PlainBytes>(value: T::Plain)
    requires
        T::canonical(value),
    ensures
        decoded::<T>(T::layout(value)) == Some(value),
{
    T::lemma_parsed_layout(value, Seq::empty());
}

/// The compressed layout of `data`: the stream that the compressor makes of
/// the layout, and `EncodingError` exactly where it makes none.
pub fn to_flate_bytes<T: PlainBytes>(data: &T) -> (r: Result<Vec<u8>, Error>)
    ensures
        match deflated(T::layout(data.plain()), BEST_COMPRESSION) {
            Some(stream) => r matches Ok(packed) && packed@ == stream,
            None => r matches Err(e) && e is EncodingError,
        },
        T::canonical(data.plain()),
{
    data.to_flate_bytes()
}

/// The value whose compressed layout `bytes` hold; see
/// [`PlainBytes::from_deflate_bytes`].
pub fn from_deflate_bytes<T: PlainBytes>(bytes: &[u8]) -> (r: Result<T, Error>)
    ensures
        match inflated(bytes@) {
            Some(raw) => match T::parsed(raw) {
                Some((value, _)) => r matches Ok(x) && x.plain() == value,
                None => r matches Err(e) && e is DeserializationError,
            },
            None => r matches Err(e) && e is DecodingError,
        },
        forall|value: T::Plain|
            T::canonical(value) && #[trigger] deflated(T::layout(value), BEST_COMPRESSION) == Some(
                bytes@,
            ) ==> (r matches Ok(x) && x.plain() == value),
{
    T::from_deflate_bytes(bytes)
}

impl PlainBytes for String {
    type Plain = Seq<char>;

    open spec fn plain(&self) -> Seq<char> {
        self@
    }

    open spec fn canonical(value: Seq<char>) -> bool {
        encode_utf8(value).len() <= u64::MAX
    }

    open spec fn layout(value: Seq<char>) -> Seq<u8> {
        bytes_layout(encode_utf8(value))
    }

    open spec fn parsed(bytes: Seq<u8>) -> Option<(Seq<char>, int)> {
        match bytes_parsed(bytes) {
            Some((raw, used)) => if valid_utf8(raw) {
                Some((decode_utf8(raw), used))
            } else {
                None
            },
            None => None,
        }
    }

    proof fn lemma_parsed_layout(value: Seq<char>, rest: Seq<u8>) {
        lemma_bytes_parsed_layout(encode_utf8(value), rest);
        encode_utf8_valid_utf8(value);
        encode_utf8_decode_utf8(value);
    }

    proof fn lemma_parsed_bounds(bytes: Seq<u8>) {
    }

    fn write_plain(&self, out: &mut Vec<u8>) {
        write_bytes(self.as_str().as_bytes(), out);
    }

    fn read_plain(bytes: &[u8], start: usize) -> (r: Option<(Self, usize)>) {
        match read_bytes(bytes, start) {
            None => None,
            Some((raw, end)) => match text_of(raw) {
                Some(text) => Some((text, end)),
                None => None,
            },
        }
    }
}

} // verus!
