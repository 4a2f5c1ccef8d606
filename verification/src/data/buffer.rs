//! The byte buffer.
use vstd::prelude::*;
use std::collections::BTreeSet;
use vstd::std_specs::iter::IteratorSpec;
use vstd::utf8::encode_utf8;
use crate::codec::{bytes_layout, bytes_parsed, lemma_bytes_parsed_layout, read_bytes, write_bytes, PlainBytes, BEST_COMPRESSION};
use crate::errors::Error;
use crate::primitives::{deflated, fill_random, hex_decode, hex_decoded, hex_value, inflated};

verus! {

/// An owned sequence of bytes. Its model is the sequence itself.
#[derive(Clone, Debug, Eq, Ord, Hash)]
pub struct Data {
    pub bytes: Vec<u8>,
}

impl View for Data {
    type V = Seq<u8>;

    open spec fn view(&self) -> Seq<u8> {
        self.bytes@
    }
}

impl PartialEq for Data {
    /// Two buffers are equal when they hold the same bytes. The comparison
    /// stops at the first difference: it is not constant-time.
    fn eq(&self, other: &Self) -> (r: bool) {
        if self.bytes.len() != other.bytes.len() {
            return false;
        }
        let len: usize = self.bytes.len();
        let mut pos: usize = 0;
        while pos < len
            invariant
                pos <= len,
                len == self.bytes@.len(),
                len == other.bytes@.len(),
                forall|i: int| 0 <= i < pos ==> self.bytes@[i] == other.bytes@[i],
            decreases len - pos,
        {
            if self.bytes[pos] != other.bytes[pos] {
                return false;
            }
            pos = pos + 1;
        }
        assert(self.bytes@ =~= other.bytes@);
        true
    }
}

impl vstd::std_specs::cmp::PartialEqSpecImpl for Data {
    open spec fn obeys_eq_spec() -> bool {
        true
    }

    open spec fn eq_spec(&self, other: &Self) -> bool {
        self@ == other@
    }
}

/// The lower-case hexadecimal digit of a value below 16.
pub open spec fn hex_digit(n: u8) -> char {
    if n < 10 {
        (48 + n) as char
    } else {
        (87 + n) as char
    }
}

/// One byte as text: the optional `0x`, then two hexadecimal digits.
pub open spec fn hex_byte(b: u8, hint: bool) -> Seq<char> {
    if hint {
        seq!['0', 'x', hex_digit(b / 16), hex_digit(b % 16)]
    } else {
        seq![hex_digit(b / 16), hex_digit(b % 16)]
    }
}

/// The bytes as text, one [`hex_byte`] each, with `sep` between neighbours.
pub open spec fn hex_text(bytes: Seq<u8>, sep: Seq<char>, hint: bool) -> Seq<char>
    decreases bytes.len(),
{
    if bytes.len() == 0 {
        Seq::empty()
    } else if bytes.len() == 1 {
        hex_byte(bytes[0], hint)
    } else {
        hex_text(bytes.drop_last(), sep, hint) + sep + hex_byte(bytes.last(), hint)
    }
}

/// The elements of `s` whose flag in `keep` is set, in their order.
pub open spec fn kept(s: Seq<u8>, keep: Seq<bool>) -> Seq<u8>
    decreases s.len(),
{
    if s.len() == 0 {
        Seq::empty()
    } else if keep[s.len() - 1] {
        kept(s.drop_last(), keep).push(s.last())
    } else {
        kept(s.drop_last(), keep)
    }
}

/// The byte values below `bound` that `s` holds, in increasing order.
pub open spec fn ascending_below(s: Set<u8>, bound: int) -> Seq<u8>
    decreases bound,
{
    if bound <= 0 {
        Seq::empty()
    } else if s.contains((bound - 1) as u8) {
        ascending_below(s, bound - 1).push((bound - 1) as u8)
    } else {
        ascending_below(s, bound - 1)
    }
}

/// The byte values that `s` holds, each once, in increasing order.
pub open spec fn ascending(s: Set<u8>) -> Seq<u8> {
    ascending_below(s, 256)
}

/// Whether `made` is what a call of `f` on a buffer that holds `bytes` may return.
pub open spec fn made_of<T, F: FnOnce(Data) -> T>(f: F, bytes: Seq<u8>, made: T) -> bool {
    exists|d: Data| d@ == bytes && #[trigger] call_ensures(f, (d,), made)
}

/// The text of one hexadecimal digit.
fn hex_digit_text(n: u8) -> (r: &'static str)
    requires
        n < 16,
    ensures
        r@ == seq![hex_digit(n)],
{
    proof {
        reveal_strlit("0");
        reveal_strlit("1");
        reveal_strlit("2");
        reveal_strlit("3");
        reveal_strlit("4");
        reveal_strlit("5");
        reveal_strlit("6");
        reveal_strlit("7");
        reveal_strlit("8");
        reveal_strlit("9");
        reveal_strlit("a");
        reveal_strlit("b");
        reveal_strlit("c");
        reveal_strlit("d");
        reveal_strlit("e");
        reveal_strlit("f");
    }
    let r: &'static str = match n {
        0 => "0",
        1 => "1",
        2 => "2",
        3 => "3",
        4 => "4",
        5 => "5",
        6 => "6",
        7 => "7",
        8 => "8",
        9 => "9",
        10 => "a",
        11 => "b",
        12 => "c",
        13 => "d",
        14 => "e",
        _ => "f",
    };
    r
}

impl Data {
    /// Wraps `bytes`.
    pub fn new(bytes: Vec<u8>) -> (r: Data)
        ensures
            r@ == bytes@,
            r.bytes == bytes,
    {
        Data { bytes }
    }

    /// A copy of the bytes.
    pub fn to_vec(&self) -> (r: Vec<u8>)
        ensures
            r@ == self@,
    {
        self.bytes.clone()
    }

    /// Whether the buffer holds no byte.
    pub fn is_empty(&self) -> (r: bool)
        ensures
            r == (self@.len() == 0),
    {
        self.bytes.is_empty()
    }

    /// A copy of the bytes.
    pub fn to_bytes(&self) -> (r: Vec<u8>)
        ensures
            r@ == self@,
    {
        self.bytes.clone()
    }

    /// The bytes as lower-case hexadecimal text: two digits per byte, each
    /// preceded by `0x` when `hint` is set, and `sep` between neighbours.
    pub fn to_hex(&self, sep: &str, hint: bool) -> (r: String)
        ensures
            r@ == hex_text(self@, sep@, hint),
    {
        let mut text: String = String::new();
        let len: usize = self.bytes.len();
        let mut i: usize = 0;
        proof {
            reveal_strlit("0x");
        }
        while i < len
            invariant
                i <= len,
                len == self@.len(),
                text@ == hex_text(self@.take(i as int), sep@, hint),
                "0x"@ == seq!['0', 'x'],
            decreases len - i,
        {
            let ghost before = self@.take(i as int);
            let ghost after = self@.take(i as int + 1);
            assert(after.drop_last() =~= before);
            if i > 0 {
                text.append(sep);
            }
            let b: u8 = self.bytes[i];
            if hint {
                text.append("0x");
            }
            text.append(hex_digit_text(b / 16));
            text.append(hex_digit_text(b % 16));
            i = i + 1;
        }
        assert(self@.take(len as int) =~= self@);
        text
    }

    /// The buffer in print: its bytes as hexadecimal digits, nothing between them.
    pub fn to_string(&self) -> (r: String)
        ensures
            r@ == hex_text(self@, Seq::empty(), false),
    {
        proof {
            reveal_strlit("");
        }
        assert(""@ =~= Seq::<char>::empty());
        self.to_hex("", false)
    }

    /// The bytes that `data` spells in hexadecimal digits, two per byte and
    /// in either case. Fails with `HexDecodeError` on a text of odd length or
    /// with any other character in it.
    pub fn from_hex(data: &str) -> (r: Result<Data, Error>)
        ensures
            match hex_decoded(encode_utf8(data@)) {
                Some(bytes) => r matches Ok(d) && d@ == bytes,
                None => r matches Err(e) && e is HexDecodeError,
            },
    {
        match hex_decode(data) {
            Ok(bytes) => Ok(Data::new(bytes)),
            Err(message) => Err(Error::HexDecodeError(message)),
        }
    }

    /// The layout of the buffer, compressed at the strongest level: the
    /// stream that the compressor makes of the layout, and `EncodingError`
    /// exactly where it makes none.
    pub fn to_flate_bytes(&self) -> (r: Result<Vec<u8>, Error>)
        ensures
            match deflated(bytes_layout(self@), BEST_COMPRESSION) {
                Some(stream) => r matches Ok(packed) && packed@ == stream,
                None => r matches Err(e) && e is EncodingError,
            },
    {
        crate::codec::to_flate_bytes(self)
    }

    /// The buffer whose compressed layout `bytes` hold. Fails with
    /// `DecodingError` where `bytes` cannot be expanded and with
    /// `DeserializationError` where what they expand to is no layout of a buffer.
    pub fn from_deflate_bytes(bytes: &[u8]) -> (r: Result<Data, Error>)
        ensures
            match inflated(bytes@) {
                Some(raw) => match bytes_parsed(raw) {
                    Some((value, _)) => r matches Ok(d) && d@ == value,
                    None => r matches Err(e) && e is DeserializationError,
                },
                None => r matches Err(e) && e is DecodingError,
            },
            forall|value: Seq<u8>|
                value.len() <= u64::MAX && #[trigger] deflated(
                    bytes_layout(value),
                    BEST_COMPRESSION,
                ) == Some(bytes@) ==> (r matches Ok(d) && d@ == value),
    {
        let r = crate::codec::from_deflate_bytes::<Data>(bytes);
        assert forall|value: Seq<u8>|
            value.len() <= u64::MAX && #[trigger] deflated(
                bytes_layout(value),
                BEST_COMPRESSION,
            ) == Some(bytes@) implies (r matches Ok(d) && d@ == value) by {
            assert(deflated(Data::layout(value), BEST_COMPRESSION) == Some(bytes@));
        }
        r
    }

    /// A buffer that holds a copy of `bytes`.
    pub fn from_bytes(bytes: &[u8]) -> (r: Data)
        ensures
            r@ == bytes@,
    {
        let mut copy: Vec<u8> = Vec::new();
        copy.extend_from_slice(bytes);
        Data::new(copy)
    }

    /// `length` bytes drawn from `random`. Whether the call returns is up
    /// to `random`: a generator that cannot fill the bytes may panic.
    pub fn randomc<R: rand::CryptoRng + rand::RngCore>(random: R, length: usize) -> (r: Data)
        ensures
            r@.len() == length,
    {
        let mut source: R = random;
        let mut bytes: Vec<u8> = Vec::with_capacity(length);
        bytes.resize(length, 0);
        fill_random(&mut source, &mut bytes);
        Data::new(bytes)
    }

    /// An iterator over a copy of the bytes.
    pub fn iter(&self) -> (r: DataIterator)
        ensures
            r.remaining() == self@,
    {
        DataIterator::new(self)
    }

    /// The bytes that `predicate` accepts, in their order. The result is
    /// [`kept`] under the answers that `predicate` gave, one per byte.
    pub fn filter<F: Fn(&u8) -> bool>(self, predicate: F) -> (r: Data)
        requires
            forall|b: u8| call_requires(predicate, (&b,)),
        ensures
            exists|keep: Seq<bool>|
                {
                    &&& keep.len() == self@.len()
                    &&& forall|i: int|
                        0 <= i < self@.len() ==> call_ensures(
                            predicate,
                            (&self@[i],),
                            #[trigger] keep[i],
                        )
                    &&& r@ == kept(self@, keep)
                },
    {
        let mut source: Data = self;
        let mut out: Vec<u8> = Vec::new();
        let ghost mut keep: Seq<bool> = Seq::empty();
        let len: usize = source.bytes.len();
        let mut i: usize = 0;
        while i < len
            invariant
                i <= len,
                source@ == self@,
                len == self@.len(),
                keep.len() == i,
                forall|b: u8| call_requires(predicate, (&b,)),
                forall|j: int|
                    0 <= j < i ==> call_ensures(predicate, (&self@[j],), #[trigger] keep[j]),
                out@ == kept(self@.take(i as int), keep),
            decreases len - i,
        {
            let b: u8 = source.bytes[i];
            let take: bool = predicate(&b);
            proof {
                let ghost longer = keep.push(take);
                assert(self@.take(i as int + 1).drop_last() =~= self@.take(i as int));
                lemma_kept_prefix(self@.take(i as int), keep, longer);
                keep = longer;
            }
            if take {
                out.push(b);
            }
            i = i + 1;
        }
        assert(self@.take(len as int) =~= self@);
        source.destroy();
        Data::new(out)
    }

    /// Every byte replaced by what `transform` makes of it.
    pub fn map<F: Fn(u8) -> u8>(self, transform: F) -> (r: Data)
        requires
            forall|b: u8| call_requires(transform, (b,)),
        ensures
            r@.len() == self@.len(),
            forall|i: int|
                0 <= i < self@.len() ==> call_ensures(transform, (self@[i],), #[trigger] r@[i]),
    {
        let mut source: Data = self;
        let mut out: Vec<u8> = Vec::new();
        let len: usize = source.bytes.len();
        let mut i: usize = 0;
        while i < len
            invariant
                i <= len,
                source@ == self@,
                len == self@.len(),
                out@.len() == i,
                forall|b: u8| call_requires(transform, (b,)),
                forall|j: int|
                    0 <= j < i ==> call_ensures(transform, (self@[j],), #[trigger] out@[j]),
            decreases len - i,
        {
            out.push(transform(source.bytes[i]));
            i = i + 1;
        }
        source.destroy();
        Data::new(out)
    }

    /// The byte values that `self` holds and `other` does not, each once, in
    /// increasing order.
    pub fn difference(&self, other: &Data) -> (r: Data)
        ensures
            r@ == ascending(self@.to_set().difference(other@.to_set())),
    {
        let mut out: Vec<u8> = Vec::new();
        let ghost wanted = self@.to_set().difference(other@.to_set());
        let mut v: u16 = 0;
        while v < 256
            invariant
                v <= 256,
                wanted == self@.to_set().difference(other@.to_set()),
                out@ == ascending_below(wanted, v as int),
            decreases 256 - v,
        {
            let b: u8 = v as u8;
            let keep: bool = self.holds(b) && !other.holds(b);
            if keep {
                out.push(b);
            }
            v = v + 1;
        }
        Data::new(out)
    }

    /// The byte values that both `self` and `other` hold, each once, in
    /// increasing order.
    pub fn intersection(&self, other: &Data) -> (r: Data)
        ensures
            r@ == ascending(self@.to_set().intersect(other@.to_set())),
    {
        let mut out: Vec<u8> = Vec::new();
        let ghost wanted = self@.to_set().intersect(other@.to_set());
        let mut v: u16 = 0;
        while v < 256
            invariant
                v <= 256,
                wanted == self@.to_set().intersect(other@.to_set()),
                out@ == ascending_below(wanted, v as int),
            decreases 256 - v,
        {
            let b: u8 = v as u8;
            let keep: bool = self.holds(b) && other.holds(b);
            if keep {
                out.push(b);
            }
            v = v + 1;
        }
        Data::new(out)
    }

    /// Whether `byte` occurs in the buffer.
    fn holds(&self, byte: u8) -> (r: bool)
        ensures
            r == self@.contains(byte),
            r == self@.to_set().contains(byte),
    {
        let len: usize = self.bytes.len();
        let mut i: usize = 0;
        while i < len
            invariant
                i <= len,
                len == self@.len(),
                forall|j: int| 0 <= j < i ==> self@[j] != byte,
            decreases len - i,
        {
            if self.bytes[i] == byte {
                return true;
            }
            i = i + 1;
        }
        false
    }

    /// Whether `byte` occurs in the buffer, which is left as it was.
    pub fn contains(&mut self, byte: u8) -> (r: bool)
        ensures
            r == old(self)@.contains(byte),
            *final(self) == *old(self),
    {
        self.holds(byte)
    }

    /// The byte at `index`, if there is one. The buffer is left as it was.
    pub fn get(&mut self, index: usize) -> (r: Option<u8>)
        ensures
            *final(self) == *old(self),
            index < old(self)@.len() ==> r == Some(old(self)@[index as int]),
            index >= old(self)@.len() ==> r is None,
    {
        if index < self.bytes.len() {
            Some(self.bytes[index])
        } else {
            None
        }
    }

    /// Appends `byte`.
    pub fn push(&mut self, byte: u8)
        ensures
            final(self)@ == old(self)@.push(byte),
    {
        self.bytes.push(byte)
    }

    /// Removes the last byte and returns it; `None` on an empty buffer.
    pub fn pop(&mut self) -> (r: Option<u8>)
        ensures
            old(self)@.len() == 0 ==> r is None && final(self)@ == old(self)@,
            old(self)@.len() > 0 ==> r == Some(old(self)@.last()) && final(self)@ == old(
                self,
            )@.drop_last(),
    {
        self.bytes.pop()
    }

    /// The set of byte values that the buffer holds.
    pub fn set(&self) -> (r: BTreeSet<u8>)
        ensures
            r@ == self@.to_set(),
    {
        let mut set: BTreeSet<u8> = BTreeSet::new();
        let len: usize = self.bytes.len();
        let mut i: usize = 0;
        while i < len
            invariant
                i <= len,
                len == self@.len(),
                set@ == self@.take(i as int).to_set(),
            decreases len - i,
        {
            set.insert(self.bytes[i]);
            assert(self@.take(i as int + 1) =~= self@.take(i as int).push(self@[i as int]));
            proof {
                self@.take(i as int).lemma_push_to_set_commute(self@[i as int]);
            }
            i = i + 1;
        }
        assert(self@.take(len as int) =~= self@);
        set
    }

    /// The number of bytes.
    pub fn len(&self) -> (r: usize)
        ensures
            r == self@.len(),
    {
        self.bytes.len()
    }

    /// Appends every byte that `iter` yields.
    pub fn extend<T: Iterator<Item = u8>>(&mut self, iter: T)
        requires
            iter.obeys_prophetic_iter_laws(),
            iter.decrease() is Some,
        ensures
            final(self)@ == old(self)@ + iter.remaining(),
    {
        let mut rest = iter;
        loop
            invariant
                rest.obeys_prophetic_iter_laws(),
                rest.decrease() is Some,
                self@ + rest.remaining() == old(self)@ + iter.remaining(),
            decreases rest.decrease()->0,
        {
            match rest.next() {
                Some(byte) => {
                    self.bytes.push(byte);
                    assert(self@ + rest.remaining() =~= old(self)@ + iter.remaining());
                },
                None => {
                    return ;
                },
            }
        }
    }

    /// A copy of `self` with every byte that `iter` yields appended.
    pub fn extended<T: Iterator<Item = u8>>(&self, iter: T) -> (r: Data)
        requires
            iter.obeys_prophetic_iter_laws(),
            iter.decrease() is Some,
        ensures
            r@ == self@ + iter.remaining(),
    {
        let mut data: Data = Data::new(self.to_vec());
        data.extend(iter);
        data
    }

    /// Hands a copy of a non-empty buffer to `no_more` and returns what it
    /// made of it; `None` on an empty buffer, without a call.
    pub fn then<T, F: FnOnce(Data) -> T>(&self, no_more: F) -> (r: Option<T>)
        requires
            forall|d: Data| d@ == self@ ==> call_requires(no_more, (d,)),
        ensures
            self@.len() == 0 ==> r is None,
            self@.len() > 0 ==> r is Some && made_of(no_more, self@, r->Some_0),
    {
        if self.len() > 0 {
            let copy: Data = Data::new(self.to_vec());
            let ghost handed = copy;
            let made: T = no_more(copy);
            Some(made)
        } else {
            None
        }
    }

    /// Wipes the buffer with the teardown sequence of [`crate::utils::drop`]:
    /// every byte is zero afterwards, the length is kept. To be called
    /// wherever the owner of a buffer that held a secret lets go of it.
    pub fn destroy(&mut self)
        ensures
            final(self)@ == crate::utils::torn_down(old(self)@),
            final(self)@ == crate::utils::filled(old(self)@.len(), 0),
        no_unwind
    {
        crate::utils::drop(&mut self.bytes);
    }
}

impl PlainBytes for Data {
    type Plain = Seq<u8>;

    open spec fn plain(&self) -> Seq<u8> {
        self@
    }

    open spec fn canonical(value: Seq<u8>) -> bool {
        value.len() <= u64::MAX
    }

    open spec fn layout(value: Seq<u8>) -> Seq<u8> {
        bytes_layout(value)
    }

    open spec fn parsed(bytes: Seq<u8>) -> Option<(Seq<u8>, int)> {
        bytes_parsed(bytes)
    }

    proof fn lemma_parsed_layout(value: Seq<u8>, rest: Seq<u8>) {
        lemma_bytes_parsed_layout(value, rest);
    }

    proof fn lemma_parsed_bounds(bytes: Seq<u8>) {
    }

    fn write_plain(&self, out: &mut Vec<u8>) {
        write_bytes(self.bytes.as_slice(), out);
    }

    fn read_plain(bytes: &[u8], start: usize) -> (r: Option<(Self, usize)>) {
        match read_bytes(bytes, start) {
            Some((field, end)) => Some((Data::new(field), end)),
            None => None,
        }
    }
}

/// Without separator and hint, the text of bytes is two digits per byte.
proof fn lemma_hex_digits(bytes: Seq<u8>)
    ensures
        hex_text(bytes, Seq::empty(), false).len() == 2 * bytes.len(),
        forall|i: int|
            0 <= i < bytes.len() ==> {
                &&& hex_text(bytes, Seq::empty(), false)[2 * i] == hex_digit(#[trigger] bytes[i] / 16)
                &&& hex_text(bytes, Seq::empty(), false)[2 * i + 1] == hex_digit(bytes[i] % 16)
            },
    decreases bytes.len(),
{
    let none = Seq::<char>::empty();
    if bytes.len() > 1 {
        let front = bytes.drop_last();
        lemma_hex_digits(front);
        let text = hex_text(bytes, none, false);
        assert forall|i: int| 0 <= i < bytes.len() implies {
            &&& text[2 * i] == hex_digit(#[trigger] bytes[i] / 16)
            &&& text[2 * i + 1] == hex_digit(bytes[i] % 16)
        } by {
            if i < front.len() {
                assert(front[i] == bytes[i]);
            }
        }
    }
}

/// Reading inverts writing: the text of a buffer without separator and
/// hint is read by [`Data::from_hex`] as the bytes of the buffer.
pub proof fn lemma_from_hex_inverts_to_hex(bytes: Seq<u8>)
    ensures
        hex_decoded(encode_utf8(hex_text(bytes, Seq::empty(), false))) == Some(bytes),
{
    let text = hex_text(bytes, Seq::empty(), false);
    lemma_hex_digits(bytes);
    assert forall|j: int| 0 <= j < text.len() implies '\0' <= #[trigger] text[j] <= '\u{7f}'
        && hex_value(text[j] as u8) is Some by {
        let i = j / 2;
        assert(bytes[i] / 16 < 16 && bytes[i] % 16 < 16);
    }
    vstd::utf8::is_ascii_chars_encode_utf8(text);
    let raw = encode_utf8(text);
    assert forall|j: int| 0 <= j < raw.len() implies hex_value(#[trigger] raw[j]) is Some by {}
    assert(hex_decoded(raw)->Some_0 =~= bytes);
}

/// [`kept`] of a prefix does not depend on flags past the prefix.
proof fn lemma_kept_prefix(s: Seq<u8>, keep: Seq<bool>, longer: Seq<bool>)
    requires
        keep.len() >= s.len(),
        longer.len() >= keep.len(),
        forall|i: int| 0 <= i < keep.len() ==> keep[i] == longer[i],
    ensures
        kept(s, keep) == kept(s, longer),
    decreases s.len(),
{
    if s.len() > 0 {
        lemma_kept_prefix(s.drop_last(), keep, longer);
    }
}

/// Walks over a copy of a buffer, byte by byte.
#[derive(Clone, Debug, PartialEq, PartialOrd, Eq, Ord, Hash)]
pub struct DataIterator {
    data: Data,
    pos: usize,
}

impl DataIterator {
    /// The bytes that are still to come.
    pub closed spec fn remaining(&self) -> Seq<u8> {
        if self.pos <= self.data@.len() {
            self.data@.skip(self.pos as int)
        } else {
            Seq::empty()
        }
    }

    /// An iterator at the start of a copy of `data`.
    pub fn new(data: &Data) -> (r: DataIterator)
        ensures
            r.remaining() == data@,
    {
        let r = DataIterator { data: Data::new(data.to_vec()), pos: 0 };
        r
    }

    /// The next byte, or `None` when all have been handed out.
    pub fn next(&mut self) -> (r: Option<u8>)
        ensures
            old(self).remaining().len() == 0 ==> r is None && final(self).remaining()
                == old(self).remaining(),
            old(self).remaining().len() > 0 ==> r == Some(old(self).remaining()[0])
                && final(self).remaining() == old(self).remaining().drop_first(),
    {
        if self.pos < self.data.bytes.len() {
            let item: u8 = self.data.bytes[self.pos];
            self.pos = self.pos + 1;
            assert(self.data@.skip(self.pos as int) =~= old(self).data@.skip(
                old(self).pos as int,
            ).drop_first());
            Some(item)
        } else {
            None
        }
    }
}

} // verus!
