//! Reading the text of a buffer back, with the separator and the hint that
//! it was written with.
use vstd::prelude::*;
use vstd::utf8::encode_utf8;
use super::buffer::{hex_byte, hex_digit, hex_text, Data};
use crate::errors::Error;
use crate::name_map::{compare_bytes, Placement};
use crate::primitives::hex_value;

verus! {

/// The number of characters that stand for one byte.
pub open spec fn hex_width(hint: bool) -> int {
    if hint {
        4
    } else {
        2
    }
}

/// The byte that `item` spells: the `0x` where `hint` is set, then two
/// hexadecimal digits in either case.
pub open spec fn hex_item(item: Seq<u8>, hint: bool) -> Option<u8> {
    let at = hex_width(hint) - 2;
    if item.len() == hex_width(hint) && (hint ==> item[0] == 48 && item[1] == 120) && hex_value(
        item[at],
    ) is Some && hex_value(item[at + 1]) is Some {
        Some((hex_value(item[at])->Some_0 * 16 + hex_value(item[at + 1])->Some_0) as u8)
    } else {
        None
    }
}

/// The bytes that `text` spells, one [`hex_item`] each with `sep` between
/// neighbours; `None` where `text` is not of that form. The text is read
/// from its end.
pub open spec fn hex_read(text: Seq<u8>, sep: Seq<u8>, hint: bool) -> Option<Seq<u8>>
    decreases text.len(),
{
    let cut = text.len() - hex_width(hint);
    if text.len() == 0 {
        Some(Seq::empty())
    } else if cut < 0 {
        None
    } else {
        match hex_item(text.skip(cut), hint) {
            None => None,
            Some(byte) => if cut == 0 {
                Some(seq![byte])
            } else if cut <= sep.len() || text.subrange(cut - sep.len(), cut) != sep {
                None
            } else {
                match hex_read(text.take(cut - sep.len()), sep, hint) {
                    Some(front) => Some(front.push(byte)),
                    None => None,
                }
            },
        }
    }
}

/// The value of a hexadecimal digit, if `c` is one.
fn digit_value(c: u8) -> (r: Option<u8>)
    ensures
        r == hex_value(c),
{
    if 48 <= c && c <= 57 {
        Some(c - 48)
    } else if 65 <= c && c <= 70 {
        Some(c - 55)
    } else if 97 <= c && c <= 102 {
        Some(c - 87)
    } else {
        None
    }
}

/// The byte that the `hex_width(hint)` bytes of `text` before `end` spell.
fn read_item(text: &[u8], end: usize, hint: bool) -> (r: Option<u8>)
    requires
        hex_width(hint) <= end <= text@.len(),
    ensures
        r == hex_item(text@.take(end as int).skip(end - hex_width(hint)), hint),
{
    let ghost item = text@.take(end as int).skip(end - hex_width(hint));
    assert(item.len() == hex_width(hint));
    if hint {
        assert(item[0] == text@[end - 4] && item[1] == text@[end - 3]);
        if text[end - 4] != 48 || text[end - 3] != 120 {
            return None;
        }
    }
    assert(item[hex_width(hint) - 2] == text@[end - 2]);
    assert(item[hex_width(hint) - 1] == text@[end - 1]);
    match digit_value(text[end - 2]) {
        None => None,
        Some(high) => match digit_value(text[end - 1]) {
            None => None,
            Some(low) => Some(high * 16 + low),
        },
    }
}

impl Data {
    /// The bytes that `data` spells in the form that [`Data::to_hex`] writes
    /// with the separator `sep` and the hint `hint`; the digits may be in
    /// either case. Fails with `HexDecodeError` exactly where `data` is not
    /// of that form.
    pub fn from_hex_with(data: &str, sep: &str, hint: bool) -> (r: Result<Data, Error>)
        ensures
            match hex_read(encode_utf8(data@), encode_utf8(sep@), hint) {
                Some(bytes) => r matches Ok(d) && d@ == bytes,
                None => r matches Err(e) && e is HexDecodeError,
            },
    {
        let text: &[u8] = data.as_bytes();
        let between: &[u8] = sep.as_bytes();
        let width: usize = if hint {
            4
        } else {
            2
        };
        let mut backwards: Vec<u8> = Vec::new();
        let mut end: usize = text.len();
        let mut failed: bool = false;
        assert(text@.take(end as int) =~= text@);
        assert(Seq::<u8>::empty().reverse() =~= Seq::<u8>::empty());
        while end > 0 && !failed
            invariant
                end <= text@.len(),
                width == hex_width(hint),
                !failed ==> hex_read(text@, between@, hint) == match hex_read(
                    text@.take(end as int),
                    between@,
                    hint,
                ) {
                    Some(front) => Some(front + backwards@.reverse()),
                    None => None,
                },
                failed ==> hex_read(text@, between@, hint) is None,
            decreases end + (if failed { 0int } else { 1int }),
        {
            let ghost rest = text@.take(end as int);
            let ghost read = backwards@;
            if end < width {
                failed = true;
            } else {
                let cut: usize = end - width;
                assert(text@.take(cut as int) =~= rest.take(cut as int));
                match read_item(text, end, hint) {
                    None => {
                        failed = true;
                    },
                    Some(byte) => {
                        backwards.push(byte);
                        assert(backwards@.reverse() =~= seq![byte] + read.reverse());
                        if cut == 0 {
                            assert(text@.take(0) =~= Seq::<u8>::empty());
                            assert(seq![byte] + read.reverse() =~= Seq::<u8>::empty()
                                + backwards@.reverse());
                            end = 0;
                        } else if cut <= between.len() {
                            failed = true;
                        } else {
                            let gap: &[u8] = vstd::slice::slice_subrange(
                                text,
                                cut - between.len(),
                                cut,
                            );
                            assert(gap@ =~= rest.subrange(cut - between@.len(), cut as int));
                            match compare_bytes(gap, between) {
                                Placement::Same => {
                                    end = cut - between.len();
                                    assert(text@.take(end as int) =~= rest.take(
                                        cut - between@.len(),
                                    ));
                                    proof {
                                        let before = hex_read(text@.take(end as int), between@, hint);
                                        if let Some(front) = before {
                                            assert(front.push(byte) + read.reverse() =~= front
                                                + backwards@.reverse());
                                        }
                                    }
                                },
                                _ => {
                                    failed = true;
                                },
                            }
                        }
                    },
                }
            }
        }
        if failed {
            return Err(
                Error::HexDecodeError("the text is not hexadecimal digits in this form".to_owned()),
            );
        }
        assert(text@.take(0) =~= Seq::<u8>::empty());
        assert(Seq::<u8>::empty() + backwards@.reverse() =~= backwards@.reverse());
        let count: usize = backwards.len();
        let mut bytes: Vec<u8> = Vec::with_capacity(count);
        let mut i: usize = 0;
        while i < count
            invariant
                i <= count,
                count == backwards@.len(),
                bytes@.len() == i,
                forall|j: int| 0 <= j < i ==> bytes@[j] == backwards@[count - 1 - j],
            decreases count - i,
        {
            bytes.push(backwards[count - 1 - i]);
            i = i + 1;
        }
        assert(bytes@ =~= backwards@.reverse());
        Ok(Data::new(bytes))
    }
}

/// The encoding of a text that is made of two is made of their encodings.
pub proof fn lemma_encode_utf8_concat(a: Seq<char>, b: Seq<char>)
    ensures
        encode_utf8(a + b) == encode_utf8(a) + encode_utf8(b),
    decreases a.len(),
{
    if a.len() == 0 {
        assert(a + b =~= b);
        assert(encode_utf8(a) + encode_utf8(b) =~= encode_utf8(b));
    } else {
        lemma_encode_utf8_concat(a.drop_first(), b);
        assert((a + b).drop_first() =~= a.drop_first() + b);
        assert((a + b)[0] == a[0]);
        assert(encode_utf8(a + b) =~= encode_utf8(a) + encode_utf8(b));
    }
}

/// The encoding of the text of one byte spells that byte.
proof fn lemma_hex_item_of_byte(b: u8, hint: bool)
    ensures
        encode_utf8(hex_byte(b, hint)).len() == hex_width(hint),
        hex_item(encode_utf8(hex_byte(b, hint)), hint) == Some(b),
{
    let text = hex_byte(b, hint);
    assert(b / 16 < 16 && b % 16 < 16);
    assert forall|j: int| 0 <= j < text.len() implies '\0' <= #[trigger] text[j] <= '\u{7f}' by {}
    vstd::utf8::is_ascii_chars_encode_utf8(text);
    let raw = encode_utf8(text);
    let at = hex_width(hint) - 2;
    assert(raw[at] == text[at] as u8);
    assert(raw[at + 1] == text[at + 1] as u8);
    if hint {
        assert(raw[0] == text[0] as u8);
        assert(raw[1] == text[1] as u8);
    }
    assert(hex_value(hex_digit((b / 16) as u8) as u8) == Some((b / 16) as u8));
    assert(hex_value(hex_digit((b % 16) as u8) as u8) == Some((b % 16) as u8));
    assert((b / 16) * 16 + b % 16 == b);
}

/// Reading inverts writing: what [`Data::to_hex`] writes of a buffer with a
/// separator and a hint is read by [`Data::from_hex_with`], with the same
/// separator and hint, as the bytes of the buffer.
pub proof fn lemma_from_hex_with_inverts_to_hex(bytes: Seq<u8>, sep: Seq<char>, hint: bool)
    ensures
        hex_read(encode_utf8(hex_text(bytes, sep, hint)), encode_utf8(sep), hint) == Some(bytes),
    decreases bytes.len(),
{
    let between = encode_utf8(sep);
    if bytes.len() == 0 {
        assert(bytes =~= Seq::<u8>::empty());
    } else if bytes.len() == 1 {
        lemma_hex_item_of_byte(bytes[0], hint);
        let text = encode_utf8(hex_text(bytes, sep, hint));
        assert(text.skip(0) =~= text);
        assert(bytes =~= seq![bytes[0]]);
    } else {
        let front = bytes.drop_last();
        let last = bytes.last();
        lemma_from_hex_with_inverts_to_hex(front, sep, hint);
        lemma_hex_item_of_byte(last, hint);
        let head = encode_utf8(hex_text(front, sep, hint));
        let tail = encode_utf8(hex_byte(last, hint));
        lemma_encode_utf8_concat(hex_text(front, sep, hint), sep);
        lemma_encode_utf8_concat(hex_text(front, sep, hint) + sep, hex_byte(last, hint));
        let text = encode_utf8(hex_text(bytes, sep, hint));
        assert(text == head + between + tail);
        let cut = text.len() - hex_width(hint);
        assert(cut == head.len() + between.len());
        assert(text.skip(cut) =~= tail);
        assert(head.len() > 0) by {
            if head.len() == 0 {
                assert(head =~= Seq::<u8>::empty());
                assert(hex_read(head, between, hint) == Some(Seq::<u8>::empty()));
            }
        }
        assert(text.subrange(cut - between.len(), cut) =~= between);
        assert(text.take(cut - between.len()) =~= head);
        assert(front.push(last) =~= bytes);
    }
}

} // verus!
