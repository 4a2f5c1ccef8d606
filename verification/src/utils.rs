//! Byte-level helpers: elementwise XOR, overwrite passes and chunking.
use vstd::prelude::*;

verus! {

/// The smaller of two lengths.
pub open spec fn shorter(a: nat, b: nat) -> nat {
    if a <= b {
        a
    } else {
        b
    }
}

/// `a` and `b` XORed position by position, as long as both have a byte.
pub open spec fn xor_seq(a: Seq<u8>, b: Seq<u8>) -> Seq<u8> {
    Seq::new(shorter(a.len(), b.len()), |i: int| a[i] ^ b[i])
}

/// `a` with the bytes it shares with `mask` XORed, the remaining tail untouched.
pub open spec fn xor_onto(a: Seq<u8>, mask: Seq<u8>) -> Seq<u8> {
    Seq::new(
        a.len(),
        |i: int|
            if i < mask.len() {
                a[i] ^ mask[i]
            } else {
                a[i]
            },
    )
}

/// `len` copies of `byte`.
pub open spec fn filled(len: nat, byte: u8) -> Seq<u8> {
    Seq::new(len, |i: int| byte)
}

/// Every byte of `s` XORed with `0xFF`.
pub open spec fn complemented(s: Seq<u8>) -> Seq<u8> {
    Seq::new(s.len(), |i: int| s[i] ^ 0xFFu8)
}

/// `s` after the teardown sequence: complemented, overwritten with `0x07`,
/// `0x00` and `0x01`, zeroed, discharged to `0x01`, zeroed.
pub open spec fn torn_down(s: Seq<u8>) -> Seq<u8> {
    let complement = complemented(s);
    let first = filled(complement.len(), 0x07);
    let second = filled(first.len(), 0x00);
    let third = filled(second.len(), 0x01);
    let zeroed = filled(third.len(), 0);
    let discharged = filled(zeroed.len(), 1);
    filled(discharged.len(), 0)
}

/// Number of padding bytes that [`chunk_padded`] appends.
pub open spec fn rem_spec(len: int, chunk_size: int) -> int {
    if len > chunk_size {
        len % chunk_size
    } else if len > 0 && chunk_size > len {
        chunk_size % len
    } else {
        0
    }
}

/// `items` followed by the padding that [`chunk_padded`] appends.
pub open spec fn padded(items: Seq<u8>, chunk_size: int, padding: u8) -> Seq<u8> {
    items + filled(rem_spec(items.len() as int, chunk_size) as nat, padding)
}

/// Number of chunks of at most `size` bytes that cover `len` bytes.
pub open spec fn chunk_count(len: int, size: int) -> int {
    (len + size - 1) / size
}

/// The `i`-th chunk of `s` when cut into pieces of `size` bytes; the last one may be shorter.
pub open spec fn chunk_at(s: Seq<u8>, size: int, i: int) -> Seq<u8> {
    s.subrange(
        i * size,
        if (i + 1) * size <= s.len() {
            (i + 1) * size
        } else {
            s.len() as int
        },
    )
}

/// XORs `o` into `a` in place, up to the length of the shorter of the two.
/// Bytes of `a` past that length keep their value.
pub fn xor_ip(a: &mut Vec<u8>, o: &Vec<u8>)
    ensures
        final(a)@ == xor_onto(old(a)@, o@),
    no_unwind
{
    let alen: usize = a.len();
    let olen: usize = o.len();
    let min: usize = if alen < olen {
        alen
    } else {
        olen
    };
    let mut k: usize = 0;
    while k < min
        invariant
            k <= min,
            min <= alen,
            min <= olen,
            alen == old(a)@.len(),
            olen == o@.len(),
            a@.len() == alen,
            forall|i: int| 0 <= i < k ==> a@[i] == old(a)@[i] ^ o@[i],
            forall|i: int| k <= i < alen ==> a@[i] == old(a)@[i],
        decreases min - k,
    {
        let x: u8 = a[k] ^ o[k];
        a[k] = x;
        k = k + 1;
    }
}

/// XOR of `a` and `b`, as long as the shorter of the two.
pub fn xor(a: &Vec<u8>, b: &Vec<u8>) -> (r: Vec<u8>)
    ensures
        r@ == xor_seq(a@, b@),
        r@.len() == shorter(a@.len(), b@.len()),
{
    let alen: usize = a.len();
    let blen: usize = b.len();
    let min: usize = if alen < blen {
        alen
    } else {
        blen
    };
    let mut out: Vec<u8> = Vec::with_capacity(min);
    let mut k: usize = 0;
    while k < min
        invariant
            k <= min,
            min == shorter(a@.len(), b@.len()),
            out@.len() == k,
            forall|i: int| 0 <= i < k ==> out@[i] == a@[i] ^ b@[i],
        decreases min - k,
    {
        out.push(a[k] ^ b[k]);
        k = k + 1;
    }
    out
}

/// Sets every byte of `data` to `byte`.
pub fn scrub_with_byte(data: &mut Vec<u8>, byte: u8)
    ensures
        final(data)@ == filled(old(data)@.len(), byte),
    no_unwind
{
    let n: usize = data.len();
    let mut k: usize = 0;
    while k < n
        invariant
            k <= n,
            n == old(data)@.len(),
            data@.len() == n,
            forall|i: int| 0 <= i < k ==> data@[i] == byte,
        decreases n - k,
    {
        data[k] = byte;
        k = k + 1;
    }
}

/// Sets every byte of `data` to zero.
pub fn zerofill(data: &mut Vec<u8>)
    ensures
        final(data)@ == filled(old(data)@.len(), 0),
    no_unwind
{
    scrub_with_byte(data, 0);
}

/// Overwrites `data` 255 times, pass `k` with the byte `0xFF ^ k`.
/// The last pass writes `0x01`.
pub fn discharge(data: &mut Vec<u8>)
    ensures
        final(data)@ == filled(old(data)@.len(), 1),
    no_unwind
{
    let mut k: u8 = 0;
    while k < u8::MAX
        invariant
            data@.len() == old(data)@.len(),
            k > 0 ==> data@ == filled(old(data)@.len(), 0xFFu8 ^ ((k - 1) as u8)),
        decreases u8::MAX - k,
    {
        scrub_with_byte(data, u8::MAX ^ k);
        k = k + 1;
    }
    assert(0xFFu8 ^ 254u8 == 1u8) by (bit_vector);
}

/// Replaces every byte of `data` by its one's complement.
pub fn rev(data: &mut Vec<u8>)
    ensures
        final(data)@ == complemented(old(data)@),
    no_unwind
{
    let n: usize = data.len();
    let mut k: usize = 0;
    while k < n
        invariant
            k <= n,
            n == old(data)@.len(),
            data@.len() == n,
            forall|i: int| 0 <= i < k ==> data@[i] == old(data)@[i] ^ 0xFFu8,
            forall|i: int| k <= i < n ==> data@[i] == old(data)@[i],
        decreases n - k,
    {
        let x: u8 = data[k] ^ 0xFF;
        data[k] = x;
        k = k + 1;
    }
}

/// The teardown sequence of a buffer that held a secret: complement, three
/// fixed overwrites, zero, [`discharge`], zero. Whatever `data` held, every
/// byte is zero afterwards and the length is unchanged.
pub fn drop(data: &mut Vec<u8>)
    ensures
        final(data)@ == torn_down(old(data)@),
        final(data)@ == filled(old(data)@.len(), 0),
    no_unwind
{
    rev(data);
    scrub_with_byte(data, 0x7);
    scrub_with_byte(data, 0x0);
    scrub_with_byte(data, 0x1);
    zerofill(data);
    discharge(data);
    zerofill(data);
}

/// `s` with the bytes at `at - 1` and `at` exchanged.
pub open spec fn swapped(s: Seq<u8>, at: int) -> Seq<u8> {
    s.update(at - 1, s[at]).update(at, s[at - 1])
}

/// Exchanging two neighbours keeps every byte as often as it was there.
pub proof fn lemma_swapped_multiset(s: Seq<u8>, at: int)
    requires
        0 < at < s.len(),
    ensures
        swapped(s, at).to_multiset() == s.to_multiset(),
        swapped(s, at).len() == s.len(),
{
    let first = s.update(at - 1, s[at]);
    vstd::seq_lib::to_multiset_update(s, at - 1, s[at]);
    vstd::seq_lib::to_multiset_update(first, at, s[at - 1]);
    vstd::seq_lib::to_multiset_contains(s, s[at]);
    vstd::seq_lib::to_multiset_contains(s, s[at - 1]);
}

/// Exchanges the bytes at `at - 1` and `at`.
pub(crate) fn swap_with_previous(data: &mut Vec<u8>, at: usize)
    requires
        0 < at < old(data)@.len(),
    ensures
        final(data)@ == swapped(old(data)@, at as int),
        final(data)@.to_multiset() == old(data)@.to_multiset(),
        final(data)@.len() == old(data)@.len(),
{
    let a: u8 = data[at - 1];
    let b: u8 = data[at];
    data[at - 1] = b;
    data[at] = a;
    proof {
        lemma_swapped_multiset(old(data)@, at as int);
    }
}

/// Number of padding bytes that [`chunk_padded`] appends to `items`.
pub fn rem(items: &[u8], chunk_size: usize) -> (r: usize)
    requires
        chunk_size > 0 || items@.len() == 0,
    ensures
        r == rem_spec(items@.len() as int, chunk_size as int),
{
    if items.len() > chunk_size {
        items.len() % chunk_size
    } else if items.len() > 0 && chunk_size > items.len() {
        chunk_size % items.len()
    } else {
        0
    }
}

/// Appends `rem(items, chunk_size)` copies of `padding` to `items` and cuts the
/// result into chunks of `chunk_size` bytes; only the last chunk may be shorter.
pub fn chunk_padded(items: &[u8], chunk_size: usize, padding: u8) -> (r: Vec<Vec<u8>>)
    requires
        chunk_size > 0,
    ensures
        r@.len() == chunk_count(padded(items@, chunk_size as int, padding).len() as int, chunk_size as int),
        forall|i: int|
            0 <= i < r@.len() ==> (#[trigger] r@[i])@ == chunk_at(
                padded(items@, chunk_size as int, padding),
                chunk_size as int,
                i,
            ),
{
    let pad: usize = rem(items, chunk_size);
    let mut all: Vec<u8> = Vec::new();
    all.extend_from_slice(items);
    let mut p: usize = 0;
    while p < pad
        invariant
            p <= pad,
            all@ == items@ + filled(p as nat, padding),
        decreases pad - p,
    {
        all.push(padding);
        p = p + 1;
    }
    let ghost whole = padded(items@, chunk_size as int, padding);
    let total: usize = all.len();
    let mut chunked: Vec<Vec<u8>> = Vec::new();
    let mut start: usize = 0;
    proof {
        lemma_chunk_count_exact(0, chunk_size as int);
    }
    while start < total
        invariant
            chunk_size > 0,
            whole == padded(items@, chunk_size as int, padding),
            total == whole.len(),
            all@ == whole,
            start <= total,
            start < total ==> start == chunked@.len() * chunk_size,
            start == total ==> chunked@.len() == chunk_count(total as int, chunk_size as int),
            forall|i: int|
                0 <= i < chunked@.len() ==> (#[trigger] chunked@[i])@ == chunk_at(
                    whole,
                    chunk_size as int,
                    i,
                ),
        decreases total - start,
    {
        let ghost idx: int = chunked@.len() as int;
        let end: usize = if total - start < chunk_size {
            total
        } else {
            start + chunk_size
        };
        proof {
            assert((idx + 1) * chunk_size == idx * chunk_size + chunk_size) by (nonlinear_arith);
            if end == total {
                lemma_chunk_count_last(total as int, chunk_size as int, idx);
            }
        }
        let mut piece: Vec<u8> = Vec::new();
        let mut j: usize = start;
        while j < end
            invariant
                start <= j <= end,
                end <= total,
                total == all@.len(),
                piece@ == all@.subrange(start as int, j as int),
            decreases end - j,
        {
            piece.push(all[j]);
            j = j + 1;
        }
        chunked.push(piece);
        start = end;
    }
    chunked
}

/// A sequence whose last chunk starts at `idx * size` has `idx + 1` chunks.
proof fn lemma_chunk_count_last(len: int, size: int, idx: int)
    requires
        size > 0,
        idx >= 0,
        idx * size < len <= (idx + 1) * size,
    ensures
        chunk_count(len, size) == idx + 1,
{
    assert((idx + 1) * size == idx * size + size) by (nonlinear_arith);
    assert((len + size - 1) / size == idx + 1) by (nonlinear_arith)
        requires
            size > 0,
            idx * size < len <= idx * size + size,
    ;
}

/// A sequence of exactly `n * size` bytes has `n` chunks.
proof fn lemma_chunk_count_exact(n: int, size: int)
    requires
        size > 0,
        n >= 0,
    ensures
        chunk_count(n * size, size) == n,
{
    assert((n * size + size - 1) / size == n) by (nonlinear_arith)
        requires
            size > 0,
            n >= 0,
    ;
}

} // verus!
