//! Elementwise arithmetic on buffers.
//!
//! Two operands are paired position by position, up to the length of the
//! shorter one; what the longer one holds past that length is ignored. An
//! operand that is handed over by value is wiped before it is let go.
use vstd::prelude::*;
use super::buffer::Data;
use crate::utils::{complemented, shorter, xor, xor_ip, xor_onto, xor_seq};

verus! {

/// An operation on two bytes.
#[derive(Clone, Copy, Debug, PartialEq, Eq)]
pub enum ByteOp {
    Add,
    Sub,
    Mul,
    Div,
    Rem,
    Shl,
    Shr,
}

impl ByteOp {
    /// Whether the operation has a result on `x` and `y` that fits a byte:
    /// no overflow, no division by zero, no shift by eight or more.
    pub open spec fn defined(self, x: u8, y: u8) -> bool {
        match self {
            ByteOp::Add => x + y <= u8::MAX,
            ByteOp::Sub => x >= y,
            ByteOp::Mul => x * y <= u8::MAX,
            ByteOp::Div => y != 0,
            ByteOp::Rem => y != 0,
            ByteOp::Shl => y < 8,
            ByteOp::Shr => y < 8,
        }
    }

    /// The result of the operation on `x` and `y`. A left shift drops the
    /// bits that leave the byte.
    pub open spec fn apply(self, x: u8, y: u8) -> u8 {
        match self {
            ByteOp::Add => (x + y) as u8,
            ByteOp::Sub => (x - y) as u8,
            ByteOp::Mul => (x * y) as u8,
            ByteOp::Div => x / y,
            ByteOp::Rem => x % y,
            ByteOp::Shl => x << y,
            ByteOp::Shr => x >> y,
        }
    }

    /// Whether the operation is defined on every pair of `a` and `b`.
    pub open spec fn defined_on(self, a: Seq<u8>, b: Seq<u8>) -> bool {
        forall|i: int| 0 <= i < shorter(a.len(), b.len()) ==> self.defined(#[trigger] a[i], b[i])
    }

    /// The operation applied to the pairs of `a` and `b`.
    pub open spec fn zipped(self, a: Seq<u8>, b: Seq<u8>) -> Seq<u8> {
        Seq::new(shorter(a.len(), b.len()), |i: int| self.apply(a[i], b[i]))
    }

    /// The operation on one pair of bytes.
    fn compute(self, x: u8, y: u8) -> (r: u8)
        requires
            self.defined(x, y),
        ensures
            r == self.apply(x, y),
    {
        match self {
            ByteOp::Add => x + y,
            ByteOp::Sub => x - y,
            ByteOp::Mul => x * y,
            ByteOp::Div => x / y,
            ByteOp::Rem => x % y,
            ByteOp::Shl => x << y,
            ByteOp::Shr => x >> y,
        }
    }

    /// The operation on the pairs of `a` and `b`, both of which are wiped.
    fn zip(self, a: Data, b: Data) -> (r: Data)
        requires
            self.defined_on(a@, b@),
        ensures
            r@ == self.zipped(a@, b@),
    {
        let mut left: Data = a;
        let mut right: Data = b;
        let n: usize = if left.len() < right.len() {
            left.len()
        } else {
            right.len()
        };
        let mut out: Vec<u8> = Vec::with_capacity(n);
        let mut i: usize = 0;
        while i < n
            invariant
                i <= n,
                n == shorter(a@.len(), b@.len()),
                left@ == a@,
                right@ == b@,
                self.defined_on(a@, b@),
                out@.len() == i,
                forall|j: int| 0 <= j < i ==> out@[j] == self.apply(a@[j], b@[j]),
            decreases n - i,
        {
            let x: u8 = left.bytes[i];
            let y: u8 = right.bytes[i];
            out.push(self.compute(x, y));
            i = i + 1;
        }
        left.destroy();
        right.destroy();
        Data::new(out)
    }
}

impl Data {
    /// The XOR of the pairs of `self` and `other`.
    pub fn bitxor(self, other: Data) -> (r: Data)
        ensures
            r@ == xor_seq(self@, other@),
            r@.len() == shorter(self@.len(), other@.len()),
    {
        let mut left: Data = self;
        let mut right: Data = other;
        let out: Vec<u8> = xor(&left.bytes, &right.bytes);
        left.destroy();
        right.destroy();
        Data::new(out)
    }

    /// XORs `rhs` into `self`, up to the length of the shorter of the two;
    /// the rest of `self` stays.
    pub fn bitxor_assign(&mut self, rhs: Data)
        ensures
            final(self)@ == xor_onto(old(self)@, rhs@),
    {
        let mut mask: Data = rhs;
        xor_ip(&mut self.bytes, &mask.bytes);
        mask.destroy();
    }

    /// The sums of the pairs of `self` and `other`.
    pub fn add(self, other: Data) -> (r: Data)
        requires
            ByteOp::Add.defined_on(self@, other@),
        ensures
            r@ == ByteOp::Add.zipped(self@, other@),
    {
        ByteOp::Add.zip(self, other)
    }

    /// The differences of the pairs of `self` and `other`.
    pub fn sub(self, other: Data) -> (r: Data)
        requires
            ByteOp::Sub.defined_on(self@, other@),
        ensures
            r@ == ByteOp::Sub.zipped(self@, other@),
    {
        ByteOp::Sub.zip(self, other)
    }

    /// The quotients of the pairs of `self` and `other`.
    pub fn div(self, other: Data) -> (r: Data)
        requires
            ByteOp::Div.defined_on(self@, other@),
        ensures
            r@ == ByteOp::Div.zipped(self@, other@),
    {
        ByteOp::Div.zip(self, other)
    }

    /// The products of the pairs of `self` and `other`.
    pub fn mul(self, other: Data) -> (r: Data)
        requires
            ByteOp::Mul.defined_on(self@, other@),
        ensures
            r@ == ByteOp::Mul.zipped(self@, other@),
    {
        ByteOp::Mul.zip(self, other)
    }

    /// The remainders of the pairs of `self` and `other`.
    pub fn rem(self, other: Data) -> (r: Data)
        requires
            ByteOp::Rem.defined_on(self@, other@),
        ensures
            r@ == ByteOp::Rem.zipped(self@, other@),
    {
        ByteOp::Rem.zip(self, other)
    }

    /// The bytes of `self`, each shifted left by its partner in `other`.
    pub fn shl(self, other: Data) -> (r: Data)
        requires
            ByteOp::Shl.defined_on(self@, other@),
        ensures
            r@ == ByteOp::Shl.zipped(self@, other@),
    {
        ByteOp::Shl.zip(self, other)
    }

    /// The bytes of `self`, each shifted right by its partner in `other`.
    pub fn shr(self, other: Data) -> (r: Data)
        requires
            ByteOp::Shr.defined_on(self@, other@),
        ensures
            r@ == ByteOp::Shr.zipped(self@, other@),
    {
        ByteOp::Shr.zip(self, other)
    }

    /// The byte at `index`.
    pub fn index(&self, index: usize) -> (r: &u8)
        requires
            index < self@.len(),
        ensures
            *r == self@[index as int],
    {
        &self.bytes[index]
    }

    /// The place of the byte at `index`, for writing.
    pub fn index_mut(&mut self, index: usize) -> (r: &mut u8)
        requires
            index < old(self)@.len(),
        ensures
            *r == old(self)@[index as int],
            final(self)@ == old(self)@.update(index as int, *final(r)),
    {
        &mut self.bytes[index]
    }

    /// The one's complement of every byte.
    pub fn not(self) -> (r: Data)
        ensures
            r@ == complemented(self@),
    {
        let mut source: Data = self;
        let mut out: Vec<u8> = source.to_vec();
        crate::utils::rev(&mut out);
        source.destroy();
        Data::new(out)
    }
}

} // verus!
