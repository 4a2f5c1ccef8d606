//! Buffers from other holders of bytes.
use vstd::prelude::*;
use vstd::std_specs::iter::IteratorSpec;
use vstd::std_specs::convert::FromSpecImpl;
use super::buffer::Data;

verus! {

impl From<Vec<u8>> for Data {
    fn from(data: Vec<u8>) -> (r: Data) {
        Data::new(data)
    }
}

impl FromSpecImpl<Vec<u8>> for Data {
    open spec fn obeys_from_spec() -> bool {
        true
    }

    open spec fn from_spec(data: Vec<u8>) -> Data {
        Data { bytes: data }
    }
}

impl From<&Vec<u8>> for Data {
    /// A buffer with a copy of the bytes of `data`.
    fn from(data: &Vec<u8>) -> (r: Data)
        ensures
            r@ == data@,
    {
        Data::new(data.clone())
    }
}

impl FromSpecImpl<&Vec<u8>> for Data {
    open spec fn obeys_from_spec() -> bool {
        false
    }

    open spec fn from_spec(data: &Vec<u8>) -> Data {
        arbitrary()
    }
}

impl From<&[u8]> for Data {
    /// A buffer with a copy of the bytes of `data`.
    fn from(data: &[u8]) -> (r: Data)
        ensures
            r@ == data@,
    {
        Data::from_bytes(data)
    }
}

impl FromSpecImpl<&[u8]> for Data {
    open spec fn obeys_from_spec() -> bool {
        false
    }

    open spec fn from_spec(data: &[u8]) -> Data {
        arbitrary()
    }
}

/// A buffer with the bytes that `iter` yields, in their order.
pub fn from_iter<I: Iterator<Item = u8>>(iter: I) -> (r: Data)
    requires
        iter.obeys_prophetic_iter_laws(),
        iter.decrease() is Some,
    ensures
        r@ == iter.remaining(),
{
    let mut c: Data = Data::new(Vec::new());
    c.extend(iter);
    c
}

} // verus!
